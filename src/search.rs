use vstd::prelude::*;

verus! {

/// Whether `pat` occurs in `s` as a contiguous run.
pub open spec fn is_infix(pat: Seq<u8>, s: Seq<u8>) -> bool {
    exists|i: int| 0 <= i <= s.len() - pat.len() && #[trigger] s.subrange(i, i + pat.len()) == pat
}

/// Whether `pat` occurs in `s` as a contiguous run of bytes.
pub fn contains_bytes(s: &[u8], pat: &[u8]) -> (r: bool)
    ensures
        r == is_infix(pat@, s@),
{
    if pat.len() > s.len() {
        return false;
    }
    let n: usize = s.len();
    let last: usize = n - pat.len();
    let mut i: usize = 0;
    while i <= last
        invariant
            last == s@.len() - pat@.len(),
            pat@.len() <= s@.len(),
            n == s@.len(),
            i <= last,
            forall|j: int| 0 <= j < i ==> #[trigger] s@.subrange(j, j + pat@.len()) != pat@,
        decreases last + 1 - i,
    {
        let mut k: usize = 0;
        while k < pat.len()
            invariant
                i <= last,
                last == s@.len() - pat@.len(),
                pat@.len() <= s@.len(),
                n == s@.len(),
                k <= pat@.len(),
                forall|t: int| 0 <= t < k ==> s@[i + t] == pat@[t],
            ensures
                k <= pat@.len(),
                forall|t: int| 0 <= t < k ==> s@[i + t] == pat@[t],
                k < pat@.len() ==> s@[i + k] != pat@[k as int],
            decreases pat@.len() - k,
        {
            if s[i + k] != pat[k] {
                break;
            }
            k = k + 1;
        }
        if k == pat.len() {
            assert(s@.subrange(i as int, i + pat@.len()) =~= pat@);
            return true;
        }
        assert(s@.subrange(i as int, i + pat@.len())[k as int] != pat@[k as int]);
        if i == last {
            return false;
        }
        i = i + 1;
    }
    false
}

} // verus!
