use vstd::prelude::*;
use vstd::string::StringSliceAdditionalSpecFns;

verus! {

/// `needle` occurs in `haystack` starting at index `i`.
pub open spec fn occurs_at(haystack: Seq<u8>, needle: Seq<u8>, i: int) -> bool {
    0 <= i && i + needle.len() <= haystack.len() && haystack.subrange(i, i + needle.len()) == needle
}

/// Whether `needle` occurs in `haystack` at byte offset `base_idx`.
pub fn starts_with(haystack: &[u8], needle: &[u8], base_idx: usize) -> (r: bool)
    ensures
        r == occurs_at(haystack@, needle@, base_idx as int),
{
    if haystack.len() < base_idx || haystack.len() - base_idx < needle.len() {
        return false;
    }
    let mut idx: usize = 0;
    while idx < needle.len()
        invariant
            base_idx + needle.len() <= haystack.len(),
            0 <= idx <= needle.len(),
            forall|j: int| 0 <= j < idx ==> haystack@[base_idx + j] == needle@[j],
        decreases needle.len() - idx,
    {
        if haystack[base_idx + idx] != needle[idx] {
            proof {
                let sub = haystack@.subrange(base_idx as int, base_idx + needle.len());
                assert(sub[idx as int] != needle@[idx as int]);
            }
            return false;
        }
        idx = idx + 1;
    }
    proof {
        assert(haystack@.subrange(base_idx as int, base_idx + needle.len()) =~= needle@);
    }
    true
}

/// The pieces of `s[start..]` between successive non-overlapping
/// occurrences of `sep`, scanning left to right from `i`; with an empty
/// separator the rest is one piece.
pub open spec fn split_from(s: Seq<u8>, sep: Seq<u8>, start: int, i: int) -> Seq<Seq<u8>>
    decreases s.len() - i,
{
    if sep.len() == 0 || i < start || i + sep.len() > s.len() || start < 0 {
        seq![s.subrange(start, s.len() as int)]
    } else if occurs_at(s, sep, i) {
        seq![s.subrange(start, i)] + split_from(s, sep, i + sep.len(), i + sep.len())
    } else {
        split_from(s, sep, start, i + 1)
    }
}

/// `s` cut at every non-overlapping occurrence of `sep`, as `str::split`
/// cuts: `k` occurrences give `k + 1` pieces.
pub open spec fn split(s: Seq<u8>, sep: Seq<u8>) -> Seq<Seq<u8>> {
    split_from(s, sep, 0, 0)
}

/// Cuts `s` at every non-overlapping occurrence of `sep`.
pub fn split_bytes(s: &Vec<u8>, sep: &Vec<u8>) -> (r: Vec<Vec<u8>>)
    ensures
        r@.map_values(|p: Vec<u8>| p@) == split(s@, sep@),
{
    let mut out: Vec<Vec<u8>> = Vec::new();
    let mut start: usize = 0;
    let mut i: usize = 0;
    if sep.len() > 0 {
        while sep.len() <= s.len() - i
            invariant
                sep@.len() > 0,
                0 <= start <= i <= s.len(),
                out@.map_values(|p: Vec<u8>| p@) + split_from(s@, sep@, start as int, i as int) == split(s@, sep@),
            decreases s.len() - i,
        {
            if starts_with(s.as_slice(), sep.as_slice(), i) {
                let piece = slice_range(s, start, i);
                proof {
                    assert(split_from(s@, sep@, start as int, i as int) == seq![piece@] + split_from(
                        s@,
                        sep@,
                        i + sep.len(),
                        i + sep.len(),
                    ));
                }
                let ghost before = out@.map_values(|p: Vec<u8>| p@);
                out.push(piece);
                proof {
                    assert(out@.map_values(|p: Vec<u8>| p@) =~= before.push(piece@));
                    assert(before + (seq![piece@] + split_from(s@, sep@, i + sep.len(), i + sep.len()))
                        =~= before.push(piece@) + split_from(s@, sep@, i + sep.len(), i + sep.len()));
                }
                i = i + sep.len();
                start = i;
            } else {
                i = i + 1;
            }
        }
    }
    let last = slice_range(s, start, s.len());
    let ghost before = out@.map_values(|p: Vec<u8>| p@);
    out.push(last);
    proof {
        assert(split_from(s@, sep@, start as int, i as int) == seq![last@]);
        assert(out@.map_values(|p: Vec<u8>| p@) =~= before.push(last@));
        assert(before + seq![last@] =~= before.push(last@));
    }
    out
}

/// The UTF-8 bytes of `s`.
pub fn bytes_of(s: &str) -> (r: Vec<u8>)
    ensures
        r@ == s.spec_bytes(),
{
    let b = s.as_bytes();
    let mut r: Vec<u8> = Vec::new();
    let mut k: usize = 0;
    while k < b.len()
        invariant
            0 <= k <= b@.len(),
            b@ == s.spec_bytes(),
            r@ == b@.subrange(0, k as int),
        decreases b.len() - k,
    {
        r.push(b[k]);
        proof {
            assert(b@.subrange(0, k + 1) =~= b@.subrange(0, k as int).push(b@[k as int]));
        }
        k = k + 1;
    }
    proof {
        assert(b@.subrange(0, b@.len() as int) =~= b@);
    }
    r
}

/// A copy of the bytes `s[from..to]`.
pub fn slice_range(s: &Vec<u8>, from: usize, to: usize) -> (r: Vec<u8>)
    requires
        from <= to <= s.len(),
    ensures
        r@ == s@.subrange(from as int, to as int),
{
    let mut r: Vec<u8> = Vec::new();
    let mut k: usize = from;
    while k < to
        invariant
            from <= k <= to <= s.len(),
            r@ == s@.subrange(from as int, k as int),
        decreases to - k,
    {
        r.push(s[k]);
        proof {
            assert(s@.subrange(from as int, k + 1) =~= s@.subrange(from as int, k as int).push(s@[k as int]));
        }
        k = k + 1;
    }
    r
}

} // verus!
