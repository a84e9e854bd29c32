//! Exact byte-pattern search over an immutable byte view.
use boyer_moore_magiclen::{BMByte, BMByteSearchable};
use core::slice::Iter;
use vstd::prelude::*;

verus! {

/// `p` occurs verbatim in `s` starting at index `i`.
pub open spec fn occurs_at(s: Seq<u8>, p: Seq<u8>, i: int) -> bool {
    0 <= i && i + p.len() <= s.len() && s.subrange(i, i + p.len()) == p
}

/// `i` is the lowest index at which `p` occurs in `s`.
pub open spec fn is_first_match(s: Seq<u8>, p: Seq<u8>, i: int) -> bool {
    &&& occurs_at(s, p, i)
    &&& forall|j: int| 0 <= j < i ==> !occurs_at(s, p, j)
}

/// The lowest index at which `p` occurs in `s`, if any.
pub open spec fn first_match(s: Seq<u8>, p: Seq<u8>) -> Option<int> {
    if exists|i: int| occurs_at(s, p, i) {
        Some(choose|i: int| is_first_match(s, p, i))
    } else {
        None
    }
}

/// An immutable, randomly addressable view over a run of bytes.
pub struct Bytes<'a> {
    bytes: &'a [u8],
}

impl<'a> View for Bytes<'a> {
    type V = Seq<u8>;

    closed spec fn view(&self) -> Seq<u8> {
        self.bytes@
    }
}

impl<'a> Bytes<'a> {
    /// A view over `bytes`.
    pub fn new(bytes: &'a [u8]) -> (r: Bytes<'a>)
        ensures
            r@ == bytes@,
    {
        Bytes { bytes }
    }

    /// How many bytes the view holds.
    pub fn len(&self) -> (r: usize)
        ensures
            r == self@.len(),
    {
        self.bytes.len()
    }

    /// The byte at `index`.
    pub fn value_at(&self, index: usize) -> (r: u8)
        requires
            index < self@.len(),
        ensures
            r == self@[index as int],
    {
        self.bytes[index]
    }

    /// The bytes themselves.
    pub fn as_slice(&self) -> (r: &'a [u8])
        ensures
            r@ == self@,
    {
        self.bytes
    }
}

impl<'a> BMByteSearchable for Bytes<'a> {
    fn len(&self) -> usize {
        self.bytes.len()
    }

    // The search asks only for indices below `len`; any other reads as 0
    // rather than panicking.
    fn value_at(&self, index: usize) -> u8 {
        if index < self.bytes.len() {
            self.bytes[index]
        } else {
            0
        }
    }

    fn iter(&self) -> Iter<'_, u8> {
        self.bytes.iter()
    }
}

/// Two lowest-index matches of one pattern in one text are the same index: a
/// search reports one offset, whatever run of it asked.
pub proof fn lemma_first_match_unique(s: Seq<u8>, p: Seq<u8>, i: int, j: int)
    requires
        is_first_match(s, p, i),
        is_first_match(s, p, j),
    ensures
        i == j,
{
}

/// What `first_match` says, unfolded.
pub proof fn lemma_first_match_cases(s: Seq<u8>, p: Seq<u8>)
    ensures
        first_match(s, p) matches Some(i) ==> is_first_match(s, p, i),
        first_match(s, p) is None ==> forall|i: int| !occurs_at(s, p, i),
{
    if exists|i: int| occurs_at(s, p, i) {
        let k = choose|i: int| occurs_at(s, p, i);
        lemma_least_occurrence(s, p, k);
    }
}

proof fn lemma_least_occurrence(s: Seq<u8>, p: Seq<u8>, k: int)
    requires
        occurs_at(s, p, k),
    ensures
        exists|i: int| is_first_match(s, p, i),
    decreases k,
{
    if exists|j: int| 0 <= j < k && occurs_at(s, p, j) {
        let j = choose|j: int| 0 <= j < k && occurs_at(s, p, j);
        lemma_least_occurrence(s, p, j);
    } else {
        assert(is_first_match(s, p, k));
    }
}

/// An occurrence in the tail of `s` from `a` on is an occurrence in `s`, shifted by `a`.
pub proof fn lemma_occurs_in_tail(s: Seq<u8>, p: Seq<u8>, a: int, r: int)
    requires
        0 <= a <= s.len(),
    ensures
        occurs_at(s.subrange(a, s.len() as int), p, r) <==> (r >= 0 && occurs_at(s, p, a + r)),
{
    let t = s.subrange(a, s.len() as int);
    if 0 <= r && r + p.len() <= t.len() {
        assert(t.subrange(r, r + p.len()) =~= s.subrange(a + r, a + r + p.len()));
    }
}

/// Relies on boyer_moore_magiclen's `BMByte::from` and `BMByte::find_first_in`:
/// for a non-empty pattern, the index of its leftmost occurrence in the text.
#[verifier::external_body]
fn bm_find_first(text: Bytes, pattern: Bytes) -> (r: Option<usize>)
    requires
        pattern@.len() > 0,
    ensures
        match r {
            Some(i) => is_first_match(text@, pattern@, i as int),
            None => forall|i: int| !occurs_at(text@, pattern@, i),
        },
{
    match BMByte::from(pattern) {
        Some(bmb) => bmb.find_first_in(text),
        None => None,
    }
}

/// The lowest index at which `pattern` occurs verbatim in `source`, or `None`
/// where it does not occur (in particular where `source` is empty or shorter
/// than `pattern`).
pub fn find_first(source: &[u8], pattern: &[u8]) -> (r: Option<usize>)
    requires
        pattern@.len() > 0,
    ensures
        match r {
            Some(i) => first_match(source@, pattern@) == Some(i as int) && is_first_match(
                source@,
                pattern@,
                i as int,
            ),
            None => first_match(source@, pattern@) is None && forall|i: int|
                !occurs_at(source@, pattern@, i),
        },
{
    let r = bm_find_first(Bytes::new(source), Bytes::new(pattern));
    proof {
        lemma_first_match_cases(source@, pattern@);
        if let Some(i) = r {
            let j = first_match(source@, pattern@)->0;
            lemma_first_match_unique(source@, pattern@, i as int, j);
        }
    }
    r
}

} // verus!
