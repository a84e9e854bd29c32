//! Turning the position of the motion-photo marker into the offset at which
//! the embedded video container starts.
use crate::search::{
    find_first, first_match, is_first_match, lemma_occurs_in_tail, occurs_at,
};
use vstd::prelude::*;

verus! {

/// How many bytes after the marker are searched for a type box.
pub const WINDOW_LEN: usize = 65536;

/// Length of the marker that ends the still image.
pub const SENTINEL_LEN: usize = 16;

/// The marker `MotionPhoto_Data` that ends the still image.
pub open spec fn sentinel() -> Seq<u8> {
    seq![
        0x4Du8, 0x6Fu8, 0x74u8, 0x69u8, 0x6Fu8, 0x6Eu8, 0x50u8, 0x68u8,
        0x6Fu8, 0x74u8, 0x6Fu8, 0x5Fu8, 0x44u8, 0x61u8, 0x74u8, 0x61u8,
    ]
}

/// The tag `ftyp` of a container's type box, which follows a 4-byte size field.
pub open spec fn ftyp_tag() -> Seq<u8> {
    seq![0x66u8, 0x74u8, 0x79u8, 0x70u8]
}

/// The major brands of a video container: `isom`, `mp42`, `mp41`, `iso4`, `avc1`.
pub open spec fn is_video_brand(b: Seq<u8>) -> bool {
    ||| b == seq![0x69u8, 0x73u8, 0x6Fu8, 0x6Du8]
    ||| b == seq![0x6Du8, 0x70u8, 0x34u8, 0x32u8]
    ||| b == seq![0x6Du8, 0x70u8, 0x34u8, 0x31u8]
    ||| b == seq![0x69u8, 0x73u8, 0x6Fu8, 0x34u8]
    ||| b == seq![0x61u8, 0x76u8, 0x63u8, 0x31u8]
}

/// An optional machine offset as a mathematical integer.
pub open spec fn as_int(o: Option<usize>) -> Option<int> {
    match o {
        Some(v) => Some(v as int),
        None => None,
    }
}

/// End of the window searched after the marker, clipped to the source.
pub open spec fn window_end(len: int, marker: int) -> int {
    if marker + WINDOW_LEN <= len {
        marker + WINDOW_LEN
    } else {
        len
    }
}

/// First strategy: a type box within the window after the marker; the offset
/// backs up over its size field where the window leaves room for it.
pub open spec fn adjacent_offset(s: Seq<u8>, marker: int) -> Option<int> {
    match first_match(s.subrange(marker, window_end(s.len() as int, marker)), ftyp_tag()) {
        Some(r) => Some(
            if r >= 4 {
                marker + r - 4
            } else {
                marker
            },
        ),
        None => None,
    }
}

/// A type box at `p`, before the marker, whose major brand is one of a video
/// container (and not, say, of the host image's own container).
pub open spec fn qualifies(s: Seq<u8>, marker: int, p: int) -> bool {
    &&& occurs_at(s, ftyp_tag(), p)
    &&& p + 8 < s.len()
    &&& is_video_brand(s.subrange(p + 4, p + 8))
    &&& p < marker
}

/// `p` qualifies and no later position does.
pub open spec fn is_last_qualifying(s: Seq<u8>, marker: int, p: int) -> bool {
    &&& qualifies(s, marker, p)
    &&& forall|q: int| qualifies(s, marker, q) ==> q <= p
}

/// Second strategy: the qualifying type box nearest before the marker,
/// backed up over its size field where there is room.
pub open spec fn branded_offset(s: Seq<u8>, marker: int) -> Option<int> {
    if exists|p: int| qualifies(s, marker, p) {
        let p = choose|p: int| is_last_qualifying(s, marker, p);
        Some(
            if p >= 4 {
                p - 4
            } else {
                p
            },
        )
    } else {
        None
    }
}

/// The strategies in order, the first that finds something deciding; where
/// none does, the offset right after the marker.
pub open spec fn resolved_offset(s: Seq<u8>, marker: int) -> int {
    match adjacent_offset(s, marker) {
        Some(o) => o,
        None => match branded_offset(s, marker) {
            Some(o) => o,
            None => marker,
        },
    }
}

/// Where the embedded container starts: resolved from the end of the first
/// marker, or `None` where the marker does not occur.
pub open spec fn located_offset(s: Seq<u8>) -> Option<int> {
    match first_match(s, sentinel()) {
        Some(i) => Some(resolved_offset(s, i + SENTINEL_LEN)),
        None => None,
    }
}

} // verus!

verus! {

/// Whether the four bytes of `s` at `i` are a video container's major brand.
pub fn is_video_brand_at(s: &[u8], i: usize) -> (r: bool)
    requires
        i + 4 <= s@.len(),
    ensures
        r == is_video_brand(s@.subrange(i as int, i + 4)),
{
    let (a, b, c, d) = (s[i], s[i + 1], s[i + 2], s[i + 3]);
    proof {
        assert(s@.subrange(i as int, i + 4) =~= seq![a, b, c, d]);
    }
    (a == 0x69 && b == 0x73 && c == 0x6F && d == 0x6D) || (a == 0x6D && b == 0x70 && c == 0x34
        && d == 0x32) || (a == 0x6D && b == 0x70 && c == 0x34 && d == 0x31) || (a == 0x69 && b
        == 0x73 && c == 0x6F && d == 0x34) || (a == 0x61 && b == 0x76 && c == 0x63 && d == 0x31)
}

/// First strategy on `source`: the offset that a type box within the window
/// after `marker` gives, if there is one.
pub fn scan_adjacent(source: &[u8], marker: usize) -> (r: Option<usize>)
    requires
        marker <= source@.len(),
    ensures
        as_int(r) == adjacent_offset(source@, marker as int),
{
    let len = source.len();
    let end = if len - marker > WINDOW_LEN {
        marker + WINDOW_LEN
    } else {
        len
    };
    let tag: [u8; 4] = [0x66, 0x74, 0x79, 0x70];
    assert(tag@ =~= ftyp_tag());
    let window = &source[marker..end];
    match find_first(window, tag.as_slice()) {
        Some(rel) => {
            if rel >= 4 {
                Some(marker + rel - 4)
            } else {
                Some(marker)
            }
        },
        None => None,
    }
}

} // verus!

verus! {

/// Two occurrences of `ftyp` are at least four bytes apart: the tag does not
/// overlap itself.
proof fn lemma_ftyp_no_overlap(s: Seq<u8>, p: int, q: int)
    requires
        occurs_at(s, ftyp_tag(), p),
        occurs_at(s, ftyp_tag(), q),
        p < q,
    ensures
        p + 4 <= q,
{
    if q < p + 4 {
        assert(s.subrange(q, q + 4)[0] == s[q]);
        assert(s.subrange(p, p + 4)[q - p] == s[q]);
    }
}

/// Second strategy on `source`: the offset that the type box with a video
/// brand nearest before `marker` gives, if there is one.
pub fn scan_branded(source: &[u8], marker: usize) -> (r: Option<usize>)
    ensures
        as_int(r) == branded_offset(source@, marker as int),
{
    let len = source.len();
    let tag: [u8; 4] = [0x66, 0x74, 0x79, 0x70];
    assert(tag@ =~= ftyp_tag());
    let mut pos: usize = 0;
    let mut chosen: Option<usize> = None;
    while pos < len
        invariant
            pos <= len == source@.len(),
            tag@ == ftyp_tag(),
            chosen matches Some(c) ==> qualifies(source@, marker as int, c as int) && c < pos,
            forall|q: int|
                0 <= q < pos && #[trigger] qualifies(source@, marker as int, q) ==> (
                chosen matches Some(c) && q <= c),
        ensures
            chosen matches Some(c) ==> qualifies(source@, marker as int, c as int),
            forall|q: int|
                #[trigger] qualifies(source@, marker as int, q) ==> (chosen matches Some(c) && q
                    <= c),
        decreases len - pos,
    {
        let rest = &source[pos..len];
        proof {
            assert(source@.subrange(pos as int, len as int) == rest@);
        }
        match find_first(rest, tag.as_slice()) {
            None => {
                proof {
                    assert forall|q: int| #[trigger]
                        qualifies(source@, marker as int, q) implies (chosen matches Some(c) && q
                        <= c) by {
                        if q >= pos {
                            lemma_occurs_in_tail(source@, ftyp_tag(), pos as int, q - pos);
                        }
                    }
                }
                break ;
            },
            Some(rel) => {
                let p = pos + rel;
                proof {
                    lemma_occurs_in_tail(source@, ftyp_tag(), pos as int, rel as int);
                    assert forall|q: int| pos <= q < p implies !occurs_at(
                        source@,
                        ftyp_tag(),
                        q,
                    ) by {
                        lemma_occurs_in_tail(source@, ftyp_tag(), pos as int, q - pos);
                    }
                }
                if p >= marker {
                    break ;
                }
                if len - p > 8 && is_video_brand_at(source, p + 4) {
                    chosen = Some(p);
                }
                proof {
                    assert forall|q: int|
                        0 <= q < p + 4 && #[trigger] qualifies(
                            source@,
                            marker as int,
                            q,
                        ) implies (chosen matches Some(c) && q <= c) by {
                        if p < q {
                            lemma_ftyp_no_overlap(source@, p as int, q);
                        }
                    }
                }
                pos = p + 4;
            },
        }
    }
    match chosen {
        Some(c) => {
            proof {
                assert(is_last_qualifying(source@, marker as int, c as int));
                let d = choose|p: int| is_last_qualifying(source@, marker as int, p);
                assert(d == c);
            }
            if c >= 4 {
                Some(c - 4)
            } else {
                Some(c)
            }
        },
        None => None,
    }
}

} // verus!

verus! {

/// A resolved offset never lies past the end of the source.
pub proof fn lemma_resolved_in_bounds(s: Seq<u8>, marker: int)
    requires
        0 <= marker <= s.len(),
    ensures
        0 <= resolved_offset(s, marker) <= s.len(),
{
    let w = s.subrange(marker, window_end(s.len() as int, marker));
    crate::search::lemma_first_match_cases(w, ftyp_tag());
    if exists|p: int| qualifies(s, marker, p) {
        let p = choose|p: int| qualifies(s, marker, p);
        lemma_last_qualifying_exists(s, marker, p);
    }
}

/// Qualifying positions lie before the marker, so a last one exists.
proof fn lemma_last_qualifying_exists(s: Seq<u8>, marker: int, p: int)
    requires
        qualifies(s, marker, p),
    ensures
        exists|q: int| is_last_qualifying(s, marker, q),
    decreases marker - p,
{
    if exists|q: int| qualifies(s, marker, q) && q > p {
        let q = choose|q: int| qualifies(s, marker, q) && q > p;
        lemma_last_qualifying_exists(s, marker, q);
    } else {
        assert(is_last_qualifying(s, marker, p));
    }
}

/// The offset at which the embedded container starts, given the offset right
/// after the marker: the first strategy that finds a type box decides, and
/// where none does the offset after the marker stands.
pub fn resolve(source: &[u8], marker: usize) -> (r: usize)
    requires
        marker <= source@.len(),
    ensures
        r == resolved_offset(source@, marker as int),
        r <= source@.len(),
{
    proof {
        lemma_resolved_in_bounds(source@, marker as int);
    }
    match scan_adjacent(source, marker) {
        Some(o) => o,
        None => match scan_branded(source, marker) {
            Some(o) => o,
            None => marker,
        },
    }
}

/// Where the embedded container of `source` starts, or `None` where the
/// marker does not occur in it.
pub fn locate(source: &[u8]) -> (r: Option<usize>)
    ensures
        as_int(r) == located_offset(source@),
        r matches Some(o) ==> o <= source@.len(),
{
    let marker: [u8; 16] = [
        0x4D, 0x6F, 0x74, 0x69, 0x6F, 0x6E, 0x50, 0x68, 0x6F, 0x74, 0x6F, 0x5F, 0x44, 0x61, 0x74,
        0x61,
    ];
    assert(marker@ =~= sentinel());
    let pattern = marker.as_slice();
    assert(pattern@.len() == SENTINEL_LEN);
    match find_first(source, pattern) {
        Some(i) => {
            let len = source.len();
            assert(i + SENTINEL_LEN <= len);
            Some(resolve(source, i + SENTINEL_LEN))
        },
        None => None,
    }
}

} // verus!

verus! {

/// Where the marker does not occur, no video is located.
pub proof fn lemma_no_marker_no_video(s: Seq<u8>)
    requires
        forall|i: int| !occurs_at(s, sentinel(), i),
    ensures
        located_offset(s) is None,
{
}

/// Where the marker occurs, an offset within the source is located.
pub proof fn lemma_marker_gives_video(s: Seq<u8>, i: int)
    requires
        occurs_at(s, sentinel(), i),
    ensures
        located_offset(s) matches Some(o) && 0 <= o <= s.len(),
{
    crate::search::lemma_first_match_cases(s, sentinel());
    let j = first_match(s, sentinel())->0;
    lemma_resolved_in_bounds(s, j + SENTINEL_LEN);
}

} // verus!
