//! What the embedded container holds, as read by `mp4parse`.
use mp4parse::MediaContext;
use vstd::prelude::*;

verus! {

#[verifier::external_type_specification]
#[verifier::external_body]
pub struct ExMediaContext(MediaContext);

/// For each track that `mp4parse::read_mp4` reads from the bytes, in order,
/// the duration that its header box declares, if it has one; no track where
/// reading fails.
pub uninterp spec fn parsed_tracks(b: Seq<u8>) -> Seq<Option<u64>>;

/// For each track that a context holds, in order, the duration that its header
/// box declares, if it has one.
pub uninterp spec fn context_tracks(c: MediaContext) -> Seq<Option<u64>>;

/// Relies on `mp4parse::read_mp4`: the context it reads from the bytes, whose
/// tracks are determined by the bytes; where reading fails, the empty
/// `MediaContext::default()` stands in, so that a damaged container yields an
/// empty context and no error.
#[verifier::external_body]
pub(crate) fn read_context(b: &[u8]) -> (r: MediaContext)
    ensures
        context_tracks(r) == parsed_tracks(b@),
{
    let mut reader = b;
    match mp4parse::read_mp4(&mut reader) {
        Ok(context) => context,
        Err(_) => MediaContext::default(),
    }
}

/// Relies on the public fields `MediaContext::tracks`, `Track::tkhd` and
/// `TrackHeaderBox::duration`: lists each track's header duration, in order.
#[verifier::external_body]
pub(crate) fn track_durations(c: &MediaContext) -> (r: Vec<Option<u64>>)
    ensures
        r@ == context_tracks(*c),
{
    c.tracks.iter().map(|t| t.tkhd.as_ref().map(|h| h.duration)).collect()
}

/// The playing time of a container with the given track header durations:
/// that of its track where there is exactly one, `None` otherwise.
pub open spec fn duration_of_tracks(t: Seq<Option<u64>>) -> Option<u64> {
    if t.len() == 1 {
        t[0]
    } else {
        None
    }
}

/// The playing time of a container whose tracks declare `durations`: the one
/// track's, where there is exactly one and it declares one.
pub fn single_track_duration(durations: &[Option<u64>]) -> (r: Option<u64>)
    ensures
        r == duration_of_tracks(durations@),
{
    if durations.len() != 1 {
        None
    } else {
        durations[0]
    }
}

/// The playing time of the container that `context` describes.
pub fn context_duration(context: &MediaContext) -> (r: Option<u64>)
    ensures
        r == duration_of_tracks(context_tracks(*context)),
{
    let durations = track_durations(context);
    single_track_duration(durations.as_slice())
}

/// A container whose tracks number other than one has no duration, whatever
/// its tracks declare.
pub proof fn lemma_duration_needs_one_track(t: Seq<Option<u64>>)
    requires
        t.len() != 1,
    ensures
        duration_of_tracks(t) is None,
{
}

} // verus!
