//! A motion photo: the bytes of the host image and the offset, found once, at
//! which the embedded video starts.
use crate::media::{
    context_duration, context_tracks, duration_of_tracks, parsed_tracks, read_context,
};
use crate::resolve::{as_int, located_offset, locate};
use crate::search::Bytes;
use mp4parse::MediaContext;
use vstd::prelude::*;

verus! {

/// The bytes from `index` to the end, where `index` is given.
pub open spec fn video_tail(s: Seq<u8>, index: Option<usize>) -> Option<Seq<u8>> {
    match index {
        Some(i) => Some(s.subrange(i as int, s.len() as int)),
        None => None,
    }
}

/// The tracks read from the bytes from `index` on, where `index` is given.
pub open spec fn video_tracks(s: Seq<u8>, index: Option<usize>) -> Option<Seq<Option<u64>>> {
    match video_tail(s, index) {
        Some(t) => Some(parsed_tracks(t)),
        None => None,
    }
}

/// The playing time of the video from `index` on: `None` where there is no
/// index, or where the container read there has other than exactly one track
/// or its track declares no duration.
pub open spec fn duration_at(s: Seq<u8>, index: Option<usize>) -> Option<u64> {
    match video_tracks(s, index) {
        Some(t) => duration_of_tracks(t),
        None => None,
    }
}

/// Why the embedded video could not be written out.
#[derive(Debug, Clone, Copy, PartialEq, Eq, Structural)]
pub enum DumpError {
    /// No embedded video was located.
    NoEmbeddedVideo,
    /// The sink refused the bytes.
    WriteError,
}

/// A motion photo taken on a Samsung phone: a still image (JPEG or HEIC/HEIF)
/// followed by an MP4 video.
pub struct SmMotion<'a> {
    source: Bytes<'a>,
    /// Index where the video starts.
    pub video_index: Option<usize>,
}

impl<'a> SmMotion<'a> {
    /// The bytes of the whole photo.
    pub closed spec fn source(&self) -> Seq<u8> {
        self.source@
    }

    /// The index at which the video starts, where one is known.
    pub closed spec fn index(&self) -> Option<usize> {
        self.video_index
    }

    /// The index, where there is one, lies within the photo.
    pub open spec fn well_formed(&self) -> bool {
        self.index() matches Some(i) ==> i <= self.source().len()
    }

    /// Opens the photo held in `bytes` and looks for its video. An empty input
    /// is no photo.
    pub fn with(bytes: &'a [u8]) -> (r: Option<SmMotion<'a>>)
        ensures
            r is None <==> bytes@.len() == 0,
            r matches Some(m) ==> {
                &&& m.source() == bytes@
                &&& as_int(m.index()) == located_offset(bytes@)
                &&& m.well_formed()
            },
    {
        if bytes.len() == 0 {
            return None;
        }
        let video_index = locate(bytes);
        Some(SmMotion { source: Bytes::new(bytes), video_index })
    }

    /// Opens the photo held in `bytes` with a video index found earlier, which
    /// is taken as it is. An empty input is no photo.
    pub fn with_precalculated(bytes: &'a [u8], index: usize) -> (r: Option<SmMotion<'a>>)
        ensures
            r is None <==> bytes@.len() == 0,
            r matches Some(m) ==> {
                &&& m.source() == bytes@
                &&& m.index() == Some(index)
                &&& m.well_formed() <==> index <= bytes@.len()
            },
    {
        if bytes.len() == 0 {
            return None;
        }
        Some(SmMotion { source: Bytes::new(bytes), video_index: Some(index) })
    }

    /// Whether the index, where there is one, lies within the photo.
    pub fn is_well_formed(&self) -> (r: bool)
        ensures
            r == self.well_formed(),
    {
        match self.video_index {
            Some(i) => i <= self.source.len(),
            None => true,
        }
    }

    /// Looks for the video again and stores what is found; never fails.
    pub fn find_video_index(&mut self) -> (r: Result<Option<usize>, &'static str>)
        ensures
            final(self).source() == old(self).source(),
            as_int(final(self).index()) == located_offset(old(self).source()),
            final(self).well_formed(),
            r == Ok::<Option<usize>, &'static str>(final(self).index()),
    {
        self.video_index = locate(self.source.as_slice());
        Ok(self.video_index)
    }

    /// Whether the photo holds a video.
    pub fn has_video(&self) -> (r: bool)
        ensures
            r == self.index() is Some,
    {
        match self.video_index {
            Some(_) => true,
            None => false,
        }
    }

    /// The bytes of the video: those from the video index to the end.
    pub fn video_content(&self) -> (r: Option<&'a [u8]>)
        requires
            self.well_formed(),
        ensures
            r is Some <==> self.index() is Some,
            r matches Some(v) ==> video_tail(self.source(), self.index()) == Some(v@),
    {
        match self.video_index {
            Some(index) => {
                let all = self.source.as_slice();
                Some(&all[index..all.len()])
            },
            None => None,
        }
    }

    /// What `mp4parse` reads from the video's bytes; a container it cannot
    /// read gives an empty context.
    pub fn find_video_context(&self) -> (r: Option<MediaContext>)
        requires
            self.well_formed(),
        ensures
            r is Some <==> self.index() is Some,
            r matches Some(c) ==> video_tracks(self.source(), self.index()) == Some(
                context_tracks(c),
            ),
    {
        match self.video_content() {
            Some(content) => Some(read_context(content)),
            None => None,
        }
    }

    /// The video's playing time (in the container's time unit, mostly
    /// milliseconds): `None` where there is no video, or its container has
    /// other than exactly one track, or the track declares none.
    pub fn get_video_file_duration(&self) -> (r: Option<u64>)
        requires
            self.well_formed(),
        ensures
            r == duration_at(self.source(), self.index()),
    {
        match self.find_video_context() {
            Some(context) => context_duration(&context),
            None => None,
        }
    }

    /// Appends the video's bytes to `sink`; fails, with the sink unchanged,
    /// where there is no video.
    pub fn dump_video_file(&self, sink: &mut Vec<u8>) -> (r: Result<(), DumpError>)
        requires
            self.well_formed(),
        ensures
            r is Err <==> self.index() is None,
            r is Err ==> r == Err::<(), DumpError>(DumpError::NoEmbeddedVideo) && final(sink)@
                == old(sink)@,
            r is Ok ==> video_tail(self.source(), self.index()) == Some(
                final(sink)@.subrange(old(sink)@.len() as int, final(sink)@.len() as int),
            ) && final(sink)@.subrange(0, old(sink)@.len() as int) == old(sink)@,
    {
        match self.video_content() {
            Some(content) => {
                sink.extend_from_slice(content);
                proof {
                    assert(final(sink)@.subrange(0, old(sink)@.len() as int) =~= old(sink)@);
                    assert(final(sink)@.subrange(old(sink)@.len() as int, final(sink)@.len() as int)
                        =~= content@);
                }
                Ok(())
            },
            None => Err(DumpError::NoEmbeddedVideo),
        }
    }
}

} // verus!

verus! {

/// A handle opened with an index found earlier reports the same duration as
/// one that searched the same photo and found that index.
pub proof fn lemma_cached_index_same_duration(found: SmMotion, cached: SmMotion, index: usize)
    requires
        found.source() == cached.source(),
        as_int(found.index()) == located_offset(found.source()),
        located_offset(found.source()) == Some(index as int),
        cached.index() == Some(index),
    ensures
        duration_at(found.source(), found.index()) == duration_at(cached.source(), cached.index()),
{
}

/// The bytes that `dump_video_file` writes out, read again by `mp4parse`, give
/// the tracks, and so the track count and the duration, that the handle
/// reports.
pub proof fn lemma_dump_round_trip(m: SmMotion, dumped: Seq<u8>)
    requires
        m.well_formed(),
        video_tail(m.source(), m.index()) == Some(dumped),
    ensures
        video_tracks(m.source(), m.index()) == Some(parsed_tracks(dumped)),
        duration_of_tracks(parsed_tracks(dumped)) == duration_at(m.source(), m.index()),
{
}

} // verus!
