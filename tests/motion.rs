use mp4parse::TrackType::Video;
use sm_motion_photo::{
    context_duration, find_first, is_video_brand_at, locate, resolve, scan_adjacent,
    scan_branded, single_track_duration, DumpError, SmMotion,
};

const VIDEO_INDEX: usize = 3366251;
const VIDEO_INDEX_HEIC: usize = 2749488;
const VIDEO_DURATION: u64 = 2932;
const MARKER: &[u8] = b"MotionPhoto_Data";

fn boxed(kind: &[u8], content: &[u8]) -> Vec<u8> {
    let mut out = ((content.len() + 8) as u32).to_be_bytes().to_vec();
    out.extend_from_slice(kind);
    out.extend_from_slice(content);
    out
}

fn ftyp_box(brand: &[u8]) -> Vec<u8> {
    let mut content = brand.to_vec();
    content.extend_from_slice(&[0, 0, 0, 0]);
    boxed(b"ftyp", &content)
}

fn track_box(duration: u32) -> Vec<u8> {
    let mut tkhd = vec![0, 0, 0, 3, 0, 0, 0, 0, 0, 0, 0, 0, 0, 0, 0, 1, 0, 0, 0, 0];
    tkhd.extend_from_slice(&duration.to_be_bytes());
    tkhd.extend_from_slice(&[0; 16 + 36 + 8]);
    let mut hdlr = vec![0, 0, 0, 0, 0, 0, 0, 0];
    hdlr.extend_from_slice(b"vide");
    hdlr.extend_from_slice(&[0; 13]);
    let mut trak = boxed(b"tkhd", &tkhd);
    trak.extend(boxed(b"mdia", &boxed(b"hdlr", &hdlr)));
    boxed(b"trak", &trak)
}

/// A small MP4 holding `tracks` tracks of the given duration.
fn mp4(tracks: usize, duration: u32) -> Vec<u8> {
    let mut moov = vec![];
    for _ in 0..tracks {
        moov.extend(track_box(duration));
    }
    let mut out = ftyp_box(b"isom");
    out.extend(boxed(b"moov", &moov));
    out
}

/// A JPEG-like photo whose video starts at `VIDEO_INDEX`, after the marker and
/// eight bytes of padding.
fn photo() -> Vec<u8> {
    let mut out = vec![0xFF, 0xD8, 0xFF, 0xE1];
    out.resize(VIDEO_INDEX - 8 - MARKER.len(), 0x11);
    out.extend_from_slice(MARKER);
    out.extend_from_slice(&[0x22; 8]);
    out.extend(mp4(1, VIDEO_DURATION as u32));
    out
}

/// A HEIC-like photo: its own type box up front, the video at
/// `VIDEO_INDEX_HEIC`, and the marker after the video, in a box of its own.
fn photo_heic() -> Vec<u8> {
    let mut out = ftyp_box(b"heic");
    out.resize(VIDEO_INDEX_HEIC, 0x11);
    out.extend(mp4(1, VIDEO_DURATION as u32));
    out.extend(boxed(b"free", MARKER));
    out
}

fn wrong_photo() -> Vec<u8> {
    let mut out = vec![0xFF, 0xD8];
    out.resize(4096, 0x33);
    out.extend(ftyp_box(b"isom"));
    out
}

#[test]
fn test_search_index() {
    let bytes = photo();
    let mut sm_motion = match SmMotion::with(&bytes) {
        Some(sm) => sm,
        None => panic!("Not created motion"),
    };
    assert_eq!(sm_motion.find_video_index(), Ok(Some(VIDEO_INDEX)));
    match sm_motion.video_index {
        Some(size) => assert_eq!(size, VIDEO_INDEX),
        None => panic!("No result"),
    };
}

#[test]
fn test_search_index_heic() {
    let bytes = photo_heic();
    let sm_motion = match SmMotion::with(&bytes) {
        Some(sm) => sm,
        None => panic!("Not created motion"),
    };
    match sm_motion.video_index {
        Some(size) => assert_eq!(size, VIDEO_INDEX_HEIC),
        None => panic!("No result"),
    };
}

#[test]
fn offsets_of_two_layouts_differ() {
    assert_ne!(locate(&photo()), locate(&photo_heic()));
}

#[test]
fn test_dump_video() {
    let bytes = photo();
    let sm_motion = SmMotion::with(&bytes).expect("Not created motion");
    let mut out = vec![];
    assert_eq!(sm_motion.dump_video_file(&mut out), Ok(()));
    assert_eq!(out, mp4(1, VIDEO_DURATION as u32));
    let context = mp4parse::read_mp4(&mut out.as_slice()).unwrap();
    assert_eq!(context.tracks.len(), 1);
    assert_eq!(context_duration(&context), sm_motion.get_video_file_duration());
}

#[test]
fn test_dump_video_heic() {
    let bytes = photo_heic();
    let sm_motion = SmMotion::with(&bytes).expect("Not created motion");
    let mut out = vec![];
    assert_eq!(sm_motion.dump_video_file(&mut out), Ok(()));
    let context = mp4parse::read_mp4(&mut out.as_slice()).unwrap();
    assert_ne!(context.tracks.len(), 0);
    assert_eq!(context_duration(&context), sm_motion.get_video_file_duration());
}

#[test]
fn dump_appends_to_sink() {
    let bytes = photo();
    let sm_motion = SmMotion::with(&bytes).expect("Not created motion");
    let mut out = vec![7, 8];
    assert_eq!(sm_motion.dump_video_file(&mut out), Ok(()));
    assert_eq!(&out[..2], &[7, 8]);
    assert_eq!(&out[2..], &bytes[VIDEO_INDEX..]);
}

#[test]
fn test_meta() {
    let bytes = photo();
    let sm_motion = SmMotion::with(&bytes).expect("Not created motion");
    match sm_motion.find_video_context() {
        Some(context) => {
            assert_eq!(context.tracks.len(), 1);
            assert_eq!(context.tracks[0].track_type, Video);
        }
        None => panic!("No media context found"),
    };
}

#[test]
fn test_duration() {
    let bytes = photo();
    let sm_motion = SmMotion::with(&bytes).expect("Not created motion");
    match sm_motion.get_video_file_duration() {
        Some(duration) => assert_eq!(duration, VIDEO_DURATION),
        None => panic!("Not found duration"),
    }
}

#[test]
fn test_duration_cached_index() {
    let bytes = photo();
    let sm_motion = match SmMotion::with_precalculated(&bytes, VIDEO_INDEX) {
        Some(sm) => sm,
        None => panic!("Not created motion"),
    };
    match sm_motion.get_video_file_duration() {
        Some(duration) => assert_eq!(duration, VIDEO_DURATION),
        None => panic!("Not found duration"),
    }
}

#[test]
fn cached_index_agrees_with_search() {
    for bytes in [photo(), photo_heic()] {
        let found = SmMotion::with(&bytes).unwrap();
        let cached = SmMotion::with_precalculated(&bytes, found.video_index.unwrap()).unwrap();
        assert_eq!(found.get_video_file_duration(), cached.get_video_file_duration());
    }
}

#[test]
fn test_check() {
    let bytes = photo();
    let sm_motion = SmMotion::with(&bytes).expect("Not created motion");
    assert_eq!(sm_motion.has_video(), true)
}

#[test]
fn test_fail_open_video() {
    let bytes = wrong_photo();
    match SmMotion::with(&bytes) {
        Some(sm) => assert!(sm.find_video_context().is_none()),
        None => panic!("Not created motion"),
    };
}

#[test]
fn test_wrong_photo_no_video() {
    let bytes = wrong_photo();
    match SmMotion::with(&bytes) {
        Some(sm) => assert_eq!(sm.has_video(), false),
        None => panic!("Not created motion"),
    };
}

#[test]
fn test_fail_dump_video() {
    let bytes = wrong_photo();
    match SmMotion::with(&bytes) {
        Some(sm) => {
            let mut out = vec![1];
            assert_eq!(sm.dump_video_file(&mut out), Err(DumpError::NoEmbeddedVideo));
            assert_eq!(out, vec![1]);
            assert_eq!(sm.get_video_file_duration(), None);
        }
        None => panic!("Not created motion"),
    };
}

#[test]
fn test_mmap() {
    if SmMotion::with(&[]).is_some() {
        panic!("Should not mmap");
    }
    if SmMotion::with_precalculated(&[], 0).is_some() {
        panic!("Should not mmap");
    }
}

#[test]
fn duration_needs_exactly_one_track() {
    let two = mp4(2, 500);
    let none = mp4(0, 500);
    let one = mp4(1, 500);
    for (bytes, expected) in [(two, None), (none, None), (one, Some(500))] {
        let mut photo = b"image".to_vec();
        photo.extend_from_slice(MARKER);
        photo.extend(bytes);
        let sm = SmMotion::with(&photo).unwrap();
        assert_eq!(sm.video_index, Some(21));
        assert_eq!(sm.get_video_file_duration(), expected);
    }
}

#[test]
fn damaged_container_gives_empty_context() {
    let mut photo = b"image".to_vec();
    photo.extend_from_slice(MARKER);
    photo.extend_from_slice(&[0, 0, 0, 99, b'j', b'u', b'n', b'k']);
    let sm = SmMotion::with(&photo).unwrap();
    assert!(sm.has_video());
    let context = sm.find_video_context().unwrap();
    assert_eq!(context.tracks.len(), 0);
    assert_eq!(sm.get_video_file_duration(), None);
}

#[test]
fn single_track_duration_cases() {
    assert_eq!(single_track_duration(&[Some(7)]), Some(7));
    assert_eq!(single_track_duration(&[None]), None);
    assert_eq!(single_track_duration(&[]), None);
    assert_eq!(single_track_duration(&[Some(7), Some(7)]), None);
}

#[test]
fn find_first_reports_lowest_index() {
    assert_eq!(find_first(b"coocoocoocoo", b"oocoo"), Some(1));
    assert_eq!(find_first(b"", b"ab"), None);
    assert_eq!(find_first(b"a", b"ab"), None);
    assert_eq!(find_first(b"xxab", b"ab"), Some(2));
    assert_eq!(find_first(b"abab", b"abab"), Some(0));
    assert_eq!(find_first(b"abba", b"abc"), None);
}

#[test]
fn find_first_is_repeatable() {
    let bytes = photo();
    let first = find_first(&bytes, MARKER);
    assert_eq!(first, Some(VIDEO_INDEX - 8 - MARKER.len()));
    assert_eq!(find_first(&bytes, MARKER), first);
}

#[test]
fn adjacent_scan_backs_up_over_size_field() {
    let mut s = vec![0u8; 10];
    s.extend_from_slice(b"xxxxxxftyp");
    assert_eq!(scan_adjacent(&s, 10), Some(12));
    // too close to the marker to back up
    let mut t = vec![0u8; 10];
    t.extend_from_slice(b"xxftyp");
    assert_eq!(scan_adjacent(&t, 10), Some(10));
    assert_eq!(scan_adjacent(&t, 13), None);
}

#[test]
fn adjacent_scan_is_limited_to_window() {
    let mut s = vec![0u8; 100];
    s.resize(100 + 65536, 0);
    s.extend_from_slice(b"ftyp");
    assert_eq!(scan_adjacent(&s, 100), None);
    assert_eq!(scan_adjacent(&s, 101), None);
    assert_eq!(scan_adjacent(&s, 104), Some(100 + 65536 - 4));
}

#[test]
fn branded_scan_takes_last_video_brand_before_marker() {
    let mut s = vec![0u8; 2];
    s.extend_from_slice(b"ftypisom"); // at 2: too close to back up
    s.extend_from_slice(b"..ftypheic"); // wrong brand
    s.extend_from_slice(b"..ftypmp42"); // at 22
    s.extend_from_slice(b"..ftypavc1"); // at 32, after the marker below
    s.extend_from_slice(b"..");
    assert_eq!(scan_branded(&s, 30), Some(18));
    assert_eq!(scan_branded(&s, 40), Some(28));
    assert_eq!(scan_branded(&s, 10), Some(2));
    assert_eq!(scan_branded(&s, 2), None);
    // the brand must end before the last byte
    assert_eq!(scan_branded(b"ftypisom", 8), None);
    assert_eq!(scan_branded(b"ftypisom.", 8), Some(0));
}

#[test]
fn resolve_falls_back_to_marker() {
    let s = b"....MotionPhoto_Data....".to_vec();
    assert_eq!(resolve(&s, 20), 20);
    assert_eq!(locate(&s), Some(20));
    assert_eq!(locate(b"no marker here"), None);
    assert_eq!(locate(b""), None);
}

#[test]
fn resolve_prefers_adjacent_box() {
    let mut s = b"ftypisom.".to_vec();
    s.extend_from_slice(MARKER);
    s.extend_from_slice(b"1234ftypmp42");
    assert_eq!(resolve(&s, 25), 25);
    assert_eq!(locate(&s), Some(25));
}

#[test]
fn video_brands() {
    for brand in [b"isom", b"mp42", b"mp41", b"iso4", b"avc1"] {
        assert!(is_video_brand_at(brand, 0));
    }
    assert!(!is_video_brand_at(b"heic", 0));
    assert!(!is_video_brand_at(b"mif1", 0));
    assert!(is_video_brand_at(b"..mp41", 2));
}

#[test]
fn content_is_tail_from_index() {
    let bytes = b"abcdefg".to_vec();
    let sm = SmMotion::with_precalculated(&bytes, 3).unwrap();
    assert_eq!(sm.video_content(), Some(&b"defg"[..]));
    let none = SmMotion::with(&bytes).unwrap();
    assert_eq!(none.video_content(), None);
}
