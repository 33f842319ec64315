use uploader::paths::extract_file_info;
use uploader::paths::should_process_file;
use uploader::pipeline::Action;
use uploader::pipeline::Pipeline;
use uploader::pipeline::RECENT_CAP;
use uploader::upload::build_upload_request;
use uploader::upload::mp3_mime_type;
use uploader::upload::mp3_part_name;
use uploader::upload::radio_field;
use uploader::upload::talkgroup_field;
use uploader::upload::timestamp_field;
use uploader::upload::transcription_mime_type;
use uploader::upload::transcription_part_name;

const ROOT: &[u8] = b"/watch";

fn step_is_upload(p: &mut Pipeline, path: &[u8], reg: bool, mp3: bool, txt: bool) -> bool {
    matches!(p.step(path, reg, mp3, txt), Action::Upload(_))
}

#[test]
fn root_level_path_is_never_eligible() {
    assert!(!should_process_file(b"/watch/a__TO_1.mp3", ROOT, true));
    assert!(!should_process_file(b"/watch/a__TO_1.mp3", ROOT, false));
    assert!(should_process_file(b"/watch/sub/a.mp3", ROOT, true));
}

#[test]
fn non_regular_file_is_never_eligible() {
    assert!(!should_process_file(b"/watch/sub/a.mp3", ROOT, false));
}

#[test]
fn sibling_paths_share_stem_and_parent() {
    let (mp3, txt) = extract_file_info(b"/watch/sub/20240131_235901__TO_4112.txt").unwrap();
    assert_eq!(mp3, b"/watch/sub/20240131_235901__TO_4112.mp3".to_vec());
    assert_eq!(txt, b"/watch/sub/20240131_235901__TO_4112.txt".to_vec());
}

#[test]
fn stem_keeps_inner_dots() {
    let (mp3, txt) = extract_file_info(b"/watch/sub/x.y.mp3").unwrap();
    assert_eq!(mp3, b"/watch/sub/x.y.mp3".to_vec());
    assert_eq!(txt, b"/watch/sub/x.y.txt".to_vec());
}

#[test]
fn missing_sibling_blocks_upload() {
    let mut p = Pipeline::new(ROOT.to_vec());
    assert!(!step_is_upload(&mut p, b"/watch/sub/20240131_235901__TO_4112.mp3", true, true, false));
    assert!(!step_is_upload(&mut p, b"/watch/sub/20240131_235901__TO_4112.mp3", true, false, true));
}

#[test]
fn unparseable_name_blocks_upload_even_with_full_pair() {
    let mut p = Pipeline::new(ROOT.to_vec());
    assert!(!step_is_upload(&mut p, b"/watch/sub/notes.mp3", true, true, true));
}

#[test]
fn root_level_pair_blocks_upload_even_with_full_pair() {
    let mut p = Pipeline::new(ROOT.to_vec());
    assert!(!step_is_upload(&mut p, b"/watch/20240131_235901__TO_4112.mp3", true, true, true));
}

#[test]
fn complete_pair_is_uploaded_once_mp3_first() {
    let mut p = Pipeline::new(ROOT.to_vec());
    let mp3 = b"/watch/sub/20240131_235901__TO_4112.mp3";
    let txt = b"/watch/sub/20240131_235901__TO_4112.txt";
    assert!(step_is_upload(&mut p, mp3, true, true, true));
    assert!(!step_is_upload(&mut p, txt, true, true, true));
}

#[test]
fn complete_pair_is_uploaded_once_txt_first() {
    let mut p = Pipeline::new(ROOT.to_vec());
    let mp3 = b"/watch/sub/20240131_235901__TO_4112.mp3";
    let txt = b"/watch/sub/20240131_235901__TO_4112.txt";
    assert!(step_is_upload(&mut p, txt, true, true, true));
    assert!(!step_is_upload(&mut p, mp3, true, true, true));
}

#[test]
fn one_pair_does_not_block_an_independent_pair() {
    let mut p = Pipeline::new(ROOT.to_vec());
    // The first pair is dispatched; whatever became of its submission
    // never enters the pipeline state.
    assert!(step_is_upload(&mut p, b"/watch/sub/20240131_235901__TO_4112.mp3", true, true, true));
    // An independent pair is still processed and dispatched.
    assert!(step_is_upload(&mut p, b"/watch/sub/20240201_080000__TO_5000.mp3", true, true, true));
}

#[test]
fn upload_job_carries_parsed_metadata_and_pair() {
    let mut p = Pipeline::new(ROOT.to_vec());
    let a = p.step(b"/watch/sub/20240131_235901__TO_4112_FROM_9981.txt", true, true, true);
    match a {
        Action::Upload(job) => {
            assert_eq!(job.pair.mp3_path, b"/watch/sub/20240131_235901__TO_4112_FROM_9981.mp3".to_vec());
            assert_eq!(job.pair.txt_path, b"/watch/sub/20240131_235901__TO_4112_FROM_9981.txt".to_vec());
            assert_eq!(job.metadata.timestamp, b"20240131_235901".to_vec());
            assert_eq!(job.metadata.talkgroup_id, b"4112".to_vec());
            assert_eq!(job.metadata.radio_id, b"9981".to_vec());
        },
        Action::Skip => panic!("expected an upload"),
    }
}

#[test]
fn evicted_stem_may_be_dispatched_again() {
    let mut p = Pipeline::new(ROOT.to_vec());
    let first = b"/watch/sub/20240131_000000__TO_1.mp3";
    assert!(step_is_upload(&mut p, first, true, true, true));
    // Fill the retention window with other stems.
    for n in 0..RECENT_CAP {
        let path = format!("/watch/sub/20240131_1{:05}__TO_9.mp3", n);
        assert!(step_is_upload(&mut p, path.as_bytes(), true, true, true));
    }
    // The first stem has been pushed out of the window.
    assert!(step_is_upload(&mut p, first, true, true, true));
}

#[test]
fn request_carries_fields_names_and_bytes() {
    let mut p = Pipeline::new(ROOT.to_vec());
    let a = p.step(b"/watch/sub/20240131_235901__TO_4112.mp3", true, true, true);
    let job = match a {
        Action::Upload(job) => job,
        Action::Skip => panic!("expected an upload"),
    };
    let r = build_upload_request(job, b"audio-bytes".to_vec(), b"text-bytes".to_vec());
    assert_eq!(r.talkgroup_id, b"4112".to_vec());
    assert_eq!(r.timestamp, b"20240131_235901".to_vec());
    assert_eq!(r.radio_id, b"123456".to_vec());
    assert_eq!(r.mp3_name, b"20240131_235901__TO_4112.mp3".to_vec());
    assert_eq!(r.txt_name, b"20240131_235901__TO_4112.txt".to_vec());
    assert_eq!(r.mp3_bytes, b"audio-bytes".to_vec());
    assert_eq!(r.txt_bytes, b"text-bytes".to_vec());
}

#[test]
fn part_names_and_mime_types_are_fixed() {
    assert_eq!(talkgroup_field(), "talkgroupId");
    assert_eq!(timestamp_field(), "timestamp");
    assert_eq!(radio_field(), "radioId");
    assert_eq!(mp3_part_name(), "mp3");
    assert_eq!(transcription_part_name(), "transcription");
    assert_eq!(mp3_mime_type(), "audio/mpeg");
    assert_eq!(transcription_mime_type(), "text/plain");
}

#[test]
fn pair_directly_under_filesystem_root() {
    let (mp3, txt) = extract_file_info(b"/a.mp3").unwrap();
    assert_eq!(mp3, b"/a.mp3".to_vec());
    assert_eq!(txt, b"/a.txt".to_vec());
    assert!(!should_process_file(b"/a.mp3", b"/", true));
}

#[test]
fn path_without_separator_resolves_to_nothing() {
    assert!(extract_file_info(b"a.mp3").is_none());
}
