use uploader::filename::parse_filename;

fn parts(name: &[u8]) -> Option<(Vec<u8>, Vec<u8>, Vec<u8>)> {
    parse_filename(name).map(|m| (m.timestamp, m.talkgroup_id, m.radio_id))
}

#[test]
fn full_filename_parses_without_defaulting() {
    let got = parts(b"20240131_235901_unit1__TO_4112_FROM_9981.mp3").unwrap();
    assert_eq!(got.0, b"20240131_235901".to_vec());
    assert_eq!(got.1, b"4112".to_vec());
    assert_eq!(got.2, b"9981".to_vec());
}

#[test]
fn missing_from_group_defaults_radio_id() {
    let got = parts(b"20240131_235901__TO_4112.mp3").unwrap();
    assert_eq!(got.0, b"20240131_235901".to_vec());
    assert_eq!(got.1, b"4112".to_vec());
    assert_eq!(got.2, b"123456".to_vec());
}

#[test]
fn missing_marker_yields_no_match() {
    assert!(parts(b"20240131_235901_unit1.mp3").is_none());
}

#[test]
fn missing_timestamp_yields_no_match() {
    assert!(parts(b"recording__TO_4112.mp3").is_none());
}

#[test]
fn marker_without_digits_yields_no_match() {
    assert!(parts(b"20240131_235901__TO_x.mp3").is_none());
}

#[test]
fn empty_name_yields_no_match() {
    assert!(parts(b"").is_none());
}

#[test]
fn last_marker_wins() {
    let got = parts(b"20240131_235901__TO_111__TO_222.mp3").unwrap();
    assert_eq!(got.1, b"222".to_vec());
    assert_eq!(got.2, b"123456".to_vec());
}

#[test]
fn leading_bytes_before_timestamp_yield_no_match() {
    assert!(parts(b"call_20240131_235901__TO_77.mp3").is_none());
}

#[test]
fn from_group_without_digits_is_ignored() {
    let got = parts(b"20240131_235901__TO_12_FROM_.mp3").unwrap();
    assert_eq!(got.1, b"12".to_vec());
    assert_eq!(got.2, b"123456".to_vec());
}

#[test]
fn second_from_group_is_not_consumed() {
    let got = parts(b"20240131_235901__TO_12_FROM_34_FROM_56.mp3").unwrap();
    assert_eq!(got.1, b"12".to_vec());
    assert_eq!(got.2, b"34".to_vec());
}

#[test]
fn short_timestamp_yields_no_match() {
    assert!(parts(b"2024013_23590__TO_4112.mp3").is_none());
}

#[test]
fn extensionless_name_still_parses() {
    let got = parts(b"20240131_235901__TO_5").unwrap();
    assert_eq!(got.0, b"20240131_235901".to_vec());
    assert_eq!(got.1, b"5".to_vec());
    assert_eq!(got.2, b"123456".to_vec());
}
