use rustems::catalog::{
    allocate_upload_ids, id_number_of, listing_from_json, listing_json_text, max_album_id_number,
    max_track_id_number, storage_from_json, storage_json_text, track_config_json_bytes,
    track_info_from_json, without_trailing_nul, AllocError, StorageError,
    parse_track_listing, parse_track_config, storage_from_reply, StorageReplyError,
};
use rustems::json::JsonValue;

fn s(t: &str) -> JsonValue {
    JsonValue::Str(t.to_string())
}

fn obj(entries: Vec<(&str, JsonValue)>) -> JsonValue {
    JsonValue::Object(entries.into_iter().map(|(k, v)| (k.to_string(), v)).collect())
}

fn listing(entries: &[(&str, &[&str])]) -> Vec<(String, Vec<String>)> {
    entries
        .iter()
        .map(|(a, ts)| (a.to_string(), ts.iter().map(|t| t.to_string()).collect()))
        .collect()
}

fn listing_packet(json: &str) -> Vec<u8> {
    let total = (json.len() + 3) as u16;
    let mut pkt = vec![(total & 0xFF) as u8, (total >> 8) as u8, 0x05, 0x03];
    pkt.extend_from_slice(json.as_bytes());
    pkt.push(0);
    pkt
}

#[test]
fn listing_text_is_cut_at_declared_end() {
    let pkt = listing_packet("{\"l\":[]}");
    assert_eq!(listing_json_text(&pkt), Some("{\"l\":[]}".to_string()));
}

#[test]
fn listing_text_stops_at_packet_end() {
    let mut pkt = listing_packet("{\"l\":[]}");
    pkt[0] = 0xFF;
    assert_eq!(listing_json_text(&pkt), Some("{\"l\":[]}\u{0}".to_string()));
}

#[test]
fn listing_text_refuses_other_packets() {
    assert_eq!(listing_json_text(&[0x02, 0x00, 0x05, 0x03]), None);
    assert_eq!(listing_json_text(&[0x05, 0x00, 0x05, 0x05, b'{', 0]), None);
    assert_eq!(listing_json_text(&[0x03, 0x00, 0x05, 0x03, b'{', 0]), None);
    assert_eq!(listing_json_text(&[0x05, 0x00, 0x05, 0x03, 0xFF, 0xFE]), None);
    assert_eq!(listing_json_text(&[0x06, 0x00, 0x05, 0x03, 0xED, 0xA0, 0x80]), None);
    assert_eq!(listing_json_text(&[0x05, 0x00, 0x05, 0x03, 0xC3, 0xA9, 0x00]), Some("é".to_string()));
}

#[test]
fn listing_from_document() {
    let doc = obj(vec![(
        "l",
        JsonValue::Array(vec![
            obj(vec![("a", s("A1")), ("c", JsonValue::Array(vec![obj(vec![("t", s("T1"))]), obj(vec![("t", JsonValue::Number("3".to_string()))]), obj(vec![("t", s("T2"))])]))]),
            obj(vec![("c", JsonValue::Array(vec![]))]),
            obj(vec![("a", s("RECORD"))]),
            obj(vec![("a", s("A2")), ("c", s("not an array"))]),
        ]),
    )]);
    assert_eq!(listing_from_json(&doc), listing(&[("A1", &["T1", "T2"]), ("RECORD", &[]), ("A2", &[])]));
}

#[test]
fn listing_without_list_is_empty() {
    assert!(listing_from_json(&obj(vec![("x", JsonValue::Null)])).is_empty());
    assert!(listing_from_json(&obj(vec![("l", s("no"))])).is_empty());
    assert!(listing_from_json(&JsonValue::Array(vec![])).is_empty());
}

#[test]
fn track_config_nul_is_dropped() {
    assert_eq!(track_config_json_bytes(b"{}\0"), b"{}".to_vec());
    assert_eq!(track_config_json_bytes(b"{}"), b"{}".to_vec());
    assert_eq!(track_config_json_bytes(b""), Vec::<u8>::new());
}

#[test]
fn track_info_from_full_config() {
    let config = obj(vec![
        ("TrackColour", JsonValue::Array(vec![s("#112233"), JsonValue::Null, s("#445566")])),
        ("metadata", obj(vec![("title", s("Song")), ("artist", s("Band"))])),
    ]);
    let info = track_info_from_json("A1", "T4", Some(&config));
    assert_eq!(info.album_id, "A1");
    assert_eq!(info.track_id, "T4");
    assert_eq!(info.title, "Song");
    assert_eq!(info.artist, "Band");
    assert_eq!(info.colours, vec!["#112233".to_string(), "#445566".to_string()]);
}

#[test]
fn track_info_defaults() {
    let config = obj(vec![("metadata", obj(vec![("title", JsonValue::Bool(true))]))]);
    let info = track_info_from_json("A1", "T4", Some(&config));
    assert_eq!(info.title, "T4");
    assert_eq!(info.artist, "Unknown");
    assert_eq!(info.colours, vec!["#ffffff".to_string(), "#ffffff".to_string()]);
    let info = track_info_from_json("A2", "T5", None);
    assert_eq!(info.title, "T5");
    assert_eq!(info.artist, "Unknown");
    assert_eq!(info.colours, vec!["#ffffff".to_string(), "#ffffff".to_string()]);
}

fn storage_packet(json: &str) -> Vec<u8> {
    let total = (json.len() + 2) as u16;
    let mut pkt = vec![(total & 0xFF) as u8, (total >> 8) as u8, 0x05, 0x02];
    pkt.extend_from_slice(json.as_bytes());
    pkt
}

#[test]
fn storage_text() {
    let pkt = storage_packet("{\"size\":\"100\"}\0\0");
    assert_eq!(storage_json_text(&pkt), Ok("{\"size\":\"100\"}".to_string()));
    assert_eq!(storage_json_text(&[1, 2, 3]), Err(StorageError::TooShort));
    assert_eq!(storage_json_text(&[0x04, 0x00, 0x05, 0x02, 0xC3, 0x28]), Err(StorageError::NotUtf8));
}

#[test]
fn trailing_nuls_are_dropped() {
    assert_eq!(without_trailing_nul("ab\0\0"), "ab");
    assert_eq!(without_trailing_nul("a\0b"), "a\0b");
    assert_eq!(without_trailing_nul("\0"), "");
}

#[test]
fn storage_figures() {
    let doc = obj(vec![("size", s("1000")), ("free", s("250"))]);
    let info = storage_from_json(&doc);
    assert_eq!((info.total_bytes, info.free_bytes, info.used_bytes), (1000, 250, 750));
    let doc = obj(vec![("size", s("10")), ("free", s("+25"))]);
    let info = storage_from_json(&doc);
    assert_eq!((info.total_bytes, info.free_bytes, info.used_bytes), (10, 25, 0));
    let doc = obj(vec![("size", JsonValue::Number("7".to_string())), ("free", s("x"))]);
    let info = storage_from_json(&doc);
    assert_eq!((info.total_bytes, info.free_bytes, info.used_bytes), (0, 0, 0));
}

#[test]
fn id_numbers() {
    assert_eq!(id_number_of("A12", 'A'), Some(12));
    assert_eq!(id_number_of("A+5", 'A'), Some(5));
    assert_eq!(id_number_of("A", 'A'), None);
    assert_eq!(id_number_of("T3", 'A'), None);
    assert_eq!(id_number_of("A-1", 'A'), None);
    assert_eq!(id_number_of("T4294967295", 'T'), Some(4294967295));
    assert_eq!(id_number_of("T4294967296", 'T'), None);
}

#[test]
fn upload_ids_join_highest_album_after_highest_track() {
    let l = listing(&[("A1", &["T1", "T2"]), ("RECORD", &["T1"]), ("A3", &["T7", "x"]), ("B9", &[])]);
    assert_eq!(max_album_id_number(&l), 3);
    assert_eq!(max_track_id_number(&l), 7);
    assert_eq!(allocate_upload_ids(&l), Ok(("A3".to_string(), "T8".to_string())));
}

#[test]
fn upload_ids_need_an_album() {
    let l = listing(&[("RECORD", &["T1"]), ("A0", &["T2"])]);
    assert_eq!(allocate_upload_ids(&l), Err(AllocError::NoValidAlbums));
    assert_eq!(allocate_upload_ids(&[]), Err(AllocError::NoValidAlbums));
}

#[test]
fn upload_ids_with_no_tracks_start_at_one() {
    let l = listing(&[("A05", &[])]);
    assert_eq!(allocate_upload_ids(&l), Ok(("A5".to_string(), "T1".to_string())));
}

#[test]
fn listing_is_read_from_ping_answer() {
    let pkt = listing_packet("{\"l\":[{\"a\":\"A1\",\"c\":[{\"t\":\"T1\"},{\"t\":\"T2\"}]},{\"a\":\"RECORD\",\"c\":[]}]}");
    assert_eq!(
        parse_track_listing(&pkt),
        listing(&[("A1", &["T1", "T2"]), ("RECORD", &[])])
    );
    assert!(parse_track_listing(&listing_packet("{not json")).is_empty());
    assert!(parse_track_listing(&[0x03, 0x00, 0x04, 0x03, 0x00]).is_empty());
}

#[test]
fn track_config_is_read_from_file() {
    let raw = b"{\"TrackColour\":[\"#112233\",7,\"#445566\"],\"metadata\":{\"title\":\"Hello\",\"artist\":\"Band\"}}\0";
    let info = parse_track_config("A2", "T9", raw);
    assert_eq!((info.album_id.as_str(), info.track_id.as_str()), ("A2", "T9"));
    assert_eq!(info.title, "Hello");
    assert_eq!(info.artist, "Band");
    assert_eq!(info.colours, vec!["#112233", "#445566"]);
    let broken = parse_track_config("A2", "T9", b"{\"metadata\":");
    assert_eq!(broken.title, "T9");
    assert_eq!(broken.artist, "Unknown");
    assert_eq!(broken.colours, vec!["#ffffff", "#ffffff"]);
}

#[test]
fn storage_is_read_from_reply() {
    let info = storage_from_reply(&storage_packet("{\"size\":\"1000\",\"free\":\"250\"}")).ok().unwrap();
    assert_eq!((info.total_bytes, info.free_bytes, info.used_bytes), (1000, 250, 750));
    assert!(matches!(storage_from_reply(&[1, 0, 5, 2]), Err(StorageReplyError::TooShort)));
    assert!(matches!(storage_from_reply(&storage_packet("{oops")), Err(StorageReplyError::BadJson(_))));
    let mut bad = storage_packet("{}");
    bad[4] = 0xff;
    assert!(matches!(storage_from_reply(&bad), Err(StorageReplyError::NotUtf8)));
}
