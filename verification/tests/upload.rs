use rustems::json::JsonValue;
use rustems::upload::{
    check_free_space, new_track_config, required_upload_bytes, stem_upload_metadata,
    track_config, track_config_upload_metadata, with_body_size, upload_packets, track_config_body,
};
use rustems::frame::{build_chunk_header, build_upload_init};

fn s(t: &str) -> JsonValue {
    JsonValue::Str(t.to_string())
}

fn n(t: &str) -> JsonValue {
    JsonValue::Number(t.to_string())
}

fn entries(v: &JsonValue) -> Vec<(String, JsonValue)> {
    match v {
        JsonValue::Object(e) => e.iter().map(|(k, v)| (k.clone(), clone(v))).collect(),
        _ => panic!("expected an object"),
    }
}

fn clone(v: &JsonValue) -> JsonValue {
    match v {
        JsonValue::Null => JsonValue::Null,
        JsonValue::Bool(b) => JsonValue::Bool(*b),
        JsonValue::Number(x) => JsonValue::Number(x.clone()),
        JsonValue::Str(x) => JsonValue::Str(x.clone()),
        JsonValue::Array(a) => JsonValue::Array(a.iter().map(clone).collect()),
        JsonValue::Object(_) => JsonValue::Object(entries(v)),
    }
}

fn same(a: &JsonValue, b: &JsonValue) -> bool {
    match (a, b) {
        (JsonValue::Null, JsonValue::Null) => true,
        (JsonValue::Bool(x), JsonValue::Bool(y)) => x == y,
        (JsonValue::Number(x), JsonValue::Number(y)) => x == y,
        (JsonValue::Str(x), JsonValue::Str(y)) => x == y,
        (JsonValue::Array(x), JsonValue::Array(y)) => x.len() == y.len() && x.iter().zip(y).all(|(p, q)| same(p, q)),
        (JsonValue::Object(x), JsonValue::Object(y)) => {
            x.len() == y.len() && x.iter().zip(y).all(|(p, q)| p.0 == q.0 && same(&p.1, &q.1))
        }
        _ => false,
    }
}

fn obj(e: Vec<(&str, JsonValue)>) -> JsonValue {
    JsonValue::Object(e.into_iter().map(|(k, v)| (k.to_string(), v)).collect())
}

#[test]
fn stem_metadata() {
    let m = stem_upload_metadata(123456, "T8", "A3", 2);
    let want = obj(vec![("size", n("123456")), ("type", s("stem-audio-mp3")), ("track", s("T8")), ("album", s("A3")), ("stem", n("2"))]);
    assert!(same(&m, &want));
}

#[test]
fn track_config_metadata() {
    let m = track_config_upload_metadata(0, "T1", "A1");
    let want = obj(vec![("size", n("0")), ("type", s("track-config")), ("track", s("T1")), ("album", s("A1"))]);
    assert!(same(&m, &want));
}

#[test]
fn body_size_replaces_size() {
    let m = with_body_size(stem_upload_metadata(1, "T1", "A1", 4), 2048);
    let want = obj(vec![("size", n("2048")), ("type", s("stem-audio-mp3")), ("track", s("T1")), ("album", s("A1")), ("stem", n("4"))]);
    assert!(same(&m, &want));
    let m = with_body_size(obj(vec![("type", s("x"))]), 7);
    assert!(same(&m, &obj(vec![("type", s("x")), ("size", n("7"))])));
    let m = with_body_size(JsonValue::Null, 9);
    assert!(same(&m, &obj(vec![("size", n("9"))])));
}

#[test]
fn track_config_structure() {
    let c = track_config("#FF0000", "#00FF00", "My Song", "id-1");
    let want = obj(vec![
        ("TrackColour", JsonValue::Array(vec![s("#FF0000"), s("#00FF00")])),
        ("tempos", JsonValue::Array(vec![obj(vec![("tempo_bpm", n("120")), ("time_ms", n("0"))])])),
        ("TrackGain_dB", n("0")),
        ("metadata", obj(vec![("title", s("My Song")), ("artist", s("Unknown")), ("global_id", s("id-1")), ("meta_version", s("1")), ("stems_version", s("1"))])),
    ]);
    assert!(same(&c, &want));
}

#[test]
fn new_track_config_has_a_v4_uuid() {
    let c = new_track_config("#A", "#B", "t");
    let meta = entries(&entries(&c)[3].1);
    let id = match &meta[2].1 {
        JsonValue::Str(id) => id.clone(),
        _ => panic!("expected a string id"),
    };
    let chars: Vec<char> = id.chars().collect();
    assert_eq!(chars.len(), 36);
    for (i, ch) in chars.iter().enumerate() {
        if [8, 13, 18, 23].contains(&i) {
            assert_eq!(*ch, '-');
        } else {
            assert!(ch.is_ascii_hexdigit() && !ch.is_ascii_uppercase());
        }
    }
    assert_eq!(chars[14], '4');
    assert!(['8', '9', 'a', 'b'].contains(&chars[19]));
    assert!(same(&c, &track_config("#A", "#B", "t", &id)));
    let other = new_track_config("#A", "#B", "t");
    assert!(!same(&c, &other));
}

#[test]
fn required_bytes_add_one_kib() {
    assert_eq!(required_upload_bytes(&[1000, 2000, 3000, 4000]), 11024);
    assert_eq!(required_upload_bytes(&[]), 1024);
}

#[test]
fn free_space_check() {
    assert!(check_free_space(100, 100).is_ok());
    let e = check_free_space(5 * 1_048_576 + 3, 2 * 1_048_576 + 9).err().unwrap();
    assert_eq!((e.need_mb, e.free_mb), (5, 2));
}

#[test]
fn upload_packets_announce_size_then_send_chunks() {
    let body = vec![7u8; 10000];
    let packets = upload_packets(track_config_upload_metadata(1, "T3", "A2"), &body);
    assert_eq!(packets.len(), 3);
    let json = b"{\"album\":\"A2\",\"size\":10000,\"track\":\"T3\",\"type\":\"track-config\"}";
    assert_eq!(packets[0], build_upload_init(json));
    assert_eq!(&packets[1][..8], &build_chunk_header(8192)[..]);
    assert_eq!(&packets[2][..8], &build_chunk_header(10000 - 8192)[..]);
    let null_meta = upload_packets(JsonValue::Null, &[]);
    assert_eq!(null_meta, vec![build_upload_init(b"{\"size\":0}")]);
}

#[test]
fn track_config_body_is_json_then_nul() {
    let body = track_config_body("#A", "#B", "My Song");
    assert_eq!(*body.last().unwrap(), 0u8);
    let text = std::str::from_utf8(&body[..body.len() - 1]).unwrap();
    let start = "{\"TrackColour\":[\"#A\",\"#B\"],\"TrackGain_dB\":0,\"metadata\":{\"artist\":\"Unknown\",\"global_id\":\"";
    assert!(text.starts_with(start));
    let rest = &text[start.len() + 36..];
    assert_eq!(
        rest,
        "\",\"meta_version\":\"1\",\"stems_version\":\"1\",\"title\":\"My Song\"},\"tempos\":[{\"tempo_bpm\":120,\"time_ms\":0}]}"
    );
}
