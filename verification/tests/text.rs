use rustems::audio::{encode_stem_mp3, Mp3Error};
use rustems::audio::{is_encodable_wav, mp3_buffer_size, stereo_planes};
use rustems::json::JsonValue;
use rustems::text::{decimal_text, hex_colour, is_white_space_char, parse_decimal, text_eq};

#[test]
fn decimal_texts() {
    assert_eq!(decimal_text(0), "0");
    assert_eq!(decimal_text(7), "7");
    assert_eq!(decimal_text(1024), "1024");
    assert_eq!(decimal_text(u64::MAX), "18446744073709551615");
}

#[test]
fn decimal_parsing_follows_str_parse() {
    assert_eq!(parse_decimal("42", u64::MAX), Some(42));
    assert_eq!(parse_decimal("+42", u64::MAX), Some(42));
    assert_eq!(parse_decimal("007", u64::MAX), Some(7));
    assert_eq!(parse_decimal("", u64::MAX), None);
    assert_eq!(parse_decimal("+", u64::MAX), None);
    assert_eq!(parse_decimal("-1", u64::MAX), None);
    assert_eq!(parse_decimal("1a", u64::MAX), None);
    assert_eq!(parse_decimal(" 1", u64::MAX), None);
    assert_eq!(parse_decimal("18446744073709551615", u64::MAX), Some(u64::MAX));
    assert_eq!(parse_decimal("18446744073709551616", u64::MAX), None);
    assert_eq!(parse_decimal("4294967296", 0xFFFF_FFFF), None);
    for v in ["0", "12", "+3", "x", "99999999999", "4294967295"] {
        assert_eq!(parse_decimal(v, 0xFFFF_FFFF).map(|x| x as u32), v.parse::<u32>().ok());
    }
}

#[test]
fn decimal_roundtrip() {
    for v in [0u64, 1, 9, 10, 99, 100, 65535, 1 << 40, u64::MAX] {
        assert_eq!(parse_decimal(&decimal_text(v), u64::MAX), Some(v));
    }
}

#[test]
fn colours_are_upper_hex() {
    assert_eq!(hex_colour(255, 0, 16), "#FF0010");
    assert_eq!(hex_colour(0xab, 0xcd, 0xef), "#ABCDEF");
    assert_eq!(hex_colour(0, 0, 0), "#000000");
}

#[test]
fn text_equality() {
    assert!(text_eq("abc", "abc"));
    assert!(!text_eq("abc", "abd"));
    assert!(!text_eq("abc", "ab"));
    assert!(text_eq("", ""));
}

#[test]
fn json_lookup_and_assignment() {
    let v = JsonValue::Object(vec![("a".to_string(), JsonValue::Str("x".to_string())), ("b".to_string(), JsonValue::Null)]);
    assert!(matches!(v.get("a"), Some(JsonValue::Str(x)) if x == "x"));
    assert!(matches!(v.get("b"), Some(JsonValue::Null)));
    assert!(v.get("c").is_none());
    assert!(JsonValue::Null.get("a").is_none());
    assert_eq!(v.get("a").unwrap().as_str().map(|s| s.as_str()), Some("x"));
    assert!(v.as_array().is_none());
    let mut w = v;
    w.set_field("a".to_string(), JsonValue::Bool(true));
    w.set_field("z".to_string(), JsonValue::Bool(false));
    assert!(matches!(w.get("a"), Some(JsonValue::Bool(true))));
    assert!(matches!(w.get("b"), Some(JsonValue::Null)));
    assert!(matches!(w.get("z"), Some(JsonValue::Bool(false))));
    match &w {
        JsonValue::Object(e) => {
            assert_eq!(e.len(), 3);
            assert!(e[0].0 == "a" && matches!(e[0].1, JsonValue::Bool(true)));
            assert!(e[2].0 == "z" && matches!(e[2].1, JsonValue::Bool(false)));
        }
        _ => panic!("expected an object"),
    }
}

#[test]
fn stereo_planes_of_each_layout() {
    assert_eq!(stereo_planes(&[1, 2, 3], 1), (vec![1, 2, 3], vec![1, 2, 3]));
    assert_eq!(stereo_planes(&[1, 2, 3, 4, 5], 2), (vec![1, 3], vec![2, 4]));
    assert_eq!(stereo_planes(&[1, 2, 3, 4, 5, 6, 7, 8], 3), (vec![1, 4], vec![2, 5]));
    assert_eq!(stereo_planes::<i32>(&[], 4), (vec![], vec![]));
    assert!(is_encodable_wav(2, 44100));
    assert!(!is_encodable_wav(1, 44100));
    assert!(!is_encodable_wav(2, 48000));
    assert_eq!(mp3_buffer_size(0), 7200);
    assert_eq!(mp3_buffer_size(1000), 7825);
}

#[test]
fn white_space_is_unicode_white_space() {
    for c in ['\t', '\n', '\u{b}', '\u{c}', '\r', ' ', '\u{85}', '\u{a0}', '\u{2003}', '\u{3000}'] {
        assert!(is_white_space_char(c));
        assert_eq!(is_white_space_char(c), c.is_whitespace());
    }
    for c in ['a', '0', '\u{200b}', '\u{feff}', '_'] {
        assert!(!is_white_space_char(c));
        assert_eq!(is_white_space_char(c), c.is_whitespace());
    }
}

#[test]
fn stems_encode_as_stereo_mp3() {
    assert!(matches!(encode_stem_mp3(1, 44100, &[0i16; 4]), Err(Mp3Error::UnexpectedSpec)));
    assert!(matches!(encode_stem_mp3(2, 48000, &[0i16; 4]), Err(Mp3Error::UnexpectedSpec)));
    let samples: Vec<i16> = (0..8820).map(|i| ((i % 200) as i16 - 100) * 50).collect();
    let mp3 = match encode_stem_mp3(2, 44100, &samples) {
        Ok(b) => b,
        Err(_) => panic!("encoding failed"),
    };
    assert!(!mp3.is_empty());
    assert_eq!(mp3[0], 0xFF);
    assert_eq!(mp3[1] & 0xE0, 0xE0);
    // MPEG-1 layer III at 320 kbps, 44100 Hz: bitrate index 14, rate index 0.
    let frame = mp3.windows(2).position(|w| w[0] == 0xFF && w[1] & 0xE0 == 0xE0).unwrap();
    assert_eq!(mp3[frame + 2] >> 4, 14);
    assert_eq!((mp3[frame + 2] >> 2) & 0x3, 0);
}
