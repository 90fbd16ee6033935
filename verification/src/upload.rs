//! What an upload sends besides the audio: the metadata that announces each
//! file, the track config that names the track, the bytes they are written
//! to, and the storage check made before anything is sent.

use vstd::prelude::*;
use crate::json::{JsonValue, is_text, is_number_text, entries_with, json_bytes, spec_json_bytes};
use crate::frame::{file_packets, packets_view, upload_init, chunk_packets};
use crate::text::{decimal, decimal_text};

verus! {

fn text_value(s: &str) -> (v: JsonValue)
    ensures
        is_text(v, s@),
{
    JsonValue::Str(s.to_owned())
}

fn number_value(n: u64) -> (v: JsonValue)
    ensures
        is_number_text(v, decimal(n as nat)),
{
    JsonValue::Number(decimal_text(n))
}

/// Whether `v` is an object whose entries have exactly the given keys, in
/// order.
pub open spec fn has_keys(v: JsonValue, keys: Seq<Seq<char>>) -> bool {
    v matches JsonValue::Object(e) && e@.len() == keys.len() && forall|i: int|
        0 <= i < keys.len() ==> (#[trigger] e@[i]).0@ == keys[i]
}

/// The value under the `i`-th entry of an object.
pub open spec fn entry_value(v: JsonValue, i: int) -> JsonValue {
    match v {
        JsonValue::Object(e) => e@[i].1,
        _ => JsonValue::Null,
    }
}

/// Whether `m` is the metadata announcing one stem's audio:
/// `{"size", "type": "stem-audio-mp3", "track", "album", "stem"}`.
pub open spec fn is_stem_metadata(m: JsonValue, size: nat, track_id: Seq<char>, album_id: Seq<char>, stem: nat) -> bool {
    &&& has_keys(m, seq!["size"@, "type"@, "track"@, "album"@, "stem"@])
    &&& is_number_text(entry_value(m, 0), decimal(size))
    &&& is_text(entry_value(m, 1), "stem-audio-mp3"@)
    &&& is_text(entry_value(m, 2), track_id)
    &&& is_text(entry_value(m, 3), album_id)
    &&& is_number_text(entry_value(m, 4), decimal(stem))
}

/// The metadata announcing one stem's audio.
pub fn stem_upload_metadata(size: usize, track_id: &str, album_id: &str, stem: usize) -> (m: JsonValue)
    ensures
        is_stem_metadata(m, size as nat, track_id@, album_id@, stem as nat),
{
    let mut e: Vec<(String, JsonValue)> = Vec::new();
    e.push((String::from_str("size"), number_value(size as u64)));
    e.push((String::from_str("type"), text_value("stem-audio-mp3")));
    e.push((String::from_str("track"), text_value(track_id)));
    e.push((String::from_str("album"), text_value(album_id)));
    e.push((String::from_str("stem"), number_value(stem as u64)));
    JsonValue::Object(e)
}

/// The metadata announcing a track config:
/// `{"size", "type": "track-config", "track", "album"}`.
pub fn track_config_upload_metadata(size: usize, track_id: &str, album_id: &str) -> (m: JsonValue)
    ensures
        has_keys(m, seq!["size"@, "type"@, "track"@, "album"@]),
        is_number_text(entry_value(m, 0), decimal(size as nat)),
        is_text(entry_value(m, 1), "track-config"@),
        is_text(entry_value(m, 2), track_id@),
        is_text(entry_value(m, 3), album_id@),
{
    let mut e: Vec<(String, JsonValue)> = Vec::new();
    e.push((String::from_str("size"), number_value(size as u64)));
    e.push((String::from_str("type"), text_value("track-config")));
    e.push((String::from_str("track"), text_value(track_id)));
    e.push((String::from_str("album"), text_value(album_id)));
    JsonValue::Object(e)
}

/// Whether `m` is `metadata` with `"size"` set to `size` (the entry is
/// replaced where there is one, else appended; `null` becomes an object).
pub open spec fn sized_metadata(metadata: JsonValue, size: nat, m: JsonValue) -> bool {
    match metadata {
        JsonValue::Object(entries) => m matches JsonValue::Object(e) && exists|k: String, v: JsonValue|
            k@ == "size"@ && is_number_text(v, decimal(size)) && e@ == entries_with(entries@, k, v),
        _ => m matches JsonValue::Object(e) && e@.len() == 1 && e@[0].0@ == "size"@ && is_number_text(
            e@[0].1,
            decimal(size),
        ),
    }
}

/// The metadata of a file about to be sent, with `"size"` set to the length
/// of its body (the entry is replaced where there is one, else appended).
pub fn with_body_size(metadata: JsonValue, size: usize) -> (m: JsonValue)
    requires
        metadata is Object || metadata is Null,
    ensures
        sized_metadata(metadata, size as nat, m),
{
    let mut m = metadata;
    let key = String::from_str("size");
    let value = number_value(size as u64);
    m.set_field(key, value);
    m
}

/// Whether `c` is the config of a new track: its two colours, a tempo of
/// 120 bpm from the start, no gain, and metadata naming it (artist
/// `Unknown`, the given global id, versions `1`).
pub open spec fn is_track_config(
    c: JsonValue,
    colour1: Seq<char>,
    colour2: Seq<char>,
    title: Seq<char>,
    global_id: Seq<char>,
) -> bool {
    &&& has_keys(c, seq!["TrackColour"@, "tempos"@, "TrackGain_dB"@, "metadata"@])
    &&& entry_value(c, 0) matches JsonValue::Array(cs) && cs@.len() == 2 && is_text(cs@[0], colour1)
        && is_text(cs@[1], colour2)
    &&& entry_value(c, 1) matches JsonValue::Array(ts) && ts@.len() == 1 && has_keys(
        ts@[0],
        seq!["tempo_bpm"@, "time_ms"@],
    ) && is_number_text(entry_value(ts@[0], 0), "120"@) && is_number_text(entry_value(ts@[0], 1), "0"@)
    &&& is_number_text(entry_value(c, 2), "0"@)
    &&& has_keys(entry_value(c, 3), seq!["title"@, "artist"@, "global_id"@, "meta_version"@, "stems_version"@])
    &&& is_text(entry_value(entry_value(c, 3), 0), title)
    &&& is_text(entry_value(entry_value(c, 3), 1), "Unknown"@)
    &&& is_text(entry_value(entry_value(c, 3), 2), global_id)
    &&& is_text(entry_value(entry_value(c, 3), 3), "1"@)
    &&& is_text(entry_value(entry_value(c, 3), 4), "1"@)
}

/// The config of a new track with the given colours, title and global id.
pub fn track_config(colour1: &str, colour2: &str, title: &str, global_id: &str) -> (c: JsonValue)
    ensures
        is_track_config(c, colour1@, colour2@, title@, global_id@),
{
    let mut colours: Vec<JsonValue> = Vec::new();
    colours.push(text_value(colour1));
    colours.push(text_value(colour2));
    let mut tempo: Vec<(String, JsonValue)> = Vec::new();
    tempo.push((String::from_str("tempo_bpm"), JsonValue::Number(String::from_str("120"))));
    tempo.push((String::from_str("time_ms"), JsonValue::Number(String::from_str("0"))));
    let mut tempos: Vec<JsonValue> = Vec::new();
    tempos.push(JsonValue::Object(tempo));
    let mut meta: Vec<(String, JsonValue)> = Vec::new();
    meta.push((String::from_str("title"), text_value(title)));
    meta.push((String::from_str("artist"), text_value("Unknown")));
    meta.push((String::from_str("global_id"), text_value(global_id)));
    meta.push((String::from_str("meta_version"), text_value("1")));
    meta.push((String::from_str("stems_version"), text_value("1")));
    let mut e: Vec<(String, JsonValue)> = Vec::new();
    e.push((String::from_str("TrackColour"), JsonValue::Array(colours)));
    e.push((String::from_str("tempos"), JsonValue::Array(tempos)));
    e.push((String::from_str("TrackGain_dB"), JsonValue::Number(String::from_str("0"))));
    e.push((String::from_str("metadata"), JsonValue::Object(meta)));
    JsonValue::Object(e)
}

/// Whether a character is a lower-case hexadecimal digit.
pub open spec fn is_lower_hex(c: char) -> bool {
    ('0' <= c && c <= '9') || ('a' <= c && c <= 'f')
}

/// The text of a random (version 4) UUID: 36 characters, hyphens at 8, 13,
/// 18 and 23, lower-case hexadecimal digits elsewhere, `4` at 14 (the
/// version) and one of `8 9 a b` at 19 (the variant).
pub open spec fn is_uuid_v4_text(s: Seq<char>) -> bool {
    &&& s.len() == 36
    &&& forall|i: int|
        0 <= i < 36 ==> if i == 8 || i == 13 || i == 18 || i == 23 {
            #[trigger] s[i] == '-'
        } else {
            is_lower_hex(s[i])
        }
    &&& s[14] == '4'
    &&& (s[19] == '8' || s[19] == '9' || s[19] == 'a' || s[19] == 'b')
}

/// A fresh random global id.
///
/// Calls `uuid::Uuid::new_v4` and formats it with `to_string`; the contract
/// claims what the uuid source shows of every outcome: the hyphenated
/// lower-case form with the version-4 and RFC variant bits set. Which id
/// comes out is left open (it is random).
#[verifier::external_body]
fn new_global_id() -> (id: String)
    ensures
        is_uuid_v4_text(id@),
{
    uuid::Uuid::new_v4().to_string()
}

/// The config of a new track with a fresh random global id.
pub fn new_track_config(colour1: &str, colour2: &str, title: &str) -> (c: JsonValue)
    ensures
        exists|id: Seq<char>| is_uuid_v4_text(id) && is_track_config(c, colour1@, colour2@, title@, id),
{
    let id = new_global_id();
    track_config(colour1, colour2, title, id.as_str())
}

/// The sum of some sizes.
pub open spec fn sum_sizes(s: Seq<usize>) -> nat
    decreases s.len(),
{
    if s.len() == 0 {
        0
    } else {
        sum_sizes(s.drop_last()) + s.last() as nat
    }
}

/// The room an upload needs before the safety margin: the audio sizes plus
/// 1 KiB for the track config.
pub fn required_upload_bytes(sizes: &[usize]) -> (n: u64)
    requires
        sum_sizes(sizes@) + 1024 <= u64::MAX,
    ensures
        n == sum_sizes(sizes@) + 1024,
{
    let mut total: u64 = 0;
    let mut i: usize = 0;
    while i < sizes.len()
        invariant
            0 <= i <= sizes@.len(),
            total == sum_sizes(sizes@.take(i as int)),
            sum_sizes(sizes@) + 1024 <= u64::MAX,
        decreases sizes@.len() - i,
    {
        assert(sizes@.take(i + 1).drop_last() =~= sizes@.take(i as int));
        proof { lemma_sum_prefix(sizes@, i + 1); }
        total = total + sizes[i] as u64;
        i = i + 1;
    }
    assert(sizes@.take(sizes@.len() as int) =~= sizes@);
    total + 1024
}

proof fn lemma_sum_prefix(s: Seq<usize>, k: int)
    requires
        0 <= k <= s.len(),
    ensures
        sum_sizes(s.take(k)) <= sum_sizes(s),
    decreases s.len(),
{
    if k < s.len() {
        assert(s.drop_last().take(k) =~= s.take(k));
        lemma_sum_prefix(s.drop_last(), k);
    } else {
        assert(s.take(k) =~= s);
    }
}

/// How far an upload is from fitting, in whole MiB.
pub struct StorageShortfall {
    pub need_mb: u64,
    pub free_mb: u64,
}

/// Refuses an upload that needs more room than the device has free.
pub fn check_free_space(required: u64, free: u64) -> (r: Result<(), StorageShortfall>)
    ensures
        required <= free ==> r is Ok,
        required > free ==> (r matches Err(s) && s.need_mb == required / 1_048_576 && s.free_mb
            == free / 1_048_576),
{
    if required > free {
        Err(StorageShortfall { need_mb: required / 1_048_576, free_mb: free / 1_048_576 })
    } else {
        Ok(())
    }
}

/// The packets that send a file: its metadata with `"size"` set to the
/// body's length, written as JSON and framed as the upload's first packet,
/// then the body in chunks.
pub fn upload_packets(metadata: JsonValue, body: &[u8]) -> (packets: Vec<Vec<u8>>)
    requires
        metadata is Object || metadata is Null,
    ensures
        exists|m: JsonValue|
            sized_metadata(metadata, body@.len(), m) && packets_view(packets@) == seq![
                upload_init(spec_json_bytes(m)),
            ] + chunk_packets(body@, 0),
{
    let m = with_body_size(metadata, body.len());
    let json = json_bytes(&m);
    file_packets(json.as_slice(), body)
}

/// The body of a new track's config file: the config written as JSON,
/// followed by one NUL byte.
pub fn track_config_body(colour1: &str, colour2: &str, title: &str) -> (body: Vec<u8>)
    ensures
        exists|id: Seq<char>, c: JsonValue|
            is_uuid_v4_text(id) && is_track_config(c, colour1@, colour2@, title@, id) && body@
                == spec_json_bytes(c).push(0u8),
{
    let c = new_track_config(colour1, colour2, title);
    let mut body = json_bytes(&c);
    body.push(0x00);
    body
}

/// The sizes of several files add up one file at a time: none sum to 0, and
/// one more file adds its size.
pub proof fn lemma_sizes_add_up(sizes: Seq<usize>, size: usize)
    ensures
        sum_sizes(Seq::empty()) == 0,
        sum_sizes(sizes.push(size)) == sum_sizes(sizes) + size,
{
    assert(sizes.push(size).drop_last() =~= sizes);
}

} // verus!
