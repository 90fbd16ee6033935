//! What the device reports about its contents: the track listing answered
//! to a ping, the config of each track, the storage figures, and the choice
//! of album and track ids for a new upload.

use vstd::prelude::*;
use vstd::utf8::*;
use crate::json::{JsonValue, field, as_text, as_items, parse_json_text, parse_json_bytes, spec_parse_json, spec_parse_json_bytes};
use crate::frame::{frame, lemma_frame_declares_its_length};
use crate::text::{utf8_text, parse_decimal, parse_unsigned, decimal_text, decimal, lemma_parse_decimal_roundtrip};

verus! {

/// A track listing as plain text: album ids, each with its track ids.
pub type Listing = Seq<(Seq<char>, Seq<Seq<char>>)>;

/// The text of a listing held in strings.
pub open spec fn listing_view(l: Seq<(String, Vec<String>)>) -> Listing {
    l.map_values(|e: (String, Vec<String>)| (e.0@, strings_view(e.1@)))
}

/// The texts of a sequence of strings.
pub open spec fn strings_view(s: Seq<String>) -> Seq<Seq<char>> {
    s.map_values(|t: String| t@)
}

/// The JSON bytes of a listing packet: after its 4-byte header, up to the
/// position its length field declares (or the packet's end).
pub open spec fn listing_json_bytes(pkt: Seq<u8>) -> Option<Seq<u8>> {
    if pkt.len() < 5 || pkt[2] != 0x05 || pkt[3] != 0x03 {
        None
    } else {
        let total = pkt[0] + 256 * pkt[1];
        let null_index = if 1 + total < pkt.len() { 1 + total } else { pkt.len() as int };
        if null_index <= 4 {
            None
        } else {
            Some(pkt.subrange(4, null_index))
        }
    }
}

/// Takes the JSON text out of a track-listing packet; `None` when the packet
/// is not a listing, holds no JSON, or the JSON is not UTF-8.
pub fn listing_json_text(pkt: &[u8]) -> (r: Option<String>)
    ensures
        r is Some <==> (listing_json_bytes(pkt@) matches Some(b) && valid_utf8(b)),
        r matches Some(t) ==> t@ == decode_utf8(listing_json_bytes(pkt@)->0),
{
    if pkt.len() < 5 || pkt[2] != 0x05 || pkt[3] != 0x03 {
        return None;
    }
    let total: usize = (pkt[0] as usize) + (pkt[1] as usize) * 256;
    let null_index: usize = if 1 + total < pkt.len() { 1 + total } else { pkt.len() };
    if null_index <= 4 {
        return None;
    }
    let json = slice_range(pkt, 4, null_index);
    utf8_text(json.as_slice())
}

/// The bytes of `s` from `from` to `to`.
pub fn slice_range(s: &[u8], from: usize, to: usize) -> (r: Vec<u8>)
    requires
        from <= to <= s@.len(),
    ensures
        r@ == s@.subrange(from as int, to as int),
{
    let mut r: Vec<u8> = Vec::new();
    let mut i: usize = from;
    while i < to
        invariant
            from <= i <= to <= s@.len(),
            r@ == s@.subrange(from as int, i as int),
        decreases to - i,
    {
        r.push(s[i]);
        i = i + 1;
        assert(s@.subrange(from as int, i as int) =~= s@.subrange(from as int, i - 1).push(s@[i - 1]));
    }
    r
}

/// The track ids of a listing entry's `"c"` items: the `"t"` of each item
/// that has a string there.
pub open spec fn track_ids_of(items: Seq<JsonValue>) -> Seq<Seq<char>>
    decreases items.len(),
{
    if items.len() == 0 {
        Seq::empty()
    } else {
        let rest = track_ids_of(items.drop_last());
        match as_text(field(items.last(), "t"@)) {
            Some(t) => rest.push(t),
            None => rest,
        }
    }
}

/// One listing entry: its album id (`"a"`, which must be a string) and its
/// track ids (from `"c"`, none when `"c"` is not an array).
pub open spec fn album_entry(e: JsonValue) -> Option<(Seq<char>, Seq<Seq<char>>)> {
    match as_text(field(e, "a"@)) {
        Some(a) => Some(
            (
                a,
                match as_items(field(e, "c"@)) {
                    Some(items) => track_ids_of(items),
                    None => Seq::empty(),
                },
            ),
        ),
        None => None,
    }
}

/// The listing entries of the `"l"` items, skipping items without an album id.
pub open spec fn entries_of(items: Seq<JsonValue>) -> Listing
    decreases items.len(),
{
    if items.len() == 0 {
        Seq::empty()
    } else {
        let rest = entries_of(items.drop_last());
        match album_entry(items.last()) {
            Some(e) => rest.push(e),
            None => rest,
        }
    }
}

/// The listing that a listing document describes (empty when `"l"` is not
/// an array).
pub open spec fn listing_of(doc: JsonValue) -> Listing {
    match as_items(field(doc, "l"@)) {
        Some(items) => entries_of(items),
        None => Seq::empty(),
    }
}

fn track_ids(items: &Vec<JsonValue>) -> (ids: Vec<String>)
    ensures
        strings_view(ids@) == track_ids_of(items@),
{
    let mut ids: Vec<String> = Vec::new();
    let mut i: usize = 0;
    while i < items.len()
        invariant
            0 <= i <= items@.len(),
            strings_view(ids@) == track_ids_of(items@.take(i as int)),
        decreases items@.len() - i,
    {
        let ghost before = ids@;
        let ghost prefix = items@.take(i + 1);
        assert(prefix.drop_last() =~= items@.take(i as int));
        assert(prefix.last() == items@[i as int]);
        match items[i].get("t") {
            Some(t) => match t.as_str() {
                Some(s) => {
                    ids.push(s.clone());
                    assert(strings_view(ids@) =~= strings_view(before).push(s@));
                },
                None => {},
            },
            None => {},
        }
        i = i + 1;
    }
    assert(items@.take(items@.len() as int) =~= items@);
    ids
}

/// Reads the album ids and track ids out of a parsed listing document.
pub fn listing_from_json(doc: &JsonValue) -> (listing: Vec<(String, Vec<String>)>)
    ensures
        listing_view(listing@) == listing_of(*doc),
{
    let mut listing: Vec<(String, Vec<String>)> = Vec::new();
    let items = match doc.get("l") {
        Some(l) => match l.as_array() {
            Some(items) => items,
            None => {
                assert(listing_view(listing@) =~= Seq::<(Seq<char>, Seq<Seq<char>>)>::empty());
                return listing;
            },
        },
        None => {
            assert(listing_view(listing@) =~= Seq::<(Seq<char>, Seq<Seq<char>>)>::empty());
            return listing;
        },
    };
    let mut i: usize = 0;
    while i < items.len()
        invariant
            0 <= i <= items@.len(),
            listing_view(listing@) == entries_of(items@.take(i as int)),
        decreases items@.len() - i,
    {
        let ghost before = listing@;
        let ghost prefix = items@.take(i + 1);
        assert(prefix.drop_last() =~= items@.take(i as int));
        assert(prefix.last() == items@[i as int]);
        let item = &items[i];
        match item.get("a") {
            Some(a) => match a.as_str() {
                Some(album) => {
                    let tracks: Vec<String> = match item.get("c") {
                        Some(c) => match c.as_array() {
                            Some(cs) => track_ids(cs),
                            None => Vec::new(),
                        },
                        None => Vec::new(),
                    };
                    proof {
                        if as_items(field(*item, "c"@)) is None {
                            assert(strings_view(tracks@) =~= Seq::<Seq<char>>::empty());
                        }
                    }
                    listing.push((album.clone(), tracks));
                    assert(listing_view(listing@) =~= listing_view(before).push(
                        album_entry(*item)->0,
                    ));
                },
                None => {},
            },
            None => {},
        }
        i = i + 1;
    }
    assert(items@.take(items@.len() as int) =~= items@);
    listing
}

/// One track on the device, with what its config says about it.
pub struct TrackInfo {
    pub album_id: String,
    pub track_id: String,
    pub title: String,
    pub artist: String,
    pub colours: Vec<String>,
}

/// One album on the device and its tracks.
pub struct AlbumInfo {
    pub album_id: String,
    pub tracks: Vec<TrackInfo>,
}

/// The device's storage figures, in bytes.
pub struct StorageInfo {
    pub total_bytes: u64,
    pub free_bytes: u64,
    pub used_bytes: u64,
}

/// A track config as the device sends it, without its trailing NUL byte if
/// it has one.
pub open spec fn config_json_bytes(raw: Seq<u8>) -> Seq<u8> {
    if raw.len() > 0 && raw.last() == 0 {
        raw.drop_last()
    } else {
        raw
    }
}

/// Drops the NUL byte that ends a track config, if there is one.
pub fn track_config_json_bytes(raw: &[u8]) -> (json: Vec<u8>)
    ensures
        json@ == config_json_bytes(raw@),
{
    if raw.len() > 0 && raw[raw.len() - 1] == 0x00 {
        slice_range(raw, 0, raw.len() - 1)
    } else {
        let r = slice_range(raw, 0, raw.len());
        assert(raw@.subrange(0, raw@.len() as int) =~= raw@);
        r
    }
}

/// The strings among a sequence of JSON values, in order.
pub open spec fn texts_of(items: Seq<JsonValue>) -> Seq<Seq<char>>
    decreases items.len(),
{
    if items.len() == 0 {
        Seq::empty()
    } else {
        let rest = texts_of(items.drop_last());
        match as_text(items.last()) {
            Some(t) => rest.push(t),
            None => rest,
        }
    }
}

/// The colour a track gets when its config names none.
pub open spec fn default_colours() -> Seq<Seq<char>> {
    seq!["#ffffff"@, "#ffffff"@]
}

/// The title of a track: `metadata.title` of its config, else its id.
pub open spec fn config_title(config: Option<JsonValue>, track_id: Seq<char>) -> Seq<char> {
    match config {
        Some(v) => match as_text(field(field(v, "metadata"@), "title"@)) {
            Some(t) => t,
            None => track_id,
        },
        None => track_id,
    }
}

/// The artist of a track: `metadata.artist` of its config, else `Unknown`.
pub open spec fn config_artist(config: Option<JsonValue>) -> Seq<char> {
    match config {
        Some(v) => match as_text(field(field(v, "metadata"@), "artist"@)) {
            Some(t) => t,
            None => "Unknown"@,
        },
        None => "Unknown"@,
    }
}

/// The colours of a track: the strings of its config's `TrackColour` array,
/// else two white colours.
pub open spec fn config_colours(config: Option<JsonValue>) -> Seq<Seq<char>> {
    match config {
        Some(v) => match as_items(field(v, "TrackColour"@)) {
            Some(items) => texts_of(items),
            None => default_colours(),
        },
        None => default_colours(),
    }
}

fn texts(items: &Vec<JsonValue>) -> (out: Vec<String>)
    ensures
        strings_view(out@) == texts_of(items@),
{
    let mut out: Vec<String> = Vec::new();
    let mut i: usize = 0;
    while i < items.len()
        invariant
            0 <= i <= items@.len(),
            strings_view(out@) == texts_of(items@.take(i as int)),
        decreases items@.len() - i,
    {
        let ghost before = out@;
        let ghost prefix = items@.take(i + 1);
        assert(prefix.drop_last() =~= items@.take(i as int));
        assert(prefix.last() == items@[i as int]);
        match items[i].as_str() {
            Some(s) => {
                out.push(s.clone());
                assert(strings_view(out@) =~= strings_view(before).push(s@));
            },
            None => {},
        }
        i = i + 1;
    }
    assert(items@.take(items@.len() as int) =~= items@);
    out
}

fn white_colours() -> (out: Vec<String>)
    ensures
        strings_view(out@) == default_colours(),
{
    let mut out: Vec<String> = Vec::new();
    out.push(String::from_str("#ffffff"));
    out.push(String::from_str("#ffffff"));
    assert(strings_view(out@) =~= default_colours());
    out
}

/// Whether `info` describes the track `track` of `album` whose parsed
/// config is `config` (`None` when the config was not valid JSON).
pub open spec fn describes_track(info: TrackInfo, album: Seq<char>, track: Seq<char>, config: Option<JsonValue>) -> bool {
    &&& info.album_id@ == album
    &&& info.track_id@ == track
    &&& info.title@ == config_title(config, track)
    &&& info.artist@ == config_artist(config)
    &&& strings_view(info.colours@) == config_colours(config)
}

/// Describes a track from its parsed config (`None` when the config was not
/// valid JSON): title, artist and colours come from the config where it has
/// them, with the track id, `Unknown` and two white colours standing in.
pub fn track_info_from_json(album_id: &str, track_id: &str, config: Option<&JsonValue>) -> (info: TrackInfo)
    ensures
        describes_track(
            info,
            album_id@,
            track_id@,
            match config {
                Some(v) => Some(*v),
                None => None,
            },
        ),
        info.album_id@ == album_id@,
        info.track_id@ == track_id@,
        info.title@ == config_title(
            match config {
                Some(v) => Some(*v),
                None => None,
            },
            track_id@,
        ),
        info.artist@ == config_artist(
            match config {
                Some(v) => Some(*v),
                None => None,
            },
        ),
        strings_view(info.colours@) == config_colours(
            match config {
                Some(v) => Some(*v),
                None => None,
            },
        ),
{
    match config {
        Some(v) => {
            let meta = v.get("metadata");
            let title = match meta {
                Some(m) => match m.get("title") {
                    Some(t) => match t.as_str() {
                        Some(s) => s.clone(),
                        None => track_id.to_owned(),
                    },
                    None => track_id.to_owned(),
                },
                None => track_id.to_owned(),
            };
            let artist = match meta {
                Some(m) => match m.get("artist") {
                    Some(t) => match t.as_str() {
                        Some(s) => s.clone(),
                        None => String::from_str("Unknown"),
                    },
                    None => String::from_str("Unknown"),
                },
                None => String::from_str("Unknown"),
            };
            let colours = match v.get("TrackColour") {
                Some(c) => match c.as_array() {
                    Some(items) => texts(items),
                    None => white_colours(),
                },
                None => white_colours(),
            };
            TrackInfo {
                album_id: album_id.to_owned(),
                track_id: track_id.to_owned(),
                title,
                artist,
                colours,
            }
        },
        None => TrackInfo {
            album_id: album_id.to_owned(),
            track_id: track_id.to_owned(),
            title: track_id.to_owned(),
            artist: String::from_str("Unknown"),
            colours: white_colours(),
        },
    }
}

/// Why a storage answer could not be read.
#[derive(Debug, PartialEq, Eq, Structural, Clone, Copy)]
pub enum StorageError {
    /// The answer has fewer than 5 bytes.
    TooShort,
    /// The JSON part of the answer is not UTF-8.
    NotUtf8,
}

/// The end of the JSON part of a storage answer: the declared end, or the
/// end of the packet if that comes first.
pub open spec fn storage_json_end(resp: Seq<u8>) -> int {
    let declared = 2 + resp[0] + 256 * resp[1];
    if declared < resp.len() {
        declared
    } else {
        resp.len() as int
    }
}

/// Where the JSON part of a storage answer ends (the answer must hold at
/// least its two length bytes).
pub fn storage_json_end_index(resp: &[u8]) -> (end: usize)
    requires
        resp@.len() >= 2,
    ensures
        end == storage_json_end(resp@),
{
    let declared: usize = 2 + (resp[0] as usize) + (resp[1] as usize) * 256;
    if declared < resp.len() { declared } else { resp.len() }
}

/// `s` without the NUL characters at its end.
pub open spec fn trim_trailing_nul(s: Seq<char>) -> Seq<char>
    decreases s.len(),
{
    if s.len() > 0 && s.last() == '\0' {
        trim_trailing_nul(s.drop_last())
    } else {
        s
    }
}

/// Takes the JSON text out of the device's answer to a storage query
/// (`[len len 05 02] json...`): the bytes from offset 4 to the declared end,
/// decoded as UTF-8, with trailing NUL characters dropped.
pub fn storage_json_text(resp: &[u8]) -> (r: Result<String, StorageError>)
    requires
        resp@.len() < 5 || storage_json_end(resp@) >= 4,
    ensures
        resp@.len() < 5 ==> r == Err::<String, StorageError>(StorageError::TooShort),
        resp@.len() >= 5 ==> {
            let b = resp@.subrange(4, storage_json_end(resp@));
            &&& r is Err <==> !valid_utf8(b)
            &&& r is Err ==> r == Err::<String, StorageError>(StorageError::NotUtf8)
            &&& r matches Ok(t) ==> t@ == trim_trailing_nul(decode_utf8(b))
        },
{
    if resp.len() < 5 {
        return Err(StorageError::TooShort);
    }
    let json_end = storage_json_end_index(resp);
    let json = slice_range(resp, 4, json_end);
    match utf8_text(json.as_slice()) {
        Some(text) => Ok(without_trailing_nul(text.as_str())),
        None => Err(StorageError::NotUtf8),
    }
}

proof fn lemma_trim_prefix(s: Seq<char>, k: int)
    requires
        0 <= k <= s.len(),
        forall|j: int| k <= j < s.len() ==> s[j] == '\0',
        k == 0 || s[k - 1] != '\0',
    ensures
        trim_trailing_nul(s) == s.take(k),
    decreases s.len(),
{
    if s.len() > k {
        assert(s.drop_last().take(k) =~= s.take(k));
        lemma_trim_prefix(s.drop_last(), k);
    } else {
        assert(s.take(k) =~= s);
    }
}

/// Drops the NUL characters at the end of a string.
pub fn without_trailing_nul(s: &str) -> (r: String)
    ensures
        r@ == trim_trailing_nul(s@),
{
    let n = s.unicode_len();
    let mut k: usize = n;
    while k > 0 && s.get_char(k - 1) == '\0'
        invariant
            0 <= k <= n,
            n == s@.len(),
            forall|j: int| k <= j < n ==> s@[j] == '\0',
        decreases k,
    {
        k = k - 1;
    }
    proof {
        lemma_trim_prefix(s@, k as int);
    }
    let t = s.substring_char(0, k);
    String::from_str(t)
}

/// A byte count as the storage answer gives it: a string of decimal digits
/// under `key`, read as 0 when it is missing or not a number.
pub open spec fn count_field(doc: JsonValue, key: Seq<char>) -> u64 {
    match as_text(field(doc, key)) {
        Some(t) => match parse_unsigned(t, u64::MAX as nat) {
            Some(n) => n as u64,
            None => 0,
        },
        None => 0,
    }
}

fn count_of(doc: &JsonValue, key: &str) -> (n: u64)
    ensures
        n == count_field(*doc, key@),
{
    match doc.get(key) {
        Some(v) => match v.as_str() {
            Some(t) => match parse_decimal(t.as_str(), u64::MAX) {
                Some(n) => n,
                None => 0,
            },
            None => 0,
        },
        None => 0,
    }
}

/// Whether `info` holds the figures of the parsed storage answer `doc`.
pub open spec fn describes_storage(info: StorageInfo, doc: JsonValue) -> bool {
    &&& info.total_bytes == count_field(doc, "size"@)
    &&& info.free_bytes == count_field(doc, "free"@)
    &&& info.used_bytes == (if info.total_bytes >= info.free_bytes {
        info.total_bytes - info.free_bytes
    } else {
        0
    })
}

/// Reads the storage figures out of the parsed storage answer: total from
/// `"size"`, free from `"free"`, used is their difference (0 when free
/// exceeds total).
pub fn storage_from_json(doc: &JsonValue) -> (info: StorageInfo)
    ensures
        describes_storage(info, *doc),
{
    let total = count_of(doc, "size");
    let free = count_of(doc, "free");
    let used = total.saturating_sub(free);
    StorageInfo { total_bytes: total, free_bytes: free, used_bytes: used }
}

/// Whenever free space does not exceed the total, used and free space add
/// up to the total; otherwise nothing counts as used.
pub proof fn lemma_storage_adds_up(doc: JsonValue, info: StorageInfo)
    requires
        describes_storage(info, doc),
    ensures
        info.free_bytes <= info.total_bytes ==> info.used_bytes + info.free_bytes == info.total_bytes,
        info.free_bytes > info.total_bytes ==> info.used_bytes == 0,
{
}

/// The number in an album id `A<n>` or a track id `T<n>`: the prefix, then
/// what `str::parse::<u32>` accepts.
pub open spec fn id_number(id: Seq<char>, prefix: char) -> Option<nat> {
    if id.len() > 0 && id[0] == prefix {
        parse_unsigned(id.drop_first(), u32::MAX as nat)
    } else {
        None
    }
}

/// The larger of `m` and the number `n`, if there is one.
pub open spec fn max_with(m: nat, n: Option<nat>) -> nat {
    match n {
        Some(x) => if x > m { x } else { m },
        None => m,
    }
}

/// The highest album number in a listing (0 when there is none).
pub open spec fn max_album_number(l: Listing) -> nat
    decreases l.len(),
{
    if l.len() == 0 {
        0
    } else {
        max_with(max_album_number(l.drop_last()), id_number(l.last().0, 'A'))
    }
}

/// The highest track number among some track ids (0 when there is none).
pub open spec fn max_track_in(tracks: Seq<Seq<char>>) -> nat
    decreases tracks.len(),
{
    if tracks.len() == 0 {
        0
    } else {
        max_with(max_track_in(tracks.drop_last()), id_number(tracks.last(), 'T'))
    }
}

/// The highest track number in a listing, over all its albums.
pub open spec fn max_track_number(l: Listing) -> nat
    decreases l.len(),
{
    if l.len() == 0 {
        0
    } else {
        let m = max_track_number(l.drop_last());
        let t = max_track_in(l.last().1);
        if t > m { t } else { m }
    }
}

/// Reads the number of an id with the given prefix letter.
pub fn id_number_of(id: &str, prefix: char) -> (r: Option<u32>)
    ensures
        r matches Some(n) ==> id_number(id@, prefix) == Some(n as nat),
        r is None ==> id_number(id@, prefix) is None,
{
    let n = id.unicode_len();
    if n > 0 && id.get_char(0) == prefix {
        let rest = id.substring_char(1, n);
        assert(rest@ =~= id@.drop_first());
        match parse_decimal(rest, 0xFFFF_FFFF) {
            Some(v) => Some(v as u32),
            None => None,
        }
    } else {
        None
    }
}

fn max_of(m: u32, n: Option<u32>) -> (r: u32)
    ensures
        r as nat == max_with(
            m as nat,
            match n {
                Some(x) => Some(x as nat),
                None => None,
            },
        ),
{
    match n {
        Some(x) => if x > m { x } else { m },
        None => m,
    }
}

/// The highest album number in a listing (0 when no album id is `A<n>`).
pub fn max_album_id_number(listing: &[(String, Vec<String>)]) -> (m: u32)
    ensures
        m as nat == max_album_number(listing_view(listing@)),
{
    let mut m: u32 = 0;
    let mut i: usize = 0;
    while i < listing.len()
        invariant
            0 <= i <= listing@.len(),
            m as nat == max_album_number(listing_view(listing@.take(i as int))),
        decreases listing@.len() - i,
    {
        let ghost l = listing_view(listing@.take(i + 1));
        assert(l.drop_last() =~= listing_view(listing@.take(i as int)));
        assert(l.last() == (listing@[i as int].0@, strings_view(listing@[i as int].1@)));
        m = max_of(m, id_number_of(listing[i].0.as_str(), 'A'));
        i = i + 1;
    }
    assert(listing@.take(listing@.len() as int) =~= listing@);
    m
}

fn max_track_among(tracks: &Vec<String>, start: u32) -> (m: u32)
    ensures
        m as nat == (if max_track_in(strings_view(tracks@)) > start as nat {
            max_track_in(strings_view(tracks@))
        } else {
            start as nat
        }),
{
    let mut m: u32 = start;
    let mut i: usize = 0;
    while i < tracks.len()
        invariant
            0 <= i <= tracks@.len(),
            m as nat == (if max_track_in(strings_view(tracks@.take(i as int))) > start as nat {
                max_track_in(strings_view(tracks@.take(i as int)))
            } else {
                start as nat
            }),
        decreases tracks@.len() - i,
    {
        let ghost t = strings_view(tracks@.take(i + 1));
        assert(t.drop_last() =~= strings_view(tracks@.take(i as int)));
        assert(t.last() == tracks@[i as int]@);
        m = max_of(m, id_number_of(tracks[i].as_str(), 'T'));
        i = i + 1;
    }
    assert(tracks@.take(tracks@.len() as int) =~= tracks@);
    m
}

/// The highest track number in a listing (0 when no track id is `T<n>`).
pub fn max_track_id_number(listing: &[(String, Vec<String>)]) -> (m: u32)
    ensures
        m as nat == max_track_number(listing_view(listing@)),
{
    let mut m: u32 = 0;
    let mut i: usize = 0;
    while i < listing.len()
        invariant
            0 <= i <= listing@.len(),
            m as nat == max_track_number(listing_view(listing@.take(i as int))),
        decreases listing@.len() - i,
    {
        let ghost l = listing_view(listing@.take(i + 1));
        assert(l.drop_last() =~= listing_view(listing@.take(i as int)));
        assert(l.last() == (listing@[i as int].0@, strings_view(listing@[i as int].1@)));
        m = max_track_among(&listing[i].1, m);
        i = i + 1;
    }
    assert(listing@.take(listing@.len() as int) =~= listing@);
    m
}

/// Why no ids could be chosen for an upload.
#[derive(Debug, PartialEq, Eq, Structural, Clone, Copy)]
pub enum AllocError {
    /// No album id in the listing is `A<n>` with `n > 0`.
    NoValidAlbums,
}

/// Chooses the ids of a new upload: the new track joins the album with the
/// highest number, and takes the number after the highest track number in
/// the whole listing.
pub fn allocate_upload_ids(listing: &[(String, Vec<String>)]) -> (r: Result<(String, String), AllocError>)
    requires
        max_album_number(listing_view(listing@)) > 0 ==> max_track_number(listing_view(listing@))
            < u32::MAX,
    ensures
        max_album_number(listing_view(listing@)) == 0 ==> r == Err::<(String, String), AllocError>(
            AllocError::NoValidAlbums,
        ),
        max_album_number(listing_view(listing@)) > 0 ==> (r matches Ok((album, track)) && album@
            == seq!['A'] + decimal(max_album_number(listing_view(listing@))) && track@ == seq!['T']
            + decimal(max_track_number(listing_view(listing@)) + 1)),
{
    let max_album = max_album_id_number(listing);
    let max_track = max_track_id_number(listing);
    if max_album == 0 {
        return Err(AllocError::NoValidAlbums);
    }
    proof { reveal_strlit("A"); reveal_strlit("T"); }
    let mut album = String::from_str("A");
    let album_num = decimal_text(max_album as u64);
    album.append(album_num.as_str());
    let mut track = String::from_str("T");
    let track_num = decimal_text((max_track as u64) + 1);
    track.append(track_num.as_str());
    Ok((album, track))
}

proof fn lemma_track_in_bounded(tracks: Seq<Seq<char>>, j: int)
    requires
        0 <= j < tracks.len(),
    ensures
        id_number(tracks[j], 'T') matches Some(n) ==> n <= max_track_in(tracks),
    decreases tracks.len(),
{
    if j < tracks.len() - 1 {
        lemma_track_in_bounded(tracks.drop_last(), j);
        assert(tracks.drop_last()[j] == tracks[j]);
    }
}

proof fn lemma_track_number_bounded(l: Listing, i: int)
    requires
        0 <= i < l.len(),
    ensures
        max_track_in(l[i].1) <= max_track_number(l),
    decreases l.len(),
{
    if i < l.len() - 1 {
        lemma_track_number_bounded(l.drop_last(), i);
        assert(l.drop_last()[i] == l[i]);
    }
}

/// The track id chosen for an upload is new: no track already in the
/// listing has its number, and it reads back as the number after the
/// highest one.
pub proof fn lemma_new_track_id_is_unused(l: Listing)
    requires
        max_track_number(l) < u32::MAX,
    ensures
        id_number(seq!['T'] + decimal(max_track_number(l) + 1), 'T') == Some(
            (max_track_number(l) + 1) as nat,
        ),
        forall|i: int, j: int|
            0 <= i < l.len() && 0 <= j < l[i].1.len() ==> id_number(#[trigger] l[i].1[j], 'T')
                != Some((max_track_number(l) + 1) as nat),
{
    let n = (max_track_number(l) + 1) as nat;
    lemma_parse_decimal_roundtrip(n, u32::MAX as nat);
    assert((seq!['T'] + decimal(n)).drop_first() =~= decimal(n));
    assert forall|i: int, j: int|
        0 <= i < l.len() && 0 <= j < l[i].1.len() implies id_number(#[trigger] l[i].1[j], 'T') != Some(n) by {
        lemma_track_in_bounded(l[i].1, j);
        lemma_track_number_bounded(l, i);
    }
}

/// The album id chosen for an upload reads back as the highest album number.
pub proof fn lemma_album_id_reads_back(l: Listing)
    ensures
        max_album_number(l) <= u32::MAX,
        id_number(seq!['A'] + decimal(max_album_number(l)), 'A') == Some(max_album_number(l)),
    decreases l.len(),
{
    if l.len() > 0 {
        lemma_album_id_reads_back(l.drop_last());
    }
    let n = max_album_number(l);
    lemma_parse_decimal_roundtrip(n, u32::MAX as nat);
    assert((seq!['A'] + decimal(n)).drop_first() =~= decimal(n));
}

/// The listing a ping's answer carries: the albums and tracks of the parsed
/// JSON text of a listing packet; empty when the packet is no listing, its
/// JSON is not UTF-8 or does not parse.
pub open spec fn packet_listing(pkt: Seq<u8>) -> Listing {
    match listing_json_bytes(pkt) {
        Some(b) => if valid_utf8(b) {
            match spec_parse_json(decode_utf8(b)) {
                Some(doc) => listing_of(doc),
                None => Seq::empty(),
            }
        } else {
            Seq::empty()
        },
        None => Seq::empty(),
    }
}

/// Reads the track listing out of the answer to a ping.
pub fn parse_track_listing(pkt: &[u8]) -> (listing: Vec<(String, Vec<String>)>)
    ensures
        listing_view(listing@) == packet_listing(pkt@),
{
    let none: Vec<(String, Vec<String>)> = Vec::new();
    assert(listing_view(none@) =~= Seq::<(Seq<char>, Seq<Seq<char>>)>::empty());
    match listing_json_text(pkt) {
        Some(text) => match parse_json_text(text.as_str()) {
            Ok(doc) => listing_from_json(&doc),
            Err(_) => none,
        },
        None => none,
    }
}

/// Describes a track from its config file as the device sends it: the
/// trailing NUL is dropped and the rest parsed as JSON bytes; a config that
/// does not parse gives the defaults.
pub fn parse_track_config(album_id: &str, track_id: &str, raw: &[u8]) -> (info: TrackInfo)
    ensures
        describes_track(info, album_id@, track_id@, spec_parse_json_bytes(config_json_bytes(raw@))),
{
    let json = track_config_json_bytes(raw);
    let parsed = parse_json_bytes(json.as_slice());
    let config = match &parsed {
        Some(v) => Some(v),
        None => None,
    };
    track_info_from_json(album_id, track_id, config)
}

/// Why the storage answer could not be read.
pub enum StorageReplyError {
    /// The answer has fewer than 5 bytes.
    TooShort,
    /// The JSON part of the answer is not UTF-8.
    NotUtf8,
    /// The JSON part does not parse; serde_json's error.
    BadJson(serde_json::Error),
}

/// Reads the storage figures out of the device's answer to a storage query:
/// its JSON text (see `storage_json_text`) parsed, then the figures taken
/// from it. The answer must not declare an end before its fifth byte.
pub fn storage_from_reply(resp: &[u8]) -> (r: Result<StorageInfo, StorageReplyError>)
    requires
        resp@.len() < 5 || storage_json_end(resp@) >= 4,
    ensures
        resp@.len() < 5 ==> (r matches Err(StorageReplyError::TooShort)),
        resp@.len() >= 5 ==> {
            let b = resp@.subrange(4, storage_json_end(resp@));
            &&& !valid_utf8(b) ==> (r matches Err(StorageReplyError::NotUtf8))
            &&& valid_utf8(b) ==> match spec_parse_json(trim_trailing_nul(decode_utf8(b))) {
                Some(doc) => (r matches Ok(info) && describes_storage(info, doc)),
                None => (r matches Err(StorageReplyError::BadJson(_))),
            }
        },
{
    match storage_json_text(resp) {
        Ok(text) => match parse_json_text(text.as_str()) {
            Ok(doc) => Ok(storage_from_json(&doc)),
            Err(e) => Err(StorageReplyError::BadJson(e)),
        },
        Err(StorageError::TooShort) => Err(StorageReplyError::TooShort),
        Err(StorageError::NotUtf8) => Err(StorageReplyError::NotUtf8),
    }
}

/// Every item of `"c"` whose `"t"` is a string gives one track id, in
/// order, and no other item gives one: the ids of items with `x` appended
/// are the ids of the items, then `x`'s id if it has one.
pub proof fn lemma_track_ids_one_per_item(items: Seq<JsonValue>, x: JsonValue)
    ensures
        track_ids_of(Seq::empty()) == Seq::<Seq<char>>::empty(),
        as_text(field(x, "t"@)) matches Some(t) ==> track_ids_of(items.push(x)) == track_ids_of(items).push(t),
        as_text(field(x, "t"@)) is None ==> track_ids_of(items.push(x)) == track_ids_of(items),
{
    assert(items.push(x).drop_last() =~= items);
}

/// Every item of `"l"` with a string `"a"` gives one listing entry, in
/// order (its id and the ids of its tracks), and no other item gives one.
pub proof fn lemma_entries_one_per_item(items: Seq<JsonValue>, x: JsonValue)
    ensures
        entries_of(Seq::empty()) == Seq::<(Seq<char>, Seq<Seq<char>>)>::empty(),
        as_text(field(x, "a"@)) matches Some(a) ==> entries_of(items.push(x)) == entries_of(items).push(
            (
                a,
                match as_items(field(x, "c"@)) {
                    Some(c) => track_ids_of(c),
                    None => Seq::empty(),
                },
            ),
        ),
        as_text(field(x, "a"@)) is None ==> entries_of(items.push(x)) == entries_of(items),
{
    assert(items.push(x).drop_last() =~= items);
}

/// Every string of a `"TrackColour"` array gives one colour, in order, and
/// nothing else gives one.
pub proof fn lemma_colours_one_per_string(items: Seq<JsonValue>, x: JsonValue)
    ensures
        texts_of(Seq::empty()) == Seq::<Seq<char>>::empty(),
        as_text(x) matches Some(t) ==> texts_of(items.push(x)) == texts_of(items).push(t),
        as_text(x) is None ==> texts_of(items.push(x)) == texts_of(items),
{
    assert(items.push(x).drop_last() =~= items);
}

/// A byte count reads back as the number its decimal text writes, for
/// every count a `u64` holds; a missing or non-string count reads as 0.
pub proof fn lemma_count_reads_decimal(doc: JsonValue, key: Seq<char>, n: u64)
    ensures
        as_text(field(doc, key)) == Some(decimal(n as nat)) ==> count_field(doc, key) == n,
        as_text(field(doc, key)) is None ==> count_field(doc, key) == 0,
{
    lemma_parse_decimal_roundtrip(n as nat, u64::MAX as nat);
}

/// The highest album number is at least the number of every album of the
/// listing, and, unless it is 0, is the number of one of its albums.
pub proof fn lemma_max_album_is_highest(l: Listing)
    ensures
        forall|i: int|
            0 <= i < l.len() && (#[trigger] id_number(l[i].0, 'A')) is Some ==> id_number(l[i].0, 'A')->0
                <= max_album_number(l),
        max_album_number(l) > 0 ==> exists|i: int|
            0 <= i < l.len() && #[trigger] id_number(l[i].0, 'A') == Some(max_album_number(l)),
    decreases l.len(),
{
    if l.len() > 0 {
        let d = l.drop_last();
        lemma_max_album_is_highest(d);
        assert forall|i: int|
            0 <= i < l.len() && (#[trigger] id_number(l[i].0, 'A')) is Some implies id_number(l[i].0, 'A')->0
                <= max_album_number(l) by {
            if i < l.len() - 1 {
                assert(l[i] == d[i]);
            }
        }
        if max_album_number(l) > 0 {
            if id_number(l.last().0, 'A') == Some(max_album_number(l)) {
                assert(id_number(l[l.len() - 1].0, 'A') == Some(max_album_number(l)));
            } else {
                let i = choose|i: int|
                    0 <= i < d.len() && #[trigger] id_number(d[i].0, 'A') == Some(max_album_number(d));
                assert(l[i] == d[i]);
                assert(id_number(l[i].0, 'A') == Some(max_album_number(l)));
            }
        }
    }
}

proof fn lemma_max_track_in_is_highest(tracks: Seq<Seq<char>>)
    ensures
        forall|j: int|
            0 <= j < tracks.len() && (#[trigger] id_number(tracks[j], 'T')) is Some ==> id_number(
                tracks[j],
                'T',
            )->0 <= max_track_in(tracks),
        max_track_in(tracks) > 0 ==> exists|j: int|
            0 <= j < tracks.len() && #[trigger] id_number(tracks[j], 'T') == Some(max_track_in(tracks)),
    decreases tracks.len(),
{
    if tracks.len() > 0 {
        let d = tracks.drop_last();
        lemma_max_track_in_is_highest(d);
        assert forall|j: int|
            0 <= j < tracks.len() && (#[trigger] id_number(tracks[j], 'T')) is Some implies id_number(
                tracks[j],
                'T',
            )->0 <= max_track_in(tracks) by {
            if j < tracks.len() - 1 {
                assert(tracks[j] == d[j]);
            }
        }
        if max_track_in(tracks) > 0 {
            if id_number(tracks.last(), 'T') == Some(max_track_in(tracks)) {
                assert(id_number(tracks[tracks.len() - 1], 'T') == Some(max_track_in(tracks)));
            } else {
                let j = choose|j: int|
                    0 <= j < d.len() && #[trigger] id_number(d[j], 'T') == Some(max_track_in(d));
                assert(tracks[j] == d[j]);
            }
        }
    }
}

/// The highest track number is at least the number of every track of every
/// album of the listing, and, unless it is 0, is the number of one of them.
pub proof fn lemma_max_track_is_highest(l: Listing)
    ensures
        forall|i: int, j: int|
            0 <= i < l.len() && 0 <= j < l[i].1.len() && (#[trigger] id_number(l[i].1[j], 'T')) is Some
                ==> id_number(l[i].1[j], 'T')->0 <= max_track_number(l),
        max_track_number(l) > 0 ==> exists|i: int, j: int|
            0 <= i < l.len() && 0 <= j < l[i].1.len() && #[trigger] id_number(l[i].1[j], 'T') == Some(
                max_track_number(l),
            ),
    decreases l.len(),
{
    if l.len() > 0 {
        let d = l.drop_last();
        lemma_max_track_is_highest(d);
        lemma_max_track_in_is_highest(l.last().1);
        assert forall|i: int, j: int|
            0 <= i < l.len() && 0 <= j < l[i].1.len() && (#[trigger] id_number(l[i].1[j], 'T')) is Some
                implies id_number(l[i].1[j], 'T')->0 <= max_track_number(l) by {
            if i < l.len() - 1 {
                assert(l[i] == d[i]);
            } else {
                assert(l[i].1 == l.last().1);
            }
        }
        if max_track_number(l) > 0 {
            if max_track_in(l.last().1) > max_track_number(d) {
                let t = l.last().1;
                let j = choose|j: int| 0 <= j < t.len() && #[trigger] id_number(t[j], 'T') == Some(max_track_in(t));
                assert(l[l.len() - 1].1[j] == t[j]);
            } else {
                let (i, j) = choose|i: int, j: int|
                    0 <= i < d.len() && 0 <= j < d[i].1.len() && #[trigger] id_number(d[i].1[j], 'T') == Some(
                        max_track_number(d),
                    );
                assert(l[i] == d[i]);
                assert(l[i].1[j] == d[i].1[j]);
            }
        }
    }
}

/// A listing packet as the device frames it (command `05`, then `03`, the
/// JSON and a NUL byte) gives back exactly its JSON bytes.
pub proof fn lemma_listing_packet_reads_back(json: Seq<u8>)
    requires
        json.len() > 0,
        json.len() + 3 < 65536,
    ensures
        listing_json_bytes(frame(0x05, seq![0x03u8] + json + seq![0u8])) == Some(json),
{
    let payload = seq![0x03u8] + json + seq![0u8];
    let pkt = frame(0x05, payload);
    lemma_frame_declares_its_length(0x05, payload);
    assert(pkt[2] == 0x05 && pkt[3] == 0x03);
    assert(pkt.subrange(4, json.len() + 4int) =~= json);
}

/// A storage answer as the device frames it (command `05`, then `02` and
/// the JSON) gives back exactly its JSON bytes as the part that is read.
pub proof fn lemma_storage_packet_reads_back(json: Seq<u8>)
    requires
        json.len() + 2 < 65536,
    ensures
        storage_json_end(frame(0x05, seq![0x02u8] + json)) == json.len() + 4,
        frame(0x05, seq![0x02u8] + json).subrange(4, json.len() + 4int) == json,
{
    let payload = seq![0x02u8] + json;
    lemma_frame_declares_its_length(0x05, payload);
    assert(frame(0x05, payload).subrange(4, json.len() + 4int) =~= json);
}

/// What a track's config says: the title is `metadata.title` when it is a
/// string and the track id otherwise; the artist is `metadata.artist` when
/// it is a string and `Unknown` otherwise; the colours are the strings of
/// `TrackColour` when it is an array and two white colours otherwise; a
/// config that did not parse gives the track id, `Unknown` and white.
pub proof fn lemma_config_fields(config: Option<JsonValue>, track: Seq<char>)
    ensures
        config matches Some(v) ==> match as_text(field(field(v, "metadata"@), "title"@)) {
            Some(t) => config_title(config, track) == t,
            None => config_title(config, track) == track,
        },
        config matches Some(v) ==> match as_text(field(field(v, "metadata"@), "artist"@)) {
            Some(a) => config_artist(config) == a,
            None => config_artist(config) == "Unknown"@,
        },
        config matches Some(v) ==> match as_items(field(v, "TrackColour"@)) {
            Some(items) => config_colours(config) == texts_of(items),
            None => config_colours(config) == seq!["#ffffff"@, "#ffffff"@],
        },
        config is None ==> config_title(config, track) == track && config_artist(config) == "Unknown"@
            && config_colours(config) == seq!["#ffffff"@, "#ffffff"@],
{
}

/// Dropping trailing NULs keeps a prefix of the text, drops only NULs, and
/// leaves no NUL at the end.
pub proof fn lemma_trailing_nul_dropped(s: Seq<char>)
    ensures
        exists|k: int|
            0 <= k <= s.len() && trim_trailing_nul(s) == s.take(k) && (forall|j: int|
                k <= j < s.len() ==> #[trigger] s[j] == '\0'),
        trim_trailing_nul(s).len() > 0 ==> trim_trailing_nul(s).last() != '\0',
    decreases s.len(),
{
    if s.len() > 0 && s.last() == '\0' {
        let d = s.drop_last();
        lemma_trailing_nul_dropped(d);
        let k = choose|k: int|
            0 <= k <= d.len() && trim_trailing_nul(d) == d.take(k) && (forall|j: int|
                k <= j < d.len() ==> #[trigger] d[j] == '\0');
        assert(d.take(k) =~= s.take(k));
        assert forall|j: int| k <= j < s.len() implies #[trigger] s[j] == '\0' by {
            if j < d.len() {
                assert(d[j] == s[j]);
            }
        }
    } else {
        assert(s.take(s.len() as int) =~= s);
    }
}

} // verus!
