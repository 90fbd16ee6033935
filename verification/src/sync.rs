//! The sync passes that prime the player before an upload, and the reads
//! that list its tracks, as plans of requests.
//!
//! The player expects the host to read its album configs and track configs
//! in listing order. The special album `RECORD` is queried instead of read.
//! In the first pass the host stops at `RECORD` and pings for a fresh
//! listing; in the second it reads `RECORD/T1`, goes on with the albums after
//! it, and pings at the end. The plan says which requests go out in which
//! order, and `pass_after` how a pass goes on after each of them (a failure
//! ends it, except a failed read of `RECORD/T1`); sending them is the
//! caller's part. The reads that list the tracks give the albums that
//! `albums_from_reads` describes.

use vstd::prelude::*;
use crate::catalog::{Listing, listing_view, strings_view, AlbumInfo, TrackInfo, describes_track, parse_track_config, config_json_bytes};
use crate::json::spec_parse_json_bytes;
use crate::text::text_eq;
use crate::device::{
    album_config_request, track_config_request, bare_control_request, control_request, album_json, track_json,
    CTRL_REQUEST_ALBUM, CTRL_REQUEST_TRACK, CTRL_PING, MSG_CONTROL,
};
use crate::frame::frame;

verus! {

/// One request of a plan.
pub enum SyncAction {
    /// Read the config of an album (a failure ends the pass).
    ReadAlbumConfig(String),
    /// Read the config of a track of an album (a failure ends the pass).
    ReadTrackConfig(String, String),
    /// Send the `RECORD` album request and take one answer, whatever it says
    /// (a failed write or read ends the pass).
    QueryRecord,
    /// Read the config of `RECORD/T1` like a file; a failure is ignored.
    ReadRecordTrack,
    /// Ping; the listing it brings back is what the pass returns.
    Ping,
}

/// The text form of a plan's request.
pub enum SyncStep {
    AlbumConfig(Seq<char>),
    TrackConfig(Seq<char>, Seq<char>),
    QueryRecord,
    RecordTrack,
    Ping,
}

impl View for SyncAction {
    type V = SyncStep;

    open spec fn view(&self) -> SyncStep {
        match self {
            SyncAction::ReadAlbumConfig(a) => SyncStep::AlbumConfig(a@),
            SyncAction::ReadTrackConfig(a, t) => SyncStep::TrackConfig(a@, t@),
            SyncAction::QueryRecord => SyncStep::QueryRecord,
            SyncAction::ReadRecordTrack => SyncStep::RecordTrack,
            SyncAction::Ping => SyncStep::Ping,
        }
    }
}

/// The text form of a plan.
pub open spec fn steps_view(actions: Seq<SyncAction>) -> Seq<SyncStep> {
    actions.map_values(|a: SyncAction| a@)
}

/// Whether an album id is the special `RECORD` album.
pub open spec fn is_record(album: Seq<char>) -> bool {
    album == "RECORD"@
}

/// Whether a listing holds the `RECORD` album.
pub open spec fn has_record(l: Listing) -> bool {
    exists|i: int| 0 <= i < l.len() && is_record(#[trigger] l[i].0)
}

/// Reading an ordinary album: its config, then each track's config.
pub open spec fn album_steps(album: Seq<char>, tracks: Seq<Seq<char>>) -> Seq<SyncStep> {
    seq![SyncStep::AlbumConfig(album)] + tracks.map_values(
        |t: Seq<char>| SyncStep::TrackConfig(album, t),
    )
}

/// The first pass: ordinary albums up to `RECORD`, then the `RECORD` query
/// and a ping.
pub open spec fn pass1_steps(l: Listing) -> Seq<SyncStep>
    decreases l.len(),
{
    if l.len() == 0 {
        Seq::empty()
    } else if is_record(l[0].0) {
        seq![SyncStep::QueryRecord, SyncStep::Ping]
    } else {
        album_steps(l[0].0, l[0].1) + pass1_steps(l.drop_first())
    }
}

/// The body of the second pass: every album in order, `RECORD` being
/// queried and its first track read.
pub open spec fn pass2_body(l: Listing) -> Seq<SyncStep>
    decreases l.len(),
{
    if l.len() == 0 {
        Seq::empty()
    } else if is_record(l[0].0) {
        seq![SyncStep::QueryRecord, SyncStep::RecordTrack] + pass2_body(l.drop_first())
    } else {
        album_steps(l[0].0, l[0].1) + pass2_body(l.drop_first())
    }
}

/// The second pass: its body, then a ping if `RECORD` was met.
pub open spec fn pass2_steps(l: Listing) -> Seq<SyncStep> {
    pass2_body(l) + if has_record(l) {
        seq![SyncStep::Ping]
    } else {
        Seq::empty()
    }
}

/// Listing the tracks: every album but `RECORD`, config then track configs.
pub open spec fn listing_steps(l: Listing) -> Seq<SyncStep>
    decreases l.len(),
{
    if l.len() == 0 {
        Seq::empty()
    } else if is_record(l[0].0) {
        listing_steps(l.drop_first())
    } else {
        album_steps(l[0].0, l[0].1) + listing_steps(l.drop_first())
    }
}

/// Whether an album id is `RECORD`.
pub fn is_record_album(album: &str) -> (b: bool)
    ensures
        b == is_record(album@),
{
    text_eq(album, "RECORD")
}

fn push_album_actions(out: &mut Vec<SyncAction>, album: &String, tracks: &Vec<String>)
    ensures
        steps_view(final(out)@) == steps_view(old(out)@) + album_steps(album@, strings_view(tracks@)),
{
    let ghost start = out@;
    out.push(SyncAction::ReadAlbumConfig(album.clone()));
    let mut i: usize = 0;
    while i < tracks.len()
        invariant
            0 <= i <= tracks@.len(),
            steps_view(out@) == steps_view(start) + seq![SyncStep::AlbumConfig(album@)]
                + strings_view(tracks@.take(i as int)).map_values(
                |t: Seq<char>| SyncStep::TrackConfig(album@, t),
            ),
        decreases tracks@.len() - i,
    {
        let ghost before = out@;
        out.push(SyncAction::ReadTrackConfig(album.clone(), tracks[i].clone()));
        assert(strings_view(tracks@.take(i + 1)) =~= strings_view(tracks@.take(i as int)).push(
            tracks@[i as int]@,
        ));
        assert(steps_view(out@) =~= steps_view(before).push(
            SyncStep::TrackConfig(album@, tracks@[i as int]@),
        ));
        i = i + 1;
    }
    assert(tracks@.take(tracks@.len() as int) =~= tracks@);
}

proof fn lemma_listing_view_skip(listing: Seq<(String, Vec<String>)>, i: int)
    requires
        0 <= i < listing.len(),
    ensures
        listing_view(listing.skip(i)).len() > 0,
        listing_view(listing.skip(i))[0] == (listing[i].0@, strings_view(listing[i].1@)),
        listing_view(listing.skip(i)).drop_first() == listing_view(listing.skip(i + 1)),
{
    assert(listing_view(listing.skip(i)).drop_first() =~= listing_view(listing.skip(i + 1)));
}

fn pass1_from(listing: &[(String, Vec<String>)], i: usize) -> (plan: Vec<SyncAction>)
    requires
        i <= listing@.len(),
    ensures
        steps_view(plan@) == pass1_steps(listing_view(listing@.skip(i as int))),
    decreases listing@.len() - i,
{
    let mut plan: Vec<SyncAction> = Vec::new();
    if i == listing.len() {
        assert(listing_view(listing@.skip(i as int)) =~= Seq::<(Seq<char>, Seq<Seq<char>>)>::empty());
        assert(steps_view(plan@) =~= Seq::<SyncStep>::empty());
        return plan;
    }
    proof { lemma_listing_view_skip(listing@, i as int); }
    if is_record_album(listing[i].0.as_str()) {
        plan.push(SyncAction::QueryRecord);
        plan.push(SyncAction::Ping);
        assert(steps_view(plan@) =~= seq![SyncStep::QueryRecord, SyncStep::Ping]);
        return plan;
    }
    assert(steps_view(plan@) =~= Seq::<SyncStep>::empty());
    push_album_actions(&mut plan, &listing[i].0, &listing[i].1);
    let mut rest = pass1_from(listing, i + 1);
    let ghost head = plan@;
    let ghost tail = rest@;
    plan.append(&mut rest);
    assert(steps_view(plan@) =~= steps_view(head) + steps_view(tail));
    plan
}

fn pass2_from(listing: &[(String, Vec<String>)], i: usize) -> (plan: Vec<SyncAction>)
    requires
        i <= listing@.len(),
    ensures
        steps_view(plan@) == pass2_body(listing_view(listing@.skip(i as int))),
    decreases listing@.len() - i,
{
    let mut plan: Vec<SyncAction> = Vec::new();
    if i == listing.len() {
        assert(listing_view(listing@.skip(i as int)) =~= Seq::<(Seq<char>, Seq<Seq<char>>)>::empty());
        assert(steps_view(plan@) =~= Seq::<SyncStep>::empty());
        return plan;
    }
    proof { lemma_listing_view_skip(listing@, i as int); }
    if is_record_album(listing[i].0.as_str()) {
        plan.push(SyncAction::QueryRecord);
        plan.push(SyncAction::ReadRecordTrack);
        assert(steps_view(plan@) =~= seq![SyncStep::QueryRecord, SyncStep::RecordTrack]);
    } else {
        assert(steps_view(plan@) =~= Seq::<SyncStep>::empty());
        push_album_actions(&mut plan, &listing[i].0, &listing[i].1);
    }
    let mut rest = pass2_from(listing, i + 1);
    let ghost head = plan@;
    let ghost tail = rest@;
    plan.append(&mut rest);
    assert(steps_view(plan@) =~= steps_view(head) + steps_view(tail));
    plan
}

fn listing_from(listing: &[(String, Vec<String>)], i: usize) -> (plan: Vec<SyncAction>)
    requires
        i <= listing@.len(),
    ensures
        steps_view(plan@) == listing_steps(listing_view(listing@.skip(i as int))),
    decreases listing@.len() - i,
{
    let mut plan: Vec<SyncAction> = Vec::new();
    if i == listing.len() {
        assert(listing_view(listing@.skip(i as int)) =~= Seq::<(Seq<char>, Seq<Seq<char>>)>::empty());
        assert(steps_view(plan@) =~= Seq::<SyncStep>::empty());
        return plan;
    }
    proof { lemma_listing_view_skip(listing@, i as int); }
    assert(steps_view(plan@) =~= Seq::<SyncStep>::empty());
    if !is_record_album(listing[i].0.as_str()) {
        push_album_actions(&mut plan, &listing[i].0, &listing[i].1);
    }
    let mut rest = listing_from(listing, i + 1);
    let ghost head = plan@;
    let ghost tail = rest@;
    plan.append(&mut rest);
    assert(steps_view(plan@) =~= steps_view(head) + steps_view(tail));
    plan
}

/// Whether a listing holds the `RECORD` album.
pub fn listing_has_record(listing: &[(String, Vec<String>)]) -> (b: bool)
    ensures
        b == has_record(listing_view(listing@)),
{
    let mut i: usize = 0;
    while i < listing.len()
        invariant
            0 <= i <= listing@.len(),
            forall|j: int| 0 <= j < i ==> !is_record(#[trigger] listing_view(listing@)[j].0),
        decreases listing@.len() - i,
    {
        if is_record_album(listing[i].0.as_str()) {
            assert(listing_view(listing@)[i as int].0 == listing@[i as int].0@);
            return true;
        }
        assert(listing_view(listing@)[i as int].0 == listing@[i as int].0@);
        i = i + 1;
    }
    false
}

/// Plans one sync pass over a listing (the first pass unless `is_pass2`).
/// The pass returns the listing of its final ping if the plan ends with one,
/// and nothing otherwise.
pub fn sync_plan(listing: &[(String, Vec<String>)], is_pass2: bool) -> (plan: Vec<SyncAction>)
    ensures
        !is_pass2 ==> steps_view(plan@) == pass1_steps(listing_view(listing@)),
        is_pass2 ==> steps_view(plan@) == pass2_steps(listing_view(listing@)),
{
    assert(listing@.skip(0) =~= listing@);
    if !is_pass2 {
        return pass1_from(listing, 0);
    }
    let mut plan = pass2_from(listing, 0);
    let ghost body = plan@;
    if listing_has_record(listing) {
        plan.push(SyncAction::Ping);
        assert(steps_view(plan@) =~= steps_view(body) + seq![SyncStep::Ping]);
    } else {
        assert(steps_view(plan@) =~= steps_view(body) + Seq::<SyncStep>::empty());
    }
    plan
}

/// Plans the reads that list the tracks on the device: every album but
/// `RECORD`, its config and then its tracks' configs.
pub fn track_listing_plan(listing: &[(String, Vec<String>)]) -> (plan: Vec<SyncAction>)
    ensures
        steps_view(plan@) == listing_steps(listing_view(listing@)),
{
    assert(listing@.skip(0) =~= listing@);
    listing_from(listing, 0)
}

/// Whether no request of a plan reads `RECORD` as an ordinary album.
pub open spec fn never_reads_record(steps: Seq<SyncStep>) -> bool {
    forall|k: int|
        0 <= k < steps.len() ==> match #[trigger] steps[k] {
            SyncStep::AlbumConfig(a) => !is_record(a),
            SyncStep::TrackConfig(a, t) => !is_record(a),
            _ => true,
        }
}

proof fn lemma_album_steps_avoid_record(album: Seq<char>, tracks: Seq<Seq<char>>)
    requires
        !is_record(album),
    ensures
        never_reads_record(album_steps(album, tracks)),
{
    let s = album_steps(album, tracks);
    assert forall|k: int| 0 <= k < s.len() implies match #[trigger] s[k] {
        SyncStep::AlbumConfig(a) => !is_record(a),
        SyncStep::TrackConfig(a, t) => !is_record(a),
        _ => true,
    } by {
        if k > 0 {
            assert(s[k] == SyncStep::TrackConfig(album, tracks[k - 1]));
        }
    }
}

proof fn lemma_concat_avoids_record(a: Seq<SyncStep>, b: Seq<SyncStep>)
    requires
        never_reads_record(a),
        never_reads_record(b),
    ensures
        never_reads_record(a + b),
{
    let s = a + b;
    assert forall|k: int| 0 <= k < s.len() implies match #[trigger] s[k] {
        SyncStep::AlbumConfig(x) => !is_record(x),
        SyncStep::TrackConfig(x, t) => !is_record(x),
        _ => true,
    } by {
        if k < a.len() {
            assert(s[k] == a[k]);
        } else {
            assert(s[k] == b[k - a.len()]);
        }
    }
}

proof fn lemma_pass1_avoids_record(l: Listing)
    ensures
        never_reads_record(pass1_steps(l)),
    decreases l.len(),
{
    if l.len() > 0 {
        if !is_record(l[0].0) {
            lemma_pass1_avoids_record(l.drop_first());
            lemma_album_steps_avoid_record(l[0].0, l[0].1);
            lemma_concat_avoids_record(album_steps(l[0].0, l[0].1), pass1_steps(l.drop_first()));
        } else {
            let s = seq![SyncStep::QueryRecord, SyncStep::Ping];
            assert(s[0] == SyncStep::QueryRecord && s[1] == SyncStep::Ping);
        }
    }
}

proof fn lemma_pass2_body_avoids_record(l: Listing)
    ensures
        never_reads_record(pass2_body(l)),
    decreases l.len(),
{
    if l.len() > 0 {
        lemma_pass2_body_avoids_record(l.drop_first());
        if !is_record(l[0].0) {
            lemma_album_steps_avoid_record(l[0].0, l[0].1);
            lemma_concat_avoids_record(album_steps(l[0].0, l[0].1), pass2_body(l.drop_first()));
        } else {
            let s = seq![SyncStep::QueryRecord, SyncStep::RecordTrack];
            assert(s[0] == SyncStep::QueryRecord && s[1] == SyncStep::RecordTrack);
            lemma_concat_avoids_record(s, pass2_body(l.drop_first()));
        }
    }
}

proof fn lemma_listing_avoids_record(l: Listing)
    ensures
        never_reads_record(listing_steps(l)),
    decreases l.len(),
{
    if l.len() > 0 {
        lemma_listing_avoids_record(l.drop_first());
        if !is_record(l[0].0) {
            lemma_album_steps_avoid_record(l[0].0, l[0].1);
            lemma_concat_avoids_record(album_steps(l[0].0, l[0].1), listing_steps(l.drop_first()));
        }
    }
}

/// `RECORD` is never read as an ordinary album: not in either sync pass,
/// not when listing the tracks.
pub proof fn lemma_record_never_read_as_album(l: Listing)
    ensures
        never_reads_record(pass1_steps(l)),
        never_reads_record(pass2_steps(l)),
        never_reads_record(listing_steps(l)),
{
    lemma_pass1_avoids_record(l);
    lemma_pass2_body_avoids_record(l);
    let tail = if has_record(l) {
        seq![SyncStep::Ping]
    } else {
        Seq::<SyncStep>::empty()
    };
    if has_record(l) {
        assert(tail[0] == SyncStep::Ping);
    }
    lemma_concat_avoids_record(pass2_body(l), tail);
    lemma_listing_avoids_record(l);
}

/// Whether a plan ends with a ping, i.e. whether the pass returns a fresh
/// listing.
pub open spec fn ends_with_ping(steps: Seq<SyncStep>) -> bool {
    steps.len() > 0 && steps.last() == SyncStep::Ping
}

proof fn lemma_pass1_ping(l: Listing)
    ensures
        ends_with_ping(pass1_steps(l)) <==> has_record(l),
        !has_record(l) ==> forall|k: int|
            0 <= k < pass1_steps(l).len() ==> #[trigger] pass1_steps(l)[k] != SyncStep::Ping,
    decreases l.len(),
{
    if l.len() > 0 {
        if is_record(l[0].0) {
            assert(has_record(l));
        } else {
            lemma_pass1_ping(l.drop_first());
            let a = album_steps(l[0].0, l[0].1);
            let r = pass1_steps(l.drop_first());
            assert(pass1_steps(l) == a + r);
            assert(a.len() > 0 && a[0] == SyncStep::AlbumConfig(l[0].0));
            assert forall|k: int| 0 <= k < a.len() implies #[trigger] a[k] != SyncStep::Ping by {
                if k > 0 {
                    assert(a[k] == SyncStep::TrackConfig(l[0].0, l[0].1[k - 1]));
                }
            }
            if has_record(l) {
                let i = choose|i: int| 0 <= i < l.len() && is_record(#[trigger] l[i].0);
                assert(i > 0);
                assert(l.drop_first()[i - 1] == l[i]);
                assert(has_record(l.drop_first()));
                assert((a + r).last() == r.last());
            } else {
                assert forall|i: int| 0 <= i < l.drop_first().len() implies !is_record(
                    #[trigger] l.drop_first()[i].0,
                ) by {
                    assert(l.drop_first()[i] == l[i + 1]);
                }
                assert forall|k: int| 0 <= k < (a + r).len() implies #[trigger] (a + r)[k]
                    != SyncStep::Ping by {
                    if k >= a.len() {
                        assert((a + r)[k] == r[k - a.len()]);
                    }
                }
            }
        }
    }
}

/// The first pass brings back a fresh listing exactly when the listing
/// holds `RECORD`; the second pass likewise. (An upload is refused when a
/// pass brings back none.)
pub proof fn lemma_passes_ping_iff_record(l: Listing)
    ensures
        ends_with_ping(pass1_steps(l)) <==> has_record(l),
        ends_with_ping(pass2_steps(l)) <==> has_record(l),
{
    lemma_pass1_ping(l);
    lemma_pass2_body_no_ping(l);
    let b = pass2_body(l);
    if has_record(l) {
        assert(pass2_steps(l).last() == SyncStep::Ping);
    } else {
        assert(pass2_steps(l) =~= b);
        if b.len() > 0 {
            assert(b[b.len() - 1] != SyncStep::Ping);
        }
    }
}

proof fn lemma_pass2_body_no_ping(l: Listing)
    ensures
        forall|k: int| 0 <= k < pass2_body(l).len() ==> #[trigger] pass2_body(l)[k] != SyncStep::Ping,
    decreases l.len(),
{
    if l.len() > 0 {
        lemma_pass2_body_no_ping(l.drop_first());
        let a = if is_record(l[0].0) {
            seq![SyncStep::QueryRecord, SyncStep::RecordTrack]
        } else {
            album_steps(l[0].0, l[0].1)
        };
        let r = pass2_body(l.drop_first());
        assert(pass2_body(l) == a + r);
        assert forall|k: int| 0 <= k < (a + r).len() implies #[trigger] (a + r)[k]
            != SyncStep::Ping by {
            if k >= a.len() {
                assert((a + r)[k] == r[k - a.len()]);
            } else if !is_record(l[0].0) && k > 0 {
                assert(a[k] == SyncStep::TrackConfig(l[0].0, l[0].1[k - 1]));
            }
        }
    }
}

/// The second pass reads the config of every album but `RECORD`, and of
/// every track of it.
pub proof fn lemma_pass2_reads_every_album(l: Listing, i: int)
    requires
        0 <= i < l.len(),
        !is_record(l[i].0),
    ensures
        pass2_steps(l).contains(SyncStep::AlbumConfig(l[i].0)),
        forall|j: int|
            0 <= j < l[i].1.len() ==> pass2_steps(l).contains(
                SyncStep::TrackConfig(l[i].0, #[trigger] l[i].1[j]),
            ),
{
    let b = pass2_body(l);
    let s = pass2_steps(l);
    lemma_pass2_body_reads_album(l, i);
    let k1 = choose|k: int| 0 <= k < b.len() && b[k] == SyncStep::AlbumConfig(l[i].0);
    assert(s[k1] == b[k1]);
    assert forall|j: int| 0 <= j < l[i].1.len() implies s.contains(
        SyncStep::TrackConfig(l[i].0, #[trigger] l[i].1[j]),
    ) by {
        lemma_pass2_body_reads_track(l, i, j);
        let k2 = choose|k: int| 0 <= k < b.len() && b[k] == SyncStep::TrackConfig(l[i].0, l[i].1[j]);
        assert(s[k2] == b[k2]);
    }
}

proof fn lemma_pass2_body_reads_album(l: Listing, i: int)
    requires
        0 <= i < l.len(),
        !is_record(l[i].0),
    ensures
        pass2_body(l).contains(SyncStep::AlbumConfig(l[i].0)),
    decreases l.len(),
{
    let a = if is_record(l[0].0) {
        seq![SyncStep::QueryRecord, SyncStep::RecordTrack]
    } else {
        album_steps(l[0].0, l[0].1)
    };
    let r = pass2_body(l.drop_first());
    assert(pass2_body(l) == a + r);
    if i == 0 {
        assert((a + r)[0] == SyncStep::AlbumConfig(l[0].0));
    } else {
        assert(l.drop_first()[i - 1] == l[i]);
        lemma_pass2_body_reads_album(l.drop_first(), i - 1);
        let k1 = choose|k: int| 0 <= k < r.len() && r[k] == SyncStep::AlbumConfig(l[i].0);
        assert((a + r)[a.len() + k1] == r[k1]);
    }
}

proof fn lemma_pass2_body_reads_track(l: Listing, i: int, j: int)
    requires
        0 <= i < l.len(),
        !is_record(l[i].0),
        0 <= j < l[i].1.len(),
    ensures
        pass2_body(l).contains(SyncStep::TrackConfig(l[i].0, l[i].1[j])),
    decreases l.len(),
{
    let a = if is_record(l[0].0) {
        seq![SyncStep::QueryRecord, SyncStep::RecordTrack]
    } else {
        album_steps(l[0].0, l[0].1)
    };
    let r = pass2_body(l.drop_first());
    assert(pass2_body(l) == a + r);
    if i == 0 {
        assert((a + r)[j + 1] == SyncStep::TrackConfig(l[0].0, l[0].1[j]));
    } else {
        assert(l.drop_first()[i - 1] == l[i]);
        lemma_pass2_body_reads_track(l.drop_first(), i - 1, j);
        let k2 = choose|k: int| 0 <= k < r.len() && r[k] == SyncStep::TrackConfig(l[i].0, l[i].1[j]);
        assert((a + r)[a.len() + k2] == r[k2]);
    }
}

/// Whether `album` is the id of an entry that comes before every `RECORD`
/// entry of the listing.
pub open spec fn listed_before_record(l: Listing, album: Seq<char>) -> bool {
    exists|i: int|
        0 <= i < l.len() && (#[trigger] l[i]).0 == album && forall|m: int|
            0 <= m <= i ==> !is_record(#[trigger] l[m].0)
}

/// The first pass reads nothing at or after `RECORD`: every album it reads
/// (for its config or a track's) is listed before the first `RECORD`.
pub proof fn lemma_pass1_stops_at_record(l: Listing)
    ensures
        forall|k: int|
            0 <= k < pass1_steps(l).len() ==> match #[trigger] pass1_steps(l)[k] {
                SyncStep::AlbumConfig(a) => listed_before_record(l, a),
                SyncStep::TrackConfig(a, t) => listed_before_record(l, a),
                _ => true,
            },
    decreases l.len(),
{
    if l.len() > 0 && !is_record(l[0].0) {
        let rest = l.drop_first();
        lemma_pass1_stops_at_record(rest);
        let a = album_steps(l[0].0, l[0].1);
        let r = pass1_steps(rest);
        assert(pass1_steps(l) == a + r);
        assert(listed_before_record(l, l[0].0)) by {
            assert(l[0].0 == l[0].0);
        }
        assert forall|k: int| 0 <= k < (a + r).len() implies match #[trigger] (a + r)[k] {
            SyncStep::AlbumConfig(x) => listed_before_record(l, x),
            SyncStep::TrackConfig(x, t) => listed_before_record(l, x),
            _ => true,
        } by {
            if k < a.len() {
                if k > 0 {
                    assert(a[k] == SyncStep::TrackConfig(l[0].0, l[0].1[k - 1]));
                }
            } else {
                assert((a + r)[k] == r[k - a.len()]);
                match r[k - a.len()] {
                    SyncStep::AlbumConfig(x) => {
                        lemma_before_record_shift(l, x);
                    },
                    SyncStep::TrackConfig(x, t) => {
                        lemma_before_record_shift(l, x);
                    },
                    _ => {},
                }
            }
        }
    } else if l.len() > 0 {
        let s = seq![SyncStep::QueryRecord, SyncStep::Ping];
        assert(s[0] == SyncStep::QueryRecord && s[1] == SyncStep::Ping);
    }
}

proof fn lemma_before_record_shift(l: Listing, album: Seq<char>)
    requires
        l.len() > 0,
        !is_record(l[0].0),
        listed_before_record(l.drop_first(), album),
    ensures
        listed_before_record(l, album),
{
    let rest = l.drop_first();
    let i = choose|i: int|
        0 <= i < rest.len() && (#[trigger] rest[i]).0 == album && forall|m: int|
            0 <= m <= i ==> !is_record(#[trigger] rest[m].0);
    assert(l[i + 1] == rest[i]);
    assert forall|m: int| 0 <= m <= i + 1 implies !is_record(#[trigger] l[m].0) by {
        if m > 0 {
            assert(l[m] == rest[m - 1]);
        }
    }
}

/// Whether a failed request ends the pass (with that request's error):
/// every failure does, except a failed read of `RECORD/T1`, which the pass
/// passes over.
pub open spec fn failure_ends_pass(step: SyncStep) -> bool {
    !(step is RecordTrack)
}

impl SyncAction {
    /// Whether a failure of this request ends the pass.
    pub fn failure_ends_pass(&self) -> (b: bool)
        ensures
            b == failure_ends_pass(self@),
    {
        match self {
            SyncAction::ReadRecordTrack => false,
            _ => true,
        }
    }
}

/// How a pass goes on after one of its requests.
pub enum PassProgress {
    /// Go on with the request at this index.
    Next(usize),
    /// The pass ends with the error of the request that failed.
    Abort,
    /// The pass ends with the listing the ping brought back.
    ReturnListing,
    /// The pass ends without a listing: the plan is exhausted.
    ReturnNone,
}

/// What follows request `k` of a plan that succeeded (`ok`) or failed.
pub open spec fn pass_progress(steps: Seq<SyncStep>, k: int, ok: bool) -> PassProgress {
    if !ok && failure_ends_pass(steps[k]) {
        PassProgress::Abort
    } else if steps[k] is Ping {
        PassProgress::ReturnListing
    } else if k + 1 == steps.len() {
        PassProgress::ReturnNone
    } else {
        PassProgress::Next((k + 1) as usize)
    }
}

/// Says how a pass goes on after its request `k` succeeded or failed; a pass
/// with no request at all ends without a listing.
pub fn pass_after(plan: &[SyncAction], k: usize, ok: bool) -> (p: PassProgress)
    requires
        k < plan@.len(),
    ensures
        p == pass_progress(steps_view(plan@), k as int, ok),
{
    let ends = plan[k].failure_ends_pass();
    if !ok && ends {
        PassProgress::Abort
    } else if let SyncAction::Ping = plan[k] {
        PassProgress::ReturnListing
    } else if k + 1 == plan.len() {
        PassProgress::ReturnNone
    } else {
        PassProgress::Next(k + 1)
    }
}

proof fn lemma_pass1_no_early_ping(l: Listing)
    ensures
        forall|k: int| 0 <= k < pass1_steps(l).len() - 1 ==> #[trigger] pass1_steps(l)[k] != SyncStep::Ping,
    decreases l.len(),
{
    if l.len() > 0 && !is_record(l[0].0) {
        lemma_pass1_no_early_ping(l.drop_first());
        let a = album_steps(l[0].0, l[0].1);
        let r = pass1_steps(l.drop_first());
        assert(pass1_steps(l) == a + r);
        assert forall|k: int| 0 <= k < (a + r).len() - 1 implies #[trigger] (a + r)[k] != SyncStep::Ping by {
            if k >= a.len() {
                assert((a + r)[k] == r[k - a.len()]);
            } else if k > 0 {
                assert(a[k] == SyncStep::TrackConfig(l[0].0, l[0].1[k - 1]));
            }
        }
    } else if l.len() > 0 {
        let s = seq![SyncStep::QueryRecord, SyncStep::Ping];
        assert(s[0] == SyncStep::QueryRecord);
    }
}

/// A pass pings only at its last request, so returning at the ping never
/// skips a request; and every failure ends the first pass, while the second
/// passes over exactly the failed reads of `RECORD/T1`.
pub proof fn lemma_pass_ping_is_last(l: Listing)
    ensures
        forall|k: int| 0 <= k < pass1_steps(l).len() - 1 ==> #[trigger] pass1_steps(l)[k] != SyncStep::Ping,
        forall|k: int| 0 <= k < pass2_steps(l).len() - 1 ==> #[trigger] pass2_steps(l)[k] != SyncStep::Ping,
        forall|k: int| 0 <= k < pass1_steps(l).len() ==> failure_ends_pass(#[trigger] pass1_steps(l)[k]),
{
    lemma_pass1_no_early_ping(l);
    lemma_pass2_body_no_ping(l);
    let b = pass2_body(l);
    assert forall|k: int| 0 <= k < pass2_steps(l).len() - 1 implies #[trigger] pass2_steps(l)[k]
        != SyncStep::Ping by {
        assert(pass2_steps(l)[k] == b[k]);
    }
    lemma_pass1_no_record_track(l);
}

proof fn lemma_pass1_no_record_track(l: Listing)
    ensures
        forall|k: int| 0 <= k < pass1_steps(l).len() ==> failure_ends_pass(#[trigger] pass1_steps(l)[k]),
    decreases l.len(),
{
    if l.len() > 0 && !is_record(l[0].0) {
        lemma_pass1_no_record_track(l.drop_first());
        let a = album_steps(l[0].0, l[0].1);
        let r = pass1_steps(l.drop_first());
        assert(pass1_steps(l) == a + r);
        assert forall|k: int| 0 <= k < (a + r).len() implies failure_ends_pass(#[trigger] (a + r)[k]) by {
            if k >= a.len() {
                assert((a + r)[k] == r[k - a.len()]);
            } else if k > 0 {
                assert(a[k] == SyncStep::TrackConfig(l[0].0, l[0].1[k - 1]));
            }
        }
    } else if l.len() > 0 {
        let s = seq![SyncStep::QueryRecord, SyncStep::Ping];
        assert(s[0] == SyncStep::QueryRecord && s[1] == SyncStep::Ping);
    }
}

/// The albums of a listing that are read as albums: all but `RECORD`, in
/// listing order.
pub open spec fn ordinary_albums(l: Listing) -> Listing
    decreases l.len(),
{
    if l.len() == 0 {
        Seq::empty()
    } else {
        let rest = ordinary_albums(l.drop_last());
        if is_record(l.last().0) {
            rest
        } else {
            rest.push(l.last())
        }
    }
}

/// Whether `info` describes album `album`, whose tracks are `tracks` and
/// whose tracks' config files, as the device sent them, are `raws`, tracks
/// in listing order.
pub open spec fn describes_album(info: AlbumInfo, album: Seq<char>, tracks: Seq<Seq<char>>, raws: Seq<Vec<u8>>) -> bool {
    &&& info.album_id@ == album
    &&& info.tracks@.len() == tracks.len()
    &&& forall|j: int|
        0 <= j < tracks.len() ==> describes_track(
            #[trigger] info.tracks@[j],
            album,
            tracks[j],
            spec_parse_json_bytes(config_json_bytes(raws[j]@)),
        )
}

/// Whether the track config files read have the shape of the listing's
/// ordinary albums: one list per album, one file per track.
pub open spec fn reads_fit(l: Listing, raws: Seq<Vec<Vec<u8>>>) -> bool {
    let ord = ordinary_albums(l);
    &&& raws.len() == ord.len()
    &&& forall|i: int| 0 <= i < ord.len() ==> (#[trigger] raws[i])@.len() == ord[i].1.len()
}

proof fn lemma_ordinary_concat(x: Listing, y: Listing)
    ensures
        ordinary_albums(x + y) == ordinary_albums(x) + ordinary_albums(y),
    decreases y.len(),
{
    if y.len() == 0 {
        assert(x + y =~= x);
        assert(ordinary_albums(x) + ordinary_albums(y) =~= ordinary_albums(x));
    } else {
        assert((x + y).drop_last() =~= x + y.drop_last());
        assert((x + y).last() == y.last());
        lemma_ordinary_concat(x, y.drop_last());
        if !is_record(y.last().0) {
            assert((ordinary_albums(x) + ordinary_albums(y.drop_last())).push(y.last()) =~= ordinary_albums(x)
                + ordinary_albums(y.drop_last()).push(y.last()));
        }
    }
}

proof fn lemma_ordinary_prefix(l: Listing, i: int)
    requires
        0 <= i <= l.len(),
    ensures
        ordinary_albums(l.take(i)).len() <= ordinary_albums(l).len(),
        forall|k: int|
            0 <= k < ordinary_albums(l.take(i)).len() ==> #[trigger] ordinary_albums(l)[k] == ordinary_albums(
                l.take(i),
            )[k],
{
    assert(l =~= l.take(i) + l.skip(i));
    lemma_ordinary_concat(l.take(i), l.skip(i));
}

/// Checks that the track config files read have the shape of the listing's
/// ordinary albums.
pub fn reads_fit_listing(listing: &[(String, Vec<String>)], raws: &[Vec<Vec<u8>>]) -> (b: bool)
    ensures
        b == reads_fit(listing_view(listing@), raws@),
{
    let ghost lv = listing_view(listing@);
    let mut i: usize = 0;
    let mut a: usize = 0;
    while i < listing.len()
        invariant
            0 <= i <= listing@.len(),
            lv == listing_view(listing@),
            a == ordinary_albums(lv.take(i as int)).len(),
            a <= raws@.len(),
            forall|k: int|
                0 <= k < a ==> (#[trigger] raws@[k])@.len() == ordinary_albums(lv.take(i as int))[k].1.len(),
        decreases listing@.len() - i,
    {
        proof {
            assert(lv.take(i + 1).drop_last() =~= lv.take(i as int));
            assert(lv.take(i + 1).last() == lv[i as int]);
        }
        if !is_record_album(listing[i].0.as_str()) {
            if a >= raws.len() {
                proof {
                    lemma_ordinary_prefix(lv, i + 1);
                }
                return false;
            }
            if raws[a].len() != listing[i].1.len() {
                proof {
                    lemma_ordinary_prefix(lv, i + 1);
                    assert(ordinary_albums(lv)[a as int] == lv[i as int]);
                }
                return false;
            }
            a = a + 1;
        }
        i = i + 1;
    }
    proof {
        assert(lv.take(i as int) =~= lv);
    }
    a == raws.len()
}

/// Describes the albums that the reads of `track_listing_plan` list: every
/// album of the listing but `RECORD`, in listing order, each with its
/// tracks in order, track `j` of album `i` described from `raws[i][j]`, the
/// config file read for it (see `parse_track_config`).
pub fn albums_from_reads(listing: &[(String, Vec<String>)], raws: &[Vec<Vec<u8>>]) -> (albums: Vec<
    AlbumInfo,
>)
    requires
        reads_fit(listing_view(listing@), raws@),
    ensures
        albums@.len() == ordinary_albums(listing_view(listing@)).len(),
        forall|i: int|
            0 <= i < albums@.len() ==> describes_album(
                #[trigger] albums@[i],
                ordinary_albums(listing_view(listing@))[i].0,
                ordinary_albums(listing_view(listing@))[i].1,
                raws@[i]@,
            ),
{
    let ghost lv = listing_view(listing@);
    let ghost ord = ordinary_albums(lv);
    let mut albums: Vec<AlbumInfo> = Vec::new();
    let mut i: usize = 0;
    while i < listing.len()
        invariant
            0 <= i <= listing@.len(),
            lv == listing_view(listing@),
            ord == ordinary_albums(lv),
            reads_fit(lv, raws@),
            albums@.len() == ordinary_albums(lv.take(i as int)).len(),
            albums@.len() <= ord.len(),
            forall|k: int|
                0 <= k < albums@.len() ==> describes_album(#[trigger] albums@[k], ord[k].0, ord[k].1, raws@[k]@),
        decreases listing@.len() - i,
    {
        proof {
            assert(lv.take(i + 1).drop_last() =~= lv.take(i as int));
            assert(lv.take(i + 1).last() == lv[i as int]);
            lemma_ordinary_prefix(lv, i + 1);
        }
        if !is_record_album(listing[i].0.as_str()) {
            let a = albums.len();
            assert(ord[a as int] == lv[i as int]);
            let album = &listing[i].0;
            let tracks = &listing[i].1;
            let reads = &raws[a];
            let mut infos: Vec<TrackInfo> = Vec::new();
            let mut j: usize = 0;
            while j < tracks.len()
                invariant
                    0 <= j <= tracks@.len(),
                    reads@.len() == tracks@.len(),
                    infos@.len() == j,
                    forall|m: int|
                        0 <= m < j ==> describes_track(
                            #[trigger] infos@[m],
                            album@,
                            tracks@[m]@,
                            spec_parse_json_bytes(config_json_bytes(reads@[m]@)),
                        ),
                decreases tracks@.len() - j,
            {
                let info = parse_track_config(album.as_str(), tracks[j].as_str(), reads[j].as_slice());
                infos.push(info);
                j = j + 1;
            }
            let ghost before = albums@;
            albums.push(AlbumInfo { album_id: album.clone(), tracks: infos });
            proof {
                assert forall|k: int| 0 <= k < albums@.len() implies describes_album(
                    #[trigger] albums@[k],
                    ord[k].0,
                    ord[k].1,
                    raws@[k]@,
                ) by {
                    if k == a {
                        assert(ord[k].1 == strings_view(tracks@));
                        assert forall|m: int| 0 <= m < ord[k].1.len() implies describes_track(
                            #[trigger] albums@[k].tracks@[m],
                            ord[k].0,
                            ord[k].1[m],
                            spec_parse_json_bytes(config_json_bytes(raws@[k]@[m]@)),
                        ) by {
                            assert(ord[k].1[m] == tracks@[m]@);
                        }
                    } else {
                        assert(albums@[k] == before[k]);
                    }
                }
            }
        }
        i = i + 1;
    }
    proof {
        assert(lv.take(i as int) =~= lv);
    }
    albums
}

proof fn lemma_listing_steps_concat(x: Listing, y: Listing)
    ensures
        listing_steps(x + y) == listing_steps(x) + listing_steps(y),
    decreases x.len(),
{
    if x.len() == 0 {
        assert(x + y =~= y);
        assert(listing_steps(x) + listing_steps(y) =~= listing_steps(y));
    } else {
        assert((x + y)[0] == x[0]);
        assert((x + y).drop_first() =~= x.drop_first() + y);
        lemma_listing_steps_concat(x.drop_first(), y);
        if !is_record(x[0].0) {
            let a = album_steps(x[0].0, x[0].1);
            assert(a + (listing_steps(x.drop_first()) + listing_steps(y)) =~= (a + listing_steps(x.drop_first()))
                + listing_steps(y));
        }
    }
}

/// The reads that list the tracks are those of the listing's ordinary
/// albums, in the same order: each album's config, then its tracks'
/// configs; and no ordinary album is `RECORD`.
pub proof fn lemma_listing_reads_ordinary_albums(l: Listing)
    ensures
        listing_steps(l) == listing_steps(ordinary_albums(l)),
        forall|i: int| 0 <= i < ordinary_albums(l).len() ==> !is_record(#[trigger] ordinary_albums(l)[i].0),
    decreases l.len(),
{
    if l.len() > 0 {
        let dl = l.drop_last();
        let one = seq![l.last()];
        lemma_listing_reads_ordinary_albums(dl);
        assert(l =~= dl + one);
        lemma_listing_steps_concat(dl, one);
        assert(one.drop_first() =~= Seq::<(Seq<char>, Seq<Seq<char>>)>::empty());
        assert(one[0] == l.last());
        assert(listing_steps(one.drop_first()) =~= Seq::<SyncStep>::empty());
        if is_record(l.last().0) {
            assert(listing_steps(one) == listing_steps(one.drop_first()));
            assert(listing_steps(dl) + listing_steps(one) =~= listing_steps(dl));
        } else {
            assert(ordinary_albums(l) =~= ordinary_albums(dl) + one);
            lemma_listing_steps_concat(ordinary_albums(dl), one);
        }
    }
}

/// The bytes a plan's request sends.
pub open spec fn step_request(step: SyncStep) -> Seq<u8> {
    match step {
        SyncStep::AlbumConfig(a) => control_request(CTRL_REQUEST_ALBUM, album_json(a)),
        SyncStep::TrackConfig(a, t) => control_request(CTRL_REQUEST_TRACK, track_json(a, t)),
        SyncStep::QueryRecord => control_request(CTRL_REQUEST_ALBUM, album_json("RECORD"@)),
        SyncStep::RecordTrack => control_request(CTRL_REQUEST_TRACK, track_json("RECORD"@, "T1"@)),
        SyncStep::Ping => frame(MSG_CONTROL, seq![CTRL_PING]),
    }
}

impl SyncAction {
    /// The message this request sends: an album's or a track's config
    /// request (`RECORD` and `RECORD/T1` for the `RECORD` steps), or the
    /// ping.
    pub fn request(&self) -> (msg: Vec<u8>)
        ensures
            msg@ == step_request(self@),
    {
        match self {
            SyncAction::ReadAlbumConfig(a) => album_config_request(a.as_str()),
            SyncAction::ReadTrackConfig(a, t) => track_config_request(a.as_str(), t.as_str()),
            SyncAction::QueryRecord => album_config_request("RECORD"),
            SyncAction::ReadRecordTrack => track_config_request("RECORD", "T1"),
            SyncAction::Ping => bare_control_request(CTRL_PING),
        }
    }
}

/// Reading an ordinary album is its config first, then the config of each
/// of its tracks, in order, and nothing else.
pub proof fn lemma_album_steps_read_config_then_tracks(album: Seq<char>, tracks: Seq<Seq<char>>)
    ensures
        album_steps(album, tracks).len() == tracks.len() + 1,
        album_steps(album, tracks)[0] == SyncStep::AlbumConfig(album),
        forall|j: int|
            0 <= j < tracks.len() ==> album_steps(album, tracks)[j + 1] == SyncStep::TrackConfig(
                album,
                #[trigger] tracks[j],
            ),
{
}

/// The listing reads of two listings one after the other are the reads of
/// the first, then those of the second; one entry is read as an album
/// (config, then tracks) unless it is `RECORD`, which is not read.
pub proof fn lemma_listing_reads_compose(x: Listing, y: Listing, e: (Seq<char>, Seq<Seq<char>>))
    ensures
        listing_steps(Seq::empty()) == Seq::<SyncStep>::empty(),
        listing_steps(x + y) == listing_steps(x) + listing_steps(y),
        listing_steps(seq![e]) == if is_record(e.0) {
            Seq::<SyncStep>::empty()
        } else {
            album_steps(e.0, e.1)
        },
{
    lemma_listing_steps_concat(x, y);
    let one = seq![e];
    assert(one[0] == e);
    assert(one.drop_first() =~= Seq::<(Seq<char>, Seq<Seq<char>>)>::empty());
    assert(listing_steps(one.drop_first()) =~= Seq::<SyncStep>::empty());
    if !is_record(e.0) {
        assert(album_steps(e.0, e.1) + Seq::<SyncStep>::empty() =~= album_steps(e.0, e.1));
    }
}

proof fn lemma_pass2_body_concat(x: Listing, y: Listing)
    ensures
        pass2_body(x + y) == pass2_body(x) + pass2_body(y),
    decreases x.len(),
{
    if x.len() == 0 {
        assert(x + y =~= y);
        assert(pass2_body(x) + pass2_body(y) =~= pass2_body(y));
    } else {
        assert((x + y)[0] == x[0]);
        assert((x + y).drop_first() =~= x.drop_first() + y);
        lemma_pass2_body_concat(x.drop_first(), y);
        let a = if is_record(x[0].0) {
            seq![SyncStep::QueryRecord, SyncStep::RecordTrack]
        } else {
            album_steps(x[0].0, x[0].1)
        };
        assert(a + (pass2_body(x.drop_first()) + pass2_body(y)) =~= (a + pass2_body(x.drop_first())) + pass2_body(y));
    }
}

/// The second pass reads the listing entry by entry, in order: an ordinary
/// album as its config then its tracks' configs, `RECORD` as the album
/// query then the read of `RECORD/T1`; the reads of two listings one after
/// the other are those of the first, then those of the second; and the pass
/// ends with one ping exactly when the listing holds `RECORD`.
pub proof fn lemma_pass2_reads_in_order(x: Listing, y: Listing, e: (Seq<char>, Seq<Seq<char>>))
    ensures
        pass2_body(Seq::empty()) == Seq::<SyncStep>::empty(),
        pass2_body(x + y) == pass2_body(x) + pass2_body(y),
        pass2_body(seq![e]) == if is_record(e.0) {
            seq![SyncStep::QueryRecord, SyncStep::RecordTrack]
        } else {
            album_steps(e.0, e.1)
        },
        has_record(x) ==> pass2_steps(x) == pass2_body(x).push(SyncStep::Ping),
        !has_record(x) ==> pass2_steps(x) == pass2_body(x),
{
    lemma_pass2_body_concat(x, y);
    let one = seq![e];
    assert(one[0] == e);
    assert(one.drop_first() =~= Seq::<(Seq<char>, Seq<Seq<char>>)>::empty());
    assert(pass2_body(one.drop_first()) =~= Seq::<SyncStep>::empty());
    if is_record(e.0) {
        let s = seq![SyncStep::QueryRecord, SyncStep::RecordTrack];
        assert(s + Seq::<SyncStep>::empty() =~= s);
    } else {
        assert(album_steps(e.0, e.1) + Seq::<SyncStep>::empty() =~= album_steps(e.0, e.1));
    }
    assert(pass2_body(x) + seq![SyncStep::Ping] =~= pass2_body(x).push(SyncStep::Ping));
    assert(pass2_body(x) + Seq::<SyncStep>::empty() =~= pass2_body(x));
}

/// The first pass reads, in listing order, every album listed before the
/// first `RECORD` (its config, then its tracks' configs), then queries
/// `RECORD` and pings; it reads nothing listed after `RECORD`.
pub proof fn lemma_pass1_reads_before_record(l: Listing, r: int)
    requires
        0 <= r < l.len(),
        is_record(l[r].0),
        forall|m: int| 0 <= m < r ==> !is_record(#[trigger] l[m].0),
    ensures
        pass1_steps(l) == listing_steps(l.take(r)) + seq![SyncStep::QueryRecord, SyncStep::Ping],
    decreases r,
{
    let s = seq![SyncStep::QueryRecord, SyncStep::Ping];
    if r == 0 {
        assert(l.take(0) =~= Seq::<(Seq<char>, Seq<Seq<char>>)>::empty());
        assert(Seq::<SyncStep>::empty() + s =~= s);
    } else {
        let d = l.drop_first();
        assert forall|m: int| 0 <= m < r - 1 implies !is_record(#[trigger] d[m].0) by {
            assert(d[m] == l[m + 1]);
        }
        assert(d[r - 1] == l[r]);
        lemma_pass1_reads_before_record(d, r - 1);
        let t = l.take(r);
        assert(t[0] == l[0]);
        assert(t.drop_first() =~= d.take(r - 1));
        let a = album_steps(l[0].0, l[0].1);
        assert(listing_steps(t) == a + listing_steps(d.take(r - 1)));
        assert(a + (listing_steps(d.take(r - 1)) + s) =~= (a + listing_steps(d.take(r - 1))) + s);
    }
}

/// Without `RECORD` in the listing, the first pass reads every album, in
/// listing order, and sends nothing else.
pub proof fn lemma_pass1_without_record(l: Listing)
    requires
        !has_record(l),
    ensures
        pass1_steps(l) == listing_steps(l),
    decreases l.len(),
{
    if l.len() > 0 {
        assert(!is_record(l[0].0));
        let d = l.drop_first();
        assert(!has_record(d)) by {
            if has_record(d) {
                let i = choose|i: int| 0 <= i < d.len() && is_record(#[trigger] d[i].0);
                assert(l[i + 1] == d[i]);
            }
        }
        lemma_pass1_without_record(d);
    }
}

/// The first pass reads every album listed before the first `RECORD`, and
/// every track of it.
pub proof fn lemma_pass1_reads_every_album(l: Listing, i: int)
    requires
        0 <= i < l.len(),
        forall|m: int| 0 <= m <= i ==> !is_record(#[trigger] l[m].0),
    ensures
        pass1_steps(l).contains(SyncStep::AlbumConfig(l[i].0)),
        forall|j: int|
            0 <= j < l[i].1.len() ==> pass1_steps(l).contains(
                SyncStep::TrackConfig(l[i].0, #[trigger] l[i].1[j]),
            ),
    decreases l.len(),
{
    assert(!is_record(l[0].0));
    let d = l.drop_first();
    let a = album_steps(l[0].0, l[0].1);
    let r = pass1_steps(d);
    assert(pass1_steps(l) == a + r);
    if i == 0 {
        assert((a + r)[0] == SyncStep::AlbumConfig(l[0].0));
        assert forall|j: int| 0 <= j < l[i].1.len() implies (a + r).contains(
            SyncStep::TrackConfig(l[i].0, #[trigger] l[i].1[j]),
        ) by {
            assert((a + r)[j + 1] == SyncStep::TrackConfig(l[0].0, l[0].1[j]));
        }
    } else {
        assert forall|m: int| 0 <= m <= i - 1 implies !is_record(#[trigger] d[m].0) by {
            assert(d[m] == l[m + 1]);
        }
        assert(d[i - 1] == l[i]);
        lemma_pass1_reads_every_album(d, i - 1);
        let k1 = choose|k: int| 0 <= k < r.len() && r[k] == SyncStep::AlbumConfig(l[i].0);
        assert((a + r)[a.len() + k1] == r[k1]);
        assert forall|j: int| 0 <= j < l[i].1.len() implies (a + r).contains(
            SyncStep::TrackConfig(l[i].0, #[trigger] l[i].1[j]),
        ) by {
            assert(r.contains(SyncStep::TrackConfig(d[i - 1].0, d[i - 1].1[j])));
            let k2 = choose|k: int| 0 <= k < r.len() && r[k] == SyncStep::TrackConfig(l[i].0, l[i].1[j]);
            assert((a + r)[a.len() + k2] == r[k2]);
        }
    }
}

} // verus!
