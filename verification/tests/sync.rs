use rustems::sync::{is_record_album, listing_has_record, sync_plan, track_listing_plan, SyncAction};

fn listing(entries: &[(&str, &[&str])]) -> Vec<(String, Vec<String>)> {
    entries
        .iter()
        .map(|(a, ts)| (a.to_string(), ts.iter().map(|t| t.to_string()).collect()))
        .collect()
}

fn show(plan: &[SyncAction]) -> Vec<String> {
    plan.iter()
        .map(|a| match a {
            SyncAction::ReadAlbumConfig(a) => format!("album {}", a),
            SyncAction::ReadTrackConfig(a, t) => format!("track {}/{}", a, t),
            SyncAction::QueryRecord => "record".to_string(),
            SyncAction::ReadRecordTrack => "record T1".to_string(),
            SyncAction::Ping => "ping".to_string(),
        })
        .collect()
}

#[test]
fn record_album_is_recognised() {
    assert!(is_record_album("RECORD"));
    assert!(!is_record_album("record"));
    assert!(!is_record_album("A1"));
    assert!(listing_has_record(&listing(&[("A1", &[]), ("RECORD", &[])])));
    assert!(!listing_has_record(&listing(&[("A1", &[])])));
}

#[test]
fn first_pass_stops_at_record() {
    let l = listing(&[("A1", &["T1", "T2"]), ("RECORD", &["T1"]), ("A2", &["T3"])]);
    assert_eq!(
        show(&sync_plan(&l, false)),
        vec!["album A1", "track A1/T1", "track A1/T2", "record", "ping"]
    );
}

#[test]
fn first_pass_without_record_reads_everything_and_does_not_ping() {
    let l = listing(&[("A1", &["T1"]), ("A2", &[])]);
    assert_eq!(show(&sync_plan(&l, false)), vec!["album A1", "track A1/T1", "album A2"]);
}

#[test]
fn second_pass_reads_record_track_and_the_rest_then_pings() {
    let l = listing(&[("A1", &["T1"]), ("RECORD", &["T1"]), ("A2", &["T3"])]);
    assert_eq!(
        show(&sync_plan(&l, true)),
        vec!["album A1", "track A1/T1", "record", "record T1", "album A2", "track A2/T3", "ping"]
    );
}

#[test]
fn second_pass_without_record_does_not_ping() {
    let l = listing(&[("A1", &["T1"])]);
    assert_eq!(show(&sync_plan(&l, true)), vec!["album A1", "track A1/T1"]);
}

#[test]
fn track_listing_skips_record() {
    let l = listing(&[("RECORD", &["T1"]), ("A1", &["T1", "T2"]), ("A2", &[])]);
    assert_eq!(
        show(&track_listing_plan(&l)),
        vec!["album A1", "track A1/T1", "track A1/T2", "album A2"]
    );
}

#[test]
fn empty_listing_plans_nothing() {
    assert!(sync_plan(&[], false).is_empty());
    assert!(sync_plan(&[], true).is_empty());
    assert!(track_listing_plan(&[]).is_empty());
}
