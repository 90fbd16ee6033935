use rustems::device::{album_config_request, bare_control_request, track_config_request, CTRL_PING};
use rustems::catalog::TrackInfo;
use rustems::sync::{
    albums_from_reads, pass_after, reads_fit_listing, sync_plan, track_listing_plan, PassProgress, SyncAction,
};

fn listing(entries: &[(&str, &[&str])]) -> Vec<(String, Vec<String>)> {
    entries
        .iter()
        .map(|(a, ts)| (a.to_string(), ts.iter().map(|t| t.to_string()).collect()))
        .collect()
}

fn progress(p: PassProgress) -> String {
    match p {
        PassProgress::Next(k) => format!("next {}", k),
        PassProgress::Abort => "abort".to_string(),
        PassProgress::ReturnListing => "listing".to_string(),
        PassProgress::ReturnNone => "none".to_string(),
    }
}

#[test]
fn failures_end_the_pass_except_record_track() {
    let l = listing(&[("A1", &["T1"]), ("RECORD", &["T1"]), ("A2", &[])]);
    let plan = sync_plan(&l, true);
    assert!(matches!(plan[3], SyncAction::ReadRecordTrack));
    assert_eq!(progress(pass_after(&plan, 0, false)), "abort");
    assert_eq!(progress(pass_after(&plan, 1, false)), "abort");
    assert_eq!(progress(pass_after(&plan, 2, false)), "abort");
    assert_eq!(progress(pass_after(&plan, 3, false)), "next 4");
    assert_eq!(progress(pass_after(&plan, 3, true)), "next 4");
    assert_eq!(progress(pass_after(&plan, 0, true)), "next 1");
    let last = plan.len() - 1;
    assert!(matches!(plan[last], SyncAction::Ping));
    assert_eq!(progress(pass_after(&plan, last, true)), "listing");
    assert_eq!(progress(pass_after(&plan, last, false)), "abort");
}

#[test]
fn plan_without_ping_ends_without_listing() {
    let l = listing(&[("A1", &["T1"])]);
    let plan = track_listing_plan(&l);
    assert_eq!(plan.len(), 2);
    assert_eq!(progress(pass_after(&plan, 1, true)), "none");
}

fn titles(tracks: &[TrackInfo]) -> Vec<String> {
    tracks.iter().map(|t| t.title.clone()).collect()
}

#[test]
fn albums_follow_listing_and_skip_record() {
    let l = listing(&[("A1", &["T1", "T2"]), ("RECORD", &["T1"]), ("A2", &["T3"])]);
    let config = b"{\"metadata\":{\"title\":\"Song\",\"artist\":\"Me\"}}\0".to_vec();
    let raws = vec![vec![config, b"not json".to_vec()], vec![Vec::new()]];
    assert!(reads_fit_listing(&l, &raws));
    let albums = albums_from_reads(&l, &raws);
    assert_eq!(albums.len(), 2);
    assert_eq!(albums[0].album_id, "A1");
    assert_eq!(titles(&albums[0].tracks), vec!["Song", "T2"]);
    assert_eq!(albums[0].tracks[0].artist, "Me");
    assert_eq!(albums[0].tracks[1].artist, "Unknown");
    assert_eq!(albums[0].tracks[1].colours, vec!["#ffffff", "#ffffff"]);
    assert_eq!(albums[1].album_id, "A2");
    assert_eq!(albums[1].tracks[0].track_id, "T3");
    assert_eq!(albums[1].tracks[0].album_id, "A2");
}

#[test]
fn reads_must_fit_listing() {
    let l = listing(&[("A1", &["T1"]), ("RECORD", &[])]);
    let none: Vec<Vec<Vec<u8>>> = vec![];
    let two_albums: Vec<Vec<Vec<u8>>> = vec![vec![], vec![]];
    let two_tracks: Vec<Vec<Vec<u8>>> = vec![vec![vec![], vec![]]];
    let one_track: Vec<Vec<Vec<u8>>> = vec![vec![vec![]]];
    assert!(!reads_fit_listing(&l, &none));
    assert!(!reads_fit_listing(&l, &two_albums));
    assert!(!reads_fit_listing(&l, &two_tracks));
    assert!(reads_fit_listing(&l, &one_track));
    assert!(reads_fit_listing(&listing(&[("RECORD", &["T1"])]), &none));
}

#[test]
fn each_step_sends_its_request() {
    let l = listing(&[("A1", &["T1"]), ("RECORD", &["T1"]), ("A2", &[])]);
    let plan = sync_plan(&l, true);
    let sent: Vec<Vec<u8>> = plan.iter().map(|a| a.request()).collect();
    assert_eq!(
        sent,
        vec![
            album_config_request("A1"),
            track_config_request("A1", "T1"),
            album_config_request("RECORD"),
            track_config_request("RECORD", "T1"),
            album_config_request("A2"),
            bare_control_request(CTRL_PING),
        ]
    );
    assert_eq!(sent[5], vec![0x02, 0x00, 0x04, 0x03]);
    let mut record = vec![0x15, 0x00, 0x04, 0x05];
    record.extend_from_slice(b"{\"album\":\"RECORD\"}");
    record.push(0x00);
    assert_eq!(sent[2], record);
}
