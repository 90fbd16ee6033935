use rustems::json::JsonValue;
use rustems::session::{UploadAction, UploadError, UploadPhase, UploadSession};
use rustems::sync::SyncAction;

fn listing(entries: &[(&str, &[&str])]) -> Vec<(String, Vec<String>)> {
    entries
        .iter()
        .map(|(a, ts)| (a.to_string(), ts.iter().map(|t| t.to_string()).collect()))
        .collect()
}

fn plan_len(a: &UploadAction) -> usize {
    match a {
        UploadAction::RunPass(plan) => plan.len(),
        _ => panic!("expected a pass"),
    }
}

fn stem_fields(a: &UploadAction) -> (usize, Vec<(String, String)>) {
    match a {
        UploadAction::SendStem { index, metadata: JsonValue::Object(e) } => (
            *index,
            e.iter()
                .map(|(k, v)| {
                    let v = match v {
                        JsonValue::Str(s) | JsonValue::Number(s) => s.clone(),
                        _ => panic!("unexpected value"),
                    };
                    (k.clone(), v)
                })
                .collect(),
        ),
        _ => panic!("expected a stem"),
    }
}

fn pairs(v: &[(&str, &str)]) -> Vec<(String, String)> {
    v.iter().map(|(a, b)| (a.to_string(), b.to_string())).collect()
}

#[test]
fn upload_runs_both_passes_then_sends_stems_and_config() {
    let l = listing(&[("A1", &["T1", "T2"]), ("RECORD", &["T1"]), ("A2", &["T5"])]);
    let mut s = UploadSession::new(vec![(1, 100), (2, 200)]);
    let first = s.first_pass(&l);
    assert_eq!(plan_len(&first), 5);
    assert!(matches!(first, UploadAction::RunPass(ref p) if matches!(p[4], SyncAction::Ping)));
    let second = s.pass_finished(Some(l.clone()));
    assert_eq!(s.phase(), UploadPhase::SecondPass);
    assert_eq!(plan_len(&second), 8);
    match s.pass_finished(Some(l)) {
        UploadAction::QueryStorage(n) => assert_eq!(n, 1324),
        _ => panic!("expected a storage query"),
    }
    assert_eq!(s.phase(), UploadPhase::StorageCheck);
    let a = s.storage_known(1456, 10_000);
    assert_eq!(
        stem_fields(&a),
        (0, pairs(&[("size", "100"), ("type", "stem-audio-mp3"), ("track", "T6"), ("album", "A2"), ("stem", "1")]))
    );
    let a = s.file_sent();
    assert_eq!(
        stem_fields(&a),
        (1, pairs(&[("size", "200"), ("type", "stem-audio-mp3"), ("track", "T6"), ("album", "A2"), ("stem", "2")]))
    );
    match s.file_sent() {
        UploadAction::SendTrackConfig { album_id, track_id } => assert_eq!((album_id.as_str(), track_id.as_str()), ("A2", "T6")),
        _ => panic!("expected the track config"),
    }
    assert!(matches!(s.file_sent(), UploadAction::Finished));
    assert_eq!(s.phase(), UploadPhase::Finished);
}

#[test]
fn upload_without_record_fails_after_first_pass() {
    let mut s = UploadSession::new(vec![(1, 10)]);
    assert!(matches!(s.pass_finished(None), UploadAction::Failed(UploadError::RecordMissingFirstPass)));
    assert_eq!(s.phase(), UploadPhase::Failed);
}

#[test]
fn upload_without_record_fails_after_second_pass() {
    let mut s = UploadSession::new(vec![(1, 10)]);
    s.pass_finished(Some(listing(&[("RECORD", &[])])));
    assert!(matches!(s.pass_finished(None), UploadAction::Failed(UploadError::RecordMissingSecondPass)));
}

#[test]
fn upload_without_albums_fails() {
    let mut s = UploadSession::new(vec![(1, 10)]);
    s.pass_finished(Some(listing(&[("RECORD", &[])])));
    assert!(matches!(s.pass_finished(Some(listing(&[("RECORD", &["T1"])]))), UploadAction::Failed(UploadError::NoValidAlbums)));
}

#[test]
fn upload_without_room_fails() {
    let mut s = UploadSession::new(vec![(1, 10)]);
    s.pass_finished(Some(listing(&[("A1", &[])])));
    s.pass_finished(Some(listing(&[("A1", &[])])));
    match s.storage_known(3 * 1_048_576, 1_048_575) {
        UploadAction::Failed(UploadError::NotEnoughStorage(short)) => assert_eq!((short.need_mb, short.free_mb), (3, 0)),
        _ => panic!("expected a storage failure"),
    }
}

#[test]
fn upload_of_no_stems_sends_only_the_config() {
    let mut s = UploadSession::new(vec![]);
    s.pass_finished(Some(listing(&[("A1", &[])])));
    match s.pass_finished(Some(listing(&[("A4", &[])]))) {
        UploadAction::QueryStorage(n) => assert_eq!(n, 1024),
        _ => panic!("expected a storage query"),
    }
    match s.storage_known(1126, 1126) {
        UploadAction::SendTrackConfig { album_id, track_id } => assert_eq!((album_id.as_str(), track_id.as_str()), ("A4", "T1")),
        _ => panic!("expected the track config"),
    }
}
