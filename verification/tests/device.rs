use rustems::device::{
    album_config_request, album_json_text, bare_control_request, delete_album_request,
    delete_track_request, empty_message, file_read_step, is_delete_confirmation, is_listing_packet,
    track_config_request, track_json_text, FileReadError, FileReadStage, FileReadStep,
    CTRL_DELETE_ALBUM, CTRL_DELETE_TRACK, CTRL_PING, MSG_CONNECT, MSG_DISCONNECT,
};

fn control(ctrl: u8, json: &str) -> Vec<u8> {
    let mut payload = vec![ctrl];
    payload.extend_from_slice(json.as_bytes());
    payload.push(0);
    let total = (payload.len() + 1) as u16;
    let mut msg = vec![(total & 0xFF) as u8, (total >> 8) as u8, 0x04];
    msg.extend_from_slice(&payload);
    msg
}

#[test]
fn request_json_texts() {
    assert_eq!(album_json_text("A1"), "{\"album\":\"A1\"}");
    assert_eq!(track_json_text("A1", "T3"), "{\"album\":\"A1\",\"track\":\"T3\"}");
}

#[test]
fn config_requests() {
    assert_eq!(album_config_request("A1"), control(0x05, "{\"album\":\"A1\"}"));
    assert_eq!(track_config_request("RECORD", "T1"), control(0x06, "{\"album\":\"RECORD\",\"track\":\"T1\"}"));
}

#[test]
fn delete_requests() {
    assert_eq!(delete_album_request("A2"), control(CTRL_DELETE_ALBUM, "{\"album\":\"A2\"}"));
    assert_eq!(delete_track_request("A2", "T9"), control(CTRL_DELETE_TRACK, "{\"album\":\"A2\",\"track\":\"T9\"}"));
    let msg = delete_album_request("A2");
    assert_eq!(msg[..5], [0x11, 0x00, 0x04, 0x09, b'{']);
    assert_eq!(*msg.last().unwrap(), 0x00);
}

#[test]
fn bare_and_empty_messages() {
    assert_eq!(bare_control_request(CTRL_PING), vec![0x02, 0x00, 0x04, 0x03]);
    assert_eq!(bare_control_request(0x12), vec![0x02, 0x00, 0x04, 0x12]);
    assert_eq!(empty_message(MSG_CONNECT), vec![0x01, 0x00, 0x02]);
    assert_eq!(empty_message(MSG_DISCONNECT), vec![0x01, 0x00, 0x03]);
}

#[test]
fn delete_confirmation_echoes_control_byte() {
    assert!(is_delete_confirmation(&[0x02, 0x00, 0x04, 0x09], 0x09));
    assert!(!is_delete_confirmation(&[0x02, 0x00, 0x04, 0x0A], 0x09));
    assert!(!is_delete_confirmation(&[0x02, 0x00, 0x05, 0x09], 0x09));
    assert!(!is_delete_confirmation(&[0x02, 0x00, 0x04], 0x09));
}

#[test]
fn listing_packet_is_05_03() {
    assert!(is_listing_packet(&[0x05, 0x00, 0x05, 0x03, b'{']));
    assert!(is_listing_packet(&[0x00, 0x00, 0x05, 0x03]));
    assert!(!is_listing_packet(&[0x01, 0x00, 0x00]));
    assert!(!is_listing_packet(&[0x02, 0x00, 0x05, 0x05]));
}

#[test]
fn file_read_happy_path() {
    assert!(matches!(file_read_step(FileReadStage::AwaitReady, &[0x02, 0x00, 0x05, 0x05]), FileReadStep::SendAck(FileReadStage::AwaitHeader)));
    assert!(matches!(file_read_step(FileReadStage::AwaitHeader, &[0x0A, 0x00, 0x06, b'{']), FileReadStep::SendAck(FileReadStage::AwaitData)));
    match file_read_step(FileReadStage::AwaitData, &[0x0C, 0x00, 0x07, 4, 0, 0, 0, 0, b'a', b'b', b'c', b'd']) {
        FileReadStep::Done(data) => assert_eq!(data, b"abcd".to_vec()),
        _ => panic!("expected data"),
    }
}

#[test]
fn file_read_data_without_body_is_empty() {
    match file_read_step(FileReadStage::AwaitData, &[0x06, 0x00, 0x07, 0, 0, 0, 0, 0]) {
        FileReadStep::Done(data) => assert!(data.is_empty()),
        _ => panic!("expected data"),
    }
    match file_read_step(FileReadStage::AwaitData, &[0x02, 0x00, 0x07]) {
        FileReadStep::Done(data) => assert!(data.is_empty()),
        _ => panic!("expected data"),
    }
}

#[test]
fn file_read_wrong_packets_fail() {
    assert!(matches!(file_read_step(FileReadStage::AwaitReady, &[0x01, 0x00, 0x00]), FileReadStep::Fail(FileReadError::NotReady)));
    assert!(matches!(file_read_step(FileReadStage::AwaitReady, &[0x02, 0x00]), FileReadStep::Fail(FileReadError::NotReady)));
    assert!(matches!(file_read_step(FileReadStage::AwaitReady, &[0x03, 0x00, 0x05]), FileReadStep::Fail(FileReadError::NotReady)));
    assert!(matches!(file_read_step(FileReadStage::AwaitHeader, &[0x02, 0x00, 0x07]), FileReadStep::Fail(FileReadError::NotHeader)));
    assert!(matches!(file_read_step(FileReadStage::AwaitData, &[0x02, 0x00, 0x06]), FileReadStep::Fail(FileReadError::NotData)));
    assert!(matches!(file_read_step(FileReadStage::AwaitData, &[]), FileReadStep::Fail(FileReadError::NotData)));
}
