use rustems::frame::{
    ack_packet, build_chunk_header, build_chunk_packet, build_message, build_upload_init, is_ack,
    ReadStep, ResponseReader, CHUNK_SIZE,
};

fn read_all(chunks: &[&[u8]]) -> Option<Vec<u8>> {
    let mut reader = ResponseReader::new();
    for chunk in chunks {
        match reader.on_read(chunk) {
            ReadStep::Done(data) => return Some(data),
            ReadStep::Pending(r) => reader = r,
        }
    }
    None
}

#[test]
fn message_has_length_type_and_payload() {
    assert_eq!(build_message(0x04, &[0x03]), vec![0x02, 0x00, 0x04, 0x03]);
    assert_eq!(build_message(0x02, &[]), vec![0x01, 0x00, 0x02]);
}

#[test]
fn message_length_field_is_little_endian() {
    let payload = vec![0xAAu8; 300];
    let msg = build_message(0x06, &payload);
    assert_eq!(msg.len(), 303);
    assert_eq!(msg[0], 0x2D);
    assert_eq!(msg[1], 0x01);
    assert_eq!(msg[2], 0x06);
    assert_eq!(&msg[3..], &payload[..]);
}

#[test]
fn message_length_field_wraps_at_sixteen_bits() {
    let payload = vec![0u8; 65535];
    let msg = build_message(0x07, &payload);
    assert_eq!(msg[0], 0x00);
    assert_eq!(msg[1], 0x00);
}

#[test]
fn chunk_header_declares_size_plus_six() {
    assert_eq!(build_chunk_header(8192), [0x06, 0x20, 0x07, 0x00, 0x20, 0x00, 0x00, 0x00]);
    assert_eq!(build_chunk_header(0), [0x06, 0x00, 0x07, 0x00, 0x00, 0x00, 0x00, 0x00]);
    assert_eq!(build_chunk_header(1808), [0x16, 0x07, 0x07, 0x10, 0x07, 0x00, 0x00, 0x00]);
}

#[test]
fn chunk_header_size_field_is_thirty_two_bits() {
    let h = build_chunk_header(0x0102_0304);
    assert_eq!(h[3..7], [0x04, 0x03, 0x02, 0x01]);
    assert_eq!(h[0], 0x0A);
    assert_eq!(h[1], 0x03);
}

#[test]
fn upload_init_frames_json_with_nul() {
    assert_eq!(build_upload_init(b"{}"), vec![0x04, 0x00, 0x06, b'{', b'}', 0x00]);
}

#[test]
fn chunks_cover_body_in_order() {
    let body: Vec<u8> = (0..10000u32).map(|i| (i % 251) as u8).collect();
    let (first, next) = build_chunk_packet(&body, 0);
    assert_eq!(next, CHUNK_SIZE);
    assert_eq!(first.len(), 8 + 8192);
    assert_eq!(&first[..8], &build_chunk_header(8192));
    assert_eq!(&first[8..], &body[..8192]);
    let (second, end) = build_chunk_packet(&body, next);
    assert_eq!(end, 10000);
    assert_eq!(&second[..8], &build_chunk_header(1808));
    assert_eq!(&second[8..], &body[8192..]);
    let mut carried = first[8..].to_vec();
    carried.extend_from_slice(&second[8..]);
    assert_eq!(carried, body);
}

#[test]
fn small_body_is_one_chunk() {
    let body = [1u8, 2, 3];
    let (pkt, end) = build_chunk_packet(&body, 0);
    assert_eq!(end, 3);
    assert_eq!(pkt, vec![0x09, 0x00, 0x07, 0x03, 0x00, 0x00, 0x00, 0x00, 1, 2, 3]);
}

#[test]
fn response_split_over_reads_is_reassembled() {
    let msg = build_message(0x04, &[0x05, 0x03, b'x']);
    assert_eq!(read_all(&[&msg[..1], &msg[1..3], &msg[3..]]), Some(msg.clone()));
    assert_eq!(read_all(&[&msg[..]]), Some(msg));
}

#[test]
fn response_extra_bytes_are_cut() {
    assert_eq!(read_all(&[&[0x05, 0x00, 0x07, 0x01], &[0x02, 0x03, 0x09, 0x09]]), Some(vec![0x05, 0x00, 0x07, 0x01, 0x02, 0x03, 0x09]));
}

#[test]
fn empty_read_ends_response_as_it_stands() {
    assert_eq!(read_all(&[&[0x09, 0x00, 0x07], &[]]), Some(vec![0x09, 0x00, 0x07]));
    assert_eq!(read_all(&[&[]]), Some(vec![]));
}

#[test]
fn incomplete_response_keeps_reading() {
    assert_eq!(read_all(&[&[0x09], &[0x00, 0x07]]), None);
}

#[test]
fn ack_is_01_00_00() {
    assert_eq!(ack_packet(), vec![0x01, 0x00, 0x00]);
    assert!(is_ack(&[0x01, 0x00, 0x00]));
    assert!(!is_ack(&[0x01, 0x00, 0x00, 0x00]));
    assert!(!is_ack(&[0x02, 0x00, 0x05, 0x05]));
    assert!(!is_ack(&[]));
}

#[test]
fn file_is_sent_as_init_then_chunks() {
    let body: Vec<u8> = (0..20000u32).map(|i| (i % 251) as u8).collect();
    let json = b"{\"size\":20000}";
    let packets = rustems::frame::file_packets(json, &body);
    assert_eq!(packets.len(), 4);
    assert_eq!(packets[0], build_upload_init(json));
    let mut rebuilt = Vec::new();
    for (k, pkt) in packets[1..].iter().enumerate() {
        let start = CHUNK_SIZE * k;
        let end = (start + CHUNK_SIZE).min(body.len());
        assert_eq!(&pkt[..8], &build_chunk_header(end - start)[..]);
        assert_eq!(&pkt[8..], &body[start..end]);
        rebuilt.extend_from_slice(&pkt[8..]);
    }
    assert_eq!(rebuilt, body);
    assert_eq!(packets[3].len(), 8 + 20000 - 2 * 8192);
}

#[test]
fn empty_file_sends_no_chunk() {
    let packets = rustems::frame::file_packets(b"{}", &[]);
    assert_eq!(packets.len(), 1);
    assert_eq!(packets[0], build_upload_init(b"{}"));
}

#[test]
fn read_stops_at_first_complete_frame() {
    let msg = build_message(0x05, &[1, 2, 3, 4, 5]);
    let mut extra = msg.clone();
    extra.extend_from_slice(&[9, 9, 9]);
    assert_eq!(read_all(&[&extra[..2], &extra[2..5], &extra[5..]]), Some(msg.clone()));
    assert_eq!(read_all(&[&extra[..1], &extra[1..]]), Some(msg));
}
