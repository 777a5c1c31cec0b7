use tds_client::packet::{
    split_message, reassemble_message, encode_packet, decode_packet, Packet, HEADER_LEN,
    STATUS_END_OF_MESSAGE,
};
use tds_client::TdsError;

fn payload(n: usize) -> Vec<u8> {
    let mut v = Vec::new();
    for i in 0..n {
        v.push((i % 251) as u8);
    }
    v
}

#[test]
fn split_and_reassemble_round_trip() {
    let data = payload(10_000);
    let pkts = split_message(0x04, &data, 512);
    assert!(pkts.len() == (10_000 + 503) / 504);
    let (ptype, out) = reassemble_message(&pkts).unwrap();
    assert_eq!(ptype, 0x04);
    assert_eq!(out, data);
}

#[test]
fn split_empty_payload_gives_one_final_packet() {
    let data: Vec<u8> = Vec::new();
    let pkts = split_message(0x01, &data, 4096);
    assert_eq!(pkts.len(), 1);
    assert_eq!(pkts[0].status & STATUS_END_OF_MESSAGE, STATUS_END_OF_MESSAGE);
    assert_eq!(pkts[0].payload.len(), 0);
    let (ptype, out) = reassemble_message(&pkts).unwrap();
    assert_eq!(ptype, 0x01);
    assert!(out.is_empty());
}

#[test]
fn split_exact_multiple_of_chunk() {
    let data = payload(1008);
    let pkts = split_message(0x04, &data, 512);
    assert_eq!(pkts.len(), 2);
    assert_eq!(pkts[0].payload.len(), 504);
    assert_eq!(pkts[1].payload.len(), 504);
    assert_eq!(pkts[0].status & STATUS_END_OF_MESSAGE, 0);
    assert_eq!(pkts[1].status & STATUS_END_OF_MESSAGE, STATUS_END_OF_MESSAGE);
    let (_, out) = reassemble_message(&pkts).unwrap();
    assert_eq!(out, data);
}

#[test]
fn minimum_packet_size_one_byte_per_packet() {
    let data = payload(5);
    let pkts = split_message(0x04, &data, HEADER_LEN + 1);
    assert_eq!(pkts.len(), 5);
    let (_, out) = reassemble_message(&pkts).unwrap();
    assert_eq!(out, data);
}

#[test]
fn out_of_sequence_packet_id_is_protocol_error() {
    let data = payload(2000);
    let mut pkts = split_message(0x04, &data, 512);
    pkts[1].pkt_id = 7;
    assert_eq!(reassemble_message(&pkts), Err(TdsError::ProtocolError));
}

#[test]
fn early_end_of_message_bit_is_protocol_error() {
    let data = payload(2000);
    let mut pkts = split_message(0x04, &data, 512);
    assert!(pkts.len() > 2);
    pkts[0].status = STATUS_END_OF_MESSAGE;
    assert_eq!(reassemble_message(&pkts), Err(TdsError::ProtocolError));
}

#[test]
fn missing_end_of_message_bit_is_protocol_error() {
    let data = payload(100);
    let mut pkts = split_message(0x04, &data, 512);
    pkts[0].status = 0;
    assert_eq!(reassemble_message(&pkts), Err(TdsError::ProtocolError));
}

#[test]
fn empty_packet_sequence_is_protocol_error() {
    let pkts: Vec<Packet> = Vec::new();
    assert_eq!(reassemble_message(&pkts), Err(TdsError::ProtocolError));
}

#[test]
fn packet_header_layout_is_exact() {
    let p = Packet {
        ptype: 0x04,
        status: 0x01,
        spid: 0x1234,
        pkt_id: 3,
        window: 0,
        payload: vec![0xAA, 0xBB],
    };
    let bytes = encode_packet(&p);
    // type, status, big-endian length (8 + 2), big-endian spid, id, window
    assert_eq!(bytes, vec![0x04, 0x01, 0x00, 0x0A, 0x12, 0x34, 0x03, 0x00, 0xAA, 0xBB]);
}

#[test]
fn packet_encode_decode_round_trip() {
    let p = Packet {
        ptype: 0x12,
        status: 0x01,
        spid: 99,
        pkt_id: 1,
        window: 0,
        payload: vec![1, 2, 3, 4, 5],
    };
    let bytes = encode_packet(&p);
    let q = decode_packet(&bytes).unwrap();
    assert_eq!(q.ptype, 0x12);
    assert_eq!(q.status, 0x01);
    assert_eq!(q.spid, 99);
    assert_eq!(q.pkt_id, 1);
    assert_eq!(q.payload, vec![1, 2, 3, 4, 5]);
}

#[test]
fn packet_with_wrong_declared_length_is_protocol_error() {
    let p = Packet {
        ptype: 0x12,
        status: 0x01,
        spid: 0,
        pkt_id: 1,
        window: 0,
        payload: vec![1, 2, 3],
    };
    let mut bytes = encode_packet(&p);
    bytes[3] = bytes[3].wrapping_add(1);
    assert!(matches!(decode_packet(&bytes), Err(TdsError::ProtocolError)));
    let short = vec![0x04, 0x00, 0x00];
    assert!(matches!(decode_packet(&short), Err(TdsError::ProtocolError)));
}
