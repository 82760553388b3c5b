use blue::ipc::frame::{frame, frame_length, unframe, FrameError, MAX_FRAME_LEN};
use blue::ipc::message::request::{Command, Request};
use blue::ipc::message::{
    FollowRequest, FollowResponse, Get, InitiateSession, ReplicateResponse, ReplicateSet,
    Response, SetKey, SynchronizeRequest, SynchronizeResponse, Welcome,
};
use blue::ipc::varint::read_varint;

fn round_trip_request(r: Request) {
    let framed = frame(&r.encode()).unwrap();
    let (payload, used) = unframe(&framed).unwrap();
    assert_eq!(used, framed.len());
    assert_eq!(Request::decode(&payload).unwrap(), r);
}

#[test]
fn every_request_variant_round_trips() {
    let set = SetKey { key: "a".to_string(), value: "1".to_string() };
    let commands = vec![
        Command::Get(Get { key: "a".to_string() }),
        Command::Get(Get { key: String::new() }),
        Command::SetKey(set.clone()),
        Command::FollowRequest(FollowRequest { follower_addr: "127.0.0.1:7879".to_string() }),
        Command::SynchronizeRequest(SynchronizeRequest { next_sequence: 300 }),
        Command::ReplicateSet(ReplicateSet {
            leader_addr: "127.0.0.1:7878".to_string(),
            set: Some(set),
            sequence: u64::MAX,
        }),
        Command::ReplicateSet(ReplicateSet {
            leader_addr: "l".to_string(),
            set: None,
            sequence: 0,
        }),
        Command::InitiateSession(InitiateSession { name: "émile".to_string() }),
        Command::ReplicateResponse(ReplicateResponse { success: true, sequence: 7 }),
    ];
    for c in commands {
        round_trip_request(Request { command: Some(c) });
    }
    round_trip_request(Request { command: None });
}

#[test]
fn every_response_variant_round_trips() {
    let r = Response { success: true, message: "1".to_string() };
    let (p, _) = unframe(&frame(&r.encode()).unwrap()).unwrap();
    assert_eq!(Response::decode(&p).unwrap(), r);
    let w = Welcome { message: "Welcome to Blue!\n".to_string() };
    let (p, _) = unframe(&frame(&w.encode()).unwrap()).unwrap();
    assert_eq!(Welcome::decode(&p).unwrap(), w);
    let f = FollowResponse { leader: "127.0.0.1:7878".to_string(), replication: 1 };
    let (p, _) = unframe(&frame(&f.encode()).unwrap()).unwrap();
    assert_eq!(FollowResponse::decode(&p).unwrap(), f);
    let s = SynchronizeResponse { latest_sequence: 5 };
    let (p, _) = unframe(&frame(&s.encode()).unwrap()).unwrap();
    assert_eq!(SynchronizeResponse::decode(&p).unwrap(), s);
}

#[test]
fn set_encoding_is_protobuf() {
    let s = SetKey { key: "a".to_string(), value: "1".to_string() };
    assert_eq!(s.encode(), vec![0x0a, 0x01, b'a', 0x12, 0x01, b'1']);
    let r = Request { command: Some(Command::SetKey(s)) };
    assert_eq!(r.encode(), vec![0x12, 0x06, 0x0a, 0x01, b'a', 0x12, 0x01, b'1']);
}

#[test]
fn frame_has_little_endian_length() {
    assert_eq!(frame(&vec![9, 8, 7]).unwrap(), vec![3, 0, 0, 0, 9, 8, 7]);
    assert_eq!(frame_length(&[3, 1, 0, 0]).unwrap(), 259);
}

#[test]
fn oversized_frames_are_refused() {
    let header = (MAX_FRAME_LEN + 1).to_le_bytes();
    assert_eq!(frame_length(&header).unwrap_err(), FrameError::TooLarge);
    assert_eq!(unframe(&header).unwrap_err(), FrameError::TooLarge);
    let big = vec![0u8; MAX_FRAME_LEN as usize + 1];
    assert_eq!(frame(&big).unwrap_err(), FrameError::TooLarge);
}

#[test]
fn short_frames_are_truncated() {
    assert_eq!(unframe(&[1, 0]).unwrap_err(), FrameError::Truncated);
    assert_eq!(unframe(&[4, 0, 0, 0, 1]).unwrap_err(), FrameError::Truncated);
}

#[test]
fn varint_bytes_and_back() {
    let small = SynchronizeRequest { next_sequence: 300 }.encode();
    assert_eq!(small, vec![0x08, 0xac, 0x02]);
    let big = SynchronizeRequest { next_sequence: u64::MAX }.encode();
    assert_eq!(big, vec![0x08, 0xff, 0xff, 0xff, 0xff, 0xff, 0xff, 0xff, 0xff, 0xff, 0x01]);
    assert_eq!(read_varint(&small, 1), Some((300, 3)));
    assert_eq!(read_varint(&big, 1), Some((u64::MAX, 11)));
    assert_eq!(read_varint(&[0x80], 0), None);
    assert_eq!(read_varint(&[0xff, 0xff, 0xff, 0xff, 0xff, 0xff, 0xff, 0xff, 0xff, 0x02], 0), None);
}

#[test]
fn malformed_messages_are_refused() {
    // a text field holding bytes that are not UTF-8
    assert_eq!(SetKey::decode(&[0x0a, 0x01, 0xff]), None);
    // a text field written as an integer
    assert_eq!(SetKey::decode(&[0x08, 0x01]), None);
    // a field that runs past the end
    assert_eq!(Get::decode(&[0x0a, 0x05, b'a']), None);
    // a command field written as an integer
    assert_eq!(Request::decode(&[0x08, 0x01]), None);
}

#[test]
fn unknown_fields_are_skipped_and_last_value_wins() {
    let bytes = vec![0x0a, 0x01, b'a', 0x18, 0x05, 0x0a, 0x01, b'b'];
    assert_eq!(Get::decode(&bytes).unwrap(), Get { key: "b".to_string() });
}
