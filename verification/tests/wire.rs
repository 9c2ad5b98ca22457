use lockstep::wire::{deserialize_item, serialize_item, serialize_items, FrameRead};

fn framed(payload: &[u8]) -> Vec<u8> {
    let mut out = Vec::new();
    serialize_item(&mut out, payload);
    out
}

#[test]
fn frame_is_big_endian_length_then_payload() {
    assert_eq!(framed(&[0xaa, 0xbb, 0xcc]), vec![0, 0, 0, 3, 0xaa, 0xbb, 0xcc]);
}

#[test]
fn frame_of_empty_payload_is_the_prefix_alone() {
    assert_eq!(framed(&[]), vec![0, 0, 0, 0]);
}

#[test]
fn frame_length_uses_every_prefix_byte() {
    let payload = vec![7u8; 0x01_02_03];
    let out = framed(&payload);
    assert_eq!(&out[..4], &[0x00, 0x01, 0x02, 0x03]);
    assert_eq!(out.len(), 4 + 0x01_02_03);
    assert_eq!(&out[4..], &payload[..]);
}

#[test]
fn serialize_item_appends_to_what_is_there() {
    let mut out = vec![9u8, 8];
    serialize_item(&mut out, &[1]);
    assert_eq!(out, vec![9, 8, 0, 0, 0, 1, 1]);
}

#[test]
fn frame_round_trip() {
    let payload = vec![1u8, 2, 3, 4, 5];
    match deserialize_item(&framed(&payload)) {
        FrameRead::Complete { payload: got, consumed } => {
            assert_eq!(got, payload);
            assert_eq!(consumed, 9);
        }
        FrameRead::Incomplete { .. } => panic!("a whole frame was reported incomplete"),
    }
}

#[test]
fn frame_round_trip_leaves_the_rest() {
    let mut buffer = framed(&[1, 2]);
    buffer.extend_from_slice(&[0xff, 0xfe, 0xfd]);
    match deserialize_item(&buffer) {
        FrameRead::Complete { payload, consumed } => {
            assert_eq!(payload, vec![1, 2]);
            assert_eq!(consumed, 6);
            assert_eq!(&buffer[consumed..], &[0xff, 0xfe, 0xfd]);
        }
        FrameRead::Incomplete { .. } => panic!("a whole frame was reported incomplete"),
    }
}

#[test]
fn short_prefix_asks_for_the_rest_of_the_prefix() {
    assert!(matches!(deserialize_item(&[]), FrameRead::Incomplete { missing: 4 }));
    assert!(matches!(deserialize_item(&[0]), FrameRead::Incomplete { missing: 3 }));
    assert!(matches!(deserialize_item(&[0, 0, 0]), FrameRead::Incomplete { missing: 1 }));
}

#[test]
fn declared_length_beyond_the_buffer_is_incomplete() {
    assert!(matches!(
        deserialize_item(&[0, 0, 0, 5, 1, 2]),
        FrameRead::Incomplete { missing: 3 }
    ));
    assert!(matches!(
        deserialize_item(&[0xff, 0xff, 0xff, 0xff]),
        FrameRead::Incomplete { missing: 0xffff_ffff }
    ));
}

#[test]
fn every_proper_prefix_of_a_frame_is_incomplete() {
    let whole = framed(&[10, 20, 30, 40, 50, 60]);
    for have in 0..whole.len() {
        match deserialize_item(&whole[..have]) {
            FrameRead::Incomplete { missing } => {
                let expected = if have < 4 { 4 - have } else { whole.len() - have };
                assert_eq!(missing, expected as u64);
            }
            FrameRead::Complete { .. } => panic!("a prefix of {} bytes was decoded", have),
        }
    }
}

#[test]
fn prefix_is_read_most_significant_byte_first() {
    let mut buffer = vec![0u8, 0, 1, 0];
    buffer.extend_from_slice(&[5u8; 256]);
    match deserialize_item(&buffer) {
        FrameRead::Complete { payload, consumed } => {
            assert_eq!(payload.len(), 256);
            assert_eq!(consumed, 260);
        }
        FrameRead::Incomplete { .. } => panic!("a whole frame was reported incomplete"),
    }
}

#[test]
fn items_of_a_pass_are_framed_in_order() {
    let items = vec![vec![1u8], vec![], vec![2u8, 3]];
    assert_eq!(
        serialize_items(&items),
        vec![0, 0, 0, 1, 1, 0, 0, 0, 0, 0, 0, 0, 2, 2, 3]
    );
    assert_eq!(serialize_items(&Vec::new()), Vec::<u8>::new());
}

#[test]
fn frames_of_a_pass_are_read_back_one_by_one() {
    let items = vec![vec![1u8], vec![], vec![2u8, 3]];
    let stream = serialize_items(&items);
    let mut at = 0;
    let mut got = Vec::new();
    while at < stream.len() {
        match deserialize_item(&stream[at..]) {
            FrameRead::Complete { payload, consumed } => {
                got.push(payload);
                at += consumed;
            }
            FrameRead::Incomplete { .. } => panic!("the stream ends inside a frame"),
        }
    }
    assert_eq!(got, items);
}
