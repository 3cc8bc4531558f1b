use lycan::codec::{decode, decode_frame, encode, frame_message, FrameResult, MAX_MESSAGE_SIZE};
use lycan::geometry::{Direction, Vec2};
use lycan::messages::{same_notification, EntityUpdate, Notification};

fn round_trips(n: Notification) {
    let bytes = encode(&n).expect("fits the wire format");
    let back = decode(&bytes).expect("an encoding decodes");
    assert!(same_notification(&n, &back), "codec identity");
}

#[test]
fn walk_round_trips() {
    round_trips(Notification::Walk { entity: 7, orientation: Some(Direction::West) });
    round_trips(Notification::Walk { entity: u64::MAX, orientation: None });
}

#[test]
fn say_round_trips() {
    round_trips(Notification::Say { entity: 3, message: vec![] });
    round_trips(Notification::Say { entity: 3, message: b"hello there".to_vec() });
}

#[test]
fn game_update_round_trips() {
    let entities = vec![
        EntityUpdate {
            entity_id: 1,
            position: Vec2 { x: -5_000_000_000, y: 2 },
            speed: Vec2 { x: 10_000, y: 0 },
            pv: 100,
        },
        EntityUpdate {
            entity_id: 2,
            position: Vec2 { x: i64::MIN, y: i64::MAX },
            speed: Vec2 { x: -10_000, y: 10_000 },
            pv: 0,
        },
    ];
    round_trips(Notification::GameUpdate { tick_id: 42, entities });
    round_trips(Notification::GameUpdate { tick_id: 0, entities: vec![] });
}

#[test]
fn remaining_variants_round_trip() {
    round_trips(Notification::ThisIsYou { entity: 9 });
    round_trips(Notification::NewEntity {
        entity: 9,
        position: Vec2 { x: 1, y: -1 },
        skin: 77,
        pv: 100,
        nominal_speed: 10_000,
    });
    round_trips(Notification::EntityHasQuit { entity: 9 });
    round_trips(Notification::Damage { source: 1, victim: 2, amount: 30 });
    round_trips(Notification::Death { entity: 2 });
}

#[test]
fn distinct_values_decode_distinctly() {
    let a = encode(&Notification::Death { entity: 1 }).unwrap();
    let b = encode(&Notification::Death { entity: 2 }).unwrap();
    assert_ne!(a, b);
    let da = decode(&a).unwrap();
    let db = decode(&b).unwrap();
    assert!(!same_notification(&da, &db));
}

#[test]
fn framing_round_trips() {
    let body = b"abc".to_vec();
    let framed = frame_message(&body).expect("small body");
    assert_eq!(framed.len(), 8 + 3);
    match decode_frame(&framed) {
        FrameResult::Frame { body: parsed, consumed } => {
            assert_eq!(parsed, body);
            assert_eq!(consumed, 11);
        }
        _ => panic!("a whole frame parses"),
    }
}

#[test]
fn framing_waits_for_whole_messages() {
    let body = b"abcdef".to_vec();
    let mut framed = frame_message(&body).unwrap();
    framed.truncate(10);
    assert!(matches!(decode_frame(&framed), FrameResult::Incomplete));
    assert!(matches!(decode_frame(&vec![1, 2, 3]), FrameResult::Incomplete));
}

#[test]
fn oversized_messages_are_refused() {
    let body = vec![0u8; MAX_MESSAGE_SIZE + 1];
    assert!(frame_message(&body).is_none());
    let header = vec![0x21, 0x30, 0, 0, 0, 0, 0, 0];
    assert!(matches!(decode_frame(&header), FrameResult::TooBig));
}
