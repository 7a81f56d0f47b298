//! Framing and the JSON message codec.
use fourmilaby::codec::MAX_MESSAGE_SIZE;
use fourmilaby::codec::read_message;
use fourmilaby::codec::read_message_raw;
use fourmilaby::codec::write_message;
use fourmilaby::codec::write_message_raw;
use fourmilaby::error::ServerError;
use fourmilaby::json::decode_message;
use fourmilaby::json::encode_message;
use fourmilaby::maze::Maze;
use fourmilaby::messages::InfoMessageBody;
use fourmilaby::messages::JoinMessageBody;
use fourmilaby::messages::Message;
use fourmilaby::messages::MoveDirection;
use fourmilaby::messages::MoveMessageBody;
use fourmilaby::messages::OkMazeMessageBody;

fn small_maze() -> Maze {
    Maze::new(2, 2, &[0x10u8, 3, 1, 0x20]).unwrap()
}

fn assert_round_trip(m: &Message) -> Message {
    let enc = encode_message(m);
    let back = decode_message(&enc.clone().into_bytes()).unwrap();
    assert_eq!(encode_message(&back), enc);
    back
}

#[test]
fn frame_round_trips_byte_for_byte() {
    let payload: Vec<u8> = vec![0, 1, 2, 250, 255, 42];
    let mut framed: Vec<u8> = Vec::new();
    write_message_raw(&mut framed, &payload).unwrap();
    assert_eq!(framed.len(), payload.len() + 4);
    assert_eq!(&framed[0..4], &[0, 0, 0, 6]);
    let (back, next) = read_message_raw(&framed, 0).unwrap();
    assert_eq!(back, payload);
    assert_eq!(next, framed.len());
}

#[test]
fn write_side_refuses_oversize_payloads() {
    // The 4 MiB protocol cap holds on the write side too.
    let big = vec![0u8; (MAX_MESSAGE_SIZE + 1) as usize];
    let mut out: Vec<u8> = Vec::new();
    match write_message_raw(&mut out, &big) {
        Err(ServerError::Transmission(_)) => (),
        other => panic!("expected a transmission failure, got {:?}", other),
    }
    assert!(out.is_empty());
    let ok = vec![7u8; 16];
    assert!(write_message_raw(&mut out, &ok).is_ok());
}

#[test]
fn frame_rejects_oversize_and_short_reads() {
    // A length prefix over 4 MiB fails to decode.
    let n = MAX_MESSAGE_SIZE + 1;
    let mut bad: Vec<u8> = n.to_be_bytes().to_vec();
    bad.extend(std::iter::repeat(0u8).take(8));
    match read_message_raw(&bad, 0) {
        Err(ServerError::Transmission(_)) => (),
        other => panic!("expected a transmission failure, got {:?}", other),
    }
    // A short payload fails too.
    let short: Vec<u8> = vec![0, 0, 0, 9, 1, 2];
    assert!(read_message_raw(&short, 0).is_err());
    // A missing header fails.
    assert!(read_message_raw(&vec![0, 0], 0).is_err());
}

#[test]
fn join_encoding_matches_wire_literal() {
    let m = Message::Join(JoinMessageBody { difficulty: 0, player_id: None });
    assert_eq!(
        encode_message(&m),
        "{\"type\":\"join\",\"body\":{\"difficulty\":0,\"playerId\":null}}"
    );
}

#[test]
fn uuid_encoding_is_hyphenated_hex() {
    let id = 0x123e4567_e89b_12d3_a456_426614174000u128;
    let m = Message::Join(JoinMessageBody { difficulty: 3, player_id: Some(id) });
    assert_eq!(
        encode_message(&m),
        "{\"type\":\"join\",\"body\":{\"difficulty\":3,\"playerId\":\"123e4567-e89b-12d3-a456-426614174000\"}}"
    );
}

#[test]
fn decode_join_accepts_canonical_form() {
    let bytes = b"{\"type\":\"join\",\"body\":{\"difficulty\":2,\"playerId\":null}}".to_vec();
    let m = decode_message(&bytes).unwrap();
    match m {
        Message::Join(b) => {
            assert_eq!(b.difficulty, 2);
            assert!(b.player_id.is_none());
        },
        other => panic!("expected a join, got {:?}", other),
    }
}

#[test]
fn decode_rejects_junk() {
    assert!(decode_message(&b"not json".to_vec()).is_err());
    assert!(decode_message(&b"{\"type\":\"join\",\"body\":{}}".to_vec()).is_err());
    // Trailing bytes are not accepted.
    let mut bytes = b"{\"type\":\"move\",\"body\":{\"direction\":1}}".to_vec();
    bytes.push(b' ');
    assert!(decode_message(&bytes).is_err());
}

#[test]
fn round_trip_join() {
    let back = assert_round_trip(
        &Message::Join(JoinMessageBody { difficulty: 7, player_id: Some(99) }),
    );
    match back {
        Message::Join(b) => {
            assert_eq!(b.difficulty, 7);
            assert_eq!(b.player_id, Some(99));
        },
        other => panic!("expected a join, got {:?}", other),
    }
}

#[test]
fn round_trip_ok_maze() {
    let maze = small_maze();
    let back = assert_round_trip(
        &Message::OkMaze(OkMazeMessageBody { maze, player_id: 0xdeadbeef }),
    );
    match back {
        Message::OkMaze(b) => {
            assert_eq!(b.player_id, 0xdeadbeef);
            assert_eq!(b.maze.nb_column, 2);
            assert_eq!(b.maze.nb_line, 2);
            assert_eq!(b.maze.tiles, vec![0x10u8, 3, 1, 0x20]);
        },
        other => panic!("expected an okMaze, got {:?}", other),
    }
}

#[test]
fn round_trip_info() {
    let back = assert_round_trip(
        &Message::Info(
            InfoMessageBody {
                player_column: 1,
                player_line: 2,
                player_has_food: true,
                pheromon: vec![0, 200000, 1000000, 180000],
            },
        ),
    );
    match back {
        Message::Info(b) => {
            assert_eq!(b.player_column, 1);
            assert_eq!(b.player_line, 2);
            assert!(b.player_has_food);
            assert_eq!(b.pheromon, vec![0, 200000, 1000000, 180000]);
        },
        other => panic!("expected an info, got {:?}", other),
    }
}

#[test]
fn info_levels_encode_as_unit_fractions() {
    let m = Message::Info(
        InfoMessageBody {
            player_column: 0,
            player_line: 0,
            player_has_food: false,
            pheromon: vec![0, 180000, 1000000],
        },
    );
    assert_eq!(
        encode_message(&m),
        "{\"type\":\"info\",\"body\":{\"playerColumn\":0,\"playerLine\":0,\"playerHasFood\":false,\"pheromon\":[0.000000,0.180000,1.000000]}}"
    );
}

#[test]
fn round_trip_every_error_variant() {
    let variants = vec![
        ServerError::InvalidMaze(String::from("bad maze")),
        ServerError::Transmission(String::from("broken pipe")),
        ServerError::SerializerError(String::from("bad json")),
        ServerError::AlreadyConnected,
        ServerError::UnexpectedParameter,
        ServerError::Other(String::from("misc")),
    ];
    for e in variants {
        let back = assert_round_trip(&Message::Error(e.clone()));
        match (back, e) {
            (Message::Error(ServerError::InvalidMaze(a)), ServerError::InvalidMaze(b)) => {
                assert_eq!(a, b)
            },
            (Message::Error(ServerError::Transmission(a)), ServerError::Transmission(b)) => {
                assert_eq!(a, b)
            },
            (
                Message::Error(ServerError::SerializerError(a)),
                ServerError::SerializerError(b),
            ) => assert_eq!(a, b),
            (
                Message::Error(ServerError::AlreadyConnected),
                ServerError::AlreadyConnected,
            ) => (),
            (
                Message::Error(ServerError::UnexpectedParameter),
                ServerError::UnexpectedParameter,
            ) => (),
            (Message::Error(ServerError::Other(a)), ServerError::Other(b)) => assert_eq!(a, b),
            (got, want) => panic!("variant changed: got {:?}, want {:?}", got, want),
        }
    }
}

#[test]
fn round_trip_move_all_directions() {
    for (dir, code) in [
        (MoveDirection::North, "0"),
        (MoveDirection::South, "1"),
        (MoveDirection::East, "2"),
        (MoveDirection::West, "3"),
    ] {
        let m = Message::Move(MoveMessageBody { direction: dir });
        let enc = encode_message(&m);
        assert_eq!(
            enc,
            format!("{{\"type\":\"move\",\"body\":{{\"direction\":{}}}}}", code)
        );
        let back = decode_message(&enc.into_bytes()).unwrap();
        match back {
            Message::Move(b) => assert_eq!(b.direction, dir),
            other => panic!("expected a move, got {:?}", other),
        }
    }
}

#[test]
fn round_trip_unexpected_nests_messages() {
    let inner = Message::Join(JoinMessageBody { difficulty: 1, player_id: None });
    let m = Message::Unexpected {
        expected: vec![String::from("move")],
        received: Box::new(inner),
    };
    let back = assert_round_trip(&m);
    match back {
        Message::Unexpected { expected, received } => {
            assert_eq!(expected, vec![String::from("move")]);
            match *received {
                Message::Join(b) => assert_eq!(b.difficulty, 1),
                other => panic!("expected a nested join, got {:?}", other),
            }
        },
        other => panic!("expected an unexpected message, got {:?}", other),
    }
}

#[test]
fn write_then_read_message_over_framing() {
    let m = Message::Move(MoveMessageBody { direction: MoveDirection::West });
    let mut wire: Vec<u8> = Vec::new();
    write_message(&mut wire, &m).unwrap();
    // Append a second message to the same stream.
    let m2 = Message::Join(JoinMessageBody { difficulty: 4, player_id: None });
    write_message(&mut wire, &m2).unwrap();
    let (first, next) = read_message(&wire, 0).unwrap();
    match first {
        Message::Move(b) => assert_eq!(b.direction, MoveDirection::West),
        other => panic!("expected a move, got {:?}", other),
    }
    let (second, end) = read_message(&wire, next).unwrap();
    match second {
        Message::Join(b) => assert_eq!(b.difficulty, 4),
        other => panic!("expected a join, got {:?}", other),
    }
    assert_eq!(end, wire.len());
}

#[test]
fn message_duplicate_preserves_value() {
    let m = Message::Unexpected {
        expected: vec![String::from("join")],
        received: Box::new(Message::Error(ServerError::AlreadyConnected)),
    };
    let copy = m.duplicate();
    assert_eq!(encode_message(&copy), encode_message(&m));
}
