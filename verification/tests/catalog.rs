use ggst::context::Context;
use ggst::decode::decode_page;
use ggst::encode::encode_record;
use ggst::enums::{Character, Floor, Winner};
use ggst::error::{DecodeFail, Error};
use ggst::query::{build_replay_query, validate_replay_request};
use ggst::record::{match_cmp, Match, Player};
use ggst::text::show_buf;
use ggst::timestamp::Timestamp;

#[test]
fn floor_byte_mapping_round_trips() {
    let floors = [
        Floor::F1,
        Floor::F2,
        Floor::F3,
        Floor::F4,
        Floor::F5,
        Floor::F6,
        Floor::F7,
        Floor::F8,
        Floor::F9,
        Floor::F10,
        Floor::Celestial,
    ];
    for f in floors {
        let b = f.to_u8();
        let back = Floor::from_u8(b).expect("known byte must map");
        assert_eq!(back, f);
    }
    assert_eq!(Floor::from_u8(10).unwrap(), Floor::F10);
    assert_eq!(Floor::from_u8(99).unwrap(), Floor::Celestial);
    assert!(matches!(
        Floor::from_u8(0),
        Err(Error::StructuralDecodeFailure(DecodeFail::UnknownFloorByte { byte: 0 }))
    ));
    assert!(matches!(Floor::from_u8(11), Err(_)));
}

#[test]
fn character_byte_mapping_round_trips() {
    for b in 0u8..20 {
        let c = Character::from_u8(b).expect("roster byte must map");
        assert_eq!(c.to_u8(), b);
    }
    assert!(matches!(
        Character::from_u8(20),
        Err(Error::StructuralDecodeFailure(DecodeFail::UnknownCharacterByte { byte: 20 }))
    ));
    assert_eq!(Character::from_u8(0).unwrap(), Character::Sol);
    assert_eq!(Character::from_u8(19).unwrap(), Character::Testament);
}

#[test]
fn winner_byte_mapping() {
    assert_eq!(Winner::from_u8(1).unwrap(), Winner::Player1);
    assert_eq!(Winner::from_u8(2).unwrap(), Winner::Player2);
    assert!(matches!(
        Winner::from_u8(0),
        Err(Error::StructuralDecodeFailure(DecodeFail::BadWinnerByte { byte: 0 }))
    ));
}

#[test]
fn encode_then_decode_reproduces_the_record() {
    let m = Match {
        floor: Floor::F7,
        timestamp: Timestamp { year: 2023, month: 1, day: 1, hour: 12, minute: 0, second: 0 },
        players: (
            Player {
                id: 210611132841904307,
                name: b"enemy fungus".to_vec(),
                character: Character::Nagoriyuki,
            },
            Player { id: 76561198045733267, name: b"k".to_vec(), character: Character::Jacko },
        ),
        winner: Winner::Player2,
    };
    let seg = encode_record(&m);
    let mut buf = vec![0x42u8; 61];
    buf.extend_from_slice(&seg);
    let out = decode_page(&buf).expect("an encoded record must decode");
    assert_eq!(out.len(), 1);
    assert_eq!(match_cmp(&out[0], &m), 0);
    assert_eq!(out[0].players.0.id, 210611132841904307);
    assert_eq!(out[0].players.1.id, 76561198045733267);
    assert_eq!(out[0].players.0.name, b"enemy fungus".to_vec());
    assert_eq!(out[0].players.1.name, b"k".to_vec());
    assert_eq!(out[0].timestamp, m.timestamp);
    assert!(matches!(out[0].floor, Floor::F7));
    assert!(matches!(out[0].winner, Winner::Player2));
}

#[test]
fn encode_long_name_still_round_trips() {
    let m = Match {
        floor: Floor::Celestial,
        timestamp: Timestamp { year: 2024, month: 2, day: 29, hour: 23, minute: 59, second: 59 },
        players: (
            Player { id: 1, name: b"".to_vec(), character: Character::Sol },
            Player {
                id: 999999999999999999,
                name: b"a name well over thirty characters long!".to_vec(),
                character: Character::Baiken,
            },
        ),
        winner: Winner::Player1,
    };
    let seg = encode_record(&m);
    let mut buf = vec![0u8; 61];
    buf.extend_from_slice(&seg);
    let out = decode_page(&buf).expect("an encoded record must decode");
    assert_eq!(out.len(), 1);
    assert_eq!(match_cmp(&out[0], &m), 0);
}

#[test]
fn timestamps_validate_the_calendar() {
    let good = Timestamp { year: 2024, month: 2, day: 29, hour: 0, minute: 0, second: 0 };
    let m = Match {
        floor: Floor::F1,
        timestamp: good,
        players: (
            Player { id: 10, name: b"a".to_vec(), character: Character::May },
            Player { id: 11, name: b"b".to_vec(), character: Character::Axl },
        ),
        winner: Winner::Player1,
    };
    let seg = encode_record(&m);
    let mut buf = vec![0u8; 61];
    buf.extend_from_slice(&seg);
    assert_eq!(decode_page(&buf).unwrap().len(), 1);
    // 2023 is no leap year: the same date must be rejected
    let mut bad = buf.clone();
    let n = bad.len();
    // the year stands in the last 19 bytes of the buffer
    bad[n - 19..n - 15].copy_from_slice(b"2023");
    let e = decode_page(&bad).expect_err("feb 29 of a non-leap year must fail");
    assert!(matches!(
        e,
        Error::StructuralDecodeFailure(DecodeFail::BadTimestamp { .. })
    ));
}

#[test]
fn query_payload_matches_the_template() {
    let q = build_replay_query(0, Floor::F1, Floor::Celestial);
    assert_eq!(
        q,
        "9295B2323131303237313133313233303038333834AD3631613565643466343631633202A5302E302E38039401CC000A9AFF00016390FFFF000001"
    );
    let q2 = build_replay_query(0x1f, Floor::F10, Floor::F10);
    assert_eq!(
        q2,
        "9295B2323131303237313133313233303038333834AD3631613565643466343631633202A5302E302E38039401CC1F0A9AFF000a0a90FFFF000001"
    );
}

#[test]
fn floor_hex_is_two_lowercase_digits() {
    assert_eq!(Floor::F1.to_hex(), "01");
    assert_eq!(Floor::F10.to_hex(), "0a");
    assert_eq!(Floor::Celestial.to_hex(), "63");
}

#[test]
fn request_arguments_are_checked() {
    assert!(validate_replay_request(100, Floor::F1, Floor::Celestial).is_ok());
    assert!(matches!(
        validate_replay_request(101, Floor::F1, Floor::Celestial),
        Err(Error::InvalidArguments(_))
    ));
    assert!(matches!(
        validate_replay_request(1, Floor::F7, Floor::F2),
        Err(Error::InvalidArguments(_))
    ));
    assert!(validate_replay_request(0, Floor::F3, Floor::F3).is_ok());
}

#[test]
fn context_urls_default_and_overwrite() {
    let ctx = Context::new();
    assert_eq!(ctx.base_url, "https://ggst-game.guiltygear.com");
    assert_eq!(
        ctx.utils_base_url,
        "https://ggst-utils-default-rtdb.europe-west1.firebasedatabase.app"
    );
    let ctx = Context::new()
        .base_url("http://localhost:8080".to_string())
        .utils_base_url("http://localhost:9090".to_string());
    assert_eq!(ctx.base_url, "http://localhost:8080");
    assert_eq!(ctx.utils_base_url, "http://localhost:9090");
}

#[test]
fn show_buf_escapes_bytes() {
    let v = vec![0x01u8, b'a', b'\\', b'\n', 0xb2];
    assert_eq!(show_buf(&v), "\\x01a\\\\\\n\\xb2");
    let v2: Vec<u8> = Vec::new();
    assert_eq!(show_buf(&v2), "");
    assert_eq!(show_buf(&vec![b'"', b'\'', 0x09, 0x0d]), "\\\"\\'\\t\\r");
}

#[test]
fn error_messages_carry_escaped_context() {
    let e = Error::StructuralDecodeFailure(DecodeFail::SecondFragmentTooShort {
        fragment: vec![0x00, b'z'],
        segment: vec![0xff],
    });
    assert_eq!(
        e.message(),
        "Second data part does not have 20 bytes: \\x00z in \\xff"
    );
    let e2 = Error::InvalidArguments("pages: Cannot query more than 100 pages".to_string());
    assert_eq!(e2.message(), "pages: Cannot query more than 100 pages");
}
