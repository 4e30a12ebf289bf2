use ggst::decode::decode_page;
use ggst::enums::{Character, Floor, Winner};
use ggst::error::{DecodeFail, Error};
use ggst::record::{match_cmp, merge_page, Match};
use ggst::timestamp::Timestamp;

const MARK: [u8; 2] = [0x95, 0xb2];
const SEP: [u8; 4] = [0x01, 0x00, 0x00, 0x00];

fn ts(year: u16, month: u8, day: u8, hour: u8, minute: u8, second: u8) -> Timestamp {
    Timestamp { year, month, day, hour, minute, second }
}

/// Hand-built segment with the documented layout: floor/character triple, two
/// identity fragments, padding, winner byte, timestamp.
fn synthetic_segment(
    floor_b: u8,
    c1: u8,
    c2: u8,
    id1: &str,
    name1: &str,
    id2: &str,
    name2: &str,
    winner_b: u8,
    ts_text: &str,
) -> Vec<u8> {
    let mut seg = Vec::new();
    seg.extend_from_slice(&[floor_b, c1, c2]);
    seg.extend_from_slice(&MARK);
    seg.extend_from_slice(id1.as_bytes());
    seg.push(0xa5);
    seg.extend_from_slice(name1.as_bytes());
    seg.push(0xb1);
    seg.extend_from_slice(&MARK);
    seg.extend_from_slice(id2.as_bytes());
    seg.push(0xa5);
    seg.extend_from_slice(name2.as_bytes());
    seg.push(0xb1);
    let pad = if name2.len() >= 30 { 0 } else { 30 - name2.len() };
    for _ in 0..pad {
        seg.push(0x2e);
    }
    seg.push(winner_b);
    seg.push(0xb3);
    seg.extend_from_slice(ts_text.as_bytes());
    seg
}

fn one_segment_page(seg: &[u8]) -> Vec<u8> {
    let mut buf = vec![0u8; 61];
    buf.extend_from_slice(seg);
    buf
}

#[test]
fn short_buffer_decodes_empty() {
    for n in 0..63 {
        let buf = vec![0xffu8; n];
        let r = decode_page(&buf).expect("short buffer must never fail");
        assert_eq!(r.len(), 0);
    }
}

#[test]
fn one_well_formed_segment_decodes() {
    let seg = synthetic_segment(
        1,
        0,
        1,
        "210611132841904307",
        "alice",
        "310611132841904999",
        "bob",
        1,
        "2023-01-01 12:00:00",
    );
    let buf = one_segment_page(&seg);
    let r = decode_page(&buf).expect("well-formed segment must decode");
    assert_eq!(r.len(), 1);
    let m = &r[0];
    assert!(matches!(m.floor, Floor::F1));
    assert!(matches!(m.winner, Winner::Player1));
    assert_eq!(m.timestamp, ts(2023, 1, 1, 12, 0, 0));
    assert_eq!(m.players.0.id, 210611132841904307);
    assert_eq!(m.players.1.id, 310611132841904999);
    assert_eq!(m.players.0.name, b"alice".to_vec());
    assert_eq!(m.players.1.name, b"bob".to_vec());
    assert_eq!(m.players.0.name_text(), "alice");
    assert_eq!(m.players.1.name_text(), "bob");
    assert!(matches!(m.players.0.character, Character::Sol));
    assert!(matches!(m.players.1.character, Character::Ky));
}

#[test]
fn duplicate_segments_across_pages_dedup() {
    let seg = synthetic_segment(
        3,
        4,
        5,
        "210611132841904307",
        "alice",
        "310611132841904999",
        "bob",
        2,
        "2023-05-06 07:08:09",
    );
    let page1 = one_segment_page(&seg);
    let page2 = one_segment_page(&seg);
    let r1 = decode_page(&page1).unwrap();
    let r2 = decode_page(&page2).unwrap();
    let mut acc: Vec<Match> = Vec::new();
    merge_page(&mut acc, r1);
    merge_page(&mut acc, r2);
    assert_eq!(acc.len(), 1);
    assert!(matches!(acc[0].winner, Winner::Player2));
}

#[test]
fn truncated_second_fragment_fails() {
    let mut seg = Vec::new();
    seg.extend_from_slice(&[1, 0, 1]);
    seg.extend_from_slice(&MARK);
    // 19 bytes: one short of the 20-byte minimum for the second fragment
    seg.extend_from_slice(b"2106111328419043071");
    seg.extend_from_slice(&MARK);
    let frag3 = synthetic_segment(
        1,
        0,
        1,
        "210611132841904307",
        "a",
        "310611132841904999",
        "bob",
        1,
        "2023-01-01 12:00:00",
    );
    // reuse a full third fragment from a synthetic segment
    let third_start = frag3.len() - 71;
    seg.extend_from_slice(&frag3[third_start..]);
    let buf = one_segment_page(&seg);
    let e = decode_page(&buf).expect_err("truncated fragment must fail");
    match e {
        Error::StructuralDecodeFailure(DecodeFail::SecondFragmentTooShort { fragment, .. }) => {
            assert_eq!(fragment.len(), 19);
        },
        other => panic!("expected SecondFragmentTooShort, got {:?}", other),
    }
}

#[test]
fn unknown_floor_byte_fails() {
    let seg = synthetic_segment(
        0x50,
        0,
        1,
        "210611132841904307",
        "alice",
        "310611132841904999",
        "bob",
        1,
        "2023-01-01 12:00:00",
    );
    let buf = one_segment_page(&seg);
    let e = decode_page(&buf).expect_err("unmapped floor byte must fail");
    match e {
        Error::StructuralDecodeFailure(DecodeFail::UnknownFloorByte { byte }) => {
            assert_eq!(byte, 0x50);
        },
        other => panic!("expected UnknownFloorByte, got {:?}", other),
    }
    let msg = Error::StructuralDecodeFailure(DecodeFail::UnknownFloorByte { byte: 0x50 })
        .message();
    assert_eq!(msg, "Could not parse floor from byte: P");
}

#[test]
fn bad_winner_byte_fails() {
    let seg = synthetic_segment(
        1,
        0,
        1,
        "210611132841904307",
        "alice",
        "310611132841904999",
        "bob",
        3,
        "2023-01-01 12:00:00",
    );
    let buf = one_segment_page(&seg);
    let e = decode_page(&buf).expect_err("winner byte other than 1 or 2 must fail");
    assert!(matches!(
        e,
        Error::StructuralDecodeFailure(DecodeFail::BadWinnerByte { byte: 3 })
    ));
}

#[test]
fn bad_timestamp_fails() {
    let seg = synthetic_segment(
        1,
        0,
        1,
        "210611132841904307",
        "alice",
        "310611132841904999",
        "bob",
        1,
        "2023-02-30 12:00:00",
    );
    let buf = one_segment_page(&seg);
    let e = decode_page(&buf).expect_err("an impossible calendar date must fail");
    assert!(matches!(
        e,
        Error::StructuralDecodeFailure(DecodeFail::BadTimestamp { .. })
    ));
}

#[test]
fn bad_player_id_fails() {
    let seg = synthetic_segment(
        1,
        0,
        1,
        "21061113284190430x",
        "alice",
        "310611132841904999",
        "bob",
        1,
        "2023-01-01 12:00:00",
    );
    let buf = one_segment_page(&seg);
    let e = decode_page(&buf).expect_err("a non-decimal id must fail");
    assert!(matches!(
        e,
        Error::StructuralDecodeFailure(DecodeFail::BadPlayerId { .. })
    ));
}

#[test]
fn unknown_character_byte_fails() {
    let seg = synthetic_segment(
        1,
        0,
        77,
        "210611132841904307",
        "alice",
        "310611132841904999",
        "bob",
        1,
        "2023-01-01 12:00:00",
    );
    let buf = one_segment_page(&seg);
    let e = decode_page(&buf).expect_err("unmapped character byte must fail");
    assert!(matches!(
        e,
        Error::StructuralDecodeFailure(DecodeFail::UnknownCharacterByte { byte: 77 })
    ));
}

#[test]
fn ordering_is_stable_and_independent_of_input_order() {
    let seg_a = synthetic_segment(
        2,
        2,
        3,
        "100000000000000001",
        "pa",
        "100000000000000002",
        "pb",
        1,
        "2021-03-04 05:06:07",
    );
    let seg_b = synthetic_segment(
        2,
        2,
        3,
        "100000000000000001",
        "pa",
        "100000000000000002",
        "pb",
        1,
        "2022-03-04 05:06:07",
    );
    let seg_c = synthetic_segment(
        2,
        2,
        3,
        "100000000000000001",
        "pa",
        "100000000000000002",
        "pb",
        1,
        "2023-03-04 05:06:07",
    );
    // one page carrying the segments forward, one carrying them backward
    let mut fwd = vec![0u8; 61];
    fwd.extend_from_slice(&seg_a);
    fwd.extend_from_slice(&SEP);
    fwd.extend_from_slice(&seg_b);
    fwd.extend_from_slice(&SEP);
    fwd.extend_from_slice(&seg_c);
    let mut bwd = vec![0u8; 61];
    bwd.extend_from_slice(&seg_c);
    bwd.extend_from_slice(&SEP);
    bwd.extend_from_slice(&seg_a);
    bwd.extend_from_slice(&SEP);
    bwd.extend_from_slice(&seg_b);
    let mut acc_fwd: Vec<Match> = Vec::new();
    merge_page(&mut acc_fwd, decode_page(&fwd).unwrap());
    let mut acc_bwd: Vec<Match> = Vec::new();
    merge_page(&mut acc_bwd, decode_page(&bwd).unwrap());
    assert_eq!(acc_fwd.len(), 3);
    assert_eq!(acc_bwd.len(), 3);
    for i in 0..3 {
        assert_eq!(match_cmp(&acc_fwd[i], &acc_bwd[i]), 0);
    }
    assert_eq!(acc_fwd[0].timestamp.year, 2021);
    assert_eq!(acc_fwd[1].timestamp.year, 2022);
    assert_eq!(acc_fwd[2].timestamp.year, 2023);
    for i in 0..2 {
        assert_eq!(match_cmp(&acc_fwd[i], &acc_fwd[i + 1]), -1);
    }
}

#[test]
fn empty_fragments_between_separators_are_discarded() {
    let seg = synthetic_segment(
        1,
        0,
        1,
        "210611132841904307",
        "alice",
        "310611132841904999",
        "bob",
        1,
        "2023-01-01 12:00:00",
    );
    let mut buf = vec![0u8; 61];
    buf.extend_from_slice(&SEP);
    buf.extend_from_slice(&SEP);
    buf.extend_from_slice(&seg);
    buf.extend_from_slice(&SEP);
    let r = decode_page(&buf).unwrap();
    assert_eq!(r.len(), 1);
}

#[test]
fn lossy_name_decoding_replaces_invalid_bytes() {
    let mut seg = Vec::new();
    seg.extend_from_slice(&[1, 0, 1]);
    seg.extend_from_slice(&MARK);
    seg.extend_from_slice(b"210611132841904307");
    seg.push(0xa5);
    seg.extend_from_slice(&[b'a', 0xff, b'b']);
    seg.push(0xb1);
    seg.extend_from_slice(&MARK);
    let rest = synthetic_segment(
        1,
        0,
        1,
        "210611132841904307",
        "x",
        "310611132841904999",
        "bob",
        1,
        "2023-01-01 12:00:00",
    );
    let third_start = rest.len() - 71;
    seg.extend_from_slice(&rest[third_start..]);
    let buf = one_segment_page(&seg);
    let r = decode_page(&buf).unwrap();
    assert_eq!(r.len(), 1);
    assert_eq!(r[0].players.0.name, vec![b'a', 0xff, b'b']);
    assert_eq!(r[0].players.0.name_text(), "a\u{fffd}b");
}
