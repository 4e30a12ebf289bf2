use ggst::decode::decode_page;
use ggst::error::{DecodeFail, Error};

const MARK: [u8; 2] = [0x95, 0xb2];

fn page_of(seg: &[u8]) -> Vec<u8> {
    let mut buf = vec![0u8; 61];
    buf.extend_from_slice(seg);
    buf
}

fn decode_fail(seg: &[u8]) -> DecodeFail {
    match decode_page(&page_of(seg)) {
        Err(Error::StructuralDecodeFailure(f)) => f,
        other => panic!("expected a structural decode failure, got {:?}", other),
    }
}

fn id_name_fragment(id: &str, name: &str) -> Vec<u8> {
    let mut f = Vec::new();
    f.extend_from_slice(id.as_bytes());
    f.push(0xa5);
    f.extend_from_slice(name.as_bytes());
    f.push(0xb1);
    f
}

fn third_fragment(id: &str, name: &str, winner_b: u8, ts_text: &str) -> Vec<u8> {
    let mut f = id_name_fragment(id, name);
    let pad = if name.len() >= 30 { 0 } else { 30 - name.len() };
    for _ in 0..pad {
        f.push(0x2e);
    }
    f.push(winner_b);
    f.push(0xb3);
    f.extend_from_slice(ts_text.as_bytes());
    f
}

fn join(frags: &[&[u8]]) -> Vec<u8> {
    let mut seg = Vec::new();
    for (i, f) in frags.iter().enumerate() {
        if i > 0 {
            seg.extend_from_slice(&MARK);
        }
        seg.extend_from_slice(f);
    }
    seg
}

#[test]
fn first_fragment_too_short_fails() {
    let f2 = id_name_fragment("210611132841904307", "alice");
    let f3 = third_fragment("310611132841904999", "bob", 1, "2023-01-01 12:00:00");
    let seg = join(&[&[1, 0], &f2, &f3]);
    assert!(matches!(
        decode_fail(&seg),
        DecodeFail::FirstFragmentTooShort { fragment } if fragment == vec![1, 0]
    ));
}

#[test]
fn missing_second_fragment_fails() {
    // a segment without the two-byte marker has only its first fragment
    let seg = vec![1u8, 0, 1, 2, 3];
    assert!(matches!(
        decode_fail(&seg),
        DecodeFail::MissingSecondFragment { .. }
    ));
}

#[test]
fn missing_third_fragment_fails() {
    let f2 = id_name_fragment("210611132841904307", "alice");
    let seg = join(&[&[1, 0, 1], &f2]);
    assert!(matches!(
        decode_fail(&seg),
        DecodeFail::MissingThirdFragment { .. }
    ));
}

#[test]
fn third_fragment_too_short_fails() {
    let f2 = id_name_fragment("210611132841904307", "alice");
    let f3 = vec![0x41u8; 70];
    let seg = join(&[&[1, 0, 1], &f2, &f3]);
    assert!(matches!(
        decode_fail(&seg),
        DecodeFail::ThirdFragmentTooShort { fragment, .. } if fragment.len() == 70
    ));
}

#[test]
fn short_timestamp_piece_fails() {
    let f2 = id_name_fragment("210611132841904307", "alice");
    // one marker byte whose trailing piece is 17 bytes: too short for the
    // 19-byte timestamp
    let mut f3 = vec![0x41u8; 52];
    f3.push(0x01);
    f3.push(0xb3);
    f3.extend_from_slice(&[0x42u8; 17]);
    assert_eq!(f3.len(), 71);
    let seg = join(&[&[1, 0, 1], &f2, &f3]);
    assert!(matches!(
        decode_fail(&seg),
        DecodeFail::TimestampTooShort { .. }
    ));
}

#[test]
fn missing_winner_piece_fails() {
    let f2 = id_name_fragment("210611132841904307", "alice");
    // no marker byte at all: the single piece is long enough for a timestamp
    // but nothing is left to carry the winner
    let f3 = vec![0x41u8; 71];
    let seg = join(&[&[1, 0, 1], &f2, &f3]);
    assert!(matches!(decode_fail(&seg), DecodeFail::MissingWinner { .. }));
}

#[test]
fn empty_winner_piece_fails() {
    let f2 = id_name_fragment("210611132841904307", "alice");
    // two adjacent marker bytes leave an empty piece where the winner byte
    // should stand
    let mut f3 = vec![0x41u8; 50];
    f3.push(0xb3);
    f3.push(0xb3);
    f3.extend_from_slice(b"2023-01-01 12:00:00");
    assert_eq!(f3.len(), 71);
    let seg = join(&[&[1, 0, 1], &f2, &f3]);
    assert!(matches!(decode_fail(&seg), DecodeFail::EmptyWinner { .. }));
}

#[test]
fn plus_prefixed_id_parses() {
    // a plus sign followed by digits is an accepted base-10 rendering
    let f2 = id_name_fragment("+10611132841904307", "alice");
    let f3 = third_fragment("310611132841904999", "bob", 1, "2023-01-01 12:00:00");
    let seg = join(&[&[1, 0, 1], &f2, &f3]);
    let r = decode_page(&page_of(&seg)).expect("a plus-prefixed id must parse");
    assert_eq!(r.len(), 1);
    assert_eq!(r[0].players.0.id, 10611132841904307);
}

#[test]
fn leading_noise_fragments_are_discarded() {
    // more than three fragments: only the last three carry data
    let noise: &[u8] = b"some leading padding";
    let f2 = id_name_fragment("210611132841904307", "alice");
    let f3 = third_fragment("310611132841904999", "bob", 2, "2023-01-01 12:00:00");
    let seg = join(&[noise, &[5, 2, 3], &f2, &f3]);
    let r = decode_page(&page_of(&seg)).expect("leading noise must be tolerated");
    assert_eq!(r.len(), 1);
    assert_eq!(r[0].players.0.name, b"alice".to_vec());
}
