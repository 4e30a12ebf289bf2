//! Encoding a record into the wire layout of one segment, and the round-trip
//! law: decoding an encoded record reproduces it exactly.

use vstd::prelude::*;
use crate::decode::{
    mark2, prefix_before, sep4, spec_assemble, spec_decode_page, spec_decode_segment,
    spec_decode_segments, HEADER_LEN, MIN_PAGE_LEN, NAME_TERM, TS_MARK,
};
use crate::enums::{Character, Floor, Winner};
use crate::error::DecodeFailV;
use crate::record::{Match, MatchV, PlayerV};
use crate::scan::{
    lemma_find_at_exact, lemma_render_dec_props, lemma_split_prefix, lemma_split_whole, match_at,
    pow10, push_render_dec, spec_parse_id, spec_render_dec, spec_split,
};
use crate::timestamp::{lemma_ts_round_trip, push_render_ts, spec_render_ts, Timestamp};

verus! {

/// Printable single-byte characters: they never collide with the wire
/// format's markers, separators and terminators.
pub open spec fn printable(s: Seq<u8>) -> bool {
    forall|i: int| 0 <= i < s.len() ==> 0x20 <= #[trigger] s[i] <= 0x7e
}

/// A record that the wire layout can carry faithfully: a well-formed
/// timestamp, ids of at most 18 decimal digits, and names of printable bytes.
pub open spec fn encodable(m: MatchV) -> bool {
    &&& m.timestamp.wf()
    &&& m.players.0.id < 1000000000000000000
    &&& m.players.1.id < 1000000000000000000
    &&& printable(m.players.0.name)
    &&& printable(m.players.1.name)
}

/// The id-and-name prefix of an identity fragment: the 18-digit id, a one
/// byte tag, the name, and the name terminator.
pub open spec fn enc_id_name(p: PlayerV) -> Seq<u8> {
    spec_render_dec(p.id as int, 18) + seq![0xa5u8] + p.name + seq![NAME_TERM]
}

/// Padding that brings the third fragment up to its 71-byte minimum when the
/// second player's name is short.
pub open spec fn filler(n: nat) -> Seq<u8> {
    if n >= 30 {
        Seq::empty()
    } else {
        Seq::new((30 - n) as nat, |i: int| 0x2eu8)
    }
}

/// First fragment: floor byte and the two character bytes.
pub open spec fn enc_frag1(m: MatchV) -> Seq<u8> {
    seq![m.floor.code(), m.players.0.character.code(), m.players.1.character.code()]
}

/// Second fragment: player 1's identity.
pub open spec fn enc_frag2(m: MatchV) -> Seq<u8> {
    enc_id_name(m.players.0)
}

/// Third fragment: player 2's identity, padding, the winner byte, the
/// timestamp marker and the 19-byte timestamp.
pub open spec fn enc_frag3(m: MatchV) -> Seq<u8> {
    enc_id_name(m.players.1) + filler(m.players.1.name.len()) + seq![m.winner.code()]
        + seq![TS_MARK] + spec_render_ts(m.timestamp)
}

/// One whole wire segment for a record.
pub open spec fn spec_encode(m: MatchV) -> Seq<u8> {
    enc_frag1(m) + mark2() + enc_frag2(m) + mark2() + enc_frag3(m)
}

fn push_all(out: &mut Vec<u8>, s: &Vec<u8>) -> (nothing: ())
    ensures
        final(out)@ == old(out)@ + s@,
{
    let mut i: usize = 0;
    while i < s.len()
        invariant
            i <= s@.len(),
            out@ == old(out)@ + s@.subrange(0, i as int),
        decreases s@.len() - i,
    {
        out.push(s[i]);
        proof {
            assert(old(out)@ + s@.subrange(0, i + 1) =~= (old(out)@ + s@.subrange(0, i as int)).push(
                s@[i as int],
            ));
        }
        i = i + 1;
    }
    proof {
        assert(out@ =~= old(out)@ + s@);
    }
}

/// Encode a record into the wire layout of one segment, as the decoder reads
/// it back.
#[verifier::rlimit(100)]
pub fn encode_record(m: &Match) -> (r: Vec<u8>)
    requires
        encodable(m@),
    ensures
        r@ == spec_encode(m@),
{
    let ghost g2 = enc_frag1(m@) + mark2() + enc_frag2(m@) + mark2();
    let mut out: Vec<u8> = Vec::new();
    out.push(m.floor.to_u8());
    out.push(m.players.0.character.to_u8());
    out.push(m.players.1.character.to_u8());
    out.push(0x95);
    out.push(0xb2);
    proof {
        assert(out@ =~= enc_frag1(m@) + mark2());
    }
    push_render_dec(&mut out, m.players.0.id, 18);
    out.push(0xa5);
    push_all(&mut out, &m.players.0.name);
    out.push(NAME_TERM);
    out.push(0x95);
    out.push(0xb2);
    proof {
        assert(out@ =~= enc_frag1(m@) + mark2() + enc_frag2(m@) + mark2());
    }
    push_render_dec(&mut out, m.players.1.id, 18);
    out.push(0xa5);
    push_all(&mut out, &m.players.1.name);
    out.push(NAME_TERM);
    let ghost mid = out@;
    proof {
        assert(mid =~= g2 + enc_id_name(m@.players.1));
    }
    let nl = m.players.1.name.len();
    let fcount: usize = if nl >= 30 {
        0
    } else {
        30 - nl
    };
    proof {
        assert(filler(m@.players.1.name.len()) =~= Seq::new(fcount as nat, |i: int| 0x2eu8));
    }
    let mut pad: usize = 0;
    while pad < fcount
        invariant
            pad <= fcount,
            out@ == mid + Seq::new(pad as nat, |i: int| 0x2eu8),
        decreases fcount - pad,
    {
        out.push(0x2e);
        proof {
            assert(out@ =~= mid + Seq::new((pad + 1) as nat, |i: int| 0x2eu8));
        }
        pad = pad + 1;
    }
    proof {
        assert(out@ == mid + Seq::new(fcount as nat, |i: int| 0x2eu8));
        assert(out@ =~= mid + filler(m@.players.1.name.len()));
    }
    out.push(m.winner.to_u8());
    out.push(TS_MARK);
    push_render_ts(&mut out, m.timestamp);
    proof {
        assert(out@ =~= g2 + (enc_id_name(m@.players.1) + filler(m@.players.1.name.len()) + seq![
            m@.winner.code(),
        ] + seq![TS_MARK] + spec_render_ts(m@.timestamp)));
        assert(out@ =~= spec_encode(m@));
    }
    out
}

/// Every byte of an identity prefix stays clear of the marker, the separator
/// zero byte and the timestamp marker.
proof fn lemma_enc_id_name_bytes(p: PlayerV)
    requires
        p.id < 1000000000000000000,
        printable(p.name),
    ensures
        enc_id_name(p).len() == 20 + p.name.len(),
        forall|k: int|
            0 <= k < enc_id_name(p).len() ==> (#[trigger] enc_id_name(p)[k] != 0x95 && enc_id_name(
                p,
            )[k] != TS_MARK && enc_id_name(p)[k] != 0x00),
{
    reveal_with_fuel(pow10, 19);
    lemma_render_dec_props(p.id as int, 18);
    let d = spec_render_dec(p.id as int, 18);
    let e = enc_id_name(p);
    assert(e.len() == 20 + p.name.len());
    assert forall|k: int|
        0 <= k < e.len() implies (#[trigger] e[k] != 0x95 && e[k] != TS_MARK && e[k]
        != 0x00) by {
        if k < 18 {
            assert(e[k] == d[k]);
            assert(crate::scan::is_digit(d[k]));
        } else if k == 18 {
            assert(e[k] == 0xa5);
        } else if k < 19 + p.name.len() {
            assert(e[k] == p.name[k - 19]);
        } else {
            assert(e[k] == NAME_TERM);
        }
    }
}

/// Every byte of the rendered timestamp is plain ASCII punctuation or digit.
proof fn lemma_render_ts_bytes(t: Timestamp)
    requires
        t.wf(),
    ensures
        spec_render_ts(t).len() == 19,
        forall|k: int|
            0 <= k < 19 ==> 0x20 <= #[trigger] spec_render_ts(t)[k] <= 0x3a,
{
    lemma_ts_round_trip(t);
    reveal_with_fuel(pow10, 5);
    lemma_render_dec_props(t.year as int, 4);
    lemma_render_dec_props(t.month as int, 2);
    lemma_render_dec_props(t.day as int, 2);
    lemma_render_dec_props(t.hour as int, 2);
    lemma_render_dec_props(t.minute as int, 2);
    lemma_render_dec_props(t.second as int, 2);
    let r = spec_render_ts(t);
    assert forall|k: int| 0 <= k < 19 implies 0x20 <= #[trigger] r[k] <= 0x3a by {
        if k < 4 {
            assert(r[k] == r.subrange(0, 4)[k]);
            assert(crate::scan::is_digit(r.subrange(0, 4)[k]));
        } else if k == 4 || k == 7 {
        } else if k < 7 {
            assert(r[k] == r.subrange(5, 7)[k - 5]);
            assert(crate::scan::is_digit(r.subrange(5, 7)[k - 5]));
        } else if k < 10 {
            assert(r[k] == r.subrange(8, 10)[k - 8]);
            assert(crate::scan::is_digit(r.subrange(8, 10)[k - 8]));
        } else if k == 10 || k == 13 || k == 16 {
        } else if k < 13 {
            assert(r[k] == r.subrange(11, 13)[k - 11]);
            assert(crate::scan::is_digit(r.subrange(11, 13)[k - 11]));
        } else if k < 16 {
            assert(r[k] == r.subrange(14, 16)[k - 14]);
            assert(crate::scan::is_digit(r.subrange(14, 16)[k - 14]));
        } else {
            assert(r[k] == r.subrange(17, 19)[k - 17]);
            assert(crate::scan::is_digit(r.subrange(17, 19)[k - 17]));
        }
    }
}

/// The name stored before the terminator is read back unchanged.
proof fn lemma_name_round_trip(name: Seq<u8>, rest: Seq<u8>)
    requires
        printable(name),
        rest == name + seq![NAME_TERM],
    ensures
        prefix_before(rest, NAME_TERM) == name,
{
    let nl = name.len() as int;
    assert(match_at(rest, seq![NAME_TERM], nl)) by {
        assert(rest.subrange(nl, nl + 1) =~= seq![NAME_TERM]);
    }
    assert forall|j: int| 0 <= j < nl implies !match_at(rest, seq![NAME_TERM], j) by {
        if match_at(rest, seq![NAME_TERM], j) {
            assert(rest.subrange(j, j + 1)[0] == rest[j]);
            assert(rest[j] == name[j]);
        }
    }
    lemma_find_at_exact(rest, seq![NAME_TERM], nl);
    assert(rest.subrange(0, nl) =~= name);
}

/// Decoding an encoded segment reproduces the record exactly: ids, names,
/// floor, characters, winner, and the timestamp to the second.
#[verifier::rlimit(100)]
pub proof fn lemma_encode_decodes(m: MatchV)
    requires
        encodable(m),
    ensures
        spec_decode_segment(spec_encode(m)) == Ok::<MatchV, DecodeFailV>(m),
        spec_encode(m).len() >= 98,
        forall|j: int| !match_at(spec_encode(m), sep4(), j),
{
    reveal_with_fuel(pow10, 19);
    let f1 = enc_frag1(m);
    let f2 = enc_frag2(m);
    let f3 = enc_frag3(m);
    let e = spec_encode(m);
    let p0 = m.players.0;
    let p1 = m.players.1;
    let nl1 = p1.name.len() as int;
    let fl = filler(p1.name.len()).len() as int;
    lemma_enc_id_name_bytes(p0);
    lemma_enc_id_name_bytes(p1);
    lemma_render_ts_bytes(m.timestamp);
    lemma_render_dec_props(p0.id as int, 18);
    lemma_render_dec_props(p1.id as int, 18);
    lemma_ts_round_trip(m.timestamp);

    // the enum codes stay below the marker byte
    assert(1 <= m.floor.code() <= 99);
    assert(p0.character.code() < 20);
    assert(p1.character.code() < 20);
    assert(1 <= m.winner.code() <= 2);

    // the segment splits on the marker into exactly the three fragments
    assert(f3.len() == 41 + nl1 + fl);
    assert(nl1 + fl >= 30);
    assert(e == f1 + mark2() + (f2 + mark2() + f3)) by {
        assert(e =~= f1 + mark2() + (f2 + mark2() + f3));
    }
    assert forall|k: int| 0 <= k < f1.len() implies #[trigger] f1[k] != 0x95 by {}
    lemma_split_prefix(e, mark2(), f1, f2 + mark2() + f3);
    assert forall|k: int| 0 <= k < f2.len() implies #[trigger] f2[k] != 0x95 by {}
    lemma_split_prefix(f2 + mark2() + f3, mark2(), f2, f3);
    assert forall|j: int| !match_at(f3, mark2(), j) by {
        if match_at(f3, mark2(), j) {
            assert(f3.subrange(j, j + 2)[0] == f3[j]);
            assert(f3[j] == 0x95);
            lemma_frag3_bytes(m);
        }
    }
    lemma_split_whole(f3, mark2());
    let frags = spec_split(e, mark2());
    assert(frags =~~= seq![f1, f2, f3]);
    assert(f1.len() == 3);
    assert(f2.len() == 20 + p0.name.len());
    assert(f3.len() >= 71);

    // the tail of the third fragment splits on the timestamp marker into the
    // pre-timestamp piece, ending in the winner byte, and the timestamp
    let a = enc_id_name(p1) + filler(p1.name.len()) + seq![m.winner.code()];
    let t = spec_render_ts(m.timestamp);
    assert(a.len() == 21 + nl1 + fl);
    let tail = f3.skip(38);
    assert(tail =~= a.skip(38) + seq![TS_MARK] + t) by {
        assert(f3 =~= a + seq![TS_MARK] + t);
    }
    assert forall|k: int| 0 <= k < a.skip(38).len() implies #[trigger] a.skip(38)[k]
        != TS_MARK by {
        assert(a.skip(38)[k] == a[k + 38]);
        lemma_a_bytes(m, k + 38);
    }
    lemma_split_prefix(tail, seq![TS_MARK], a.skip(38), t);
    assert forall|j: int| !match_at(t, seq![TS_MARK], j) by {
        if match_at(t, seq![TS_MARK], j) {
            assert(t.subrange(j, j + 1)[0] == t[j]);
        }
    }
    lemma_split_whole(t, seq![TS_MARK]);
    let pieces = spec_split(tail, seq![TS_MARK]);
    assert(pieces =~~= seq![a.skip(38), t]);
    assert(pieces.len() == 2);
    assert(pieces[1].len() == 19);
    assert(pieces[0].len() == a.len() - 38 >= 13);
    assert(pieces[0].last() == a[a.len() - 1]);
    assert(a[a.len() - 1] == m.winner.code());

    // each subfield reads back as what was written
    assert(f1[0] == m.floor.code() && f1[1] == p0.character.code() && f1[2]
        == p1.character.code());
    assert(Floor::spec_of_byte(m.floor.code()) == Some(m.floor));
    assert(Character::spec_of_byte(p0.character.code()) == Some(p0.character));
    assert(Character::spec_of_byte(p1.character.code()) == Some(p1.character));
    assert(Winner::spec_of_byte(m.winner.code()) == Some(m.winner));
    assert(pieces[1].subrange(0, 19) =~= t);
    assert(f2.subrange(0, 18) =~= spec_render_dec(p0.id as int, 18));
    assert(f3.subrange(0, 18) =~= spec_render_dec(p1.id as int, 18));
    assert(spec_parse_id(f2.subrange(0, 18)) == Some(p0.id as int));
    assert(spec_parse_id(f3.subrange(0, 18)) == Some(p1.id as int));
    assert(f2.skip(19) =~= p0.name + seq![NAME_TERM]);
    lemma_name_round_trip(p0.name, f2.skip(19));
    assert(f3.skip(19) =~= p1.name + seq![NAME_TERM] + filler(p1.name.len()) + seq![
        m.winner.code(),
    ] + seq![TS_MARK] + t);
    assert(prefix_before(f3.skip(19), NAME_TERM) == p1.name) by {
        let rest = f3.skip(19);
        assert(match_at(rest, seq![NAME_TERM], nl1)) by {
            assert(rest.subrange(nl1, nl1 + 1) =~= seq![NAME_TERM]);
        }
        assert forall|j: int| 0 <= j < nl1 implies !match_at(rest, seq![NAME_TERM], j) by {
            if match_at(rest, seq![NAME_TERM], j) {
                assert(rest.subrange(j, j + 1)[0] == rest[j]);
                assert(rest[j] == p1.name[j]);
            }
        }
        lemma_find_at_exact(rest, seq![NAME_TERM], nl1);
        assert(rest.subrange(0, nl1) =~= p1.name);
    }
    assert(spec_assemble(e, f1, f2, f3) == Ok::<MatchV, DecodeFailV>(m)) by {
        let got = spec_assemble(e, f1, f2, f3)->Ok_0;
        assert(got.players.0 =~= m.players.0);
        assert(got.players.1 =~= m.players.1);
        assert(got =~= m);
    }

    // the four-byte separator occurs nowhere in the segment
    assert forall|j: int| !match_at(e, sep4(), j) by {
        if match_at(e, sep4(), j) {
            assert(e.subrange(j, j + 4)[1] == e[j + 1]);
            assert(e.subrange(j, j + 4)[2] == e[j + 2]);
            assert(e.subrange(j, j + 4)[3] == e[j + 3]);
            assert(e[j + 1] == 0 && e[j + 2] == 0 && e[j + 3] == 0);
            lemma_enc_zero_bytes(m, j + 1);
            lemma_enc_zero_bytes(m, j + 2);
            lemma_enc_zero_bytes(m, j + 3);
        }
    }
}

/// Bytes of the pre-timestamp part of the third fragment never hold the
/// timestamp marker.
proof fn lemma_a_bytes(m: MatchV, k: int)
    requires
        encodable(m),
        0 <= k < (enc_id_name(m.players.1) + filler(m.players.1.name.len()) + seq![
            m.winner.code(),
        ]).len(),
    ensures
        (enc_id_name(m.players.1) + filler(m.players.1.name.len()) + seq![m.winner.code()])[k]
            != TS_MARK,
{
    lemma_enc_id_name_bytes(m.players.1);
    let a = enc_id_name(m.players.1) + filler(m.players.1.name.len()) + seq![m.winner.code()];
    let el = enc_id_name(m.players.1).len() as int;
    let fl = filler(m.players.1.name.len()).len() as int;
    if k < el {
        assert(a[k] == enc_id_name(m.players.1)[k]);
    } else if k < el + fl {
        assert(a[k] == filler(m.players.1.name.len())[k - el]);
        assert(filler(m.players.1.name.len())[k - el] == 0x2e);
    } else {
        assert(a[k] == m.winner.code());
        assert(1 <= m.winner.code() <= 2);
    }
}

/// A zero byte can stand only among the first three bytes of a segment.
proof fn lemma_enc_zero_bytes(m: MatchV, k: int)
    requires
        encodable(m),
        0 <= k < spec_encode(m).len(),
        spec_encode(m)[k] == 0,
    ensures
        1 <= k <= 2,
{
    let e = spec_encode(m);
    let f1 = enc_frag1(m);
    let f2 = enc_frag2(m);
    let f3 = enc_frag3(m);
    lemma_enc_id_name_bytes(m.players.0);
    lemma_enc_id_name_bytes(m.players.1);
    lemma_render_ts_bytes(m.timestamp);
    let b1: int = 3;
    let b2 = b1 + 2;
    let b3 = b2 + f2.len() as int;
    let b4 = b3 + 2;
    if k == 0 {
        assert(e[0] == m.floor.code());
        assert(m.floor.code() >= 1);
    } else if k <= 2 {
    } else if k < b2 {
        assert(e[k] == mark2()[k - b1]);
    } else if k < b3 {
        assert(e[k] == f2[k - b2]);
    } else if k < b4 {
        assert(e[k] == mark2()[k - b3]);
    } else {
        assert(e[k] == f3[k - b4]);
        lemma_frag3_nonzero(m, k - b4);
    }
}

/// No byte of the third fragment is zero or the marker byte.
proof fn lemma_frag3_nonzero(m: MatchV, k: int)
    requires
        encodable(m),
        0 <= k < enc_frag3(m).len(),
    ensures
        enc_frag3(m)[k] != 0,
{
    lemma_frag3_bytes(m);
}

/// Every byte of the third fragment is nonzero and below the marker byte
/// except the tag, terminator and timestamp-marker bytes.
proof fn lemma_frag3_bytes(m: MatchV)
    requires
        encodable(m),
    ensures
        forall|k: int|
            0 <= k < enc_frag3(m).len() ==> (#[trigger] enc_frag3(m)[k] != 0 && enc_frag3(m)[k]
                != 0x95),
{
    lemma_enc_id_name_bytes(m.players.1);
    lemma_render_ts_bytes(m.timestamp);
    let f3 = enc_frag3(m);
    let el = enc_id_name(m.players.1).len() as int;
    let fl = filler(m.players.1.name.len()).len() as int;
    let t = spec_render_ts(m.timestamp);
    assert forall|k: int| 0 <= k < f3.len() implies (#[trigger] f3[k] != 0 && f3[k] != 0x95) by {
        if k < el {
            assert(f3[k] == enc_id_name(m.players.1)[k]);
        } else if k < el + fl {
            assert(f3[k] == filler(m.players.1.name.len())[k - el]);
            assert(filler(m.players.1.name.len())[k - el] == 0x2e);
        } else if k == el + fl {
            assert(f3[k] == m.winner.code());
            assert(1 <= m.winner.code() <= 2);
        } else if k == el + fl + 1 {
            assert(f3[k] == TS_MARK);
        } else {
            assert(f3[k] == t[k - (el + fl + 2)]);
        }
    }
}

/// The round-trip law for a whole page: a buffer of any 61-byte header
/// followed by one encoded segment decodes to exactly that one record.
pub proof fn lemma_round_trip(h: Seq<u8>, m: MatchV)
    requires
        h.len() == HEADER_LEN,
        encodable(m),
    ensures
        spec_decode_page(h + spec_encode(m)) == Ok::<Seq<MatchV>, DecodeFailV>(seq![m]),
{
    lemma_encode_decodes(m);
    let e = spec_encode(m);
    let buf = h + e;
    assert(buf.len() >= MIN_PAGE_LEN);
    assert(buf.skip(HEADER_LEN as int) =~= e);
    lemma_split_whole(e, sep4());
    let segs = spec_split(e, sep4());
    assert(segs == seq![e]);
    assert(segs[0] == e);
    assert(e.len() > 0);
    assert(segs.drop_first() =~= Seq::<Seq<u8>>::empty());
    assert(spec_decode_segments(segs.drop_first()) == Ok::<Seq<MatchV>, DecodeFailV>(Seq::empty()));
    assert(seq![m] + Seq::<MatchV>::empty() =~= seq![m]);
}

} // verus!
