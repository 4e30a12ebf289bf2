//! The binary response decoder: frame stripper, segment splitter, field
//! extractor and record assembler.
//!
//! A response buffer shorter than 63 bytes holds only the static protocol
//! header and decodes to "no matches". Otherwise the first 61 bytes are
//! stripped, the body splits into segments on the four-byte separator, each
//! non-empty segment splits on the two-byte marker into fragments of which
//! the last three carry the fields, and the subfields are read at their fixed
//! byte offsets. The first structural anomaly aborts the whole decode.

use vstd::prelude::*;
use crate::enums::{Character, Floor, Winner};
use crate::error::{DecodeFail, DecodeFailV, Error};
use crate::record::{views, Match, MatchV, Player, PlayerV};
use crate::scan::{
    find_at, find_pattern, parse_id, spec_parse_id, spec_split, split_pattern, subvec,
};
use crate::timestamp::{parse_ts, spec_parse_ts};

verus! {

/// Smallest buffer that can hold more than the static header.
pub const MIN_PAGE_LEN: usize = 63;

/// Length of the static protocol header that is stripped.
pub const HEADER_LEN: usize = 61;

/// The four-byte separator between match segments.
pub open spec fn sep4() -> Seq<u8> {
    seq![0x01u8, 0x00u8, 0x00u8, 0x00u8]
}

/// The two-byte marker between the fragments of a segment.
pub open spec fn mark2() -> Seq<u8> {
    seq![0x95u8, 0xb2u8]
}

/// Terminator byte of a player-name subfield.
pub const NAME_TERM: u8 = 0xb1;

/// Marker byte in front of the timestamp subfield.
pub const TS_MARK: u8 = 0xb3;

/// The prefix of `t` before the first occurrence of byte `b`, or all of `t`
/// when `b` does not occur.
pub open spec fn prefix_before(t: Seq<u8>, b: u8) -> Seq<u8> {
    match find_at(t, seq![b]) {
        None => t,
        Some(i) => t.subrange(0, i),
    }
}

/// Assemble a record from the three fragments of a segment, validating every
/// subfield; the checks run in the order the wire layout fixes.
pub open spec fn spec_assemble(seg: Seq<u8>, f1: Seq<u8>, f2: Seq<u8>, f3: Seq<u8>) -> Result<
    MatchV,
    DecodeFailV,
>
    recommends
        f1.len() >= 3,
        f2.len() >= 20,
        f3.len() >= 71,
{
    let tail = f3.skip(38);
    let pieces = spec_split(tail, seq![TS_MARK]);
    let n2 = pieces.len();
    if pieces[n2 - 1].len() < 19 {
        Err(DecodeFailV::TimestampTooShort { tail })
    } else if n2 < 2 {
        Err(DecodeFailV::MissingWinner { tail })
    } else if pieces[n2 - 2].len() == 0 {
        Err(DecodeFailV::EmptyWinner { tail })
    } else {
        let floor_b = f1[f1.len() - 3];
        let c1b = f1[f1.len() - 2];
        let c2b = f1[f1.len() - 1];
        let ts_text = pieces[n2 - 1].subrange(0, 19);
        let win_b = pieces[n2 - 2].last();
        let id1 = spec_parse_id(f2.subrange(0, 18));
        let id2 = spec_parse_id(f3.subrange(0, 18));
        if Floor::spec_of_byte(floor_b) is None {
            Err(DecodeFailV::UnknownFloorByte { byte: floor_b })
        } else if spec_parse_ts(ts_text) is None {
            Err(DecodeFailV::BadTimestamp { text: ts_text })
        } else if id1 is None {
            Err(DecodeFailV::BadPlayerId { digits: f2.subrange(0, 18) })
        } else if Character::spec_of_byte(c1b) is None {
            Err(DecodeFailV::UnknownCharacterByte { byte: c1b })
        } else if id2 is None {
            Err(DecodeFailV::BadPlayerId { digits: f3.subrange(0, 18) })
        } else if Character::spec_of_byte(c2b) is None {
            Err(DecodeFailV::UnknownCharacterByte { byte: c2b })
        } else if Winner::spec_of_byte(win_b) is None {
            Err(DecodeFailV::BadWinnerByte { byte: win_b })
        } else {
            Ok(
                MatchV {
                    floor: Floor::spec_of_byte(floor_b)->0,
                    timestamp: spec_parse_ts(ts_text)->0,
                    players: (
                        PlayerV {
                            id: id1->0 as u64,
                            name: prefix_before(f2.skip(19), NAME_TERM),
                            character: Character::spec_of_byte(c1b)->0,
                        },
                        PlayerV {
                            id: id2->0 as u64,
                            name: prefix_before(f3.skip(19), NAME_TERM),
                            character: Character::spec_of_byte(c2b)->0,
                        },
                    ),
                    winner: Winner::spec_of_byte(win_b)->0,
                },
            )
        }
    }
}

/// Decode one segment: split it on the two-byte marker, keep the last three
/// fragments, check each fragment's minimum width, and assemble the record.
pub open spec fn spec_decode_segment(seg: Seq<u8>) -> Result<MatchV, DecodeFailV> {
    let frags = spec_split(seg, mark2());
    let n = frags.len();
    let base = if n >= 3 {
        n - 3
    } else {
        0
    };
    let f1 = frags[base];
    if f1.len() < 3 {
        Err(DecodeFailV::FirstFragmentTooShort { fragment: f1 })
    } else if base + 1 >= n {
        Err(DecodeFailV::MissingSecondFragment { segment: seg })
    } else {
        let f2 = frags[base + 1];
        if f2.len() < 20 {
            Err(DecodeFailV::SecondFragmentTooShort { fragment: f2, segment: seg })
        } else if base + 2 >= n {
            Err(DecodeFailV::MissingThirdFragment { segment: seg })
        } else {
            let f3 = frags[base + 2];
            if f3.len() < 71 {
                Err(DecodeFailV::ThirdFragmentTooShort { fragment: f3, segment: seg })
            } else {
                spec_assemble(seg, f1, f2, f3)
            }
        }
    }
}

/// Decode a run of segments in order, skipping empty ones; the first failing
/// segment fails the whole run.
pub open spec fn spec_decode_segments(segs: Seq<Seq<u8>>) -> Result<Seq<MatchV>, DecodeFailV>
    decreases segs.len(),
{
    if segs.len() == 0 {
        Ok(Seq::empty())
    } else if segs[0].len() == 0 {
        spec_decode_segments(segs.drop_first())
    } else {
        match spec_decode_segment(segs[0]) {
            Err(f) => Err(f),
            Ok(m) => match spec_decode_segments(segs.drop_first()) {
                Err(f) => Err(f),
                Ok(rest) => Ok(seq![m] + rest),
            },
        }
    }
}

/// Decode one page buffer: a buffer below the minimum length holds no
/// matches (not an error); otherwise the header is stripped and every
/// segment of the body is decoded, in order.
pub open spec fn spec_decode_page(buf: Seq<u8>) -> Result<Seq<MatchV>, DecodeFailV> {
    if buf.len() < MIN_PAGE_LEN {
        Ok(Seq::empty())
    } else {
        spec_decode_segments(spec_split(buf.skip(HEADER_LEN as int), sep4()))
    }
}

fn name_vec(t: &Vec<u8>, from: usize) -> (r: Vec<u8>)
    requires
        from <= t.len(),
    ensures
        r@ == prefix_before(t@.skip(from as int), NAME_TERM),
{
    let rest = subvec(t, from, t.len());
    let mut term: Vec<u8> = Vec::new();
    term.push(NAME_TERM);
    proof {
        assert(term@ =~= seq![NAME_TERM]);
        assert(rest@ =~= t@.skip(from as int));
    }
    match find_pattern(&rest, &term) {
        None => rest,
        Some(i) => {
            proof {
                crate::scan::lemma_find_at_spec(rest@, term@);
            }
            subvec(&rest, 0, i)
        },
    }
}

/// Decode one match segment into a validated record, or fail on the first
/// structural anomaly.
pub fn decode_segment(seg: &Vec<u8>) -> (r: Result<Match, Error>)
    ensures
        match r {
            Ok(m) => spec_decode_segment(seg@) == Ok::<MatchV, DecodeFailV>(m@),
            Err(e) => e matches Error::StructuralDecodeFailure(f) && spec_decode_segment(seg@)
                == Err::<MatchV, DecodeFailV>(f@),
        },
{
    let mut mark: Vec<u8> = Vec::new();
    mark.push(0x95);
    mark.push(0xb2);
    proof {
        assert(mark@ =~= mark2());
    }
    let frags = split_pattern(seg, &mark);
    proof {
        crate::scan::lemma_split_len(seg@, mark2());
        assert(frags@.len() == frags.deep_view().len());
        assert(forall|k: int|
            0 <= k < frags@.len() ==> (#[trigger] frags@[k])@ == frags.deep_view()[k]);
    }
    let n = frags.len();
    let base = if n >= 3 {
        n - 3
    } else {
        0
    };
    let f1 = &frags[base];
    if f1.len() < 3 {
        let fragment = subvec(f1, 0, f1.len());
        proof {
            assert(fragment@ =~= f1@);
        }
        return Err(Error::StructuralDecodeFailure(DecodeFail::FirstFragmentTooShort { fragment }));
    }
    let floor_b = f1[f1.len() - 3];
    let c1b = f1[f1.len() - 2];
    let c2b = f1[f1.len() - 1];
    if base + 1 >= n {
        let segment = subvec(seg, 0, seg.len());
        proof {
            assert(segment@ =~= seg@);
        }
        return Err(
            Error::StructuralDecodeFailure(DecodeFail::MissingSecondFragment { segment }),
        );
    }
    let f2 = &frags[base + 1];
    if f2.len() < 20 {
        let fragment = subvec(f2, 0, f2.len());
        let segment = subvec(seg, 0, seg.len());
        proof {
            assert(fragment@ =~= f2@);
            assert(segment@ =~= seg@);
        }
        return Err(
            Error::StructuralDecodeFailure(
                DecodeFail::SecondFragmentTooShort { fragment, segment },
            ),
        );
    }
    if base + 2 >= n {
        let segment = subvec(seg, 0, seg.len());
        proof {
            assert(segment@ =~= seg@);
        }
        return Err(Error::StructuralDecodeFailure(DecodeFail::MissingThirdFragment { segment }));
    }
    let f3 = &frags[base + 2];
    if f3.len() < 71 {
        let fragment = subvec(f3, 0, f3.len());
        let segment = subvec(seg, 0, seg.len());
        proof {
            assert(fragment@ =~= f3@);
            assert(segment@ =~= seg@);
        }
        return Err(
            Error::StructuralDecodeFailure(
                DecodeFail::ThirdFragmentTooShort { fragment, segment },
            ),
        );
    }
    // the winner byte and the timestamp stand behind the last marker byte in
    // the part of the third fragment past its fixed-width prefix
    let tail = subvec(f3, 38, f3.len());
    proof {
        assert(tail@ =~= f3@.skip(38));
    }
    let mut tsm: Vec<u8> = Vec::new();
    tsm.push(TS_MARK);
    proof {
        assert(tsm@ =~= seq![TS_MARK]);
    }
    let pieces = split_pattern(&tail, &tsm);
    proof {
        crate::scan::lemma_split_len(tail@, seq![TS_MARK]);
        assert(pieces@.len() == pieces.deep_view().len());
        assert(forall|k: int|
            0 <= k < pieces@.len() ==> (#[trigger] pieces@[k])@ == pieces.deep_view()[k]);
    }
    let n2 = pieces.len();
    let tsp = &pieces[n2 - 1];
    if tsp.len() < 19 {
        return Err(Error::StructuralDecodeFailure(DecodeFail::TimestampTooShort { tail }));
    }
    if n2 < 2 {
        return Err(Error::StructuralDecodeFailure(DecodeFail::MissingWinner { tail }));
    }
    let winp = &pieces[n2 - 2];
    if winp.len() == 0 {
        return Err(Error::StructuralDecodeFailure(DecodeFail::EmptyWinner { tail }));
    }
    let win_b = winp[winp.len() - 1];
    proof {
        assert(win_b == pieces.deep_view()[n2 - 1 - 1].last());
    }
    let floor = match Floor::from_u8(floor_b) {
        Ok(f) => f,
        Err(e) => {
            return Err(e);
        },
    };
    let timestamp = match parse_ts(tsp, 0) {
        Some(t) => t,
        None => {
            let text = subvec(tsp, 0, 19);
            proof {
                assert(text@ =~= tsp@.subrange(0, 19));
            }
            return Err(Error::StructuralDecodeFailure(DecodeFail::BadTimestamp { text }));
        },
    };
    let id1 = match parse_id(f2, 0, 18) {
        Some(v) => v,
        None => {
            let digits = subvec(f2, 0, 18);
            proof {
                assert(digits@ =~= f2@.subrange(0, 18));
            }
            return Err(Error::StructuralDecodeFailure(DecodeFail::BadPlayerId { digits }));
        },
    };
    let character1 = match Character::from_u8(c1b) {
        Ok(c) => c,
        Err(e) => {
            return Err(e);
        },
    };
    let id2 = match parse_id(f3, 0, 18) {
        Some(v) => v,
        None => {
            let digits = subvec(f3, 0, 18);
            proof {
                assert(digits@ =~= f3@.subrange(0, 18));
            }
            return Err(Error::StructuralDecodeFailure(DecodeFail::BadPlayerId { digits }));
        },
    };
    let character2 = match Character::from_u8(c2b) {
        Ok(c) => c,
        Err(e) => {
            return Err(e);
        },
    };
    let winner = match Winner::from_u8(win_b) {
        Ok(w) => w,
        Err(e) => {
            return Err(e);
        },
    };
    let name1 = name_vec(f2, 19);
    let name2 = name_vec(f3, 19);
    let m = Match {
        floor,
        timestamp,
        players: (
            Player { id: id1, name: name1, character: character1 },
            Player { id: id2, name: name2, character: character2 },
        ),
        winner,
    };
    proof {
        assert(spec_parse_ts(tsp@.subrange(0, 19)) == Some(timestamp));
    }
    Ok(m)
}

/// Decode a whole page buffer into its records, in segment order. A buffer
/// below the minimum length decodes to no records and never to a failure; on
/// a longer buffer the first structural anomaly fails the whole page.
pub fn decode_page(buf: &Vec<u8>) -> (r: Result<Vec<Match>, Error>)
    ensures
        match r {
            Ok(v) => spec_decode_page(buf@) == Ok::<Seq<MatchV>, DecodeFailV>(views(v@)),
            Err(e) => e matches Error::StructuralDecodeFailure(f) && spec_decode_page(buf@)
                == Err::<Seq<MatchV>, DecodeFailV>(f@),
        },
        buf@.len() < MIN_PAGE_LEN ==> (r matches Ok(v) && v@.len() == 0),
{
    if buf.len() < MIN_PAGE_LEN {
        let v: Vec<Match> = Vec::new();
        proof {
            assert(views(v@) =~= Seq::<MatchV>::empty());
        }
        return Ok(v);
    }
    let body = subvec(buf, HEADER_LEN, buf.len());
    proof {
        assert(body@ =~= buf@.skip(HEADER_LEN as int));
    }
    let mut sep: Vec<u8> = Vec::new();
    sep.push(0x01);
    sep.push(0x00);
    sep.push(0x00);
    sep.push(0x00);
    proof {
        assert(sep@ =~= sep4());
    }
    let segs = split_pattern(&body, &sep);
    let ghost sv = segs.deep_view();
    proof {
        assert(segs@.len() == sv.len());
        assert(forall|k: int| 0 <= k < segs@.len() ==> (#[trigger] segs@[k])@ == sv[k]);
    }
    let mut out: Vec<Match> = Vec::new();
    let mut i: usize = 0;
    proof {
        assert(sv.skip(0) =~= sv);
        assert(views(out@) =~= Seq::<MatchV>::empty());
        if spec_decode_segments(sv) is Ok {
            assert(views(out@) + spec_decode_segments(sv)->Ok_0 =~= spec_decode_segments(
                sv,
            )->Ok_0);
        }
    }
    while i < segs.len()
        invariant
            buf@.len() >= MIN_PAGE_LEN,
            i <= segs@.len(),
            sv == segs.deep_view(),
            sv == spec_split(buf@.skip(HEADER_LEN as int), sep4()),
            segs@.len() == sv.len(),
            forall|k: int| 0 <= k < segs@.len() ==> (#[trigger] segs@[k])@ == sv[k],
            spec_decode_segments(sv) == match spec_decode_segments(sv.skip(i as int)) {
                Ok(rest) => Ok::<Seq<MatchV>, DecodeFailV>(views(out@) + rest),
                Err(f) => Err::<Seq<MatchV>, DecodeFailV>(f),
            },
        decreases segs@.len() - i,
    {
        let ghost pre = sv.skip(i as int);
        proof {
            assert(pre[0] == sv[i as int]);
            assert(pre.drop_first() =~= sv.skip(i + 1));
        }
        if segs[i].len() > 0 {
            match decode_segment(&segs[i]) {
                Ok(m) => {
                    let ghost out0 = out@;
                    out.push(m);
                    proof {
                        assert(views(out@) =~= views(out0) + seq![m@]);
                        if spec_decode_segments(sv.skip(i + 1)) is Ok {
                            let rest = spec_decode_segments(sv.skip(i + 1))->Ok_0;
                            assert((views(out0) + (seq![m@] + rest)) =~= (views(out@) + rest));
                        }
                    }
                },
                Err(e) => {
                    proof {
                        assert(sv[i as int].len() > 0);
                        assert(spec_decode_segment(pre[0]) is Err);
                        assert(spec_decode_segments(pre) == Err::<Seq<MatchV>, DecodeFailV>(
                            spec_decode_segment(pre[0])->Err_0,
                        ));
                    }
                    return Err(e);
                },
            }
        }
        i = i + 1;
    }
    proof {
        assert(sv.skip(i as int).len() == 0);
        assert(spec_decode_segments(sv.skip(i as int)) == Ok::<Seq<MatchV>, DecodeFailV>(
            Seq::empty(),
        ));
        assert(views(out@) + Seq::<MatchV>::empty() =~= views(out@));
    }
    Ok(out)
}

} // verus!
