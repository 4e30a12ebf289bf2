//! Calendar timestamps under the fixed textual layout "YYYY-MM-DD HH:MM:SS",
//! interpreted as UTC.

use vstd::prelude::*;
use crate::scan::{
    all_digits, digits_value, lemma_digits_value_bound, lemma_render_dec_props, parse_digits_at,
    pow10, push_render_dec, spec_render_dec,
};

verus! {

/// A UTC instant, second precision, as the wire format carries it.
#[derive(Clone, Copy, Debug, PartialEq, Eq, Structural, Hash)]
pub struct Timestamp {
    pub year: u16,
    pub month: u8,
    pub day: u8,
    pub hour: u8,
    pub minute: u8,
    pub second: u8,
}

pub open spec fn is_leap_year(y: int) -> bool {
    y % 4 == 0 && (y % 100 != 0 || y % 400 == 0)
}

pub open spec fn days_in_month(y: int, m: int) -> int
    recommends
        1 <= m <= 12,
{
    if m == 2 {
        if is_leap_year(y) {
            29
        } else {
            28
        }
    } else if m == 4 || m == 6 || m == 9 || m == 11 {
        30
    } else {
        31
    }
}

impl Timestamp {
    /// A well-formed timestamp: a real calendar date of at most four year
    /// digits and a valid time of day.
    pub open spec fn wf(self) -> bool {
        &&& self.year <= 9999
        &&& 1 <= self.month <= 12
        &&& 1 <= self.day <= days_in_month(self.year as int, self.month as int)
        &&& self.hour < 24
        &&& self.minute < 60
        &&& self.second < 60
    }
}

fn leap_year(y: u16) -> (r: bool)
    ensures
        r == is_leap_year(y as int),
{
    y % 4 == 0 && (y % 100 != 0 || y % 400 == 0)
}

fn month_days(y: u16, m: u8) -> (r: u8)
    requires
        1 <= m <= 12,
    ensures
        r == days_in_month(y as int, m as int),
{
    if m == 2 {
        if leap_year(y) {
            29
        } else {
            28
        }
    } else if m == 4 || m == 6 || m == 9 || m == 11 {
        30
    } else {
        31
    }
}

/// The timestamp written in `s`, when `s` is exactly the fixed 19-byte layout
/// with in-range calendar fields.
pub open spec fn spec_parse_ts(s: Seq<u8>) -> Option<Timestamp> {
    if s.len() == 19 && s[4] == 0x2d && s[7] == 0x2d && s[10] == 0x20 && s[13] == 0x3a && s[16]
        == 0x3a && all_digits(s.subrange(0, 4)) && all_digits(s.subrange(5, 7)) && all_digits(
        s.subrange(8, 10),
    ) && all_digits(s.subrange(11, 13)) && all_digits(s.subrange(14, 16)) && all_digits(
        s.subrange(17, 19),
    ) {
        let y = digits_value(s.subrange(0, 4));
        let mo = digits_value(s.subrange(5, 7));
        let d = digits_value(s.subrange(8, 10));
        let h = digits_value(s.subrange(11, 13));
        let mi = digits_value(s.subrange(14, 16));
        let sec = digits_value(s.subrange(17, 19));
        if 1 <= mo <= 12 && 1 <= d <= days_in_month(y, mo) && h < 24 && mi < 60 && sec < 60 {
            Some(
                Timestamp {
                    year: y as u16,
                    month: mo as u8,
                    day: d as u8,
                    hour: h as u8,
                    minute: mi as u8,
                    second: sec as u8,
                },
            )
        } else {
            None
        }
    } else {
        None
    }
}

/// Parse the 19-byte timestamp subfield `s[from..from + 19]`.
pub fn parse_ts(s: &Vec<u8>, from: usize) -> (r: Option<Timestamp>)
    requires
        from + 19 <= s.len(),
    ensures
        r == spec_parse_ts(s@.subrange(from as int, from + 19)),
        r matches Some(t) ==> t.wf(),
{
    let ghost w = s@.subrange(from as int, from + 19);
    proof {
        assert(w.len() == 19);
        assert forall|a: int, b: int| 0 <= a <= b <= 19 implies w.subrange(a, b) =~= s@.subrange(
            from + a,
            from + b,
        ) by {}
    }
    if !(s[from + 4] == 0x2d && s[from + 7] == 0x2d && s[from + 10] == 0x20 && s[from + 13] == 0x3a
        && s[from + 16] == 0x3a) {
        return None;
    }
    let y = match parse_digits_at(s, from, from + 4) {
        Some(v) => v,
        None => {
            return None;
        },
    };
    let mo = match parse_digits_at(s, from + 5, from + 7) {
        Some(v) => v,
        None => {
            return None;
        },
    };
    let d = match parse_digits_at(s, from + 8, from + 10) {
        Some(v) => v,
        None => {
            return None;
        },
    };
    let h = match parse_digits_at(s, from + 11, from + 13) {
        Some(v) => v,
        None => {
            return None;
        },
    };
    let mi = match parse_digits_at(s, from + 14, from + 16) {
        Some(v) => v,
        None => {
            return None;
        },
    };
    let sec = match parse_digits_at(s, from + 17, from + 19) {
        Some(v) => v,
        None => {
            return None;
        },
    };
    proof {
        lemma_digits_value_bound(w.subrange(0, 4));
        lemma_digits_value_bound(w.subrange(5, 7));
        lemma_digits_value_bound(w.subrange(8, 10));
        lemma_digits_value_bound(w.subrange(11, 13));
        lemma_digits_value_bound(w.subrange(14, 16));
        lemma_digits_value_bound(w.subrange(17, 19));
        reveal_with_fuel(pow10, 5);
    }
    if !(1 <= mo && mo <= 12) {
        return None;
    }
    let y16: u16 = y as u16;
    let mo8: u8 = mo as u8;
    let dm = month_days(y16, mo8);
    if !(1 <= d && d <= dm as u64) {
        return None;
    }
    if !(h < 24 && mi < 60 && sec < 60) {
        return None;
    }
    Some(
        Timestamp {
            year: y16,
            month: mo8,
            day: d as u8,
            hour: h as u8,
            minute: mi as u8,
            second: sec as u8,
        },
    )
}

/// The fixed 19-byte rendering of a timestamp.
pub open spec fn spec_render_ts(t: Timestamp) -> Seq<u8> {
    spec_render_dec(t.year as int, 4) + seq![0x2du8] + spec_render_dec(t.month as int, 2)
        + seq![0x2du8] + spec_render_dec(t.day as int, 2) + seq![0x20u8] + spec_render_dec(
        t.hour as int,
        2,
    ) + seq![0x3au8] + spec_render_dec(t.minute as int, 2) + seq![0x3au8] + spec_render_dec(
        t.second as int,
        2,
    )
}

/// Append the 19-byte rendering of `t`.
pub fn push_render_ts(out: &mut Vec<u8>, t: Timestamp) -> (nothing: ())
    ensures
        final(out)@ == old(out)@ + spec_render_ts(t),
{
    push_render_dec(out, t.year as u64, 4);
    out.push(0x2d);
    push_render_dec(out, t.month as u64, 2);
    out.push(0x2d);
    push_render_dec(out, t.day as u64, 2);
    out.push(0x20);
    push_render_dec(out, t.hour as u64, 2);
    out.push(0x3a);
    push_render_dec(out, t.minute as u64, 2);
    out.push(0x3a);
    push_render_dec(out, t.second as u64, 2);
    proof {
        assert(out@ =~= old(out)@ + spec_render_ts(t));
    }
}

/// Rendering a well-formed timestamp and parsing it back yields the same
/// timestamp.
pub proof fn lemma_ts_round_trip(t: Timestamp)
    requires
        t.wf(),
    ensures
        spec_render_ts(t).len() == 19,
        spec_parse_ts(spec_render_ts(t)) == Some(t),
{
    reveal_with_fuel(pow10, 5);
    lemma_render_dec_props(t.year as int, 4);
    lemma_render_dec_props(t.month as int, 2);
    lemma_render_dec_props(t.day as int, 2);
    lemma_render_dec_props(t.hour as int, 2);
    lemma_render_dec_props(t.minute as int, 2);
    lemma_render_dec_props(t.second as int, 2);
    let r = spec_render_ts(t);
    assert(r.len() == 19);
    assert(r.subrange(0, 4) =~= spec_render_dec(t.year as int, 4));
    assert(r[4] == 0x2d);
    assert(r.subrange(5, 7) =~= spec_render_dec(t.month as int, 2));
    assert(r[7] == 0x2d);
    assert(r.subrange(8, 10) =~= spec_render_dec(t.day as int, 2));
    assert(r[10] == 0x20);
    assert(r.subrange(11, 13) =~= spec_render_dec(t.hour as int, 2));
    assert(r[13] == 0x3a);
    assert(r.subrange(14, 16) =~= spec_render_dec(t.minute as int, 2));
    assert(r[16] == 0x3a);
    assert(r.subrange(17, 19) =~= spec_render_dec(t.second as int, 2));
}

} // verus!
