//! Byte scanning: leftmost pattern search, splitting on a separator pattern,
//! and fixed-width decimal subfields.

use vstd::prelude::*;

verus! {

/// The pattern `pat` occurs in `s` at position `i`.
pub open spec fn match_at(s: Seq<u8>, pat: Seq<u8>, i: int) -> bool {
    &&& 0 <= i
    &&& i + pat.len() <= s.len()
    &&& s.subrange(i, i + pat.len() as int) == pat
}

/// Position of the leftmost occurrence of `pat` in `s`, if any.
pub open spec fn find_at(s: Seq<u8>, pat: Seq<u8>) -> Option<int>
    decreases s.len(),
{
    if pat.len() <= s.len() && s.subrange(0, pat.len() as int) == pat {
        Some(0)
    } else if s.len() == 0 {
        None
    } else {
        match find_at(s.skip(1), pat) {
            Some(i) => Some(i + 1),
            None => None,
        }
    }
}

proof fn lemma_match_at_shift(s: Seq<u8>, pat: Seq<u8>, i: int)
    requires
        1 <= i,
        s.len() >= 1,
    ensures
        match_at(s, pat, i) <==> match_at(s.skip(1), pat, i - 1),
{
    let pl = pat.len() as int;
    assert(s.skip(1) == s.subrange(1, s.len() as int));
    if i + pl <= s.len() {
        assert forall|k: int| 0 <= k < pl implies #[trigger] s.subrange(i, i + pl)[k] == s.skip(
            1,
        ).subrange(i - 1, i - 1 + pl)[k] by {
            assert(s.subrange(i, i + pl)[k] == s[i + k]);
            assert(s.skip(1).subrange(i - 1, i - 1 + pl)[k] == s.skip(1)[i - 1 + k]);
            assert(s.skip(1)[i - 1 + k] == s[i + k]);
        }
        assert(s.subrange(i, i + pl) =~= s.skip(1).subrange(i - 1, i - 1 + pl));
    }
}

/// `find_at` returns the leftmost occurrence of the pattern, or reports that
/// there is none.
pub proof fn lemma_find_at_spec(s: Seq<u8>, pat: Seq<u8>)
    requires
        pat.len() >= 1,
    ensures
        match find_at(s, pat) {
            Some(i) => match_at(s, pat, i) && (forall|j: int|
                0 <= j < i ==> !match_at(s, pat, j)),
            None => forall|j: int| !match_at(s, pat, j),
        },
    decreases s.len(),
{
    if pat.len() <= s.len() && s.subrange(0, pat.len() as int) == pat {
    } else if s.len() == 0 {
    } else {
        lemma_find_at_spec(s.skip(1), pat);
        match find_at(s.skip(1), pat) {
            Some(i) => {
                lemma_match_at_shift(s, pat, i + 1);
                assert forall|j: int| 0 <= j < i + 1 implies !match_at(s, pat, j) by {
                    if j >= 1 {
                        lemma_match_at_shift(s, pat, j);
                    }
                }
            },
            None => {
                assert forall|j: int| !match_at(s, pat, j) by {
                    if j >= 1 {
                        lemma_match_at_shift(s, pat, j);
                    }
                }
            },
        }
    }
}

/// Pieces of `s` between the non-overlapping, leftmost-first occurrences of
/// the separator pattern `pat`. Every byte of `s` outside the separators is
/// kept: a separator at the edge or two adjacent separators yield an empty
/// piece.
pub open spec fn spec_split(s: Seq<u8>, pat: Seq<u8>) -> Seq<Seq<u8>>
    decreases s.len(),
    when pat.len() >= 1
    via spec_split_decreases
{
    match find_at(s, pat) {
        None => seq![s],
        Some(i) => seq![s.subrange(0, i)] + spec_split(s.skip(i + pat.len() as int), pat),
    }
}

#[via_fn]
proof fn spec_split_decreases(s: Seq<u8>, pat: Seq<u8>) {
    lemma_find_at_spec(s, pat);
}

/// A split yields at least one piece.
pub proof fn lemma_split_len(s: Seq<u8>, pat: Seq<u8>)
    requires
        pat.len() >= 1,
    ensures
        spec_split(s, pat).len() >= 1,
{
}

/// A match at `i` with no match anywhere before it is the leftmost one.
pub proof fn lemma_find_at_exact(s: Seq<u8>, pat: Seq<u8>, i: int)
    requires
        pat.len() >= 1,
        match_at(s, pat, i),
        forall|j: int| 0 <= j < i ==> !match_at(s, pat, j),
    ensures
        find_at(s, pat) == Some(i),
{
    lemma_find_at_spec(s, pat);
    match find_at(s, pat) {
        Some(f) => {
            if f < i {
                assert(!match_at(s, pat, f));
            }
            if f > i {
                assert(!match_at(s, pat, i));
            }
        },
        None => {
            assert(!match_at(s, pat, i));
        },
    }
}

/// Splitting a sequence that opens with a pattern-free prefix `a` followed by
/// the pattern peels `a` off.
pub proof fn lemma_split_prefix(s: Seq<u8>, pat: Seq<u8>, a: Seq<u8>, rest: Seq<u8>)
    requires
        pat.len() >= 1,
        s == a + pat + rest,
        forall|k: int| 0 <= k < a.len() ==> #[trigger] a[k] != pat[0],
    ensures
        spec_split(s, pat) == seq![a] + spec_split(rest, pat),
{
    let al = a.len() as int;
    let pl = pat.len() as int;
    assert(s.len() == al + pl + rest.len());
    assert(match_at(s, pat, al)) by {
        assert(s.subrange(al, al + pl) =~= pat);
    }
    assert forall|j: int| 0 <= j < al implies !match_at(s, pat, j) by {
        if match_at(s, pat, j) {
            assert(s.subrange(j, j + pl)[0] == s[j]);
            assert(s[j] == a[j]);
        }
    }
    lemma_find_at_exact(s, pat, al);
    assert(s.subrange(0, al) =~= a);
    assert(s.skip(al + pl) =~= rest);
}

/// A sequence in which the pattern does not occur splits into itself alone.
pub proof fn lemma_split_whole(s: Seq<u8>, pat: Seq<u8>)
    requires
        pat.len() >= 1,
        forall|j: int| !match_at(s, pat, j),
    ensures
        spec_split(s, pat) == seq![s],
{
    lemma_find_at_spec(s, pat);
    if find_at(s, pat) is Some {
        assert(match_at(s, pat, find_at(s, pat)->0));
    }
}

/// Copy of `s[from..to]`.
pub fn subvec(s: &Vec<u8>, from: usize, to: usize) -> (r: Vec<u8>)
    requires
        from <= to <= s.len(),
    ensures
        r@ == s@.subrange(from as int, to as int),
{
    let mut r: Vec<u8> = Vec::new();
    let mut i: usize = from;
    while i < to
        invariant
            from <= i <= to <= s.len(),
            r@ == s@.subrange(from as int, i as int),
        decreases to - i,
    {
        r.push(s[i]);
        proof {
            assert(s@.subrange(from as int, i + 1 as int) =~= s@.subrange(from as int, i as int).push(
                s@[i as int],
            ));
        }
        i = i + 1;
    }
    r
}

fn is_match_at(s: &Vec<u8>, pat: &Vec<u8>, i: usize) -> (r: bool)
    requires
        i + pat.len() <= s.len(),
    ensures
        r == match_at(s@, pat@, i as int),
{
    let mut j: usize = 0;
    while j < pat.len()
        invariant
            i + pat.len() <= s.len(),
            j <= pat.len(),
            forall|k: int| 0 <= k < j ==> s@[i + k] == pat@[k],
        decreases pat.len() - j,
    {
        if s[i + j] != pat[j] {
            proof {
                assert(s@.subrange(i as int, i + pat@.len() as int)[j as int] != pat@[j as int]);
            }
            return false;
        }
        j = j + 1;
    }
    proof {
        assert(s@.subrange(i as int, i + pat@.len() as int) =~= pat@);
    }
    true
}

/// Leftmost occurrence of `pat` in `s`, as `find_at` gives it.
pub fn find_pattern(s: &Vec<u8>, pat: &Vec<u8>) -> (r: Option<usize>)
    requires
        pat.len() >= 1,
    ensures
        match r {
            Some(i) => find_at(s@, pat@) == Some(i as int),
            None => find_at(s@, pat@) is None,
        },
{
    proof {
        lemma_find_at_spec(s@, pat@);
    }
    if pat.len() > s.len() {
        return None;
    }
    let last: usize = s.len() - pat.len();
    let mut i: usize = 0;
    while i <= last
        invariant
            pat.len() >= 1,
            pat.len() <= s.len(),
            last == s.len() - pat.len(),
            i <= last + 1,
            forall|j: int| 0 <= j < i ==> !match_at(s@, pat@, j),
        decreases last + 1 - i,
    {
        if is_match_at(s, pat, i) {
            proof {
                lemma_find_at_spec(s@, pat@);
                // the leftmost occurrence cannot lie before i, and i is an
                // occurrence, so it is exactly i
                if find_at(s@, pat@) is Some {
                    let f = find_at(s@, pat@)->0;
                    if f < i {
                        assert(0 <= f < i);
                        assert(!match_at(s@, pat@, f));
                        assert(false);
                    }
                    if f > i {
                        assert(!match_at(s@, pat@, i as int));
                        assert(false);
                    }
                } else {
                    assert(!match_at(s@, pat@, i as int));
                    assert(false);
                }
            }
            return Some(i);
        }
        i = i + 1;
    }
    proof {
        assert forall|j: int| !match_at(s@, pat@, j) by {
            if 0 <= j && j + pat@.len() <= s@.len() {
                assert(j < i);
            }
        }
    }
    None
}

/// Split `s` on every occurrence of `pat`, keeping empty pieces.
pub fn split_pattern(s: &Vec<u8>, pat: &Vec<u8>) -> (r: Vec<Vec<u8>>)
    requires
        pat.len() >= 1,
    ensures
        r.deep_view() == spec_split(s@, pat@),
    decreases s@.len(),
{
    match find_pattern(s, pat) {
        None => {
            let piece = subvec(s, 0, s.len());
            let mut r: Vec<Vec<u8>> = Vec::new();
            r.push(piece);
            proof {
                assert(piece@ =~= s@);
                assert(r.deep_view() =~~= spec_split(s@, pat@));
            }
            r
        },
        Some(i) => {
            proof {
                lemma_find_at_spec(s@, pat@);
            }
            let piece = subvec(s, 0, i);
            let rest = subvec(s, i + pat.len(), s.len());
            let mut r = split_pattern(&rest, pat);
            r.insert(0, piece);
            proof {
                assert(rest@ =~= s@.skip(i + pat@.len() as int));
                assert(r.deep_view() =~~= spec_split(s@, pat@));
            }
            r
        },
    }
}

/// An ASCII decimal digit.
pub open spec fn is_digit(b: u8) -> bool {
    0x30 <= b <= 0x39
}

pub open spec fn all_digits(s: Seq<u8>) -> bool {
    forall|i: int| 0 <= i < s.len() ==> is_digit(#[trigger] s[i])
}

/// Value of a sequence of ASCII decimal digits, most significant first.
pub open spec fn digits_value(s: Seq<u8>) -> int
    decreases s.len(),
{
    if s.len() == 0 {
        0
    } else {
        digits_value(s.drop_last()) * 10 + (s.last() - 0x30)
    }
}

pub open spec fn pow10(n: nat) -> int
    decreases n,
{
    if n == 0 {
        1
    } else {
        10 * pow10((n - 1) as nat)
    }
}

pub proof fn lemma_digits_value_bound(s: Seq<u8>)
    requires
        all_digits(s),
    ensures
        0 <= digits_value(s) < pow10(s.len()),
    decreases s.len(),
{
    if s.len() > 0 {
        assert(all_digits(s.drop_last()));
        lemma_digits_value_bound(s.drop_last());
    }
}

/// Value of an 18-byte decimal id subfield, as the service writes it: all
/// digits, or a single leading plus sign followed by digits.
pub open spec fn spec_parse_id(s: Seq<u8>) -> Option<int> {
    if s.len() >= 1 && all_digits(s) {
        Some(digits_value(s))
    } else if s.len() >= 2 && s[0] == 0x2b && all_digits(s.skip(1)) {
        Some(digits_value(s.skip(1)))
    } else {
        None
    }
}

pub fn parse_digits_at(s: &Vec<u8>, from: usize, to: usize) -> (r: Option<u64>)
    requires
        from <= to <= s.len(),
        to - from <= 18,
    ensures
        match r {
            Some(v) => all_digits(s@.subrange(from as int, to as int)) && v == digits_value(
                s@.subrange(from as int, to as int),
            ),
            None => !all_digits(s@.subrange(from as int, to as int)),
        },
{
    let ghost whole = s@.subrange(from as int, to as int);
    let mut acc: u64 = 0;
    let mut i: usize = from;
    while i < to
        invariant
            from <= i <= to <= s.len(),
            to - from <= 18,
            whole == s@.subrange(from as int, to as int),
            all_digits(s@.subrange(from as int, i as int)),
            acc == digits_value(s@.subrange(from as int, i as int)),
            acc < pow10((i - from) as nat),
        decreases to - i,
    {
        let b = s[i];
        if b < 0x30 || b > 0x39 {
            proof {
                assert(whole[i - from] == b);
            }
            return None;
        }
        proof {
            let pre = s@.subrange(from as int, i as int);
            let nxt = s@.subrange(from as int, i + 1 as int);
            assert(nxt.drop_last() =~= pre);
            assert(nxt.last() == b);
            assert(forall|k: int| 0 <= k < nxt.len() ==> is_digit(#[trigger] nxt[k]));
            lemma_pow10_le_18((i + 1 - from) as nat);
        }
        acc = acc * 10 + ((b - 0x30) as u64);
        i = i + 1;
    }
    proof {
        assert(s@.subrange(from as int, i as int) =~= whole);
    }
    Some(acc)
}

proof fn lemma_pow10_le_18(n: nat)
    requires
        n <= 18,
    ensures
        pow10(n) <= 1000000000000000000,
{
    lemma_pow10_mono(n, 18);
    reveal_with_fuel(pow10, 19);
    assert(pow10(18) == 1000000000000000000);
}

pub proof fn lemma_pow10_pos(n: nat)
    ensures
        pow10(n) >= 1,
    decreases n,
{
    if n > 0 {
        lemma_pow10_pos((n - 1) as nat);
    }
}

pub proof fn lemma_pow10_mono(a: nat, b: nat)
    requires
        a <= b,
    ensures
        1 <= pow10(a) <= pow10(b),
    decreases b,
{
    lemma_pow10_pos(a);
    if a < b {
        lemma_pow10_mono(a, (b - 1) as nat);
    }
}

/// Parse the 18-byte decimal id subfield starting at `from`.
pub fn parse_id(s: &Vec<u8>, from: usize, to: usize) -> (r: Option<u64>)
    requires
        from <= to <= s.len(),
        to - from == 18,
    ensures
        match r {
            Some(v) => spec_parse_id(s@.subrange(from as int, to as int)) == Some(v as int),
            None => spec_parse_id(s@.subrange(from as int, to as int)) is None,
        },
{
    let ghost whole = s@.subrange(from as int, to as int);
    if s[from] == 0x2b {
        let r = parse_digits_at(s, from + 1, to);
        proof {
            assert(whole.skip(1) =~= s@.subrange(from + 1 as int, to as int));
            assert(whole[0] == 0x2b);
            assert(!is_digit(whole[0]));
            assert(!all_digits(whole));
        }
        match r {
            Some(v) => Some(v),
            None => None,
        }
    } else {
        let r = parse_digits_at(s, from, to);
        proof {
            assert(whole[0] != 0x2b);
        }
        match r {
            Some(v) => Some(v),
            None => None,
        }
    }
}

/// The `n` ASCII digits of `v`, most significant first: `v` written in
/// decimal, left-padded with zeros, truncated to its `n` low digits.
pub open spec fn spec_render_dec(v: int, n: nat) -> Seq<u8>
    decreases n,
{
    if n == 0 {
        Seq::empty()
    } else {
        spec_render_dec(v / 10, (n - 1) as nat).push((0x30 + (v % 10)) as u8)
    }
}

pub proof fn lemma_render_dec_props(v: int, n: nat)
    requires
        0 <= v < pow10(n),
    ensures
        spec_render_dec(v, n).len() == n,
        all_digits(spec_render_dec(v, n)),
        digits_value(spec_render_dec(v, n)) == v,
    decreases n,
{
    if n > 0 {
        assert(pow10(n) == 10 * pow10((n - 1) as nat));
        lemma_render_dec_props(v / 10, (n - 1) as nat);
        let r = spec_render_dec(v, n);
        assert(r.drop_last() =~= spec_render_dec(v / 10, (n - 1) as nat));
        assert(r.last() == (0x30 + (v % 10)) as u8);
        assert(0 <= v % 10 < 10);
        assert(forall|i: int| 0 <= i < r.len() ==> is_digit(#[trigger] r[i])) by {
            assert(forall|i: int|
                0 <= i < r.len() - 1 ==> r[i] == #[trigger] r.drop_last()[i]);
        }
        assert(digits_value(r) == (v / 10) * 10 + v % 10);
        assert((v / 10) * 10 + v % 10 == v) by (nonlinear_arith);
    }
}

/// Append the `n`-digit decimal rendering of `v`.
pub fn push_render_dec(out: &mut Vec<u8>, v: u64, n: usize) -> (nothing: ())
    ensures
        final(out)@ == old(out)@ + spec_render_dec(v as int, n as nat),
    decreases n,
{
    if n == 0 {
        proof {
            assert(out@ =~= out@ + spec_render_dec(v as int, 0));
        }
    } else {
        push_render_dec(out, v / 10, n - 1);
        out.push(0x30 + ((v % 10) as u8));
        proof {
            assert(out@ =~= old(out)@ + spec_render_dec(v as int, n as nat));
        }
    }
}

} // verus!
