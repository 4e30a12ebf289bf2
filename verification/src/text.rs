//! Lossy text decoding and the escaped rendering of raw bytes used in
//! diagnostics.

use vstd::prelude::*;

verus! {

/// The character sequence that lossy UTF-8 decoding yields for a byte
/// sequence: invalid byte sequences are replaced, valid ones are kept.
pub uninterp spec fn lossy_decode_of(s: Seq<u8>) -> Seq<char>;

/// Relies on String::from_utf8_lossy: the decoding depends on the bytes
/// alone, and a buffer of bytes below 0x80 is valid UTF-8 that decodes to the
/// characters with those same values.
#[verifier::external_body]
pub(crate) fn lossy_string(b: &Vec<u8>) -> (r: String)
    ensures
        r@ == lossy_decode_of(b@),
        (forall|i: int| 0 <= i < b@.len() ==> b@[i] < 0x80) ==> r@ == Seq::new(
            b@.len(),
            |i: int| b@[i] as char,
        ),
{
    String::from_utf8_lossy(b.as_slice()).into_owned()
}

/// Lower-case hexadecimal digit for a value below 16.
pub open spec fn hex_lower(n: u8) -> u8
    recommends
        n < 16,
{
    if n < 10 {
        (0x30 + n) as u8
    } else {
        (0x57 + n) as u8
    }
}

/// Escaped, printable rendering of one byte: tab, carriage return, line feed,
/// backslash and both quotes as two-character escapes, other printable ASCII
/// as itself, everything else as a hexadecimal escape.
pub open spec fn escape_byte(b: u8) -> Seq<u8> {
    if b == 0x09 {
        seq![0x5c, 0x74]
    } else if b == 0x0d {
        seq![0x5c, 0x72]
    } else if b == 0x0a {
        seq![0x5c, 0x6e]
    } else if b == 0x5c {
        seq![0x5c, 0x5c]
    } else if b == 0x27 {
        seq![0x5c, 0x27]
    } else if b == 0x22 {
        seq![0x5c, 0x22]
    } else if 0x20 <= b && b <= 0x7e {
        seq![b]
    } else {
        seq![0x5c, 0x78, hex_lower(b / 16), hex_lower(b % 16)]
    }
}

/// Escaped rendering of a whole buffer, byte for byte.
pub open spec fn escaped(s: Seq<u8>) -> Seq<u8>
    decreases s.len(),
{
    if s.len() == 0 {
        Seq::empty()
    } else {
        escaped(s.drop_last()) + escape_byte(s.last())
    }
}

/// The escaped rendering as characters.
pub open spec fn escaped_chars(s: Seq<u8>) -> Seq<char> {
    Seq::new(escaped(s).len(), |i: int| escaped(s)[i] as char)
}

pub proof fn lemma_escape_byte_ascii(b: u8)
    ensures
        forall|i: int| 0 <= i < escape_byte(b).len() ==> escape_byte(b)[i] < 0x80,
{
}

pub proof fn lemma_escaped_ascii(s: Seq<u8>)
    ensures
        forall|i: int| 0 <= i < escaped(s).len() ==> escaped(s)[i] < 0x80,
    decreases s.len(),
{
    if s.len() > 0 {
        lemma_escaped_ascii(s.drop_last());
        lemma_escape_byte_ascii(s.last());
        let a = escaped(s.drop_last());
        let b = escape_byte(s.last());
        assert forall|i: int| 0 <= i < escaped(s).len() implies escaped(s)[i] < 0x80 by {
            if i < a.len() {
                assert(escaped(s)[i] == a[i]);
            } else {
                assert(escaped(s)[i] == b[i - a.len()]);
            }
        }
    }
}

fn push_escape_byte(out: &mut Vec<u8>, b: u8) -> (nothing: ())
    ensures
        final(out)@ == old(out)@ + escape_byte(b),
{
    if b == 0x09 {
        out.push(0x5c);
        out.push(0x74);
    } else if b == 0x0d {
        out.push(0x5c);
        out.push(0x72);
    } else if b == 0x0a {
        out.push(0x5c);
        out.push(0x6e);
    } else if b == 0x5c {
        out.push(0x5c);
        out.push(0x5c);
    } else if b == 0x27 {
        out.push(0x5c);
        out.push(0x27);
    } else if b == 0x22 {
        out.push(0x5c);
        out.push(0x22);
    } else if 0x20 <= b && b <= 0x7e {
        out.push(b);
    } else {
        out.push(0x5c);
        out.push(0x78);
        let hi = b / 16;
        let lo = b % 16;
        out.push(if hi < 10 { 0x30 + hi } else { 0x57 + hi });
        out.push(if lo < 10 { 0x30 + lo } else { 0x57 + lo });
    }
    proof {
        assert(out@ =~= old(out)@ + escape_byte(b));
    }
}

fn escape_bytes(v: &Vec<u8>) -> (r: Vec<u8>)
    ensures
        r@ == escaped(v@),
{
    let mut out: Vec<u8> = Vec::new();
    let mut i: usize = 0;
    while i < v.len()
        invariant
            i <= v.len(),
            out@ == escaped(v@.take(i as int)),
        decreases v.len() - i,
    {
        push_escape_byte(&mut out, v[i]);
        proof {
            assert(v@.take(i + 1 as int).drop_last() =~= v@.take(i as int));
            assert(v@.take(i + 1 as int).last() == v@[i as int]);
        }
        i = i + 1;
    }
    proof {
        assert(v@.take(v@.len() as int) =~= v@);
    }
    out
}

/// Escaped, printable rendering of a raw buffer for diagnostics.
pub fn show_buf(buf: &Vec<u8>) -> (r: String)
    ensures
        r@ == escaped_chars(buf@),
{
    let e = escape_bytes(buf);
    proof {
        lemma_escaped_ascii(buf@);
    }
    let r = lossy_string(&e);
    proof {
        assert(r@ =~= escaped_chars(buf@));
    }
    r
}

} // verus!
