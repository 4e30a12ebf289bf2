//! The outgoing request payload: a fixed hexadecimal template with the page
//! index and the two floor bounds substituted positionally, and the argument
//! checks the pagination collaborator must make before calling the decoder.

use vstd::prelude::*;
use crate::enums::Floor;
use crate::error::Error;
use crate::text::{hex_lower, lossy_string};

verus! {

/// Upper-case hexadecimal digit byte for a value below 16.
pub open spec fn hex_upper(n: u8) -> u8
    recommends
        n < 16,
{
    if n < 10 {
        (0x30 + n) as u8
    } else {
        (0x37 + n) as u8
    }
}

/// The two upper-case hexadecimal digits of a byte, as characters.
pub open spec fn hex2_upper(b: u8) -> Seq<char> {
    seq![hex_upper(b / 16) as char, hex_upper(b % 16) as char]
}

/// The two lower-case hexadecimal digits of a byte, as characters.
pub open spec fn hex2_lower(b: u8) -> Seq<char> {
    seq![hex_lower(b / 16) as char, hex_lower(b % 16) as char]
}

fn hex_byte_upper(b: u8) -> (r: String)
    ensures
        r@ == hex2_upper(b),
{
    let mut v: Vec<u8> = Vec::new();
    let hi = b / 16;
    let lo = b % 16;
    v.push(if hi < 10 { 0x30 + hi } else { 0x37 + hi });
    v.push(if lo < 10 { 0x30 + lo } else { 0x37 + lo });
    proof {
        assert(v@ =~= seq![hex_upper(b / 16), hex_upper(b % 16)]);
    }
    let r = lossy_string(&v);
    proof {
        assert(r@ =~= hex2_upper(b));
    }
    r
}

fn hex_byte_lower(b: u8) -> (r: String)
    ensures
        r@ == hex2_lower(b),
{
    let mut v: Vec<u8> = Vec::new();
    let hi = b / 16;
    let lo = b % 16;
    v.push(if hi < 10 { 0x30 + hi } else { 0x57 + hi });
    v.push(if lo < 10 { 0x30 + lo } else { 0x57 + lo });
    proof {
        assert(v@ =~= seq![hex_lower(b / 16), hex_lower(b % 16)]);
    }
    let r = lossy_string(&v);
    proof {
        assert(r@ =~= hex2_lower(b));
    }
    r
}

impl Floor {
    /// The floor bound as its fixed two-digit hexadecimal encoding.
    pub fn to_hex(&self) -> (r: String)
        ensures
            r@ == hex2_lower(self.code()),
    {
        hex_byte_lower(self.to_u8())
    }
}

/// The replay-query payload: the fixed template with the page index and the
/// floor bounds substituted at their positions.
pub open spec fn spec_replay_query(page: u8, min_floor: Floor, max_floor: Floor) -> Seq<char> {
    "9295B2323131303237313133313233303038333834AD3631613565643466343631633202A5302E302E38039401CC"@
        + hex2_upper(page) + "0A9AFF00"@ + hex2_lower(min_floor.code()) + hex2_lower(
        max_floor.code(),
    ) + "90FFFF000001"@
}

/// Build the outgoing request payload for one page fetch.
pub fn build_replay_query(page: u8, min_floor: Floor, max_floor: Floor) -> (r: String)
    ensures
        r@ == spec_replay_query(page, min_floor, max_floor),
{
    let r = String::from_str(
        "9295B2323131303237313133313233303038333834AD3631613565643466343631633202A5302E302E38039401CC",
    ).concat(hex_byte_upper(page).as_str()).concat("0A9AFF00").concat(
        min_floor.to_hex().as_str(),
    ).concat(max_floor.to_hex().as_str()).concat("90FFFF000001");
    r
}

/// Check the arguments of a replay request: at most 100 pages, and a floor
/// range whose lower bound does not exceed its upper bound. Exactly the
/// offending requests are rejected, before anything is fetched or decoded.
pub fn validate_replay_request(pages: usize, min_floor: Floor, max_floor: Floor) -> (r: Result<
    (),
    Error,
>)
    ensures
        r is Ok <==> (pages <= 100 && min_floor.code() <= max_floor.code()),
        r matches Err(e) ==> e matches Error::InvalidArguments(_),
{
    if pages > 100 {
        return Err(
            Error::InvalidArguments(
                String::from_str("pages: Cannot query more than 100 pages"),
            ),
        );
    }
    if min_floor.to_u8() > max_floor.to_u8() {
        return Err(
            Error::InvalidArguments(
                String::from_str("min_floor is larger than max_floor"),
            ),
        );
    }
    Ok(())
}

} // verus!
