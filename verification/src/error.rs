//! Error taxonomy: invalid request arguments, structural decode failures with
//! their offending bytes, and collaborator-originated failures.

use vstd::prelude::*;
use crate::text::{escaped_chars, show_buf};

verus! {

/// A structural decode failure: which check failed, carrying the offending
/// raw bytes and, where available, the full enclosing segment.
#[derive(Debug)]
pub enum DecodeFail {
    FirstFragmentTooShort { fragment: Vec<u8> },
    MissingSecondFragment { segment: Vec<u8> },
    SecondFragmentTooShort { fragment: Vec<u8>, segment: Vec<u8> },
    MissingThirdFragment { segment: Vec<u8> },
    ThirdFragmentTooShort { fragment: Vec<u8>, segment: Vec<u8> },
    TimestampTooShort { tail: Vec<u8> },
    MissingWinner { tail: Vec<u8> },
    EmptyWinner { tail: Vec<u8> },
    UnknownFloorByte { byte: u8 },
    BadTimestamp { text: Vec<u8> },
    BadPlayerId { digits: Vec<u8> },
    UnknownCharacterByte { byte: u8 },
    BadWinnerByte { byte: u8 },
}

/// Mathematical image of a `DecodeFail`.
pub enum DecodeFailV {
    FirstFragmentTooShort { fragment: Seq<u8> },
    MissingSecondFragment { segment: Seq<u8> },
    SecondFragmentTooShort { fragment: Seq<u8>, segment: Seq<u8> },
    MissingThirdFragment { segment: Seq<u8> },
    ThirdFragmentTooShort { fragment: Seq<u8>, segment: Seq<u8> },
    TimestampTooShort { tail: Seq<u8> },
    MissingWinner { tail: Seq<u8> },
    EmptyWinner { tail: Seq<u8> },
    UnknownFloorByte { byte: u8 },
    BadTimestamp { text: Seq<u8> },
    BadPlayerId { digits: Seq<u8> },
    UnknownCharacterByte { byte: u8 },
    BadWinnerByte { byte: u8 },
}

impl View for DecodeFail {
    type V = DecodeFailV;

    open spec fn view(&self) -> DecodeFailV {
        match self {
            DecodeFail::FirstFragmentTooShort { fragment } => DecodeFailV::FirstFragmentTooShort {
                fragment: fragment@,
            },
            DecodeFail::MissingSecondFragment { segment } => DecodeFailV::MissingSecondFragment {
                segment: segment@,
            },
            DecodeFail::SecondFragmentTooShort { fragment, segment } => (
            DecodeFailV::SecondFragmentTooShort { fragment: fragment@, segment: segment@ }),
            DecodeFail::MissingThirdFragment { segment } => DecodeFailV::MissingThirdFragment {
                segment: segment@,
            },
            DecodeFail::ThirdFragmentTooShort { fragment, segment } => (
            DecodeFailV::ThirdFragmentTooShort { fragment: fragment@, segment: segment@ }),
            DecodeFail::TimestampTooShort { tail } => DecodeFailV::TimestampTooShort {
                tail: tail@,
            },
            DecodeFail::MissingWinner { tail } => DecodeFailV::MissingWinner { tail: tail@ },
            DecodeFail::EmptyWinner { tail } => DecodeFailV::EmptyWinner { tail: tail@ },
            DecodeFail::UnknownFloorByte { byte } => DecodeFailV::UnknownFloorByte { byte: *byte },
            DecodeFail::BadTimestamp { text } => DecodeFailV::BadTimestamp { text: text@ },
            DecodeFail::BadPlayerId { digits } => DecodeFailV::BadPlayerId { digits: digits@ },
            DecodeFail::UnknownCharacterByte { byte } => DecodeFailV::UnknownCharacterByte {
                byte: *byte,
            },
            DecodeFail::BadWinnerByte { byte } => DecodeFailV::BadWinnerByte { byte: *byte },
        }
    }
}

impl DecodeFail {
    /// Diagnostic text of the failure, with the offending bytes rendered in
    /// escaped, printable form.
    pub open spec fn message_view(&self) -> Seq<char> {
        match self {
            DecodeFail::FirstFragmentTooShort { fragment } => "First data part does not have 3 bytes: "@
                + escaped_chars(fragment@),
            DecodeFail::MissingSecondFragment { segment } => "Could not find second data part of response: "@
                + escaped_chars(segment@),
            DecodeFail::SecondFragmentTooShort { fragment, segment } => "Second data part does not have 20 bytes: "@
                + escaped_chars(fragment@) + " in "@ + escaped_chars(segment@),
            DecodeFail::MissingThirdFragment { segment } => "Could not find third data part of match: "@
                + escaped_chars(segment@),
            DecodeFail::ThirdFragmentTooShort { fragment, segment } => "Third data part does not have 71 bytes: "@
                + escaped_chars(fragment@) + " in "@ + escaped_chars(segment@),
            DecodeFail::TimestampTooShort { tail } => "Not enough bytes to parse timestamp: "@
                + escaped_chars(tail@),
            DecodeFail::MissingWinner { tail } => "Could not split bytes to parse winner: "@
                + escaped_chars(tail@),
            DecodeFail::EmptyWinner { tail } => "Could not find winner in bytes: "@
                + escaped_chars(tail@),
            DecodeFail::UnknownFloorByte { byte } => "Could not parse floor from byte: "@
                + escaped_chars(seq![*byte]),
            DecodeFail::BadTimestamp { text } => "Could not parse datetime "@ + escaped_chars(
                text@,
            ),
            DecodeFail::BadPlayerId { digits } => "Could not parse u64 id from "@ + escaped_chars(
                digits@,
            ),
            DecodeFail::UnknownCharacterByte { byte } => "Could not parse character from byte: "@
                + escaped_chars(seq![*byte]),
            DecodeFail::BadWinnerByte { byte } => "Could not parse winner "@ + escaped_chars(
                seq![*byte],
            ),
        }
    }

    /// Render the diagnostic text.
    pub fn message(&self) -> (r: String)
        ensures
            r@ == self.message_view(),
    {
        match self {
            DecodeFail::FirstFragmentTooShort { fragment } => String::from_str(
                "First data part does not have 3 bytes: ",
            ).concat(show_buf(fragment).as_str()),
            DecodeFail::MissingSecondFragment { segment } => String::from_str(
                "Could not find second data part of response: ",
            ).concat(show_buf(segment).as_str()),
            DecodeFail::SecondFragmentTooShort { fragment, segment } => String::from_str(
                "Second data part does not have 20 bytes: ",
            ).concat(show_buf(fragment).as_str()).concat(" in ").concat(
                show_buf(segment).as_str(),
            ),
            DecodeFail::MissingThirdFragment { segment } => String::from_str(
                "Could not find third data part of match: ",
            ).concat(show_buf(segment).as_str()),
            DecodeFail::ThirdFragmentTooShort { fragment, segment } => String::from_str(
                "Third data part does not have 71 bytes: ",
            ).concat(show_buf(fragment).as_str()).concat(" in ").concat(
                show_buf(segment).as_str(),
            ),
            DecodeFail::TimestampTooShort { tail } => String::from_str(
                "Not enough bytes to parse timestamp: ",
            ).concat(show_buf(tail).as_str()),
            DecodeFail::MissingWinner { tail } => String::from_str(
                "Could not split bytes to parse winner: ",
            ).concat(show_buf(tail).as_str()),
            DecodeFail::EmptyWinner { tail } => String::from_str(
                "Could not find winner in bytes: ",
            ).concat(show_buf(tail).as_str()),
            DecodeFail::UnknownFloorByte { byte } => String::from_str(
                "Could not parse floor from byte: ",
            ).concat(show_one(*byte).as_str()),
            DecodeFail::BadTimestamp { text } => String::from_str(
                "Could not parse datetime ",
            ).concat(show_buf(text).as_str()),
            DecodeFail::BadPlayerId { digits } => String::from_str(
                "Could not parse u64 id from ",
            ).concat(show_buf(digits).as_str()),
            DecodeFail::UnknownCharacterByte { byte } => String::from_str(
                "Could not parse character from byte: ",
            ).concat(show_one(*byte).as_str()),
            DecodeFail::BadWinnerByte { byte } => String::from_str(
                "Could not parse winner ",
            ).concat(show_one(*byte).as_str()),
        }
    }
}

fn show_one(b: u8) -> (r: String)
    ensures
        r@ == escaped_chars(seq![b]),
{
    let mut v: Vec<u8> = Vec::new();
    v.push(b);
    proof {
        assert(v@ =~= seq![b]);
    }
    show_buf(&v)
}

/// Failures a caller can see: invalid request arguments, a structural decode
/// failure of the response body, or a collaborator-originated failure
/// (transport, or an upstream document of an unexpected shape) that is
/// propagated unchanged.
#[derive(Debug)]
pub enum Error {
    InvalidArguments(String),
    StructuralDecodeFailure(DecodeFail),
    TransportFailure(String),
    UpstreamFormatFailure(String),
}

impl Error {
    pub open spec fn message_view(&self) -> Seq<char> {
        match self {
            Error::InvalidArguments(m) => m@,
            Error::StructuralDecodeFailure(f) => f.message_view(),
            Error::TransportFailure(m) => m@,
            Error::UpstreamFormatFailure(m) => m@,
        }
    }

    /// Render the diagnostic text.
    pub fn message(&self) -> (r: String)
        ensures
            r@ == self.message_view(),
    {
        match self {
            Error::InvalidArguments(m) => m.clone(),
            Error::StructuralDecodeFailure(f) => f.message(),
            Error::TransportFailure(m) => m.clone(),
            Error::UpstreamFormatFailure(m) => m.clone(),
        }
    }
}

} // verus!
