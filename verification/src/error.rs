//! The errors that reading and writing a bottle can end in.

use crate::text::{decimal_of, format_decimal};
use vstd::prelude::*;
use vstd::string::StringExecFns;

verus! {

/// The two families that every error falls in.
#[derive(Clone, Copy, Debug, PartialEq, Eq, Structural)]
pub enum ErrorKind {
    /// The data ended inside a structure.
    UnexpectedEof,
    /// The data is there but is not what the format allows.
    InvalidInput,
}

/// Why a read or a write was given up.
#[derive(Clone, Copy, Debug, PartialEq, Eq, Structural)]
pub enum Error {
    /// A stream ended before the bytes that an exact read asked for.
    UnexpectedEof,
    /// A table ended inside the two header bytes of a field.
    TruncatedTable,
    /// A table field that announces more content than the table holds.
    TruncatedField,
    /// A table field of the reserved kind.
    UnknownFieldKind,
    /// A string field whose content is not UTF-8.
    InvalidUtf8,
    /// A number field of more than eight bytes.
    NumberTooLong,
    /// The first four bytes are not the magic of a bottle.
    BadMagic,
    /// A version or flags byte that is not zero.
    BadVersion { version: u8, flags: u8 },
    /// A bottle type that the format does not define.
    UnknownBottleType { code: u8 },
    /// A frame of 2^22 bytes or more.
    LengthTooLarge,
}

impl Error {
    /// The family of this error.
    pub open spec fn spec_kind(self) -> ErrorKind {
        match self {
            Error::UnexpectedEof | Error::TruncatedTable => ErrorKind::UnexpectedEof,
            _ => ErrorKind::InvalidInput,
        }
    }

    /// What went wrong, in words.
    pub open spec fn spec_message(self) -> Seq<char> {
        match self {
            Error::UnexpectedEof => "EOF"@,
            Error::TruncatedTable => "Truncated header table"@,
            Error::TruncatedField => "Truncated header table"@,
            Error::UnknownFieldKind => "Unknown field kind"@,
            Error::InvalidUtf8 => "invalid utf-8: corrupt contents"@,
            Error::NumberTooLong => "Number field of more than 8 bytes"@,
            Error::BadMagic => "Incorrect magic (not a 4bottle archive)"@,
            Error::BadVersion { version, flags } => "Incompatible version: "@ + decimal_of(
                version as nat,
            ) + ", "@ + decimal_of(flags as nat),
            Error::UnknownBottleType { code } => "Unknown bottle type: "@ + decimal_of(code as nat),
            Error::LengthTooLarge => "Frame of 2^22 bytes or more"@,
        }
    }

    /// What went wrong, in words.
    pub fn message(self) -> (text: String)
        ensures
            text@ == self.spec_message(),
    {
        match self {
            Error::UnexpectedEof => String::from_str("EOF"),
            Error::TruncatedTable => String::from_str("Truncated header table"),
            Error::TruncatedField => String::from_str("Truncated header table"),
            Error::UnknownFieldKind => String::from_str("Unknown field kind"),
            Error::InvalidUtf8 => String::from_str("invalid utf-8: corrupt contents"),
            Error::NumberTooLong => String::from_str("Number field of more than 8 bytes"),
            Error::BadMagic => String::from_str("Incorrect magic (not a 4bottle archive)"),
            Error::BadVersion { version, flags } => {
                let mut text = String::from_str("Incompatible version: ");
                text.append(format_decimal(version as u64).as_str());
                text.append(", ");
                text.append(format_decimal(flags as u64).as_str());
                text
            },
            Error::UnknownBottleType { code } => {
                let mut text = String::from_str("Unknown bottle type: ");
                text.append(format_decimal(code as u64).as_str());
                text
            },
            Error::LengthTooLarge => String::from_str("Frame of 2^22 bytes or more"),
        }
    }

    /// The family of this error.
    #[verifier::when_used_as_spec(spec_kind)]
    pub fn kind(self) -> (kind: ErrorKind)
        ensures
            kind == self.spec_kind(),
    {
        match self {
            Error::UnexpectedEof | Error::TruncatedTable => ErrorKind::UnexpectedEof,
            _ => ErrorKind::InvalidInput,
        }
    }
}

} // verus!
