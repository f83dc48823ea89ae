//! What can go wrong.
use vstd::prelude::*;

verus! {

/// The input ended before what it announces.
#[derive(Debug, Clone, Copy, PartialEq, Eq)]
pub enum IoError {
    /// The bytes end inside a key or a value, or before it.
    UnexpectedEof,
}

/// The file does not follow the format, or what it should hold does not fit in the format.
#[derive(Debug, Clone, Copy, PartialEq, Eq)]
pub enum FormatError {
    /// The input does not start with the magic number.
    BadMagic {
        /// Where the magic number was looked for.
        pos: u64,
        /// What stands there.
        found: [u8; 4],
    },
    /// The bytes end inside the header or the index table.
    UnexpectedEof,
    /// An index entry names a data format that does not exist.
    NoVariantMatch {
        /// Where the format number stands.
        pos: u64,
    },
    /// An integer has bytes, but not all of its four.
    ShortInteger {
        /// Where its bytes end.
        pos: u64,
    },
    /// A number that is to be written does not fit in its field, or a position that is to be
    /// read from does not fit in 32 bits.
    Unaddressable,
}

/// Any possible error that may happen during working with a PARAM.SFO.
#[derive(Debug, PartialEq, Eq)]
pub enum Error {
    /// The input ends too early for a key or a value.
    IO(IoError),
    /// The file is not valid, or there can be none.
    InvalidFormat(FormatError),
    /// These bytes, of a key or a value, are not UTF-8.
    FromUtf8Error(Vec<u8>),
    /// Exceeded the maximum data length of the current entry.
    MaxLenExceeded,
    /// The sizes of the vectors of keys, values and maximum lengths do not match.
    InvalidParts,
    /// The key contains a null byte or exceeds the limit of `u32::MAX`.
    InvalidKey,
}

/// What a [`FormatError`] says.
pub enum FormatErrorView {
    BadMagic { pos: u64, found: Seq<u8> },
    UnexpectedEof,
    NoVariantMatch { pos: u64 },
    ShortInteger { pos: u64 },
    Unaddressable,
}

/// What an [`Error`] says.
pub enum ErrorView {
    IO(IoError),
    InvalidFormat(FormatErrorView),
    FromUtf8Error(Seq<u8>),
    MaxLenExceeded,
    InvalidParts,
    InvalidKey,
}

impl View for FormatError {
    type V = FormatErrorView;

    open spec fn view(&self) -> FormatErrorView {
        match *self {
            FormatError::BadMagic { pos, found } => FormatErrorView::BadMagic {
                pos,
                found: found@,
            },
            FormatError::UnexpectedEof => FormatErrorView::UnexpectedEof,
            FormatError::NoVariantMatch { pos } => FormatErrorView::NoVariantMatch { pos },
            FormatError::ShortInteger { pos } => FormatErrorView::ShortInteger { pos },
            FormatError::Unaddressable => FormatErrorView::Unaddressable,
        }
    }
}

impl View for Error {
    type V = ErrorView;

    open spec fn view(&self) -> ErrorView {
        match *self {
            Error::IO(e) => ErrorView::IO(e),
            Error::InvalidFormat(e) => ErrorView::InvalidFormat(e@),
            Error::FromUtf8Error(b) => ErrorView::FromUtf8Error(b@),
            Error::MaxLenExceeded => ErrorView::MaxLenExceeded,
            Error::InvalidParts => ErrorView::InvalidParts,
            Error::InvalidKey => ErrorView::InvalidKey,
        }
    }
}

} // verus!
