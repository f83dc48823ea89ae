//! The file format: which bytes stand for which entries.
//!
//! A file is a header, an index table with one record for each entry, the table of keys,
//! padding, and the table of data. A record says where in the two tables the key and the data
//! of its entry stand.
use vstd::prelude::*;
use vstd::utf8::*;

use crate::bytes;
use crate::data::DataView;
use crate::error::{ErrorView, FormatErrorView, IoError};
use crate::key;
use crate::listing;
use crate::listing::Listing;
use crate::text;
use crate::value::{DataFmt, ValueView, U32_SIZE};

verus! {

/// The first four bytes of every file: a zero byte and `PSF`.
pub const MAGIC: [u8; 4] = [0, 0x50, 0x53, 0x46];

/// The length of the header, and so the place of the index table.
pub const HEADER_LEN: usize = 0x14;

/// The length of a record of the index table.
pub const RECORD_LEN: usize = 16;

/// What a PARAM.SFO holds: its version and its entries in the order of their keys.
#[verifier::ext_equal]
pub struct SfoView {
    pub version: Seq<u8>,
    pub entries: Listing,
}

// Writing.

/// The table of keys: each key in UTF-8, closed by a zero byte.
pub open spec fn key_table(s: Listing) -> Seq<u8>
    decreases s.len(),
{
    if s.len() == 0 {
        Seq::empty()
    } else {
        key_table(s.drop_last()) + encode_utf8(s.last().0).push(0)
    }
}

/// The bytes of one entry in the table of data: its value, and zeros for the room that the
/// value leaves.
pub open spec fn data_block(d: DataView) -> Seq<u8> {
    d.value.payload() + bytes::zeros((d.max_len - d.value.len()) as nat)
}

/// The table of data.
pub open spec fn data_table(s: Listing) -> Seq<u8>
    decreases s.len(),
{
    if s.len() == 0 {
        Seq::empty()
    } else {
        data_table(s.drop_last()) + data_block(s.last().1)
    }
}

/// The record of an entry whose key and data stand at these offsets of their tables.
pub open spec fn record(key_offset: nat, data_offset: nat, d: DataView) -> Seq<u8> {
    bytes::le16(key_offset as u16) + bytes::le16(d.value.fmt().spec_code()) + bytes::le32(
        d.value.len() as u32,
    ) + bytes::le32(d.max_len) + bytes::le32(data_offset as u32)
}

/// The index table.
pub open spec fn index_table(s: Listing) -> Seq<u8>
    decreases s.len(),
{
    if s.len() == 0 {
        Seq::empty()
    } else {
        let rest = s.drop_last();
        index_table(rest) + record(key_table(rest).len(), data_table(rest).len(), s.last().1)
    }
}

/// The number of zero bytes between the two tables: at least one, and so many that the table
/// of data starts at a multiple of four.
pub open spec fn key_padding(s: Listing) -> nat {
    (4 - (HEADER_LEN + index_table(s).len() + key_table(s).len()) % 4) as nat
}

/// Where the table of keys starts.
pub open spec fn key_table_start(s: Listing) -> int {
    HEADER_LEN + index_table(s).len()
}

/// Where the table of data starts.
pub open spec fn data_table_start(s: Listing) -> int {
    key_table_start(s) + key_table(s).len() + key_padding(s)
}

/// The header.
pub open spec fn header(v: SfoView) -> Seq<u8> {
    MAGIC@ + v.version + bytes::le32(key_table_start(v.entries) as u32) + bytes::le32(
        data_table_start(v.entries) as u32,
    ) + bytes::le32(v.entries.len() as u32)
}

/// The bytes of a file. They say what they should where the entries are
/// [`addressable`](self::addressable).
pub open spec fn encode(v: SfoView) -> Seq<u8> {
    header(v) + index_table(v.entries) + key_table(v.entries) + bytes::zeros(
        key_padding(v.entries),
    ) + data_table(v.entries)
}

/// Every number that a file holds about the entries fits in its field: their number and the
/// starts of the tables in 32 bits, the offset of every key in 16, and that of all data in 32.
pub open spec fn addressable(s: Listing) -> bool {
    &&& s.len() <= u32::MAX
    &&& key_table_start(s) <= u32::MAX
    &&& data_table_start(s) <= u32::MAX
    &&& forall|i: int| 0 <= i < s.len() ==> key_table(#[trigger] s.take(i)).len() <= u16::MAX
    &&& forall|i: int|
        0 <= i < s.len() ==> data_table(#[trigger] s.take(i)).len() <= u32::MAX
}

/// Reading reaches the data of all entries: they stand at positions of 32 bits.
pub open spec fn within_reach(s: Listing) -> bool {
    forall|i: int|
        0 <= i < s.len() ==> data_table_start(s) + data_table(#[trigger] s.take(i)).len()
            <= u32::MAX
}

/// Every value fits in its room.
pub open spec fn values_fit(s: Listing) -> bool {
    forall|i: int| 0 <= i < s.len() ==> (#[trigger] s[i]).1.fits()
}

/// Writing the entries can be tried: every value fits in its room, and the file, if there is
/// one, fits in memory.
pub open spec fn writable(s: Listing) -> bool {
    &&& values_fit(s)
    &&& addressable(s) ==> data_table_start(s) + data_table(s).len() <= usize::MAX
}

// Reading.

/// What a header says.
pub struct HeaderView {
    pub version: Seq<u8>,
    pub key_table_start: u32,
    pub data_table_start: u32,
    pub tables_entries: u32,
}

/// A record of the index table.
#[derive(Debug, Clone, Copy, PartialEq, Eq)]
pub struct IndexTableEntry {
    /// Where the key stands, from the start of the table of keys.
    pub key_offset: u16,
    /// How the data are to be read.
    pub data_fmt: DataFmt,
    /// The number of bytes that the data take.
    pub data_len: u32,
    /// The number of bytes that are kept for the data.
    pub data_max_len: u32,
    /// Where the data stand, from the start of the table of data.
    pub data_offset: u32,
}

/// The header of a file.
pub open spec fn parse_header(b: Seq<u8>) -> Result<HeaderView, FormatErrorView> {
    if b.len() < 4 {
        Err(FormatErrorView::UnexpectedEof)
    } else if b.take(4) != MAGIC@ {
        Err(FormatErrorView::BadMagic { pos: 0, found: b.take(4) })
    } else if b.len() < HEADER_LEN {
        Err(FormatErrorView::UnexpectedEof)
    } else {
        Ok(
            HeaderView {
                version: b.subrange(4, 8),
                key_table_start: bytes::u32_at(b, 8),
                data_table_start: bytes::u32_at(b, 12),
                tables_entries: bytes::u32_at(b, 16),
            },
        )
    }
}

/// The record at `at`.
pub open spec fn parse_record(b: Seq<u8>, at: int) -> Result<IndexTableEntry, FormatErrorView> {
    if b.len() < at + 4 {
        Err(FormatErrorView::UnexpectedEof)
    } else {
        match DataFmt::spec_from_code(bytes::u16_at(b, at + 2)) {
            None => Err(FormatErrorView::NoVariantMatch { pos: (at + 2) as u64 }),
            Some(data_fmt) => if b.len() < at + RECORD_LEN {
                Err(FormatErrorView::UnexpectedEof)
            } else {
                Ok(
                    IndexTableEntry {
                        key_offset: bytes::u16_at(b, at),
                        data_fmt,
                        data_len: bytes::u32_at(b, at + 4),
                        data_max_len: bytes::u32_at(b, at + 8),
                        data_offset: bytes::u32_at(b, at + 12),
                    },
                )
            },
        }
    }
}

/// The first `n` records; the error of the first of them that cannot be read.
pub open spec fn parse_index(b: Seq<u8>, n: nat) -> Result<Seq<IndexTableEntry>, FormatErrorView>
    decreases n,
{
    if n == 0 {
        Ok(Seq::empty())
    } else {
        match parse_index(b, (n - 1) as nat) {
            Err(e) => Err(e),
            Ok(before) => match parse_record(b, HEADER_LEN + RECORD_LEN * (n - 1)) {
                Err(e) => Err(e),
                Ok(x) => Ok(before.push(x)),
            },
        }
    }
}

/// Where the first zero byte from `at` on stands.
pub open spec fn zero_from(b: Seq<u8>, at: int) -> Option<int>
    decreases b.len() - at,
{
    if at >= b.len() {
        None
    } else if b[at] == 0 {
        Some(at)
    } else {
        zero_from(b, at + 1)
    }
}

/// The text that stands at `at` and is closed by a zero byte, which must be able to name an
/// entry.
pub open spec fn parse_key(b: Seq<u8>, at: int) -> Result<Seq<char>, ErrorView> {
    match zero_from(b, at) {
        None => Err(ErrorView::IO(IoError::UnexpectedEof)),
        Some(end) => {
            let raw = b.subrange(at, end);
            if !valid_utf8(raw) {
                Err(ErrorView::FromUtf8Error(raw))
            } else if !key::valid_key_text(decode_utf8(raw)) {
                Err(ErrorView::InvalidKey)
            } else {
                Ok(decode_utf8(raw))
            }
        },
    }
}

/// The value that stands in these bytes, which end at `end`. A string gives up its last byte;
/// an integer has at least four bytes or none.
pub open spec fn parse_raw(fmt: DataFmt, raw: Seq<u8>, end: int) -> Result<ValueView, ErrorView> {
    match fmt {
        DataFmt::Bytes => Ok(ValueView::Bytes(raw)),
        DataFmt::Utf8 => {
            let kept = if raw.len() == 0 {
                raw
            } else {
                raw.drop_last()
            };
            if valid_utf8(kept) {
                Ok(ValueView::Utf8(decode_utf8(kept)))
            } else {
                Err(ErrorView::FromUtf8Error(kept))
            }
        },
        DataFmt::Int => if raw.len() == 0 {
            Ok(ValueView::Int(0))
        } else if raw.len() < U32_SIZE {
            Err(ErrorView::InvalidFormat(FormatErrorView::ShortInteger { pos: end as u64 }))
        } else {
            Ok(ValueView::Int(bytes::u32_at(raw, 0)))
        },
    }
}

/// The value of `len` bytes that stands at `at`.
pub open spec fn parse_value(b: Seq<u8>, fmt: DataFmt, at: int, len: int) -> Result<
    ValueView,
    ErrorView,
> {
    if len == 0 {
        parse_raw(fmt, Seq::empty(), at)
    } else if at + len > b.len() {
        Err(ErrorView::IO(IoError::UnexpectedEof))
    } else {
        parse_raw(fmt, b.subrange(at, at + len), at + len)
    }
}

/// The entry that a record describes: the text of its key, and its data. Both have to stand at
/// positions of 32 bits.
pub open spec fn parse_entry(b: Seq<u8>, h: HeaderView, x: IndexTableEntry) -> Result<
    (Seq<char>, DataView),
    ErrorView,
> {
    let key_at = x.key_offset + h.key_table_start;
    let data_at = x.data_offset + h.data_table_start;
    if key_at > u32::MAX {
        Err(ErrorView::InvalidFormat(FormatErrorView::Unaddressable))
    } else {
        match parse_key(b, key_at) {
            Err(e) => Err(e),
            Ok(name) => if data_at > u32::MAX {
                Err(ErrorView::InvalidFormat(FormatErrorView::Unaddressable))
            } else {
                match parse_value(b, x.data_fmt, data_at, x.data_len as int) {
                    Err(e) => Err(e),
                    Ok(value) => Ok((name, DataView { value, max_len: x.data_max_len })),
                }
            },
        }
    }
}

/// The entries that the records describe; the error of the first that cannot be read.
pub open spec fn parse_entries(b: Seq<u8>, h: HeaderView, xs: Seq<IndexTableEntry>) -> Result<
    Listing,
    ErrorView,
>
    decreases xs.len(),
{
    if xs.len() == 0 {
        Ok(Seq::empty())
    } else {
        match parse_entries(b, h, xs.drop_last()) {
            Err(e) => Err(e),
            Ok(before) => match parse_entry(b, h, xs.last()) {
                Err(e) => Err(e),
                Ok(entry) => Ok(before.push(entry)),
            },
        }
    }
}

/// What stands in a file: its version, and its entries in the order of the index table, with
/// the texts of the keys as they stand there.
pub open spec fn parse(b: Seq<u8>) -> Result<(Seq<u8>, Listing), ErrorView> {
    match parse_header(b) {
        Err(e) => Err(ErrorView::InvalidFormat(e)),
        Ok(h) => match parse_index(b, h.tables_entries as nat) {
            Err(e) => Err(ErrorView::InvalidFormat(e)),
            Ok(xs) => match parse_entries(b, h, xs) {
                Err(e) => Err(e),
                Ok(items) => Ok((h.version, items)),
            },
        },
    }
}

/// The items with the names that their texts make: in upper case.
pub open spec fn named(items: Listing) -> Listing {
    items.map_values(|e: (Seq<char>, DataView)| (text::uppercase(e.0), e.1))
}

/// The PARAM.SFO that a file holds: where two keys are the same, the later one counts.
pub open spec fn decode(b: Seq<u8>) -> Result<SfoView, ErrorView> {
    match parse(b) {
        Err(e) => Err(e),
        Ok((version, items)) => Ok(
            SfoView { version, entries: listing::collect(named(items)) },
        ),
    }
}

} // verus!
