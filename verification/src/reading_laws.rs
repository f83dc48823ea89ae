//! What is read from which bytes, byte by byte, and what is refused.
use vstd::prelude::*;
use vstd::utf8::*;

use crate::bytes;
use crate::codec;
use crate::codec::{HeaderView, IndexTableEntry};
use crate::data::DataView;
use crate::error::{ErrorView, FormatErrorView, IoError};
use crate::listing;
use crate::listing::Listing;
use crate::order_laws;
use crate::text;
use crate::value::{DataFmt, ValueView};

verus! {

/// A file that is too short for its header, or does not start with a zero byte and `PSF`, is
/// refused.
pub proof fn law_header_refused(b: Seq<u8>)
    ensures
        b.len() < 4 ==> codec::decode(b) == Err::<codec::SfoView, ErrorView>(
            ErrorView::InvalidFormat(FormatErrorView::UnexpectedEof),
        ),
        b.len() >= 4 && !(b[0] == 0 && b[1] == 0x50 && b[2] == 0x53 && b[3] == 0x46)
            ==> codec::decode(b) == Err::<codec::SfoView, ErrorView>(
            ErrorView::InvalidFormat(FormatErrorView::BadMagic { pos: 0, found: b.take(4) }),
        ),
        4 <= b.len() < 20 && b[0] == 0 && b[1] == 0x50 && b[2] == 0x53 && b[3] == 0x46
            ==> codec::decode(b) == Err::<codec::SfoView, ErrorView>(
            ErrorView::InvalidFormat(FormatErrorView::UnexpectedEof),
        ),
{
    if b.len() >= 4 {
        let m = b.take(4);
        assert(m[0] == b[0] && m[1] == b[1] && m[2] == b[2] && m[3] == b[3]);
        if b[0] == 0 && b[1] == 0x50 && b[2] == 0x53 && b[3] == 0x46 {
            assert(m =~= codec::MAGIC@);
        }
    }
}

/// The header holds the version, the starts of the two tables and the number of records, and
/// the file is what its records describe: the version from the header, the keys in order, and
/// for each key the data of the last record that names it.
pub proof fn law_file_read(b: Seq<u8>, key: Seq<char>)
    requires
        b.len() >= 20,
        b[0] == 0,
        b[1] == 0x50,
        b[2] == 0x53,
        b[3] == 0x46,
    ensures
        ({
            let h = HeaderView {
                version: b.subrange(4, 8),
                key_table_start: bytes::u32_at(b, 8),
                data_table_start: bytes::u32_at(b, 12),
                tables_entries: bytes::u32_at(b, 16),
            };
            match codec::parse_index(b, bytes::u32_at(b, 16) as nat) {
                Err(e) => codec::decode(b) == Err::<codec::SfoView, ErrorView>(
                    ErrorView::InvalidFormat(e),
                ),
                Ok(xs) => match codec::parse_entries(b, h, xs) {
                    Err(e) => codec::decode(b) == Err::<codec::SfoView, ErrorView>(e),
                    Ok(items) => codec::decode(b) matches Ok(v) && v.version == b.subrange(4, 8)
                        && listing::ascending(v.entries) && listing::lookup(v.entries, key)
                        == listing::lookup(codec::named(items), key),
                },
            }
        }),
{
    assert(b.take(4) =~= codec::MAGIC@);
    if let Ok((_, items)) = codec::parse(b) {
        listing::lemma_collect(codec::named(items));
    }
}

/// The records stand one after the other behind the header, each with its five numbers. The
/// first that is cut off, or has an unknown format, is an error.
pub proof fn law_records_read(b: Seq<u8>, n: nat)
    ensures
        codec::parse_index(b, 0) == Ok::<Seq<IndexTableEntry>, FormatErrorView>(Seq::empty()),
        ({
            let at: int = 20 + 16 * n as int;
            let code = bytes::u16_at(b, at + 2);
            match codec::parse_index(b, n) {
                Err(e) => codec::parse_index(b, n + 1) == Err::<
                    Seq<IndexTableEntry>,
                    FormatErrorView,
                >(e),
                Ok(xs) => {
                    &&& xs.len() == n
                    &&& b.len() < at + 4 ==> codec::parse_index(b, n + 1) == Err::<
                        Seq<IndexTableEntry>,
                        FormatErrorView,
                    >(FormatErrorView::UnexpectedEof)
                    &&& b.len() >= at + 4 && code != 0x004 && code != 0x204 && code != 0x404
                        ==> codec::parse_index(b, n + 1) == Err::<
                        Seq<IndexTableEntry>,
                        FormatErrorView,
                    >(FormatErrorView::NoVariantMatch { pos: (at + 2) as u64 })
                    &&& at + 4 <= b.len() < at + 16 && (code == 0x004 || code == 0x204 || code
                        == 0x404) ==> codec::parse_index(b, n + 1) == Err::<
                        Seq<IndexTableEntry>,
                        FormatErrorView,
                    >(FormatErrorView::UnexpectedEof)
                    &&& b.len() >= at + 16 && (code == 0x004 || code == 0x204 || code == 0x404)
                        ==> codec::parse_index(b, n + 1) == Ok::<
                        Seq<IndexTableEntry>,
                        FormatErrorView,
                    >(
                        xs.push(
                            IndexTableEntry {
                                key_offset: bytes::u16_at(b, at),
                                data_fmt: if code == 0x004 {
                                    DataFmt::Bytes
                                } else if code == 0x204 {
                                    DataFmt::Utf8
                                } else {
                                    DataFmt::Int
                                },
                                data_len: bytes::u32_at(b, at + 4),
                                data_max_len: bytes::u32_at(b, at + 8),
                                data_offset: bytes::u32_at(b, at + 12),
                            },
                        ),
                    )
                },
            }
        }),
    decreases n,
{
    if n > 0 {
        law_records_read(b, (n - 1) as nat);
    }
}

/// The entries are read record by record, and the first error is the error of the file.
pub proof fn law_entries_read(
    b: Seq<u8>,
    h: HeaderView,
    xs: Seq<IndexTableEntry>,
    x: IndexTableEntry,
)
    ensures
        codec::parse_entries(b, h, Seq::empty()) == Ok::<Listing, ErrorView>(Seq::empty()),
        match codec::parse_entries(b, h, xs) {
            Err(e) => codec::parse_entries(b, h, xs.push(x)) == Err::<Listing, ErrorView>(e),
            Ok(items) => match codec::parse_entry(b, h, x) {
                Err(e) => codec::parse_entries(b, h, xs.push(x)) == Err::<Listing, ErrorView>(e),
                Ok(p) => codec::parse_entries(b, h, xs.push(x)) == Ok::<Listing, ErrorView>(
                    items.push(p),
                ),
            },
        },
{
    assert(xs.push(x).drop_last() =~= xs);
}

/// The key of an entry stands at its offset from the start of the keys, and the data at theirs
/// from the start of the data. The maximum length is the one of the record. A position beyond
/// 32 bits is an error.
pub proof fn law_entry_read(b: Seq<u8>, h: HeaderView, x: IndexTableEntry)
    ensures
        ({
            let key_at = h.key_table_start + x.key_offset;
            let data_at = h.data_table_start + x.data_offset;
            let r = codec::parse_entry(b, h, x);
            let refused = Err::<(Seq<char>, DataView), ErrorView>(
                ErrorView::InvalidFormat(FormatErrorView::Unaddressable),
            );
            &&& key_at > 0xffff_ffff ==> r == refused
            &&& key_at <= 0xffff_ffff ==> match codec::parse_key(b, key_at) {
                Err(e) => r == Err::<(Seq<char>, DataView), ErrorView>(e),
                Ok(name) => {
                    &&& data_at > 0xffff_ffff ==> r == refused
                    &&& data_at <= 0xffff_ffff ==> match codec::parse_value(
                        b,
                        x.data_fmt,
                        data_at,
                        x.data_len as int,
                    ) {
                        Err(e) => r == Err::<(Seq<char>, DataView), ErrorView>(e),
                        Ok(value) => r matches Ok(p) && p.0 == name && p.1.value == value
                            && p.1.max_len == x.data_max_len,
                    }
                },
            }
        }),
{
}

/// Where the first zero byte stands.
proof fn lemma_zero_from(b: Seq<u8>, at: int, end: int)
    requires
        0 <= at <= end < b.len(),
        b[end] == 0,
        forall|j: int| at <= j < end ==> b[j] != 0,
    ensures
        codec::zero_from(b, at) == Some(end),
    decreases end - at,
{
    if at < end {
        lemma_zero_from(b, at + 1, end);
    }
}

/// A key is the UTF-8 text up to the first zero byte, whatever the text; other bytes are an
/// error that hands them back.
pub proof fn law_key_read(b: Seq<u8>, at: int, end: int)
    requires
        0 <= at <= end < b.len(),
        b[end] == 0,
        forall|j: int| at <= j < end ==> b[j] != 0,
    ensures
        ({
            let raw = b.subrange(at, end);
            &&& valid_utf8(raw) && end - at <= 0xffff_ffff ==> codec::parse_key(b, at) == Ok::<
                Seq<char>,
                ErrorView,
            >(decode_utf8(raw))
            &&& valid_utf8(raw) && end - at > 0xffff_ffff ==> codec::parse_key(b, at) == Err::<
                Seq<char>,
                ErrorView,
            >(ErrorView::InvalidKey)
            &&& !valid_utf8(raw) ==> codec::parse_key(b, at) == Err::<Seq<char>, ErrorView>(
                ErrorView::FromUtf8Error(raw),
            )
        }),
{
    let raw = b.subrange(at, end);
    lemma_zero_from(b, at, end);
    if valid_utf8(raw) {
        decode_utf8_encode_utf8(raw);
        text::lemma_encode_zero(decode_utf8(raw));
        if raw.contains(0u8) {
            let j = raw.index_of(0u8);
            assert(b[at + j] == 0);
        }
    }
}

/// A key that no zero byte closes is an error of the input.
pub proof fn law_key_unclosed(b: Seq<u8>, at: int)
    requires
        0 <= at,
        forall|j: int| at <= j < b.len() ==> b[j] != 0,
    ensures
        codec::parse_key(b, at) == Err::<Seq<char>, ErrorView>(
            ErrorView::IO(IoError::UnexpectedEof),
        ),
        codec::zero_from(b, at) is None,
    decreases b.len() - at,
{
    if at < b.len() {
        law_key_unclosed(b, at + 1);
    }
}

/// A text that stands in a file as its UTF-8 and one more byte is read as that text, the empty
/// one too. So is one of which the file has no bytes: as the empty text.
pub proof fn law_string_read(t: Seq<char>, closing: u8, end: int)
    ensures
        codec::parse_raw(DataFmt::Utf8, encode_utf8(t).push(closing), end) == Ok::<
            ValueView,
            ErrorView,
        >(ValueView::Utf8(t)),
        codec::parse_raw(DataFmt::Utf8, Seq::empty(), end) == Ok::<ValueView, ErrorView>(
            ValueView::Utf8(Seq::empty()),
        ),
{
    assert(encode_utf8(t).push(closing).drop_last() =~= encode_utf8(t));
    encode_utf8_valid_utf8(t);
    encode_utf8_decode_utf8(t);
    encode_utf8_decode_utf8(Seq::empty());
    encode_utf8_valid_utf8(Seq::empty());
    assert(encode_utf8(Seq::<char>::empty()) =~= Seq::<u8>::empty());
}

/// Bytes that are not UTF-8 before the last one are no string, and the error hands them back.
pub proof fn law_string_refused(raw: Seq<u8>, closing: u8, end: int)
    requires
        !valid_utf8(raw),
    ensures
        codec::parse_raw(DataFmt::Utf8, raw.push(closing), end) == Err::<ValueView, ErrorView>(
            ErrorView::FromUtf8Error(raw),
        ),
{
    assert(raw.push(closing).drop_last() =~= raw);
}

/// An integer is the number that the first four bytes spell, least significant first; without
/// bytes it is zero, and with fewer than four it is an error.
pub proof fn law_integer_read(raw: Seq<u8>, end: int)
    ensures
        raw.len() >= 4 ==> (codec::parse_raw(DataFmt::Int, raw, end) matches Ok(ValueView::Int(m))
            && m == raw[0] + 0x100 * raw[1] + 0x1_0000 * raw[2] + 0x100_0000 * raw[3]),
        raw.len() == 0 ==> codec::parse_raw(DataFmt::Int, raw, end) == Ok::<ValueView, ErrorView>(
            ValueView::Int(0),
        ),
        1 <= raw.len() <= 3 ==> codec::parse_raw(DataFmt::Int, raw, end) == Err::<
            ValueView,
            ErrorView,
        >(ErrorView::InvalidFormat(FormatErrorView::ShortInteger { pos: end as u64 })),
{
}

/// Bytes are read as they stand.
pub proof fn law_bytes_read(raw: Seq<u8>, end: int)
    ensures
        codec::parse_raw(DataFmt::Bytes, raw, end) == Ok::<ValueView, ErrorView>(
            ValueView::Bytes(raw),
        ),
{
}

/// A value is what stands in its bytes. Where the input ends before them it is an error; a
/// value without bytes needs none.
pub proof fn law_value_read(b: Seq<u8>, fmt: DataFmt, at: int, len: int)
    requires
        0 <= at,
        0 <= len,
    ensures
        at + len <= b.len() ==> codec::parse_value(b, fmt, at, len) == codec::parse_raw(
            fmt,
            b.subrange(at, at + len),
            at + len,
        ),
        len == 0 ==> codec::parse_value(b, fmt, at, len) == codec::parse_raw(
            fmt,
            Seq::empty(),
            at,
        ),
        len > 0 && at + len > b.len() ==> codec::parse_value(b, fmt, at, len) == Err::<
            ValueView,
            ErrorView,
        >(ErrorView::IO(IoError::UnexpectedEof)),
{
    if len == 0 && at <= b.len() {
        assert(b.subrange(at, at) =~= Seq::empty());
    }
}

/// The numbers of each record among those that are read.
proof fn lemma_record_at(b: Seq<u8>, n: nat, i: int)
    requires
        codec::parse_index(b, n) is Ok,
        0 <= i < n,
    ensures
        ({
            let xs = codec::parse_index(b, n)->Ok_0;
            let at = 20 + 16 * i;
            &&& xs.len() == n
            &&& at + 16 <= b.len()
            &&& xs[i].key_offset == bytes::u16_at(b, at)
            &&& DataFmt::spec_from_code(bytes::u16_at(b, at + 2)) == Some(xs[i].data_fmt)
            &&& xs[i].data_len == bytes::u32_at(b, at + 4)
            &&& xs[i].data_max_len == bytes::u32_at(b, at + 8)
            &&& xs[i].data_offset == bytes::u32_at(b, at + 12)
        }),
    decreases n,
{
    law_records_read(b, (n - 1) as nat);
    if i < n - 1 {
        lemma_record_at(b, (n - 1) as nat, i);
    }
}

/// The entries that are read are those of the records, one by one.
proof fn lemma_each_entry(b: Seq<u8>, h: HeaderView, xs: Seq<IndexTableEntry>)
    requires
        codec::parse_entries(b, h, xs) is Ok,
    ensures
        codec::parse_entries(b, h, xs)->Ok_0.len() == xs.len(),
        forall|i: int|
            0 <= i < xs.len() ==> codec::parse_entry(b, h, #[trigger] xs[i]) == Ok::<
                (Seq<char>, DataView),
                ErrorView,
            >(codec::parse_entries(b, h, xs)->Ok_0[i]),
    decreases xs.len(),
{
    if xs.len() > 0 {
        let rest = xs.drop_last();
        lemma_each_entry(b, h, rest);
        assert forall|i: int| 0 <= i < xs.len() implies codec::parse_entry(b, h, #[trigger] xs[i])
            == Ok::<(Seq<char>, DataView), ErrorView>(
            codec::parse_entries(b, h, xs)->Ok_0[i],
        ) by {
            if i < rest.len() {
                assert(rest[i] == xs[i]);
            }
        }
    }
}

/// Every record of a file that is read names an entry: the text that stands where the record
/// says, in upper case, is the key of one. The last record gives its data: the value that stands
/// where the record says, in the format that the record says, and the maximum length.
pub proof fn law_record_read(b: Seq<u8>, i: int)
    requires
        codec::decode(b) is Ok,
        0 <= i < bytes::u32_at(b, 16),
    ensures
        ({
            let v = codec::decode(b)->Ok_0;
            let at = 20 + 16 * i;
            let code = bytes::u16_at(b, at + 2);
            let key_at = bytes::u32_at(b, 8) + bytes::u16_at(b, at);
            let data_at = bytes::u32_at(b, 12) + bytes::u32_at(b, at + 12);
            let fmt = if code == 0x004 {
                DataFmt::Bytes
            } else if code == 0x204 {
                DataFmt::Utf8
            } else {
                DataFmt::Int
            };
            let name = codec::parse_key(b, key_at);
            let value = codec::parse_value(b, fmt, data_at, bytes::u32_at(b, at + 4) as int);
            &&& at + 16 <= b.len()
            &&& code == 0x004 || code == 0x204 || code == 0x404
            &&& name is Ok
            &&& value is Ok
            &&& listing::lookup(v.entries, text::uppercase(name->Ok_0)) is Some
            &&& i == bytes::u32_at(b, 16) - 1 ==> listing::lookup(
                v.entries,
                text::uppercase(name->Ok_0),
            ) == Some(DataView { value: value->Ok_0, max_len: bytes::u32_at(b, at + 8) })
        }),
{
    law_header_refused(b);
    let n = bytes::u32_at(b, 16) as nat;
    let h = codec::parse_header(b)->Ok_0;
    let xs = codec::parse_index(b, n)->Ok_0;
    let items = codec::parse_entries(b, h, xs)->Ok_0;
    lemma_record_at(b, n, i);
    lemma_each_entry(b, h, xs);
    law_entry_read(b, h, xs[i]);
    let all = codec::named(items);
    let name = text::uppercase(items[i].0);
    law_file_read(b, name);
    assert(all[i].0 == name);
    let p = listing::lemma_lookup_found(all, name);
    if i == n - 1 {
        order_laws::law_found(all, name, i);
    }
}

/// Every item is named by the upper-case form of its text, and keeps its data.
pub proof fn law_named(items: Listing, i: int)
    requires
        0 <= i < items.len(),
    ensures
        codec::named(items).len() == items.len(),
        codec::named(items)[i].0 == text::uppercase(items[i].0),
        codec::named(items)[i].1 == items[i].1,
{
}

} // verus!
