//! From bytes to entries.
use vstd::prelude::*;
use vstd::slice::{slice_subrange, slice_to_vec};
use vstd::utf8::*;

use crate::bytes;
use crate::codec;
use crate::codec::{HeaderView, IndexTableEntry, SfoView, HEADER_LEN, MAGIC, RECORD_LEN};
use crate::data::Data;
use crate::entries::Entries;
use crate::error::{Error, ErrorView, FormatError, FormatErrorView, IoError};
use crate::key::Key;
use crate::listing;
use crate::listing::Listing;
use crate::text;
use crate::value::{DataFmt, Value, ValueView, U32_SIZE};

verus! {

/// What the start of a file says.
pub(crate) struct Header {
    version: [u8; 4],
    key_table_start: u32,
    data_table_start: u32,
    tables_entries: u32,
}

impl View for Header {
    type V = HeaderView;

    closed spec fn view(&self) -> HeaderView {
        HeaderView {
            version: self.version@,
            key_table_start: self.key_table_start,
            data_table_start: self.data_table_start,
            tables_entries: self.tables_entries,
        }
    }
}

/// The four bytes at `at`.
fn four_at(b: &[u8], at: usize) -> (r: [u8; 4])
    requires
        at + 4 <= b@.len(),
    ensures
        r@ == b@.subrange(at as int, at + 4),
{
    let r: [u8; 4] = [b[at], b[at + 1], b[at + 2], b[at + 3]];
    assert(r@ =~= b@.subrange(at as int, at + 4));
    r
}

/// Reads the header.
fn read_header(b: &[u8]) -> (r: Result<Header, FormatError>)
    ensures
        match r {
            Ok(h) => codec::parse_header(b@) == Ok::<HeaderView, FormatErrorView>(h@)
                && b@.len() >= HEADER_LEN,
            Err(e) => codec::parse_header(b@) == Err::<HeaderView, FormatErrorView>(e@),
        },
{
    if b.len() < 4 {
        return Err(FormatError::UnexpectedEof);
    }
    let found = four_at(b, 0);
    assert(b@.subrange(0, 4) =~= b@.take(4));
    if found[0] != MAGIC[0] || found[1] != MAGIC[1] || found[2] != MAGIC[2] || found[3]
        != MAGIC[3] {
        return Err(FormatError::BadMagic { pos: 0, found });
    }
    assert(found@ =~= MAGIC@);
    if b.len() < HEADER_LEN {
        return Err(FormatError::UnexpectedEof);
    }
    Ok(
        Header {
            version: four_at(b, 4),
            key_table_start: bytes::get_u32(b, 8),
            data_table_start: bytes::get_u32(b, 12),
            tables_entries: bytes::get_u32(b, 16),
        },
    )
}

/// Reads the record at `at`.
fn read_record(b: &[u8], at: usize) -> (r: Result<IndexTableEntry, FormatError>)
    requires
        at <= b@.len(),
    ensures
        match r {
            Ok(x) => codec::parse_record(b@, at as int) == Ok::<IndexTableEntry, FormatErrorView>(
                x,
            ) && at + RECORD_LEN <= b@.len(),
            Err(e) => codec::parse_record(b@, at as int) == Err::<IndexTableEntry, FormatErrorView>(
                e@,
            ),
        },
{
    let left: usize = b.len() - at;
    if left < 4 {
        return Err(FormatError::UnexpectedEof);
    }
    let data_fmt = match DataFmt::from_code(bytes::get_u16(b, at + 2)) {
        Some(data_fmt) => data_fmt,
        None => {
            return Err(FormatError::NoVariantMatch { pos: (at + 2) as u64 });
        },
    };
    if left < RECORD_LEN {
        return Err(FormatError::UnexpectedEof);
    }
    Ok(
        IndexTableEntry {
            key_offset: bytes::get_u16(b, at),
            data_fmt,
            data_len: bytes::get_u32(b, at + 4),
            data_max_len: bytes::get_u32(b, at + 8),
            data_offset: bytes::get_u32(b, at + 12),
        },
    )
}

/// The error of an index table stays when more records are asked for.
proof fn lemma_index_error(b: Seq<u8>, m: nat, n: nat)
    requires
        m <= n,
        codec::parse_index(b, m) is Err,
    ensures
        codec::parse_index(b, n) == codec::parse_index(b, m),
    decreases n,
{
    if m < n {
        lemma_index_error(b, m, (n - 1) as nat);
    }
}

/// Reads the first `count` records of the index table.
fn read_index(b: &[u8], count: u32) -> (r: Result<Vec<IndexTableEntry>, FormatError>)
    requires
        b@.len() >= HEADER_LEN,
    ensures
        match r {
            Ok(xs) => codec::parse_index(b@, count as nat) == Ok::<
                Seq<IndexTableEntry>,
                FormatErrorView,
            >(xs@),
            Err(e) => codec::parse_index(b@, count as nat) == Err::<
                Seq<IndexTableEntry>,
                FormatErrorView,
            >(e@),
        },
{
    let mut xs: Vec<IndexTableEntry> = Vec::new();
    let mut at: usize = HEADER_LEN;
    let mut i: u32 = 0;
    while i < count
        invariant
            i <= count,
            at == HEADER_LEN + RECORD_LEN * i,
            at <= b@.len(),
            codec::parse_index(b@, i as nat) == Ok::<Seq<IndexTableEntry>, FormatErrorView>(xs@),
        decreases count - i,
    {
        match read_record(b, at) {
            Ok(x) => xs.push(x),
            Err(e) => {
                proof {
                    lemma_index_error(b@, (i + 1) as nat, count as nat);
                }
                return Err(e);
            },
        }
        assert(at + RECORD_LEN <= b.len());
        at += RECORD_LEN;
        i += 1;
    }
    Ok(xs)
}

/// Finds the first zero byte from `at` on.
fn find_zero(b: &[u8], at: usize) -> (r: Option<usize>)
    ensures
        match r {
            Some(end) => codec::zero_from(b@, at as int) == Some(end as int) && at <= end
                < b@.len(),
            None => codec::zero_from(b@, at as int) is None,
        },
{
    let mut i: usize = at;
    while i < b.len()
        invariant
            at <= i,
            i <= b@.len() || i == at,
            codec::zero_from(b@, at as int) == codec::zero_from(b@, i as int),
        decreases b@.len() - i,
    {
        if b[i] == 0 {
            return Some(i);
        }
        i += 1;
    }
    None
}

/// Reads the text that stands at `at` and is closed by a zero byte.
pub(crate) fn read_null_terminated_string(b: &[u8], at: usize) -> (r: Result<String, Error>)
    ensures
        match codec::zero_from(b@, at as int) {
            None => r is Err && r->Err_0@ == ErrorView::IO(IoError::UnexpectedEof),
            Some(end) => {
                let raw = b@.subrange(at as int, end);
                if valid_utf8(raw) {
                    r is Ok && r->Ok_0@ == decode_utf8(raw)
                } else {
                    r is Err && r->Err_0@ == ErrorView::FromUtf8Error(raw)
                }
            },
        },
{
    match find_zero(b, at) {
        None => Err(Error::IO(IoError::UnexpectedEof)),
        Some(end) => utf8_string(slice_subrange(b, at, end)),
    }
}

/// The text that the bytes spell.
fn utf8_string(raw: &[u8]) -> (r: Result<String, Error>)
    ensures
        if valid_utf8(raw@) {
            r is Ok && r->Ok_0@ == decode_utf8(raw@)
        } else {
            r is Err && r->Err_0@ == ErrorView::FromUtf8Error(raw@)
        },
{
    match core::str::from_utf8(raw) {
        Ok(s) => Ok(s.to_owned()),
        Err(_) => Err(Error::FromUtf8Error(slice_to_vec(raw))),
    }
}

/// The value that stands in these bytes, which end at `end`.
fn read_raw(fmt: DataFmt, raw: &[u8], end: u64) -> (r: Result<Value, Error>)
    ensures
        codec::parse_raw(fmt, raw@, end as int) == (match r {
            Err(e) => Err::<ValueView, ErrorView>(e@),
            Ok(v) => Ok::<ValueView, ErrorView>(v@),
        }),
{
    match fmt {
        DataFmt::Bytes => Ok(Value::Bytes(slice_to_vec(raw))),
        DataFmt::Utf8 => {
            let kept = if raw.len() == 0 {
                raw
            } else {
                slice_subrange(raw, 0, raw.len() - 1)
            };
            assert(raw@.len() > 0 ==> raw@.subrange(0, raw@.len() - 1) =~= raw@.drop_last());
            match utf8_string(kept) {
                Ok(s) => Ok(Value::Utf8(s)),
                Err(e) => Err(e),
            }
        },
        DataFmt::Int => {
            if raw.len() == 0 {
                Ok(Value::Int(0))
            } else if raw.len() < U32_SIZE as usize {
                Err(Error::InvalidFormat(FormatError::ShortInteger { pos: end }))
            } else {
                Ok(Value::Int(bytes::get_u32(raw, 0)))
            }
        },
    }
}

/// Reads the value of `len` bytes at `at`.
fn read_value(b: &[u8], fmt: DataFmt, at: usize, len: usize) -> (r: Result<Value, Error>)
    ensures
        codec::parse_value(b@, fmt, at as int, len as int) == (match r {
            Err(e) => Err::<ValueView, ErrorView>(e@),
            Ok(v) => Ok::<ValueView, ErrorView>(v@),
        }),
{
    if len == 0 {
        let none = slice_subrange(b, 0, 0);
        assert(none@ =~= Seq::empty());
        read_raw(fmt, none, at as u64)
    } else if at > b.len() || b.len() - at < len {
        Err(Error::IO(IoError::UnexpectedEof))
    } else {
        read_raw(fmt, slice_subrange(b, at, at + len), (at + len) as u64)
    }
}

/// Reads the entry that a record describes.
fn read_entry(b: &[u8], h: &Header, x: &IndexTableEntry) -> (r: Result<(Key, Data), Error>)
    ensures
        match codec::parse_entry(b@, h@, *x) {
            Err(e) => r matches Err(f) && f@ == e,
            Ok((name, d)) => r matches Ok(p) && p.0@ == text::uppercase(name) && p.1@ == d,
        },
{
    let key_at: u32 = match h.key_table_start.checked_add(x.key_offset as u32) {
        Some(at) => at,
        None => {
            return Err(Error::InvalidFormat(FormatError::Unaddressable));
        },
    };
    let name = match read_null_terminated_string(b, key_at as usize) {
        Ok(name) => name,
        Err(e) => {
            return Err(e);
        },
    };
    let key = match Key::new(name.as_str()) {
        Ok(key) => key,
        Err(e) => {
            return Err(e);
        },
    };
    let data_at: u32 = match h.data_table_start.checked_add(x.data_offset) {
        Some(at) => at,
        None => {
            return Err(Error::InvalidFormat(FormatError::Unaddressable));
        },
    };
    match read_value(b, x.data_fmt, data_at as usize, x.data_len as usize) {
        Err(e) => Err(e),
        Ok(value) => Ok((key, Data::from_file_parts(value, x.data_max_len))),
    }
}

/// The error of the first records stays when more records are read.
proof fn lemma_entries_error(b: Seq<u8>, h: HeaderView, xs: Seq<IndexTableEntry>, m: int)
    requires
        0 <= m <= xs.len(),
        codec::parse_entries(b, h, xs.take(m)) is Err,
    ensures
        codec::parse_entries(b, h, xs) == codec::parse_entries(b, h, xs.take(m)),
    decreases xs.len(),
{
    if m == xs.len() {
        assert(xs.take(m) =~= xs);
    } else {
        assert(xs.drop_last().take(m) =~= xs.take(m));
        lemma_entries_error(b, h, xs.drop_last(), m);
    }
}

/// Reads the entries that the records describe.
fn read_entries(b: &[u8], h: &Header, xs: &Vec<IndexTableEntry>) -> (r: Result<Entries, Error>)
    ensures
        match codec::parse_entries(b@, h@, xs@) {
            Err(e) => r matches Err(f) && f@ == e,
            Ok(items) => r matches Ok(s) && s@ == listing::collect(codec::named(items)),
        },
{
    let mut entries = Entries::new();
    let ghost mut items: Listing = Seq::empty();
    let mut i: usize = 0;
    assert(xs@.take(0) =~= Seq::empty());
    assert(codec::named(items) =~= Seq::empty());
    while i < xs.len()
        invariant
            i <= xs@.len(),
            codec::parse_entries(b@, h@, xs@.take(i as int)) == Ok::<Listing, ErrorView>(items),
            entries@ == listing::collect(codec::named(items)),
        decreases xs@.len() - i,
    {
        proof {
            assert(xs@.take(i + 1).drop_last() =~= xs@.take(i as int));
            assert(xs@.take(i + 1).last() == xs@[i as int]);
        }
        match read_entry(b, h, &xs[i]) {
            Err(e) => {
                proof {
                    lemma_entries_error(b@, h@, xs@, i + 1);
                }
                return Err(e);
            },
            Ok((key, data)) => {
                proof {
                    let name = (codec::parse_entry(b@, h@, xs@[i as int])->Ok_0).0;
                    let more = items.push((name, data@));
                    assert(codec::named(more).drop_last() =~= codec::named(items));
                    assert(codec::named(more).last() == (key@, data@));
                    items = more;
                }
                let _ = entries.insert(key, data);
            },
        }
        i += 1;
    }
    assert(xs@.take(i as int) =~= xs@);
    Ok(entries)
}

/// What a file holds: the version and the entries.
pub(crate) fn read(b: &[u8]) -> (r: Result<([u8; 4], Entries), Error>)
    ensures
        codec::decode(b@) == (match r {
            Err(e) => Err::<SfoView, ErrorView>(e@),
            Ok((version, entries)) => Ok::<SfoView, ErrorView>(
                SfoView { version: version@, entries: entries@ },
            ),
        }),
{
    let h = match read_header(b) {
        Ok(h) => h,
        Err(e) => {
            return Err(Error::InvalidFormat(e));
        },
    };
    let xs = match read_index(b, h.tables_entries) {
        Ok(xs) => xs,
        Err(e) => {
            return Err(Error::InvalidFormat(e));
        },
    };
    match read_entries(b, &h, &xs) {
        Err(e) => Err(e),
        Ok(entries) => Ok((h.version, entries)),
    }
}

} // verus!
