//! What is written can be read back.
use vstd::prelude::*;
use vstd::utf8::*;

use crate::bytes;
use crate::codec;
use crate::codec::{HeaderView, IndexTableEntry, SfoView, HEADER_LEN, MAGIC, RECORD_LEN};
use crate::data::DataView;
use crate::error::{ErrorView, FormatErrorView};
use crate::key;
use crate::layout;
use crate::listing;
use crate::listing::Listing;
use crate::text;
use crate::value::{DataFmt, ValueView};

verus! {

/// The key is what a key read from its own text would be.
pub open spec fn stable_key(name: Seq<char>) -> bool {
    !name.contains('\0') && text::uppercase(name) == name
}

/// What is written of the entries is read back as it is: every value fits in its room, every
/// number in its field, reading reaches all data, and the keys are what keys read from their
/// texts would be.
pub open spec fn restorable(s: Listing) -> bool {
    &&& codec::values_fit(s)
    &&& codec::addressable(s)
    &&& codec::within_reach(s)
    &&& forall|i: int| 0 <= i < s.len() ==> stable_key((#[trigger] s[i]).0)
}

/// The header that a file with these entries has.
spec fn header_of(v: SfoView) -> HeaderView {
    HeaderView {
        version: v.version,
        key_table_start: codec::key_table_start(v.entries) as u32,
        data_table_start: codec::data_table_start(v.entries) as u32,
        tables_entries: v.entries.len() as u32,
    }
}

/// The record that the entry at `i` has.
spec fn record_of(s: Listing, i: int) -> IndexTableEntry {
    IndexTableEntry {
        key_offset: codec::key_table(s.take(i)).len() as u16,
        data_fmt: s[i].1.value.fmt(),
        data_len: s[i].1.value.len() as u32,
        data_max_len: s[i].1.max_len,
        data_offset: codec::data_table(s.take(i)).len() as u32,
    }
}

/// What has to hold of a PARAM.SFO that is read back.
spec fn good(v: SfoView) -> bool {
    &&& v.version.len() == 4
    &&& codec::values_fit(v.entries)
    &&& codec::addressable(v.entries)
    &&& codec::within_reach(v.entries)
    &&& forall|i: int|
        0 <= i < v.entries.len() ==> !(#[trigger] v.entries[i]).0.contains('\0')
}

/// The parts of a file stand where the header says.
pub open spec fn laid_out(b: Seq<u8>, v: SfoView) -> bool {
    let s = v.entries;
    let index = codec::index_table(s);
    let keys = codec::key_table(s);
    let data = codec::data_table(s);
    &&& b.len() == codec::data_table_start(s) + data.len()
    &&& codec::header(v).len() == HEADER_LEN
    &&& index.len() == RECORD_LEN * s.len()
    &&& b.subrange(0, HEADER_LEN as int) == codec::header(v)
    &&& b.subrange(HEADER_LEN as int, HEADER_LEN + index.len()) == index
    &&& b.subrange(codec::key_table_start(s), codec::key_table_start(s) + keys.len()) == keys
    &&& b.subrange(codec::data_table_start(s), codec::data_table_start(s) + data.len()) == data
}

/// The parts of what is written stand where the header says.
pub proof fn lemma_laid_out(v: SfoView)
    requires
        v.version.len() == 4,
    ensures
        laid_out(codec::encode(v), v),
{
    let b = codec::encode(v);
    let s = v.entries;
    let index = codec::index_table(s);
    let keys = codec::key_table(s);
    let pad = bytes::zeros(codec::key_padding(s));
    let data = codec::data_table(s);
    let header = codec::header(v);
    layout::lemma_index_len(s);
    assert(header.len() == HEADER_LEN);
    assert(b == header + index + keys + pad + data);
    assert(b.subrange(0, HEADER_LEN as int) =~= header);
    assert(b.subrange(HEADER_LEN as int, HEADER_LEN + index.len()) =~= index);
    assert(b.subrange(codec::key_table_start(s), codec::key_table_start(s) + keys.len()) =~= keys);
    assert(b.subrange(codec::data_table_start(s), codec::data_table_start(s) + data.len()) =~= data);
}

/// The header is read back.
proof fn lemma_header(b: Seq<u8>, v: SfoView)
    requires
        good(v),
        laid_out(b, v),
    ensures
        codec::parse_header(b) == Ok::<HeaderView, FormatErrorView>(header_of(v)),
{
    let h = b.subrange(0, HEADER_LEN as int);
    let s = v.entries;
    assert(b.take(4) =~= MAGIC@) by {
        assert(b.take(4) =~= h.take(4));
        assert(h.take(4) =~= MAGIC@);
    }
    assert(b.subrange(4, 8) =~= v.version) by {
        assert(b.subrange(4, 8) =~= h.subrange(4, 8));
        assert(h.subrange(4, 8) =~= v.version);
    }
    assert(bytes::u32_at(b, 8) == codec::key_table_start(s)) by {
        assert(b.subrange(8, 12) =~= h.subrange(8, 12));
        assert(h.subrange(8, 12) =~= bytes::le32(codec::key_table_start(s) as u32));
        bytes::lemma_u32_at(b, 8, codec::key_table_start(s) as u32);
    }
    assert(bytes::u32_at(b, 12) == codec::data_table_start(s)) by {
        assert(b.subrange(12, 16) =~= h.subrange(12, 16));
        assert(h.subrange(12, 16) =~= bytes::le32(codec::data_table_start(s) as u32));
        bytes::lemma_u32_at(b, 12, codec::data_table_start(s) as u32);
    }
    assert(bytes::u32_at(b, 16) == s.len()) by {
        assert(b.subrange(16, 20) =~= h.subrange(16, 20));
        assert(h.subrange(16, 20) =~= bytes::le32(s.len() as u32));
        bytes::lemma_u32_at(b, 16, s.len() as u32);
    }
}

/// What stands in a table stands in the file.
pub proof fn lemma_segment(b: Seq<u8>, table: Seq<u8>, base: int, before: Seq<u8>, part: Seq<u8>)
    requires
        0 <= base,
        base + table.len() <= b.len(),
        b.subrange(base, base + table.len()) == table,
        (before + part).is_prefix_of(table),
    ensures
        base + before.len() + part.len() <= b.len(),
        b.subrange(base + before.len(), base + before.len() + part.len()) == part,
{
    let at = base + before.len();
    assert forall|j: int| 0 <= j < part.len() implies b[at + j] == part[j] by {
        let k = before.len() + j;
        assert(b.subrange(base, base + table.len())[k] == b[base + k]);
        assert(table.take((before + part).len() as int)[k] == table[k]);
        assert((before + part)[k] == part[j]);
    }
    assert(b.subrange(at, at + part.len()) =~= part);
}

/// The number of a format stands for that format.
proof fn lemma_fmt(fmt: DataFmt)
    ensures
        DataFmt::spec_from_code(fmt.spec_code()) == Some(fmt),
{
}

/// The numbers of a record that stands at `at`.
pub proof fn lemma_numbers(b: Seq<u8>, at: int, k: u16, f: u16, l: u32, m: u32, o: u32)
    requires
        0 <= at,
        at + RECORD_LEN <= b.len(),
        b.subrange(at, at + RECORD_LEN) == bytes::le16(k) + bytes::le16(f) + bytes::le32(l)
            + bytes::le32(m) + bytes::le32(o),
    ensures
        bytes::u16_at(b, at) == k,
        bytes::u16_at(b, at + 2) == f,
        bytes::u32_at(b, at + 4) == l,
        bytes::u32_at(b, at + 8) == m,
        bytes::u32_at(b, at + 12) == o,
{
    let r = b.subrange(at, at + RECORD_LEN);
    assert(bytes::u16_at(b, at) == k) by {
        assert(b.subrange(at, at + 2) =~= r.subrange(0, 2));
        assert(r.subrange(0, 2) =~= bytes::le16(k));
        bytes::lemma_u16_at(b, at, k);
    }
    assert(bytes::u16_at(b, at + 2) == f) by {
        assert(b.subrange(at + 2, at + 4) =~= r.subrange(2, 4));
        assert(r.subrange(2, 4) =~= bytes::le16(f));
        bytes::lemma_u16_at(b, at + 2, f);
    }
    assert(bytes::u32_at(b, at + 4) == l) by {
        assert(b.subrange(at + 4, at + 8) =~= r.subrange(4, 8));
        assert(r.subrange(4, 8) =~= bytes::le32(l));
        bytes::lemma_u32_at(b, at + 4, l);
    }
    assert(bytes::u32_at(b, at + 8) == m) by {
        assert(b.subrange(at + 8, at + 12) =~= r.subrange(8, 12));
        assert(r.subrange(8, 12) =~= bytes::le32(m));
        bytes::lemma_u32_at(b, at + 8, m);
    }
    assert(bytes::u32_at(b, at + 12) == o) by {
        assert(b.subrange(at + 12, at + 16) =~= r.subrange(12, 16));
        assert(r.subrange(12, 16) =~= bytes::le32(o));
        bytes::lemma_u32_at(b, at + 12, o);
    }
}

/// A record that stands at `at` is read back.
proof fn lemma_record_fields(b: Seq<u8>, at: int, key_offset: nat, data_offset: nat, d: DataView)
    requires
        0 <= at,
        at + RECORD_LEN <= b.len(),
        key_offset <= u16::MAX,
        data_offset <= u32::MAX,
        b.subrange(at, at + RECORD_LEN) == codec::record(key_offset, data_offset, d),
    ensures
        codec::parse_record(b, at) == Ok::<IndexTableEntry, FormatErrorView>(
            IndexTableEntry {
                key_offset: key_offset as u16,
                data_fmt: d.value.fmt(),
                data_len: d.value.len() as u32,
                data_max_len: d.max_len,
                data_offset: data_offset as u32,
            },
        ),
{
    let k = key_offset as u16;
    let f = d.value.fmt().spec_code();
    let l = d.value.len() as u32;
    let o = data_offset as u32;
    lemma_numbers(b, at, k, f, l, d.max_len, o);
    lemma_fmt(d.value.fmt());
}

/// The record of the entry at `i` is read back.
proof fn lemma_record(b: Seq<u8>, v: SfoView, i: int)
    requires
        good(v),
        laid_out(b, v),
        0 <= i < v.entries.len(),
    ensures
        codec::parse_record(b, HEADER_LEN + RECORD_LEN * i) == Ok::<
            IndexTableEntry,
            FormatErrorView,
        >(record_of(v.entries, i)),
{
    let s = v.entries;
    let at = HEADER_LEN + RECORD_LEN * i;
    let key_offset = codec::key_table(s.take(i)).len();
    let data_offset = codec::data_table(s.take(i)).len();
    let before = codec::index_table(s.take(i));
    let r = codec::record(key_offset, data_offset, s[i].1);
    layout::lemma_step(s, i);
    layout::lemma_prefix(s, i);
    layout::lemma_prefix(s, i + 1);
    layout::lemma_index_len(s.take(i));
    layout::lemma_record_len(key_offset, data_offset, s[i].1);
    lemma_segment(b, codec::index_table(s), HEADER_LEN as int, before, r);
    assert(codec::key_table(s.take(i)).len() <= u16::MAX);
    assert(codec::data_table_start(s) + codec::data_table(s.take(i)).len() <= u32::MAX);
    lemma_record_fields(b, at, key_offset, data_offset, s[i].1);
}

/// The first `n` records are read back.
proof fn lemma_index(b: Seq<u8>, v: SfoView, n: nat)
    requires
        good(v),
        laid_out(b, v),
        n <= v.entries.len(),
    ensures
        codec::parse_index(b, n) == Ok::<Seq<IndexTableEntry>, FormatErrorView>(
            Seq::new(n, |i: int| record_of(v.entries, i)),
        ),
    decreases n,
{
    let all = Seq::new(n, |i: int| record_of(v.entries, i));
    if n == 0 {
        assert(all =~= Seq::empty());
    } else {
        lemma_index(b, v, (n - 1) as nat);
        lemma_record(b, v, n - 1);
        let before = Seq::new((n - 1) as nat, |i: int| record_of(v.entries, i));
        assert(all =~= before.push(record_of(v.entries, n - 1)));
    }
}

/// The first zero byte is the one behind bytes that are not zero.
proof fn lemma_zero_from(b: Seq<u8>, at: int, end: int)
    requires
        0 <= at <= end < b.len(),
        forall|j: int| at <= j < end ==> b[j] != 0,
        b[end] == 0,
    ensures
        codec::zero_from(b, at) == Some(end),
    decreases end - at,
{
    if at < end {
        lemma_zero_from(b, at + 1, end);
    }
}

/// A key that stands at `at`, closed by a zero byte, is read back.
proof fn lemma_key_text(b: Seq<u8>, at: int, name: Seq<char>)
    requires
        key::valid_key_text(name),
        0 <= at,
        at + encode_utf8(name).len() + 1 <= b.len(),
        b.subrange(at, at + encode_utf8(name).len() + 1) == encode_utf8(name).push(0),
    ensures
        codec::parse_key(b, at) == Ok::<Seq<char>, ErrorView>(name),
{
    let raw = encode_utf8(name);
    let end = at + raw.len();
    let part = b.subrange(at, end + 1);
    assert(!raw.contains(0u8)) by {
        text::lemma_encode_zero(name);
    }
    assert forall|j: int| at <= j < end implies b[j] != 0 by {
        assert(part[j - at] == b[j]);
        assert(raw.push(0)[j - at] == raw[j - at]);
        assert(raw.contains(raw[j - at]));
    }
    assert(b[end] == part[raw.len() as int]);
    lemma_zero_from(b, at, end);
    assert(b.subrange(at, end) =~= raw) by {
        assert(part.take(raw.len() as int) =~= raw);
        assert(part.take(raw.len() as int) =~= b.subrange(at, end));
    }
    encode_utf8_valid_utf8(name);
    encode_utf8_decode_utf8(name);
}

/// The key of the entry at `i` is read back.
proof fn lemma_key(b: Seq<u8>, v: SfoView, i: int)
    requires
        good(v),
        laid_out(b, v),
        0 <= i < v.entries.len(),
    ensures
        codec::parse_key(
            b,
            codec::key_table_start(v.entries) + codec::key_table(v.entries.take(i)).len(),
        ) == Ok::<Seq<char>, ErrorView>(v.entries[i].0),
{
    let s = v.entries;
    let name = s[i].0;
    let before = codec::key_table(s.take(i));
    let part = encode_utf8(name).push(0);
    assert((before + part).is_prefix_of(codec::key_table(s))) by {
        layout::lemma_step(s, i);
        layout::lemma_prefix(s, i + 1);
    }
    lemma_segment(b, codec::key_table(s), codec::key_table_start(s), before, part);
    assert(key::valid_key_text(name)) by {
        assert(!s[i].0.contains('\0'));
        assert((before + part).len() <= codec::key_table(s).len());
    }
    lemma_key_text(b, codec::key_table_start(s) + before.len(), name);
}

/// A value is read back from the bytes that it takes.
proof fn lemma_raw(value: ValueView, end: int)
    ensures
        codec::parse_raw(value.fmt(), value.payload(), end) == Ok::<ValueView, ErrorView>(value),
{
    let raw = value.payload();
    match value {
        ValueView::Bytes(_) => {},
        ValueView::Utf8(x) => {
            encode_utf8_valid_utf8(x);
            encode_utf8_decode_utf8(x);
            if x.len() == 0 {
                assert(raw =~= encode_utf8(x));
            } else {
                assert(raw.drop_last() =~= encode_utf8(x));
            }
        },
        ValueView::Int(x) => {
            assert(raw.subrange(0, 4) =~= bytes::le32(x));
            bytes::lemma_u32_at(raw, 0, x);
        },
    }
}

/// The value of the entry at `i` is read back.
proof fn lemma_value(b: Seq<u8>, v: SfoView, i: int)
    requires
        good(v),
        laid_out(b, v),
        0 <= i < v.entries.len(),
    ensures
        ({
            let s = v.entries;
            let d = s[i].1;
            codec::parse_value(
                b,
                d.value.fmt(),
                codec::data_table_start(s) + codec::data_table(s.take(i)).len(),
                d.value.len() as int,
            ) == Ok::<ValueView, ErrorView>(d.value)
        }),
{
    let s = v.entries;
    let d = s[i].1;
    let before = codec::data_table(s.take(i));
    let block = codec::data_block(d);
    let at = codec::data_table_start(s) + before.len();
    let len = d.value.len() as int;
    layout::lemma_step(s, i);
    layout::lemma_prefix(s, i + 1);
    lemma_segment(b, codec::data_table(s), codec::data_table_start(s), before, block);
    lemma_raw(d.value, at + len);
    layout::lemma_payload_len(d.value);
    let raw = d.value.payload();
    assert(block.take(len) =~= raw);
    let part = b.subrange(at, at + block.len());
    if len > 0 {
        assert(part.take(len) =~= b.subrange(at, at + len));
    } else {
        assert(raw =~= Seq::empty());
    }
}

/// An entry is read back if its key and its value are.
proof fn lemma_entry_of(
    b: Seq<u8>,
    h: HeaderView,
    x: IndexTableEntry,
    name: Seq<char>,
    d: DataView,
)
    requires
        x.key_offset + h.key_table_start <= u32::MAX,
        x.data_offset + h.data_table_start <= u32::MAX,
        codec::parse_key(b, x.key_offset + h.key_table_start) == Ok::<Seq<char>, ErrorView>(name),
        codec::parse_value(
            b,
            x.data_fmt,
            x.data_offset + h.data_table_start,
            x.data_len as int,
        ) == Ok::<ValueView, ErrorView>(d.value),
        x.data_max_len == d.max_len,
    ensures
        codec::parse_entry(b, h, x) == Ok::<(Seq<char>, DataView), ErrorView>((name, d)),
{
}

/// The entry at `i` is read back.
proof fn lemma_entry(b: Seq<u8>, v: SfoView, i: int)
    requires
        good(v),
        laid_out(b, v),
        0 <= i < v.entries.len(),
    ensures
        codec::parse_entry(b, header_of(v), record_of(v.entries, i)) == Ok::<
            (Seq<char>, DataView),
            ErrorView,
        >(v.entries[i]),
{
    let s = v.entries;
    let h = header_of(v);
    let x = record_of(s, i);
    layout::lemma_prefix(s, i);
    assert(codec::key_table(s.take(i)).len() <= u16::MAX);
    assert(codec::data_table_start(s) + codec::data_table(s.take(i)).len() <= u32::MAX);
    assert(s[i].1.fits());
    assert(x.key_offset + h.key_table_start == codec::key_table_start(s) + codec::key_table(s.take(i)).len());
    assert(x.data_offset + h.data_table_start == codec::data_table_start(s) + codec::data_table(s.take(i)).len());
    assert(codec::key_table_start(s) + codec::key_table(s.take(i)).len() <= codec::data_table_start(s));
    lemma_key(b, v, i);
    lemma_value(b, v, i);
    lemma_entry_of(b, h, x, s[i].0, s[i].1);
}

/// The first `n` entries are read back.
proof fn lemma_entries(b: Seq<u8>, v: SfoView, n: nat)
    requires
        good(v),
        laid_out(b, v),
        n <= v.entries.len(),
    ensures
        codec::parse_entries(
            b,
            header_of(v),
            Seq::new(n, |i: int| record_of(v.entries, i)),
        ) == Ok::<Listing, ErrorView>(v.entries.take(n as int)),
    decreases n,
{
    let xs = Seq::new(n, |i: int| record_of(v.entries, i));
    if n == 0 {
        assert(v.entries.take(0) =~= Seq::empty());
    } else {
        lemma_entries(b, v, (n - 1) as nat);
        lemma_entry(b, v, n - 1);
        assert(xs.drop_last() =~= Seq::new((n - 1) as nat, |i: int| record_of(v.entries, i)));
        assert(v.entries.take(n as int) =~= v.entries.take(n - 1).push(v.entries[n - 1]));
    }
}

/// What is written is read back, with the keys in upper case: every key that was written comes
/// back as the key that its text makes, with the same data.
///
/// This takes values that fit in their rooms, numbers that fit in their fields, data that reading
/// reaches, and keys without a zero character.
pub proof fn law_read_back_in_upper_case(v: SfoView)
    requires
        v.version.len() == 4,
        codec::values_fit(v.entries),
        codec::addressable(v.entries),
        codec::within_reach(v.entries),
        forall|i: int| 0 <= i < v.entries.len() ==> !(#[trigger] v.entries[i]).0.contains('\0'),
    ensures
        codec::decode(codec::encode(v)) == Ok::<SfoView, ErrorView>(
            SfoView {
                version: v.version,
                entries: listing::collect(codec::named(v.entries)),
            },
        ),
{
    let b = codec::encode(v);
    let n = v.entries.len();
    lemma_laid_out(v);
    lemma_header(b, v);
    lemma_index(b, v, n);
    lemma_entries(b, v, n);
    assert(v.entries.take(n as int) =~= v.entries);
}

/// What is written is read back: the file of a PARAM.SFO holds that PARAM.SFO.
///
/// This takes values that fit in their rooms, numbers that fit in their fields, data that reading
/// reaches, and keys that upper case leaves as they are, as it does all that were made from ASCII
/// text.
pub proof fn law_read_back(v: SfoView)
    requires
        v.version.len() == 4,
        listing::ascending(v.entries),
        restorable(v.entries),
    ensures
        codec::decode(codec::encode(v)) == Ok::<SfoView, ErrorView>(v),
{
    let s = v.entries;
    assert forall|i: int| 0 <= i < s.len() implies !(#[trigger] s[i]).0.contains('\0') by {
        assert(stable_key(s[i].0));
    }
    law_read_back_in_upper_case(v);
    assert(codec::named(s) =~= s) by {
        assert forall|i: int| 0 <= i < s.len() implies codec::named(s)[i] == s[i] by {
            assert(stable_key(s[i].0));
        }
    }
    listing::lemma_collect_ascending(s);
}

} // verus!
