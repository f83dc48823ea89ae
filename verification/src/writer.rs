//! From entries to bytes.
use vstd::prelude::*;
use vstd::utf8::*;

use crate::bytes;
use crate::codec;
use crate::codec::{SfoView, HEADER_LEN, MAGIC, RECORD_LEN};
use crate::data::Data;
use crate::entries::Entries;
use crate::layout;
use crate::listing::Listing;
use crate::read_back;

verus! {

/// Appends the record of an entry whose key and data stand at these offsets.
fn put_record(out: &mut Vec<u8>, key_offset: u16, data_offset: u32, data: &Data)
    requires
        data@.fits(),
    ensures
        final(out)@ == old(out)@ + codec::record(key_offset as nat, data_offset as nat, data@),
{
    bytes::put_u16(out, key_offset);
    bytes::put_u16(out, data.value().data_fmt().code());
    bytes::put_u32(out, data.value().len());
    bytes::put_u32(out, data.max_len());
    bytes::put_u32(out, data_offset);
    assert(out@ =~= old(out)@ + codec::record(key_offset as nat, data_offset as nat, data@));
}

/// Appends the value of an entry, and zeros for the room that it leaves.
fn put_block(out: &mut Vec<u8>, data: &Data)
    requires
        data@.fits(),
        old(out)@.len() + codec::data_block(data@).len() <= usize::MAX,
    ensures
        final(out)@ == old(out)@ + codec::data_block(data@),
{
    data.value().put_payload(out);
    let data_zero_bytes: usize = (data.max_len() - data.value().len()) as usize;
    bytes::put_zeros(out, data_zero_bytes);
    assert(out@ =~= old(out)@ + codec::data_block(data@));
}

/// The header.
fn header(
    version: &[u8; 4],
    key_table_start: u32,
    data_table_start: u32,
    tables_entries: u32,
) -> (r: Vec<u8>)
    ensures
        r@ == MAGIC@ + version@ + bytes::le32(key_table_start) + bytes::le32(data_table_start)
            + bytes::le32(tables_entries),
{
    let mut out: Vec<u8> = Vec::new();
    bytes::put_slice(&mut out, MAGIC.as_slice());
    bytes::put_slice(&mut out, version.as_slice());
    bytes::put_u32(&mut out, key_table_start);
    bytes::put_u32(&mut out, data_table_start);
    bytes::put_u32(&mut out, tables_entries);
    assert(out@ =~= MAGIC@ + version@ + bytes::le32(key_table_start) + bytes::le32(
        data_table_start,
    ) + bytes::le32(tables_entries));
    out
}

/// The bytes of a file in which every number fits in its field.
pub(crate) fn write(version: &[u8; 4], entries: &Entries) -> (r: Vec<u8>)
    requires
        codec::writable(entries@),
        codec::addressable(entries@),
    ensures
        r@ == codec::encode(SfoView { version: version@, entries: entries@ }),
{
    let ghost s = entries@;
    let mut key_table: Vec<u8> = Vec::new();
    let mut data_table: Vec<u8> = Vec::new();
    let mut index_table: Vec<u8> = Vec::new();
    let count: usize = entries.len();
    let mut i: usize = 0;
    assert(s.take(0) =~= Seq::empty());
    while i < count
        invariant
            i <= count,
            s == entries@,
            count == s.len(),
            codec::writable(s),
            codec::addressable(s),
            key_table@ == codec::key_table(s.take(i as int)),
            data_table@ == codec::data_table(s.take(i as int)),
            index_table@ == codec::index_table(s.take(i as int)),
        decreases count - i,
    {
        proof {
            layout::lemma_step(s, i as int);
            layout::lemma_prefix(s, i + 1);
        }
        assert(codec::key_table(s.take(i as int)).len() <= u16::MAX);
        assert(codec::data_table(s.take(i as int)).len() <= u32::MAX);
        put_record(
            &mut index_table,
            key_table.len() as u16,
            data_table.len() as u32,
            entries.data_at(i),
        );

        let ghost before = key_table@;
        bytes::put_slice(&mut key_table, entries.key_at(i).as_str().as_bytes());
        key_table.push(0);
        assert(key_table@ =~= before + encode_utf8(s[i as int].0).push(0));

        put_block(&mut data_table, entries.data_at(i));
        i += 1;
    }
    assert(s.take(count as int) =~= s);

    let key_padding: usize = 4 - ((HEADER_LEN + index_table.len() + key_table.len()) % 4);
    let key_table_start: usize = HEADER_LEN + index_table.len();
    let data_table_start: usize = key_table_start + key_table.len() + key_padding;

    let mut out = header(version, key_table_start as u32, data_table_start as u32, count as u32);
    let ghost v = SfoView { version: version@, entries: s };
    assert(out@ == codec::header(v));
    out.append(&mut index_table);
    out.append(&mut key_table);
    bytes::put_zeros(&mut out, key_padding);
    out.append(&mut data_table);
    assert(out@ =~= codec::encode(v));
    out
}

/// The length of the file, if every number in it fits in its field.
pub(crate) fn file_len(entries: &Entries) -> (r: Option<u128>)
    requires
        codec::values_fit(entries@),
    ensures
        match r {
            Some(n) => codec::addressable(entries@) && n == codec::data_table_start(entries@)
                + codec::data_table(entries@).len(),
            None => !codec::addressable(entries@),
        },
{
    let ghost s = entries@;
    let mut keys_len: u128 = 0;
    let mut data_len: u128 = 0;
    let count: usize = entries.len();
    let mut i: usize = 0;
    assert(s.take(0) =~= Seq::empty());
    while i < count
        invariant
            i <= count,
            s == entries@,
            count == s.len(),
            codec::values_fit(s),
            keys_len == codec::key_table(s.take(i as int)).len(),
            keys_len <= 0x1_0000 + usize::MAX,
            data_len == codec::data_table(s.take(i as int)).len(),
            data_len <= 0x2_0000_0000,
            forall|j: int|
                0 <= j < i ==> codec::key_table(#[trigger] s.take(j)).len() <= u16::MAX,
            forall|j: int|
                0 <= j < i ==> codec::data_table(#[trigger] s.take(j)).len() <= u32::MAX,
        decreases count - i,
    {
        if keys_len > u16::MAX as u128 || data_len > u32::MAX as u128 {
            assert(codec::key_table(s.take(i as int)).len() > u16::MAX || codec::data_table(
                s.take(i as int),
            ).len() > u32::MAX);
            return None;
        }
        proof {
            layout::lemma_step(s, i as int);
            layout::lemma_block_len(s[i as int].1);
        }
        let key_len: usize = entries.key_at(i).as_str().as_bytes().len();
        keys_len = keys_len + key_len as u128 + 1;
        data_len = data_len + entries.data_at(i).max_len() as u128;
        i += 1;
    }
    assert(s.take(count as int) =~= s);
    proof {
        layout::lemma_index_len(s);
    }
    let key_table_start: u128 = HEADER_LEN as u128 + RECORD_LEN as u128 * count as u128;
    let key_padding: u128 = 4 - (key_table_start + keys_len) % 4;
    let data_table_start: u128 = key_table_start + keys_len + key_padding;
    if data_table_start > u32::MAX as u128 {
        return None;
    }
    Some(data_table_start + data_len)
}

/// Whether every value fits in its room.
fn values_fit(entries: &Entries) -> (r: bool)
    ensures
        r == codec::values_fit(entries@),
{
    let ghost s = entries@;
    let count: usize = entries.len();
    let mut i: usize = 0;
    while i < count
        invariant
            i <= count,
            s == entries@,
            count == s.len(),
            forall|j: int| 0 <= j < i ==> (#[trigger] s[j]).1.fits(),
        decreases count - i,
    {
        let data = entries.data_at(i);
        if !data.value().fits(data.max_len()) {
            assert(!s[i as int].1.fits());
            return false;
        }
        i += 1;
    }
    true
}

/// Whether writing the entries can be tried.
pub(crate) fn is_writable(entries: &Entries) -> (r: bool)
    ensures
        r == codec::writable(entries@),
{
    values_fit(entries) && match file_len(entries) {
        Some(len) => len <= usize::MAX as u128,
        None => true,
    }
}

/// Reading reaches the data of all entries exactly when it reaches those of the last.
proof fn lemma_within_reach(s: Listing)
    requires
        codec::values_fit(s),
        s.len() > 0,
    ensures
        codec::within_reach(s) <==> codec::data_table_start(s) + codec::data_table(s).len()
            - s.last().1.max_len <= u32::MAX,
{
    let n = s.len() as int;
    layout::lemma_step(s, n - 1);
    layout::lemma_block_len(s.last().1);
    assert(s.take(n) =~= s);
    let last = codec::data_table(s.take(n - 1)).len();
    assert(last == codec::data_table(s).len() - s.last().1.max_len);
    assert forall|i: int| 0 <= i < n implies codec::data_table(#[trigger] s.take(i)).len()
        <= last by {
        layout::lemma_prefix(s.take(n - 1), i);
        assert(s.take(n - 1).take(i) =~= s.take(i));
    }
}

/// Whether every key is what a key read from its own text would be.
fn keys_stable(entries: &Entries) -> (r: bool)
    ensures
        r == forall|i: int|
            0 <= i < entries@.len() ==> read_back::stable_key((#[trigger] entries@[i]).0),
{
    let ghost s = entries@;
    let count: usize = entries.len();
    let mut i: usize = 0;
    while i < count
        invariant
            i <= count,
            s == entries@,
            count == s.len(),
            forall|j: int| 0 <= j < i ==> read_back::stable_key((#[trigger] s[j]).0),
        decreases count - i,
    {
        if !entries.key_at(i).is_stable() {
            assert(!read_back::stable_key(s[i as int].0));
            return false;
        }
        i += 1;
    }
    true
}

/// Whether what is written of the entries is read back as it is.
pub(crate) fn is_restorable(entries: &Entries) -> (r: bool)
    ensures
        r == read_back::restorable(entries@),
{
    if !values_fit(entries) || !keys_stable(entries) {
        return false;
    }
    match file_len(entries) {
        None => false,
        Some(len) => {
            let count: usize = entries.len();
            if count == 0 {
                true
            } else {
                proof {
                    lemma_within_reach(entries@);
                }
                len - entries.data_at(count - 1).max_len() as u128 <= u32::MAX as u128
            }
        },
    }
}

} // verus!
