//! What stands where in a file that is written, byte by byte, and what is refused.
use vstd::prelude::*;
use vstd::utf8::*;

use crate::bytes;
use crate::codec;
use crate::codec::SfoView;
use crate::layout;
use crate::listing::Listing;
use crate::read_back;

verus! {

/// The keys stand one behind the other, each in UTF-8 with a zero byte behind it.
pub proof fn law_keys_in_a_row(s: Listing, i: int)
    requires
        0 <= i < s.len(),
    ensures
        codec::key_table(s.take(0)).len() == 0,
        codec::key_table(s.take(i + 1)) == codec::key_table(s.take(i)) + encode_utf8(s[i].0) + seq![
            0u8,
        ],
{
    layout::lemma_step(s, i);
    assert(codec::key_table(s.take(i + 1)) =~= codec::key_table(s.take(i)) + encode_utf8(s[i].0)
        + seq![0u8]);
}

/// The data stand one behind the other, each with its bytes and with zeros up to its maximum
/// length.
pub proof fn law_data_in_a_row(s: Listing, i: int, j: int)
    requires
        0 <= i < s.len(),
        s[i].1.value.payload().len() <= s[i].1.max_len,
        0 <= j < s[i].1.max_len,
    ensures
        ({
            let before = codec::data_table(s.take(i));
            let after = codec::data_table(s.take(i + 1));
            let value = s[i].1.value.payload();
            &&& codec::data_table(s.take(0)).len() == 0
            &&& after.len() == before.len() + s[i].1.max_len
            &&& after.take(before.len() as int) == before
            &&& j < value.len() ==> after[before.len() + j] == value[j]
            &&& j >= value.len() ==> after[before.len() + j] == 0
        }),
{
    layout::lemma_step(s, i);
    layout::lemma_payload_len(s[i].1.value);
    layout::lemma_block_len(s[i].1);
    let before = codec::data_table(s.take(i));
    assert(codec::data_table(s.take(i + 1)).take(before.len() as int) =~= before);
}

/// The tables start behind the 20 bytes of the header and the 16 of each record, and at the
/// first multiple of four behind the keys.
pub proof fn law_starts(s: Listing)
    ensures
        codec::key_table_start(s) == 20 + 16 * s.len(),
        codec::data_table_start(s) % 4 == 0,
        codec::key_table_start(s) + codec::key_table(s).len() < codec::data_table_start(s)
            <= codec::key_table_start(s) + codec::key_table(s).len() + 4,
{
    layout::lemma_index_len(s);
}

/// The numbers of the header, as they stand in the file.
proof fn lemma_header_numbers(v: SfoView)
    requires
        v.version.len() == 4,
    ensures
        ({
            let f = codec::encode(v);
            let s = v.entries;
            &&& f.len() == codec::data_table_start(s) + codec::data_table(s).len()
            &&& f.len() >= 20
            &&& f[0] == 0 && f[1] == 0x50 && f[2] == 0x53 && f[3] == 0x46
            &&& f.subrange(4, 8) == v.version
            &&& bytes::u32_at(f, 8) == codec::key_table_start(s) as u32
            &&& bytes::u32_at(f, 12) == codec::data_table_start(s) as u32
            &&& bytes::u32_at(f, 16) == s.len() as u32
        }),
{
    let f = codec::encode(v);
    let s = v.entries;
    let h = f.subrange(0, 20);
    read_back::lemma_laid_out(v);
    assert(h == codec::header(v));
    assert(f[0] == h[0] && f[1] == h[1] && f[2] == h[2] && f[3] == h[3]);
    assert(f.subrange(4, 8) =~= v.version) by {
        assert(f.subrange(4, 8) =~= h.subrange(4, 8));
        assert(h.subrange(4, 8) =~= v.version);
    }
    assert(bytes::u32_at(f, 8) == codec::key_table_start(s) as u32) by {
        assert(f.subrange(8, 12) =~= h.subrange(8, 12));
        assert(h.subrange(8, 12) =~= bytes::le32(codec::key_table_start(s) as u32));
        bytes::lemma_u32_at(f, 8, codec::key_table_start(s) as u32);
    }
    assert(bytes::u32_at(f, 12) == codec::data_table_start(s) as u32) by {
        assert(f.subrange(12, 16) =~= h.subrange(12, 16));
        assert(h.subrange(12, 16) =~= bytes::le32(codec::data_table_start(s) as u32));
        bytes::lemma_u32_at(f, 12, codec::data_table_start(s) as u32);
    }
    assert(bytes::u32_at(f, 16) == s.len() as u32) by {
        assert(f.subrange(16, 20) =~= h.subrange(16, 20));
        assert(h.subrange(16, 20) =~= bytes::le32(s.len() as u32));
        bytes::lemma_u32_at(f, 16, s.len() as u32);
    }
}

/// The numbers of a record, as they stand in the file.
proof fn lemma_record_numbers(v: SfoView, i: int)
    requires
        v.version.len() == 4,
        0 <= i < v.entries.len(),
    ensures
        ({
            let f = codec::encode(v);
            let s = v.entries;
            let at = 20 + 16 * i;
            &&& at + 16 <= f.len()
            &&& bytes::u16_at(f, at) == codec::key_table(s.take(i)).len() as u16
            &&& bytes::u16_at(f, at + 2) == s[i].1.value.fmt().spec_code()
            &&& bytes::u32_at(f, at + 4) == s[i].1.value.len() as u32
            &&& bytes::u32_at(f, at + 8) == s[i].1.max_len
            &&& bytes::u32_at(f, at + 12) == codec::data_table(s.take(i)).len() as u32
        }),
{
    let f = codec::encode(v);
    let s = v.entries;
    let key_offset = codec::key_table(s.take(i)).len();
    let data_offset = codec::data_table(s.take(i)).len();
    let before = codec::index_table(s.take(i));
    let r = codec::record(key_offset, data_offset, s[i].1);
    read_back::lemma_laid_out(v);
    layout::lemma_step(s, i);
    layout::lemma_prefix(s, i + 1);
    layout::lemma_index_len(s.take(i));
    layout::lemma_record_len(key_offset, data_offset, s[i].1);
    read_back::lemma_segment(f, codec::index_table(s), 20, before, r);
    read_back::lemma_numbers(
        f,
        20 + 16 * i,
        key_offset as u16,
        s[i].1.value.fmt().spec_code(),
        s[i].1.value.len() as u32,
        s[i].1.max_len,
        data_offset as u32,
    );
}

/// A file starts with a zero byte and `PSF`, the version, the starts of the two tables and the
/// number of entries, and ends with the table of data.
pub proof fn law_header_written(v: SfoView)
    requires
        v.version.len() == 4,
        codec::addressable(v.entries),
    ensures
        ({
            let f = codec::encode(v);
            let s = v.entries;
            &&& f.len() == codec::data_table_start(s) + codec::data_table(s).len()
            &&& f[0] == 0 && f[1] == 0x50 && f[2] == 0x53 && f[3] == 0x46
            &&& f.subrange(4, 8) == v.version
            &&& bytes::u32_at(f, 8) == codec::key_table_start(s)
            &&& bytes::u32_at(f, 12) == codec::data_table_start(s)
            &&& bytes::u32_at(f, 16) == s.len()
        }),
{
    lemma_header_numbers(v);
}

/// The record of each entry holds the offset of its key, the number of its format, the length
/// and the maximum length of its value, and the offset of its data.
pub proof fn law_record_written(v: SfoView, i: int)
    requires
        v.version.len() == 4,
        codec::addressable(v.entries),
        0 <= i < v.entries.len(),
        v.entries[i].1.value.payload().len() <= v.entries[i].1.max_len,
    ensures
        ({
            let f = codec::encode(v);
            let s = v.entries;
            let d = s[i].1;
            let at = 20 + 16 * i;
            &&& bytes::u16_at(f, at) == codec::key_table(s.take(i)).len()
            &&& d.value is Bytes ==> bytes::u16_at(f, at + 2) == 0x004
            &&& d.value is Utf8 ==> bytes::u16_at(f, at + 2) == 0x204
            &&& d.value is Int ==> bytes::u16_at(f, at + 2) == 0x404
            &&& bytes::u32_at(f, at + 4) == d.value.payload().len()
            &&& bytes::u32_at(f, at + 8) == d.max_len
            &&& bytes::u32_at(f, at + 12) == codec::data_table(s.take(i)).len()
        }),
{
    let s = v.entries;
    lemma_record_numbers(v, i);
    layout::lemma_payload_len(s[i].1.value);
    assert(codec::key_table(s.take(i)).len() <= u16::MAX);
    assert(codec::data_table(s.take(i)).len() <= u32::MAX);
}

/// The keys stand at the start that the header gives, and zero bytes between them and the data.
pub proof fn law_keys_written(v: SfoView, j: int)
    requires
        v.version.len() == 4,
    ensures
        ({
            let f = codec::encode(v);
            let s = v.entries;
            let start = codec::key_table_start(s);
            let end = start + codec::key_table(s).len();
            &&& start <= j < end ==> f[j] == codec::key_table(s)[j - start]
            &&& end <= j < codec::data_table_start(s) ==> f[j] == 0
        }),
{
    let s = v.entries;
    layout::lemma_index_len(s);
}

/// The data stand at the start that the header gives, up to the end of the file.
pub proof fn law_data_written(v: SfoView, j: int)
    requires
        v.version.len() == 4,
    ensures
        ({
            let f = codec::encode(v);
            let s = v.entries;
            let start = codec::data_table_start(s);
            start <= j < f.len() ==> f[j] == codec::data_table(s)[j - start]
        }),
{
    let s = v.entries;
    layout::lemma_index_len(s);
}

/// The key of an entry stands where its record says, from the start that the header says, with
/// a zero byte behind it.
pub proof fn law_key_where_record_says(v: SfoView, i: int)
    requires
        v.version.len() == 4,
        codec::addressable(v.entries),
        0 <= i < v.entries.len(),
    ensures
        ({
            let f = codec::encode(v);
            let name = encode_utf8(v.entries[i].0);
            let at = bytes::u32_at(f, 8) + bytes::u16_at(f, 20 + 16 * i);
            &&& at + name.len() < bytes::u32_at(f, 12)
            &&& f.subrange(at, at + name.len()) == name
            &&& f[at + name.len()] == 0
        }),
{
    let f = codec::encode(v);
    let s = v.entries;
    let before = codec::key_table(s.take(i));
    let name = encode_utf8(s[i].0);
    lemma_header_numbers(v);
    lemma_record_numbers(v, i);
    assert(codec::key_table(s.take(i)).len() <= u16::MAX);
    read_back::lemma_laid_out(v);
    layout::lemma_step(s, i);
    layout::lemma_prefix(s, i + 1);
    let start = codec::key_table_start(s);
    read_back::lemma_segment(f, codec::key_table(s), start, before, name.push(0));
    let at = start + before.len();
    let part = f.subrange(at, at + name.len() + 1);
    assert(f.subrange(at, at + name.len() as int) =~= part.take(name.len() as int));
    assert(part.take(name.len() as int) =~= name);
    assert(f[at + name.len()] == part[name.len() as int]);
}

/// The value of an entry stands where its record says, from the start that the header says,
/// with zeros behind it up to its maximum length.
pub proof fn law_value_where_record_says(v: SfoView, i: int, j: int)
    requires
        v.version.len() == 4,
        codec::addressable(v.entries),
        0 <= i < v.entries.len(),
        v.entries[i].1.value.payload().len() <= v.entries[i].1.max_len,
        0 <= j < v.entries[i].1.max_len,
    ensures
        ({
            let f = codec::encode(v);
            let value = v.entries[i].1.value.payload();
            let at = bytes::u32_at(f, 12) + bytes::u32_at(f, 20 + 16 * i + 12);
            &&& at + v.entries[i].1.max_len <= f.len()
            &&& j < value.len() ==> f[at + j] == value[j]
            &&& j >= value.len() ==> f[at + j] == 0
        }),
{
    let f = codec::encode(v);
    let s = v.entries;
    let before = codec::data_table(s.take(i));
    let block = codec::data_block(s[i].1);
    lemma_header_numbers(v);
    lemma_record_numbers(v, i);
    assert(codec::data_table(s.take(i)).len() <= u32::MAX);
    read_back::lemma_laid_out(v);
    layout::lemma_step(s, i);
    layout::lemma_prefix(s, i + 1);
    layout::lemma_payload_len(s[i].1.value);
    layout::lemma_block_len(s[i].1);
    let start = codec::data_table_start(s);
    read_back::lemma_segment(f, codec::data_table(s), start, before, block);
    let at = start + before.len();
    assert(f[at + j] == f.subrange(at, at + block.len())[j]);
}

/// Writing is refused exactly where a field of the file could not hold its number: the starts
/// of the tables, the number of entries, or the offset of a key or of data.
pub proof fn law_refused_where_a_field_is_too_small(v: SfoView)
    requires
        v.version.len() == 4,
    ensures
        codec::addressable(v.entries) <==> {
            let f = codec::encode(v);
            let s = v.entries;
            &&& bytes::u32_at(f, 8) == codec::key_table_start(s)
            &&& bytes::u32_at(f, 12) == codec::data_table_start(s)
            &&& bytes::u32_at(f, 16) == s.len()
            &&& forall|i: int|
                0 <= i < s.len() ==> bytes::u16_at(f, 20 + 16 * i) == codec::key_table(
                    #[trigger] s.take(i),
                ).len()
            &&& forall|i: int|
                0 <= i < s.len() ==> bytes::u32_at(f, 20 + 16 * i + 12) == codec::data_table(
                    #[trigger] s.take(i),
                ).len()
        },
{
    let s = v.entries;
    lemma_header_numbers(v);
    assert forall|i: int| 0 <= i < s.len() implies bytes::u16_at(codec::encode(v), 20 + 16 * i)
        == codec::key_table(#[trigger] s.take(i)).len() as u16 && bytes::u32_at(
        codec::encode(v),
        20 + 16 * i + 12,
    ) == codec::data_table(s.take(i)).len() as u32 by {
        lemma_record_numbers(v, i);
    }
}

/// Reading reaches the data of all entries exactly when the position of each, the start and the
/// offset together, fits in 32 bits.
pub proof fn law_reach(s: Listing)
    ensures
        codec::within_reach(s) <==> forall|i: int|
            0 <= i < s.len() ==> codec::data_table_start(s) + codec::data_table(
                #[trigger] s.take(i),
            ).len() <= 0xffff_ffff,
{
}

/// Writing can be tried exactly when no value is longer than its maximum length and the file,
/// if there is one, fits in memory.
pub proof fn law_writable(v: SfoView)
    requires
        v.version.len() == 4,
    ensures
        codec::writable(v.entries) <==> {
            &&& forall|i: int|
                0 <= i < v.entries.len() ==> (#[trigger] v.entries[i]).1.value.payload().len()
                    <= v.entries[i].1.max_len
            &&& codec::addressable(v.entries) ==> codec::encode(v).len() <= usize::MAX
        },
        codec::values_fit(v.entries) <==> forall|i: int|
            0 <= i < v.entries.len() ==> (#[trigger] v.entries[i]).1.value.payload().len()
                <= v.entries[i].1.max_len,
{
    let s = v.entries;
    lemma_header_numbers(v);
    assert forall|i: int| 0 <= i < s.len() implies (#[trigger] s[i]).1.value.payload().len()
        == s[i].1.value.len() by {
        layout::lemma_payload_len(s[i].1.value);
    }
}

/// Of entries that are to be read back as they are, four things are asked: no value is longer
/// than its maximum length, no field is too small, reading reaches all data, and every key is the
/// key that its own text makes.
pub proof fn law_restorable(s: Listing)
    ensures
        read_back::restorable(s) <==> codec::values_fit(s) && codec::addressable(s)
            && codec::within_reach(s) && forall|i: int|
            0 <= i < s.len() ==> read_back::stable_key((#[trigger] s[i]).0),
{
}

} // verus!
