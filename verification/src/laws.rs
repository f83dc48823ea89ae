//! What holds of the library as a whole.
use vstd::prelude::*;
use vstd::utf8::*;

use crate::codec;
use crate::codec::SfoView;
use crate::data::DataView;
use crate::error::{Error, ErrorView};
use crate::key;
use crate::key::Key;
use crate::layout;
use crate::listing;
use crate::listing::Listing;
use crate::read_back;
use crate::sfo;
use crate::sfo::VERSION_1_1;
use crate::text;
use crate::trailing;
use crate::value::Value;

verus! {

/// Two PARAM.SFO that are read back never have the same file.
pub proof fn law_files_differ(v: SfoView, w: SfoView)
    requires
        v.version.len() == 4,
        listing::ascending(v.entries),
        read_back::restorable(v.entries),
        w.version.len() == 4,
        listing::ascending(w.entries),
        read_back::restorable(w.entries),
    ensures
        codec::encode(v) == codec::encode(w) ==> v == w,
{
    read_back::law_read_back(v);
    read_back::law_read_back(w);
}

/// What is read from a file, whatever the file, has its keys in order and each of them once,
/// and a version of four bytes.
pub proof fn law_read_in_order(b: Seq<u8>)
    ensures
        codec::decode(b) matches Ok(v) ==> listing::ascending(v.entries)
            && v.version.len() == 4,
{
    if let Ok((version, items)) = codec::parse(b) {
        listing::lemma_collect(codec::named(items));
    }
}

/// Of the entries of a file with the same key, the last one in the index table is what the
/// key has.
pub proof fn law_read_last_counts(b: Seq<u8>, name: Seq<char>)
    ensures
        codec::parse(b) matches Ok((version, items)) ==> (codec::decode(b) matches Ok(v)
            && listing::lookup(v.entries, name) == listing::lookup(codec::named(items), name)),
{
    if let Ok((version, items)) = codec::parse(b) {
        listing::lemma_collect(codec::named(items));
    }
}

/// Bytes that are put behind a file change nothing of what is read from it.
pub proof fn law_trailing_bytes(b: Seq<u8>, more: Seq<u8>)
    ensures
        codec::decode(b) is Ok ==> codec::decode(b + more) == codec::decode(b),
{
    trailing::lemma_header(b, more);
    if let Ok(h) = codec::parse_header(b) {
        trailing::lemma_index(b, more, h.tables_entries as nat);
        if let Ok(xs) = codec::parse_index(b, h.tables_entries as nat) {
            trailing::lemma_entries(b, more, h, xs);
        }
    }
}

/// In the table of data every entry takes exactly the room that is kept for it.
pub proof fn law_data_room(s: Listing, i: int)
    requires
        codec::values_fit(s),
        0 <= i < s.len(),
    ensures
        codec::data_table(s.take(i + 1)).len() == codec::data_table(s.take(i)).len()
            + s[i].1.max_len,
{
    layout::lemma_step(s, i);
    layout::lemma_block_len(s[i].1);
}

/// A file has the lengths of its parts.
pub proof fn law_file_len(v: SfoView)
    requires
        v.version.len() == 4,
    ensures
        codec::encode(v).len() == codec::HEADER_LEN + codec::RECORD_LEN * v.entries.len()
            + codec::key_table(v.entries).len() + codec::key_padding(v.entries)
            + codec::data_table(v.entries).len(),
{
    layout::lemma_index_len(v.entries);
}

/// Both tables start at multiples of four, and at least one zero byte stands between them.
pub proof fn law_aligned(s: Listing)
    ensures
        codec::key_table_start(s) % 4 == 0,
        codec::data_table_start(s) % 4 == 0,
        1 <= codec::key_padding(s) <= 4,
{
    layout::lemma_index_len(s);
}

/// An entry that is put in is found, and the others are what they were.
pub proof fn law_insert(s: Listing, name: Seq<char>, data: DataView, other: Seq<char>)
    requires
        listing::ascending(s),
    ensures
        listing::ascending(listing::with_entry(s, name, data)),
        listing::lookup(listing::with_entry(s, name, data), name) == Some(data),
        other != name ==> listing::lookup(listing::with_entry(s, name, data), other)
            == listing::lookup(s, other),
{
    listing::lemma_with_entry_ascending(s, name, data);
    listing::lemma_with_entry_lookup(s, name, data, name);
    listing::lemma_with_entry_lookup(s, name, data, other);
}

/// An entry that is taken out is gone, and the others are what they were.
pub proof fn law_remove(s: Listing, name: Seq<char>, other: Seq<char>)
    requires
        listing::ascending(s),
    ensures
        listing::ascending(listing::without(s, name)),
        listing::lookup(listing::without(s, name), name) is None,
        other != name ==> listing::lookup(listing::without(s, name), other) == listing::lookup(
            s,
            other,
        ),
{
    listing::lemma_without_ascending(s, name);
    listing::lemma_without_lookup(s, name, name);
    listing::lemma_without_lookup(s, name, other);
}

/// Taking out a key that was just put in for the first time gives back what was there before.
pub proof fn law_insert_remove(s: Listing, name: Seq<char>, data: DataView)
    requires
        listing::ascending(s),
        listing::lookup(s, name) is None,
    ensures
        listing::without(listing::with_entry(s, name, data), name) == s,
{
    let t = listing::with_entry(s, name, data);
    listing::lemma_with_entry_ascending(s, name, data);
    listing::lemma_without_ascending(t, name);
    assert forall|k: Seq<char>| #[trigger]
        listing::lookup(listing::without(t, name), k) == listing::lookup(s, k) by {
        listing::lemma_without_lookup(t, name, k);
        listing::lemma_with_entry_lookup(s, name, data, k);
    }
    listing::lemma_ascending_unique(listing::without(t, name), s);
}

/// The order of items with distinct keys does not matter: the same items make the same
/// entries.
pub proof fn law_items_in_any_order(p: Listing, q: Listing)
    requires
        listing::distinct_keys(p),
        listing::distinct_keys(q),
        forall|i: int| 0 <= i < p.len() ==> q.contains(#[trigger] p[i]),
        forall|i: int| 0 <= i < q.len() ==> p.contains(#[trigger] q[i]),
    ensures
        listing::collect(p) == listing::collect(q),
{
    listing::lemma_collect(p);
    listing::lemma_collect(q);
    assert forall|k: Seq<char>| #[trigger]
        listing::lookup(listing::collect(p), k) == listing::lookup(listing::collect(q), k) by {
        let i = listing::lemma_lookup_found(p, k);
        let j = listing::lemma_lookup_found(q, k);
        if listing::lookup(p, k) is Some {
            let m = q.index_of(p[i]);
            assert(q.contains(p[i]));
            listing::lemma_lookup_at(q, m);
        }
        if listing::lookup(q, k) is Some {
            let m = p.index_of(q[j]);
            assert(p.contains(q[j]));
            listing::lemma_lookup_at(p, m);
        }
    }
    listing::lemma_ascending_unique(listing::collect(p), listing::collect(q));
}

/// One part is among the given ones.
pub open spec fn has_part(
    keys: Seq<String>,
    values: Seq<Value>,
    max_lens: Seq<u32>,
    name: Seq<char>,
    value: Value,
    max_len: u32,
) -> bool {
    exists|j: int|
        0 <= j < keys.len() && (#[trigger] keys[j])@ == name && values[j]@ == value@ && max_lens[j]
            == max_len
}

/// All parts are valid exactly when each of them is.
proof fn lemma_parts_ok(keys: Seq<String>, values: Seq<Value>, max_lens: Seq<u32>, n: nat)
    ensures
        sfo::parts_error(keys, values, max_lens, n) is None <==> forall|i: int|
            0 <= i < n ==> sfo::part_error((#[trigger] keys[i])@, values[i], max_lens[i]) is None,
    decreases n,
{
    if n > 0 {
        lemma_parts_ok(keys, values, max_lens, (n - 1) as nat);
    }
}

/// Of parts that are all among others, the items are among theirs, and where those are valid,
/// these are.
proof fn lemma_parts_among(
    keys: Seq<String>,
    values: Seq<Value>,
    max_lens: Seq<u32>,
    keys2: Seq<String>,
    values2: Seq<Value>,
    max_lens2: Seq<u32>,
)
    requires
        forall|i: int|
            0 <= i < keys.len() ==> has_part(
                keys2,
                values2,
                max_lens2,
                (#[trigger] keys[i])@,
                values[i],
                max_lens[i],
            ),
    ensures
        forall|i: int|
            0 <= i < keys.len() ==> sfo::parts_items(keys2, values2, max_lens2).contains(
                #[trigger] sfo::parts_items(keys, values, max_lens)[i],
            ),
        sfo::parts_error(keys2, values2, max_lens2, keys2.len()) is None ==> sfo::parts_error(
            keys,
            values,
            max_lens,
            keys.len(),
        ) is None,
{
    let p = sfo::parts_items(keys, values, max_lens);
    let q = sfo::parts_items(keys2, values2, max_lens2);
    lemma_parts_ok(keys, values, max_lens, keys.len());
    lemma_parts_ok(keys2, values2, max_lens2, keys2.len());
    assert forall|i: int| 0 <= i < keys.len() implies q.contains(#[trigger] p[i]) && exists|j: int|
        0 <= j < keys2.len() && sfo::part_error((#[trigger] keys2[j])@, values2[j], max_lens2[j])
            == sfo::part_error(keys[i]@, values[i], max_lens[i]) by {
        assert(has_part(keys2, values2, max_lens2, keys[i]@, values[i], max_lens[i]));
        let j = choose|j: int|
            0 <= j < keys2.len() && (#[trigger] keys2[j])@ == keys[i]@ && values2[j]@
                == values[i]@ && max_lens2[j] == max_lens[i];
        assert(q[j] == p[i]);
    }
    assert forall|i: int|
        0 <= i < keys.len() && sfo::parts_error(keys2, values2, max_lens2, keys2.len())
            is None implies sfo::part_error((#[trigger] keys[i])@, values[i], max_lens[i])
        is None by {
        assert(q.contains(p[i]));
    }
}

/// The parts of a PARAM.SFO may be given in any order: where their keys are distinct, the same
/// parts are accepted or refused in whatever order, and make the same entries.
pub proof fn law_parts_in_any_order(
    keys: Seq<String>,
    values: Seq<Value>,
    max_lens: Seq<u32>,
    keys2: Seq<String>,
    values2: Seq<Value>,
    max_lens2: Seq<u32>,
)
    requires
        keys.len() == values.len() == max_lens.len(),
        keys2.len() == values2.len() == max_lens2.len(),
        listing::distinct_keys(sfo::parts_items(keys, values, max_lens)),
        listing::distinct_keys(sfo::parts_items(keys2, values2, max_lens2)),
        forall|i: int|
            0 <= i < keys.len() ==> has_part(
                keys2,
                values2,
                max_lens2,
                (#[trigger] keys[i])@,
                values[i],
                max_lens[i],
            ),
        forall|i: int|
            0 <= i < keys2.len() ==> has_part(
                keys,
                values,
                max_lens,
                (#[trigger] keys2[i])@,
                values2[i],
                max_lens2[i],
            ),
    ensures
        sfo::parts_error(keys, values, max_lens, keys.len()) is None <==> sfo::parts_error(
            keys2,
            values2,
            max_lens2,
            keys2.len(),
        ) is None,
        listing::collect(sfo::parts_items(keys, values, max_lens)) == listing::collect(
            sfo::parts_items(keys2, values2, max_lens2),
        ),
{
    let p = sfo::parts_items(keys, values, max_lens);
    let q = sfo::parts_items(keys2, values2, max_lens2);
    lemma_parts_among(keys, values, max_lens, keys2, values2, max_lens2);
    lemma_parts_among(keys2, values2, max_lens2, keys, values, max_lens);
    law_items_in_any_order(p, q);
}

/// Every entry that is put together from items is one of them.
proof fn lemma_collect_from(items: Listing, i: int)
    requires
        0 <= i < listing::collect(items).len(),
    ensures
        items.contains(listing::collect(items)[i]),
{
    let s = listing::collect(items);
    listing::lemma_collect(items);
    listing::lemma_ascending_distinct(s);
    listing::lemma_lookup_at(s, i);
    assert(listing::lookup(s, s[i].0) == listing::lookup(items, s[i].0));
    let j = listing::lemma_lookup_found(items, s[i].0);
    assert(items[j] == s[i]);
}

/// What is made from valid parts has its keys in order, and every value fits in its room.
pub proof fn law_parts_fit(keys: Seq<String>, values: Seq<Value>, max_lens: Seq<u32>)
    requires
        keys.len() == values.len() == max_lens.len(),
        sfo::parts_error(keys, values, max_lens, keys.len()) is None,
    ensures
        ({
            let s = listing::collect(sfo::parts_items(keys, values, max_lens));
            listing::ascending(s) && codec::values_fit(s)
        }),
{
    let items = sfo::parts_items(keys, values, max_lens);
    let s = listing::collect(items);
    listing::lemma_collect(items);
    lemma_parts_ok(keys, values, max_lens, keys.len());
    assert forall|i: int| 0 <= i < s.len() implies (#[trigger] s[i]).1.fits() by {
        lemma_collect_from(items, i);
        let j = items.index_of(s[i]);
        assert(sfo::part_error(keys[j]@, values[j], max_lens[j]) is None);
    }
}

/// A key that was made from ASCII text has no lower-case letter, and stays what it is when a
/// key is made from it.
pub proof fn law_ascii_key_stable(name: Seq<char>)
    requires
        is_ascii_chars(name),
        key::valid_key_text(name),
    ensures
        forall|i: int|
            0 <= i < text::uppercase(name).len() ==> !('a' <= #[trigger] text::uppercase(name)[i]
                <= 'z'),
        key::valid_key_text(text::uppercase(name)),
        read_back::stable_key(text::uppercase(name)),
{
    text::lemma_uppercase_ascii(name);
    is_ascii_chars_encode_utf8(name);
    is_ascii_chars_encode_utf8(text::uppercase(name));
}

/// Texts with the same upper-case form make the same key.
pub proof fn law_key_case(a: Seq<char>, b: Seq<char>, x: Result<Key, Error>, y: Result<Key, Error>)
    requires
        key::valid_key_text(a),
        key::valid_key_text(b),
        text::uppercase(a) == text::uppercase(b),
        key::key_result(a, x),
        key::key_result(b, y),
    ensures
        x matches Ok(k) && y matches Ok(l) && k@ == l@,
{
}

/// ASCII texts that differ in case alone make the same key.
pub proof fn law_ascii_key_case(a: Seq<char>, b: Seq<char>)
    requires
        is_ascii_chars(a),
        is_ascii_chars(b),
        a.len() == b.len(),
        forall|i: int|
            0 <= i < a.len() ==> text::ascii_upper(#[trigger] a[i]) == text::ascii_upper(b[i]),
    ensures
        text::uppercase(a) == text::uppercase(b),
{
    assert(text::uppercase(a) =~= text::uppercase(b));
}

/// A file that was read may be written anew: what is read then is what was read before.
///
/// This takes values that fit in their rooms, numbers that fit in their fields, data that reading
/// reaches, and keys that upper case leaves as they are, as it does all that were made from ASCII
/// text.
pub proof fn law_rewritten(b: Seq<u8>, v: SfoView)
    requires
        codec::decode(b) == Ok::<SfoView, ErrorView>(v),
        read_back::restorable(v.entries),
    ensures
        codec::decode(codec::encode(v)) == codec::decode(b),
{
    law_read_in_order(b);
    read_back::law_read_back(v);
}

/// What was written, read and written anew is the same file, byte for byte.
///
/// This takes values that fit in their rooms, numbers that fit in their fields, data that reading
/// reaches, and keys that upper case leaves as they are, as it does all that were made from ASCII
/// text.
pub proof fn law_written_twice(v: SfoView)
    requires
        v.version.len() == 4,
        listing::ascending(v.entries),
        read_back::restorable(v.entries),
    ensures
        codec::decode(codec::encode(v)) matches Ok(w) && codec::values_fit(w.entries)
            && codec::addressable(w.entries) && codec::encode(w) == codec::encode(v),
{
    read_back::law_read_back(v);
}

/// What is made from valid parts is read back from the file that is written of it.
///
/// This takes numbers that fit in their fields, data that reading reaches, and keys that upper
/// case leaves as they are, as it does all that were made from ASCII text.
pub proof fn law_parts_read_back(keys: Seq<String>, values: Seq<Value>, max_lens: Seq<u32>)
    requires
        keys.len() == values.len() == max_lens.len(),
        sfo::parts_error(keys, values, max_lens, keys.len()) is None,
        forall|i: int|
            0 <= i < keys.len() ==> read_back::stable_key(
                text::uppercase((#[trigger] keys[i])@),
            ),
        codec::addressable(listing::collect(sfo::parts_items(keys, values, max_lens))),
        codec::within_reach(listing::collect(sfo::parts_items(keys, values, max_lens))),
    ensures
        ({
            let v = SfoView {
                version: VERSION_1_1@,
                entries: listing::collect(sfo::parts_items(keys, values, max_lens)),
            };
            codec::decode(codec::encode(v)) == Ok::<SfoView, ErrorView>(v)
        }),
{
    let items = sfo::parts_items(keys, values, max_lens);
    let s = listing::collect(items);
    let v = SfoView { version: VERSION_1_1@, entries: s };
    law_parts_fit(keys, values, max_lens);
    assert forall|i: int| 0 <= i < s.len() implies read_back::stable_key(
        (#[trigger] s[i]).0,
    ) by {
        lemma_collect_from(items, i);
        let j = items.index_of(s[i]);
        assert(read_back::stable_key(text::uppercase(keys[j]@)));
    }
    read_back::law_read_back(v);
}

} // verus!
