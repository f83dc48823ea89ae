//! Where the parts of a file stand.
use vstd::prelude::*;
use vstd::utf8::*;

use crate::codec;
use crate::data::DataView;
use crate::listing::Listing;
use crate::value::ValueView;

verus! {

/// A record has the length that the format gives it.
pub proof fn lemma_record_len(key_offset: nat, data_offset: nat, d: DataView)
    ensures
        codec::record(key_offset, data_offset, d).len() == codec::RECORD_LEN,
{
}

/// The length of the index table.
pub proof fn lemma_index_len(s: Listing)
    ensures
        codec::index_table(s).len() == codec::RECORD_LEN * s.len(),
    decreases s.len(),
{
    if s.len() > 0 {
        lemma_index_len(s.drop_last());
    }
}

/// How the tables grow by the entry at `i`.
pub proof fn lemma_step(s: Listing, i: int)
    requires
        0 <= i < s.len(),
    ensures
        codec::key_table(s.take(i + 1)) == codec::key_table(s.take(i)) + encode_utf8(
            s[i].0,
        ).push(0),
        codec::data_table(s.take(i + 1)) == codec::data_table(s.take(i)) + codec::data_block(
            s[i].1,
        ),
        codec::index_table(s.take(i + 1)) == codec::index_table(s.take(i)) + codec::record(
            codec::key_table(s.take(i)).len(),
            codec::data_table(s.take(i)).len(),
            s[i].1,
        ),
{
    let t = s.take(i + 1);
    assert(t.drop_last() =~= s.take(i));
    assert(t.last() == s[i]);
}

/// The tables of the first `i` entries are the beginnings of the whole tables.
pub proof fn lemma_prefix(s: Listing, i: int)
    requires
        0 <= i <= s.len(),
    ensures
        codec::key_table(s.take(i)).is_prefix_of(codec::key_table(s)),
        codec::data_table(s.take(i)).is_prefix_of(codec::data_table(s)),
        codec::index_table(s.take(i)).is_prefix_of(codec::index_table(s)),
    decreases s.len(),
{
    if i == s.len() {
        assert(s.take(i) =~= s);
    } else {
        let rest = s.drop_last();
        lemma_prefix(rest, i);
        assert(rest.take(i) =~= s.take(i));
    }
}

/// The bytes of a value are as many as its length says.
pub proof fn lemma_payload_len(value: ValueView)
    ensures
        value.payload().len() == value.len(),
{
}

/// The block of an entry whose value fits has the length of the room kept for it.
pub proof fn lemma_block_len(d: DataView)
    ensures
        d.fits() ==> codec::data_block(d).len() == d.max_len,
{
    lemma_payload_len(d.value);
}

} // verus!
