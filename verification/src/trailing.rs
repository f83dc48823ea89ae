//! Bytes that are put behind a file do not change what is read from it.
use vstd::prelude::*;

use crate::codec;
use crate::codec::{HeaderView, IndexTableEntry};

verus! {

/// The header stays what it is.
pub proof fn lemma_header(b: Seq<u8>, more: Seq<u8>)
    ensures
        codec::parse_header(b) is Ok ==> codec::parse_header(b + more) == codec::parse_header(b),
{
    if codec::parse_header(b) is Ok {
        assert((b + more).take(4) =~= b.take(4));
        assert((b + more).subrange(4, 8) =~= b.subrange(4, 8));
    }
}

/// The first `n` records stay what they are.
pub proof fn lemma_index(b: Seq<u8>, more: Seq<u8>, n: nat)
    ensures
        codec::parse_index(b, n) is Ok ==> codec::parse_index(b + more, n) == codec::parse_index(
            b,
            n,
        ),
    decreases n,
{
    if n > 0 {
        lemma_index(b, more, (n - 1) as nat);
    }
}

/// The first zero byte stays where it is.
proof fn lemma_zero_from(b: Seq<u8>, more: Seq<u8>, at: int)
    requires
        0 <= at,
    ensures
        codec::zero_from(b, at) matches Some(end) ==> at <= end < b.len() && codec::zero_from(
            b + more,
            at,
        ) == Some(end),
    decreases b.len() - at,
{
    if at < b.len() && b[at] != 0 {
        lemma_zero_from(b, more, at + 1);
    }
}

/// An entry stays what it is.
proof fn lemma_entry(b: Seq<u8>, more: Seq<u8>, h: HeaderView, x: IndexTableEntry)
    ensures
        codec::parse_entry(b, h, x) is Ok ==> codec::parse_entry(b + more, h, x)
            == codec::parse_entry(b, h, x),
{
    if codec::parse_entry(b, h, x) is Ok {
        let key_at = x.key_offset + h.key_table_start;
        let data_at = x.data_offset + h.data_table_start;
        lemma_zero_from(b, more, key_at);
        if let Some(end) = codec::zero_from(b, key_at) {
            assert((b + more).subrange(key_at, end) =~= b.subrange(key_at, end));
        }
        if x.data_len > 0 {
            assert((b + more).subrange(data_at, data_at + x.data_len) =~= b.subrange(
                data_at,
                data_at + x.data_len,
            ));
        }
    }
}

/// The entries that the records describe stay what they are.
pub proof fn lemma_entries(b: Seq<u8>, more: Seq<u8>, h: HeaderView, xs: Seq<IndexTableEntry>)
    ensures
        codec::parse_entries(b, h, xs) is Ok ==> codec::parse_entries(b + more, h, xs)
            == codec::parse_entries(b, h, xs),
    decreases xs.len(),
{
    if xs.len() > 0 {
        lemma_entries(b, more, h, xs.drop_last());
        lemma_entry(b, more, h, xs.last());
    }
}

} // verus!
