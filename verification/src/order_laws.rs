//! What the order of keys and the map of entries are: alphabetical order, and a map.
use vstd::prelude::*;
use vstd::utf8::*;

use crate::data::DataView;
use crate::listing;
use crate::listing::Listing;
use crate::order;

verus! {

/// The smaller byte at the first difference decides.
pub proof fn law_smaller_byte_first(a: Seq<u8>, b: Seq<u8>, i: int)
    requires
        0 <= i < a.len(),
        i < b.len(),
        a.take(i) == b.take(i),
        a[i] < b[i],
    ensures
        order::precedes(a, b),
        !order::precedes(b, a),
    decreases i,
{
    if i > 0 {
        assert(a.take(i)[0] == a[0] && b.take(i)[0] == b[0]);
        assert(a.drop_first().take(i - 1) =~= a.take(i).drop_first());
        assert(b.drop_first().take(i - 1) =~= b.take(i).drop_first());
        law_smaller_byte_first(a.drop_first(), b.drop_first(), i - 1);
    }
}

/// What is only the beginning of something comes before it.
pub proof fn law_beginning_first(a: Seq<u8>, b: Seq<u8>)
    requires
        a.len() < b.len(),
        b.take(a.len() as int) == a,
    ensures
        order::precedes(a, b),
        !order::precedes(b, a),
    decreases a.len(),
{
    if a.len() > 0 {
        assert(b.take(a.len() as int)[0] == b[0]);
        assert(b.drop_first().take(a.len() - 1) =~= b.take(a.len() as int).drop_first());
        law_beginning_first(a.drop_first(), b.drop_first());
    }
}

/// Where one sequence of bytes comes before another, they differ at a first place and the
/// smaller byte is in the first of them, or the first is the beginning of the other.
pub proof fn law_order_of_bytes(a: Seq<u8>, b: Seq<u8>)
    ensures
        order::precedes(a, b) <==> {
            ||| a.len() < b.len() && b.take(a.len() as int) == a
            ||| exists|i: int|
                0 <= i < a.len() && i < b.len() && a.take(i) == b.take(i) && #[trigger] a[i] < b[i]
        },
    decreases a.len(),
{
    if a.len() < b.len() && b.take(a.len() as int) == a {
        law_beginning_first(a, b);
    }
    if exists|i: int|
        0 <= i < a.len() && i < b.len() && a.take(i) == b.take(i) && #[trigger] a[i] < b[i] {
        let i = choose|i: int|
            0 <= i < a.len() && i < b.len() && a.take(i) == b.take(i) && #[trigger] a[i] < b[i];
        law_smaller_byte_first(a, b, i);
    }
    if order::precedes(a, b) {
        if a.len() == 0 {
            assert(b.take(0) =~= a);
        } else if a[0] != b[0] {
            assert(a.take(0) =~= b.take(0));
        } else {
            let c = a.drop_first();
            let d = b.drop_first();
            law_order_of_bytes(c, d);
            if c.len() < d.len() && d.take(c.len() as int) == c {
                assert forall|j: int| 0 <= j < a.len() implies b[j] == a[j] by {
                    if j > 0 {
                        assert(d.take(c.len() as int)[j - 1] == c[j - 1]);
                    }
                }
                assert(b.take(a.len() as int) =~= a);
            } else {
                let i = choose|i: int|
                    0 <= i < c.len() && i < d.len() && c.take(i) == d.take(i) && #[trigger] c[i]
                        < d[i];
                assert(a.take(i + 1) =~= seq![a[0]] + c.take(i));
                assert(b.take(i + 1) =~= seq![b[0]] + d.take(i));
                assert(a[i + 1] < b[i + 1]);
            }
        }
    }
}

/// Keys stand in the order of their bytes in UTF-8.
pub proof fn law_order_of_keys(a: Seq<char>, b: Seq<char>)
    ensures
        order::key_precedes(a, b) <==> {
            let x = encode_utf8(a);
            let y = encode_utf8(b);
            ||| x.len() < y.len() && y.take(x.len() as int) == x
            ||| exists|i: int|
                0 <= i < x.len() && i < y.len() && x.take(i) == y.take(i) && #[trigger] x[i] < y[i]
        },
{
    law_order_of_bytes(encode_utf8(a), encode_utf8(b));
}

/// Keys of ASCII text stand in alphabetical order: the smaller character at the first
/// difference decides, and what is only the beginning of another key comes before it.
pub proof fn law_alphabetical(a: Seq<char>, b: Seq<char>, i: int)
    requires
        is_ascii_chars(a),
        is_ascii_chars(b),
        0 <= i < b.len(),
        i <= a.len(),
        a.take(i) == b.take(i),
        i < a.len() ==> a[i] < b[i],
    ensures
        order::key_precedes(a, b),
        !order::key_precedes(b, a),
{
    let x = encode_utf8(a);
    let y = encode_utf8(b);
    is_ascii_chars_encode_utf8(a);
    is_ascii_chars_encode_utf8(b);
    assert forall|j: int| 0 <= j < i implies x[j] == y[j] by {
        assert(a.take(i)[j] == a[j] && b.take(i)[j] == b[j]);
    }
    assert(x.take(i) =~= y.take(i));
    if i < a.len() {
        assert(a[i] as u8 == x[i] && b[i] as u8 == y[i]);
        law_smaller_byte_first(x, y, i);
    } else {
        assert(x.take(i) =~= x);
        law_beginning_first(x, y);
    }
}

/// Entries are in order exactly when every key comes before all keys behind it.
pub proof fn law_ascending(s: Listing)
    ensures
        listing::ascending(s) <==> forall|i: int, j: int|
            0 <= i < j < s.len() ==> #[trigger] order::key_precedes(s[i].0, s[j].0),
{
}

/// What is found for a key is what stands with its last appearance, and nothing is found
/// exactly where the key does not appear.
pub proof fn law_found(s: Listing, key: Seq<char>, i: int)
    requires
        0 <= i < s.len(),
        s[i].0 == key,
        forall|j: int| i < j < s.len() ==> (#[trigger] s[j]).0 != key,
    ensures
        listing::lookup(s, key) == Some(s[i].1),
    decreases s.len(),
{
    if i < s.len() - 1 {
        let t = s.drop_last();
        assert(s[s.len() - 1].0 != key);
        assert forall|j: int| i < j < t.len() implies (#[trigger] t[j]).0 != key by {
            assert(s[j].0 != key);
        }
        law_found(t, key, i);
    }
}

/// For a key that does not appear nothing is found.
pub proof fn law_not_found(s: Listing, key: Seq<char>)
    requires
        forall|j: int| 0 <= j < s.len() ==> (#[trigger] s[j]).0 != key,
    ensures
        listing::lookup(s, key) is None,
    decreases s.len(),
{
    if s.len() > 0 {
        let t = s.drop_last();
        assert(s[s.len() - 1].0 != key);
        assert forall|j: int| 0 <= j < t.len() implies (#[trigger] t[j]).0 != key by {
            assert(s[j].0 != key);
        }
        law_not_found(t, key);
    }
}

/// Items that are put together stand in order, and every key has the data of the last item
/// that names it; no key comes in that no item names.
pub proof fn law_collected(items: Listing, key: Seq<char>)
    ensures
        listing::ascending(listing::collect(items)),
        listing::lookup(listing::collect(items), key) == listing::lookup(items, key),
{
    listing::lemma_collect(items);
}

/// Entries in order are known by what is found in them: no two different ones give the same
/// answers.
pub proof fn law_known_by_answers(s: Listing, t: Listing)
    requires
        listing::ascending(s),
        listing::ascending(t),
        forall|key: Seq<char>| #[trigger] listing::lookup(s, key) == listing::lookup(t, key),
    ensures
        s == t,
{
    listing::lemma_ascending_unique(s, t);
}

/// Putting an entry in leaves one entry more where the key is new, and as many as before where
/// it is not; taking one out does the reverse.
pub proof fn law_number_of_entries(s: Listing, key: Seq<char>, data: DataView)
    requires
        listing::ascending(s),
    ensures
        listing::with_entry(s, key, data).len() == s.len() + (if listing::lookup(s, key) is Some {
            0int
        } else {
            1
        }),
        listing::without(s, key).len() == s.len() - (if listing::lookup(s, key) is Some {
            1int
        } else {
            0
        }),
    decreases s.len(),
{
    if s.len() > 0 {
        let rest = s.drop_last();
        listing::lemma_ascending_drop_last(s);
        law_number_of_entries(rest, key, data);
        if s.last().0 != key && order::key_precedes(s.last().0, key) {
            let p = listing::lemma_lookup_found(rest, key);
            if listing::lookup(rest, key) is Some {
                assert(order::key_precedes(s[p].0, s[s.len() - 1].0));
                order::lemma_key_total(s.last().0, key);
            }
        }
    }
}

} // verus!
