//! Entries in the order of their keys, as a mathematical sequence.
use vstd::prelude::*;

use crate::data::DataView;
use crate::order;

verus! {

/// Keys with their data, in some order.
pub type Listing = Seq<(Seq<char>, DataView)>;

/// Every key comes before all keys that stand behind it. So no key stands twice.
pub open spec fn ascending(s: Listing) -> bool {
    forall|i: int, j: int|
        0 <= i < j < s.len() ==> #[trigger] order::key_precedes(s[i].0, s[j].0)
}

/// The data of `key`: those of its last appearance.
pub open spec fn lookup(s: Listing, key: Seq<char>) -> Option<DataView>
    decreases s.len(),
{
    if s.len() == 0 {
        None
    } else if s.last().0 == key {
        Some(s.last().1)
    } else {
        lookup(s.drop_last(), key)
    }
}

/// The listing with `data` for `key`: in the place of what `key` had before, or in the place
/// that the order of keys gives it.
pub open spec fn with_entry(s: Listing, key: Seq<char>, data: DataView) -> Listing
    decreases s.len(),
{
    if s.len() == 0 {
        seq![(key, data)]
    } else if s.last().0 == key {
        s.drop_last().push((key, data))
    } else if order::key_precedes(s.last().0, key) {
        s.push((key, data))
    } else {
        with_entry(s.drop_last(), key, data).push(s.last())
    }
}

/// The listing without `key`.
pub open spec fn without(s: Listing, key: Seq<char>) -> Listing
    decreases s.len(),
{
    if s.len() == 0 {
        s
    } else if s.last().0 == key {
        s.drop_last()
    } else {
        without(s.drop_last(), key).push(s.last())
    }
}

/// The listing that the items make when they are put in one after the other.
pub open spec fn collect(items: Listing) -> Listing
    decreases items.len(),
{
    if items.len() == 0 {
        items
    } else {
        with_entry(collect(items.drop_last()), items.last().0, items.last().1)
    }
}

/// No key stands twice.
pub open spec fn distinct_keys(s: Listing) -> bool {
    forall|i: int, j: int| 0 <= i < j < s.len() ==> (#[trigger] s[i]).0 != (#[trigger] s[j]).0
}

/// A part of an ascending listing is ascending.
pub proof fn lemma_ascending_drop_last(s: Listing)
    requires
        ascending(s),
        s.len() > 0,
    ensures
        ascending(s.drop_last()),
{
    assert forall|i: int, j: int| 0 <= i < j < s.drop_last().len() implies order::key_precedes(
        s.drop_last()[i].0,
        s.drop_last()[j].0,
    ) by {
        assert(order::key_precedes(s[i].0, s[j].0));
    }
}

/// What comes behind the last key of an ascending listing can be put at its end.
pub proof fn lemma_ascending_push(s: Listing, e: (Seq<char>, DataView))
    requires
        ascending(s),
        s.len() > 0 ==> order::key_precedes(s.last().0, e.0),
    ensures
        ascending(s.push(e)),
{
    let t = s.push(e);
    assert forall|i: int, j: int| 0 <= i < j < t.len() implies order::key_precedes(
        t[i].0,
        t[j].0,
    ) by {
        if j < s.len() {
            assert(order::key_precedes(s[i].0, s[j].0));
        } else if i < s.len() - 1 {
            assert(order::key_precedes(s[i].0, s[s.len() - 1].0));
            order::lemma_key_transitive(s[i].0, s.last().0, e.0);
        }
    }
}

/// The keys of an ascending listing are distinct.
pub proof fn lemma_ascending_distinct(s: Listing)
    requires
        ascending(s),
    ensures
        distinct_keys(s),
{
    assert forall|i: int, j: int| 0 <= i < j < s.len() implies (#[trigger] s[i]).0 != (
    #[trigger] s[j]).0 by {
        assert(order::key_precedes(s[i].0, s[j].0));
        order::lemma_key_irreflexive(s[i].0);
    }
}

/// With distinct keys, each key has the data that stand beside it.
pub proof fn lemma_lookup_at(s: Listing, i: int)
    requires
        distinct_keys(s),
        0 <= i < s.len(),
    ensures
        lookup(s, s[i].0) == Some(s[i].1),
    decreases s.len(),
{
    if i < s.len() - 1 {
        let t = s.drop_last();
        assert(s[i].0 != s[s.len() - 1].0);
        assert forall|a: int, b: int| 0 <= a < b < t.len() implies (#[trigger] t[a]).0 != (
        #[trigger] t[b]).0 by {
            assert(s[a].0 != s[b].0);
        }
        lemma_lookup_at(t, i);
    }
}

/// A key that has data stands in the listing, beside them; one that has none does not.
pub proof fn lemma_lookup_found(s: Listing, key: Seq<char>) -> (i: int)
    ensures
        lookup(s, key) matches Some(d) ==> 0 <= i < s.len() && s[i] == (key, d),
        lookup(s, key) is None ==> forall|j: int| 0 <= j < s.len() ==> (#[trigger] s[j]).0 != key,
    decreases s.len(),
{
    if s.len() == 0 {
        0
    } else if s.last().0 == key {
        s.len() - 1
    } else {
        let i = lemma_lookup_found(s.drop_last(), key);
        assert forall|j: int| lookup(s, key) is None && 0 <= j < s.len() implies (
        #[trigger] s[j]).0 != key by {
            if j < s.len() - 1 {
                assert(s.drop_last()[j].0 != key);
            }
        }
        i
    }
}

/// Putting an entry in keeps the order of keys.
pub proof fn lemma_with_entry_ascending(s: Listing, key: Seq<char>, data: DataView)
    requires
        ascending(s),
    ensures
        ascending(with_entry(s, key, data)),
        with_entry(s, key, data).len() > 0,
        with_entry(s, key, data).last().0 == (if s.len() > 0 && order::key_precedes(
            key,
            s.last().0,
        ) {
            s.last().0
        } else {
            key
        }),
    decreases s.len(),
{
    if s.len() > 0 {
        let rest = s.drop_last();
        lemma_ascending_drop_last(s);
        order::lemma_key_total(s.last().0, key);
        order::lemma_key_irreflexive(key);
        if s.last().0 == key {
            if rest.len() > 0 {
                assert(order::key_precedes(s[s.len() - 2].0, s[s.len() - 1].0));
            }
            lemma_ascending_push(rest, (key, data));
        } else if order::key_precedes(s.last().0, key) {
            lemma_ascending_push(s, (key, data));
        } else {
            lemma_with_entry_ascending(rest, key, data);
            if rest.len() > 0 {
                assert(order::key_precedes(s[s.len() - 2].0, s[s.len() - 1].0));
            }
            lemma_ascending_push(with_entry(rest, key, data), s.last());
        }
    }
}

/// Putting an entry in gives its key the new data and every other key the data it had.
pub proof fn lemma_with_entry_lookup(s: Listing, key: Seq<char>, data: DataView, other: Seq<char>)
    requires
        ascending(s),
    ensures
        lookup(with_entry(s, key, data), other) == (if other == key {
            Some(data)
        } else {
            lookup(s, other)
        }),
    decreases s.len(),
{
    let t = with_entry(s, key, data);
    if s.len() == 0 {
        assert(t.drop_last() =~= s);
        assert(t.last() == (key, data));
        assert(lookup(t.drop_last(), other) is None);
    } else {
        let rest = s.drop_last();
        lemma_ascending_drop_last(s);
        if s.last().0 == key {
            assert(t.drop_last() =~= rest);
        } else if order::key_precedes(s.last().0, key) {
            assert(t.drop_last() =~= s);
        } else {
            lemma_with_entry_lookup(rest, key, data, other);
            assert(t.drop_last() =~= with_entry(rest, key, data));
        }
    }
}

/// Where the keys from `i` on come behind `key` and the one before them does not, the entry
/// goes to `i`, or in the place of the one before.
pub proof fn lemma_with_entry_at(s: Listing, key: Seq<char>, data: DataView, i: int)
    requires
        ascending(s),
        0 <= i <= s.len(),
        forall|j: int| i <= j < s.len() ==> order::key_precedes(key, (#[trigger] s[j]).0),
        i > 0 ==> s[i - 1].0 == key || order::key_precedes(s[i - 1].0, key),
    ensures
        with_entry(s, key, data) == (if i > 0 && s[i - 1].0 == key {
            s.update(i - 1, (key, data))
        } else {
            s.insert(i, (key, data))
        }),
    decreases s.len(),
{
    let t = with_entry(s, key, data);
    if s.len() == 0 {
        assert(t =~= s.insert(i, (key, data)));
    } else if i == s.len() {
        if s.last().0 == key {
            assert(t =~= s.update(i - 1, (key, data)));
        } else {
            assert(t =~= s.insert(i, (key, data)));
        }
    } else {
        let rest = s.drop_last();
        assert(order::key_precedes(key, s[s.len() - 1].0));
        order::lemma_key_total(key, s.last().0);
        order::lemma_key_irreflexive(key);
        lemma_ascending_drop_last(s);
        assert forall|j: int| i <= j < rest.len() implies order::key_precedes(
            key,
            (#[trigger] rest[j]).0,
        ) by {
            assert(order::key_precedes(key, s[j].0));
        }
        lemma_with_entry_at(rest, key, data, i);
        if i > 0 && s[i - 1].0 == key {
            assert(t =~= s.update(i - 1, (key, data)));
        } else {
            assert(t =~= s.insert(i, (key, data)));
        }
    }
}

/// Taking a key out keeps the order of keys.
pub proof fn lemma_without_ascending(s: Listing, key: Seq<char>)
    requires
        ascending(s),
    ensures
        ascending(without(s, key)),
        without(s, key).len() > 0 ==> s.len() > 0 && (without(s, key).last().0 == s.last().0
            || order::key_precedes(without(s, key).last().0, s.last().0)),
    decreases s.len(),
{
    if s.len() > 0 {
        let rest = s.drop_last();
        lemma_ascending_drop_last(s);
        if rest.len() > 0 {
            assert(order::key_precedes(s[s.len() - 2].0, s[s.len() - 1].0));
        }
        if s.last().0 != key {
            lemma_without_ascending(rest, key);
            if without(rest, key).len() > 0 && order::key_precedes(
                without(rest, key).last().0,
                rest.last().0,
            ) {
                order::lemma_key_transitive(
                    without(rest, key).last().0,
                    rest.last().0,
                    s.last().0,
                );
            }
            lemma_ascending_push(without(rest, key), s.last());
        }
    }
}

/// Taking a key out leaves every other key the data it had.
pub proof fn lemma_without_lookup(s: Listing, key: Seq<char>, other: Seq<char>)
    requires
        ascending(s),
    ensures
        lookup(without(s, key), other) == (if other == key {
            None
        } else {
            lookup(s, other)
        }),
    decreases s.len(),
{
    if s.len() > 0 {
        let rest = s.drop_last();
        lemma_ascending_drop_last(s);
        if s.last().0 == key {
            let i = lemma_lookup_found(rest, key);
            if lookup(rest, key) is Some {
                lemma_ascending_distinct(s);
                assert(s[i].0 != s[s.len() - 1].0);
            }
        } else {
            lemma_without_lookup(rest, key, other);
            assert(without(s, key).drop_last() =~= without(rest, key));
        }
    }
}

/// In an ascending listing a key is taken out where it stands.
pub proof fn lemma_without_at(s: Listing, key: Seq<char>, i: int)
    requires
        ascending(s),
        0 <= i < s.len(),
        s[i].0 == key,
    ensures
        without(s, key) == s.remove(i),
    decreases s.len(),
{
    lemma_ascending_distinct(s);
    if i < s.len() - 1 {
        assert(s[i].0 != s[s.len() - 1].0);
        lemma_ascending_drop_last(s);
        lemma_without_at(s.drop_last(), key, i);
    }
    assert(without(s, key) =~= s.remove(i));
}

/// A key that does not stand in a listing cannot be taken out of it.
pub proof fn lemma_without_absent(s: Listing, key: Seq<char>)
    requires
        lookup(s, key) is None,
    ensures
        without(s, key) == s,
    decreases s.len(),
{
    if s.len() > 0 {
        lemma_without_absent(s.drop_last(), key);
        assert(s.drop_last().push(s.last()) =~= s);
    }
}

/// What is put together from items is ascending, and each key has the data of the last item
/// that names it.
pub proof fn lemma_collect(items: Listing)
    ensures
        ascending(collect(items)),
        forall|key: Seq<char>| #[trigger] lookup(collect(items), key) == lookup(items, key),
    decreases items.len(),
{
    if items.len() > 0 {
        let before = collect(items.drop_last());
        lemma_collect(items.drop_last());
        lemma_with_entry_ascending(before, items.last().0, items.last().1);
        assert forall|key: Seq<char>| #[trigger] lookup(collect(items), key) == lookup(
            items,
            key,
        ) by {
            lemma_with_entry_lookup(before, items.last().0, items.last().1, key);
        }
    }
}

/// Items that are in order already stay as they are.
pub proof fn lemma_collect_ascending(items: Listing)
    requires
        ascending(items),
    ensures
        collect(items) == items,
    decreases items.len(),
{
    if items.len() > 0 {
        let rest = items.drop_last();
        lemma_ascending_drop_last(items);
        lemma_collect_ascending(rest);
        if rest.len() > 0 {
            assert(order::key_precedes(items[items.len() - 2].0, items[items.len() - 1].0));
            order::lemma_key_irreflexive(items.last().0);
        }
        assert(rest.push(items.last()) =~= items);
    }
}

/// An ascending listing is determined by what its keys have.
pub proof fn lemma_ascending_unique(s: Listing, t: Listing)
    requires
        ascending(s),
        ascending(t),
        forall|key: Seq<char>| #[trigger] lookup(s, key) == lookup(t, key),
    ensures
        s == t,
    decreases s.len(),
{
    lemma_ascending_distinct(s);
    lemma_ascending_distinct(t);
    if s.len() == 0 {
        if t.len() > 0 {
            assert(lookup(s, t.last().0) == lookup(t, t.last().0));
        }
        assert(s =~= t);
    } else {
        let a = s.last();
        assert(lookup(s, a.0) == lookup(t, a.0));
        let i = lemma_lookup_found(t, a.0);
        let b = t.last();
        assert(lookup(s, b.0) == lookup(t, b.0));
        let j = lemma_lookup_found(s, b.0);
        if i < t.len() - 1 {
            assert(order::key_precedes(t[i].0, t[t.len() - 1].0));
            if j < s.len() - 1 {
                assert(order::key_precedes(s[j].0, s[s.len() - 1].0));
            }
            order::lemma_key_total(a.0, b.0);
            order::lemma_key_irreflexive(a.0);
        }
        assert(a == b);
        lemma_ascending_drop_last(s);
        lemma_ascending_drop_last(t);
        assert forall|key: Seq<char>| #[trigger] lookup(s.drop_last(), key) == lookup(
            t.drop_last(),
            key,
        ) by {
            assert(lookup(s, key) == lookup(t, key));
            if key == a.0 {
                let p = lemma_lookup_found(s.drop_last(), key);
                if lookup(s.drop_last(), key) is Some {
                    assert(s[p].0 != s[s.len() - 1].0);
                }
                let q = lemma_lookup_found(t.drop_last(), key);
                if lookup(t.drop_last(), key) is Some {
                    assert(t[q].0 != t[t.len() - 1].0);
                }
            }
        }
        lemma_ascending_unique(s.drop_last(), t.drop_last());
        assert(s =~= s.drop_last().push(a));
        assert(t =~= t.drop_last().push(b));
    }
}

} // verus!
