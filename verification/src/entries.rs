//! The entries of a PARAM.SFO: a map from keys to data that keeps its keys in order.
use vstd::prelude::*;

use crate::data::Data;
use crate::key::Key;
use crate::listing;
use crate::listing::Listing;
use crate::order;
use crate::order::Place;

verus! {

/// A map from [`Key`]s to [`Data`], sorted by key as the format requires it.
#[derive(Debug, PartialEq, Eq)]
pub struct Entries {
    // `data[i]` belongs to `keys[i]`.
    keys: Vec<Key>,
    data: Vec<Data>,
}

/// The pairs that two vectors of the same length make.
spec fn pairs(keys: Seq<Key>, data: Seq<Data>) -> Listing {
    Seq::new(keys.len(), |i: int| (keys[i]@, data[i]@))
}

/// Every key comes before all keys behind it.
spec fn keys_ascend(keys: Seq<Key>) -> bool {
    forall|i: int, j: int|
        0 <= i < j < keys.len() ==> #[trigger] order::key_precedes(keys[i]@, keys[j]@)
}

/// Pairs are in order when their keys are.
proof fn lemma_pairs(keys: Seq<Key>, data: Seq<Data>)
    ensures
        keys_ascend(keys) <==> listing::ascending(pairs(keys, data)),
{
    let s = pairs(keys, data);
    if listing::ascending(s) {
        assert forall|i: int, j: int| 0 <= i < j < keys.len() implies #[trigger] order::key_precedes(
            keys[i]@,
            keys[j]@,
        ) by {
            assert(order::key_precedes(s[i].0, s[j].0));
        }
    }
}

/// The keys behind a key that stands at `i` come behind it.
proof fn lemma_place_of(s: Listing, key: Seq<char>, i: int)
    requires
        listing::ascending(s),
        0 <= i < s.len(),
        s[i].0 == key,
    ensures
        forall|j: int| i + 1 <= j < s.len() ==> order::key_precedes(key, (#[trigger] s[j]).0),
{
    assert forall|j: int| i + 1 <= j < s.len() implies order::key_precedes(
        key,
        (#[trigger] s[j]).0,
    ) by {
        assert(order::key_precedes(s[i].0, s[j].0));
    }
}

impl View for Entries {
    type V = Listing;

    closed spec fn view(&self) -> Listing {
        pairs(self.keys@, self.data@)
    }
}

impl Entries {
    #[verifier::type_invariant]
    pub(crate) closed spec fn inv(self) -> bool {
        &&& self.keys@.len() == self.data@.len()
        &&& keys_ascend(self.keys@)
    }

    /// The entries of every map are in order.
    pub(crate) proof fn lemma_in_order(self)
        requires
            self.inv(),
        ensures
            listing::ascending(self@),
    {
        lemma_pairs(self.keys@, self.data@);
    }

    /// Creates an empty map.
    pub fn new() -> (r: Entries)
        ensures
            r@ == Listing::empty(),
    {
        let r = Entries { keys: Vec::new(), data: Vec::new() };
        assert(r@ =~= Listing::empty());
        r
    }

    /// The number of entries. The keys are in order, whatever was done to the map.
    pub fn len(&self) -> (r: usize)
        ensures
            r == self@.len(),
            listing::ascending(self@),
    {
        proof {
            use_type_invariant(self);
            self.lemma_in_order();
        }
        self.keys.len()
    }

    /// Whether there is no entry.
    pub fn is_empty(&self) -> (r: bool)
        ensures
            r == (self@.len() == 0),
    {
        self.keys.len() == 0
    }

    /// The key of the entry at `i`, in the order of keys.
    pub fn key_at(&self, i: usize) -> (r: &Key)
        requires
            i < self@.len(),
        ensures
            r@ == self@[i as int].0,
    {
        &self.keys[i]
    }

    /// The data of the entry at `i`, in the order of keys.
    pub fn data_at(&self, i: usize) -> (r: &Data)
        requires
            i < self@.len(),
        ensures
            r@ == self@[i as int].1,
    {
        proof {
            use_type_invariant(self);
            lemma_pairs(self.keys@, self.data@);
        }
        &self.data[i]
    }

    /// The number of keys that do not come behind `key`.
    fn rank(&self, key: &Key) -> (r: usize)
        ensures
            r <= self@.len(),
            forall|j: int|
                r <= j < self@.len() ==> order::key_precedes(key@, (#[trigger] self@[j]).0),
            forall|j: int|
                0 <= j < r - 1 ==> order::key_precedes((#[trigger] self@[j]).0, key@),
            r > 0 ==> self@[r - 1].0 == key@ || order::key_precedes(self@[r - 1].0, key@),
    {
        proof {
            use_type_invariant(self);
            lemma_pairs(self.keys@, self.data@);
        }
        let mut lo: usize = 0;
        let mut hi: usize = self.keys.len();
        while lo < hi
            invariant
                lo <= hi <= self@.len(),
                listing::ascending(self@),
                forall|j: int|
                    hi <= j < self@.len() ==> order::key_precedes(key@, (#[trigger] self@[j]).0),
                forall|j: int|
                    0 <= j < lo - 1 ==> order::key_precedes((#[trigger] self@[j]).0, key@),
                lo > 0 ==> self@[lo - 1].0 == key@ || order::key_precedes(self@[lo - 1].0, key@),
            decreases hi - lo,
        {
            let mid: usize = lo + (hi - lo) / 2;
            let ghost s = self@;
            let ghost m = mid as int;
            match order::place(key.as_str(), self.keys[mid].as_str()) {
                Place::Before => {
                    assert forall|j: int| mid <= j < s.len() implies order::key_precedes(
                        key@,
                        (#[trigger] s[j]).0,
                    ) by {
                        if j > m {
                            assert(order::key_precedes(s[m].0, s[j].0));
                            order::lemma_key_transitive(key@, s[m].0, s[j].0);
                        }
                    }
                    hi = mid;
                },
                _ => {
                    assert(s[m].0 == self.keys@[m]@);
                    proof {
                        order::lemma_key_total(key@, s[m].0);
                    }
                    assert forall|j: int| 0 <= j < m implies order::key_precedes(
                        (#[trigger] s[j]).0,
                        key@,
                    ) by {
                        assert(order::key_precedes(s[j].0, s[m].0));
                        if s[m].0 != key@ {
                            order::lemma_key_transitive(s[j].0, s[m].0, key@);
                        }
                    }
                    lo = mid + 1;
                },
            }
        }
        lo
    }

    /// Where `key` stands, if it does.
    fn find(&self, key: &Key) -> (r: Option<usize>)
        ensures
            match r {
                Some(i) => i < self@.len() && self@[i as int].0 == key@ && listing::lookup(
                    self@,
                    key@,
                ) == Some(self@[i as int].1),
                None => listing::lookup(self@, key@) is None,
            },
    {
        let i: usize = self.rank(key);
        proof {
            use_type_invariant(self);
            lemma_pairs(self.keys@, self.data@);
            listing::lemma_ascending_distinct(self@);
        }
        if i > 0 {
            if let Place::Same = order::place(self.keys[i - 1].as_str(), key.as_str()) {
                proof {
                    listing::lemma_lookup_at(self@, i - 1);
                }
                return Some(i - 1);
            }
        }
        proof {
            let p = listing::lemma_lookup_found(self@, key@);
            order::lemma_key_irreflexive(key@);
            if listing::lookup(self@, key@) is Some {
                if p >= i {
                    assert(order::key_precedes(key@, self@[p].0));
                } else if p < i - 1 {
                    assert(order::key_precedes(self@[p].0, key@));
                } else {
                    assert(self.keys@[p]@ == self@[p].0);
                }
            }
        }
        None
    }

    /// Whether `key` has an entry.
    pub fn contains_key(&self, key: &Key) -> (r: bool)
        ensures
            r == (listing::lookup(self@, key@) is Some),
    {
        self.find(key).is_some()
    }

    /// The data of `key`.
    pub fn get(&self, key: &Key) -> (r: Option<&Data>)
        ensures
            match r {
                Some(d) => listing::lookup(self@, key@) == Some(d@),
                None => listing::lookup(self@, key@) is None,
            },
    {
        match self.find(key) {
            Some(i) => Some(self.data_at(i)),
            None => None,
        }
    }

    /// The data of `key`, to be changed in place.
    pub fn get_mut(&mut self, key: &Key) -> (r: Option<&mut Data>)
        ensures
            match r {
                Some(d) => {
                    &&& listing::lookup(old(self)@, key@) == Some(d@)
                    &&& final(self)@ == listing::with_entry(old(self)@, key@, final(d)@)
                },
                None => listing::lookup(old(self)@, key@) is None && *final(self) == *old(self),
            },
    {
        match self.find(key) {
            Some(i) => {
                let ghost s = self@;
                let ghost ks = self.keys@;
                let ghost ds = self.data@;
                proof {
                    use_type_invariant(&*self);
                    lemma_pairs(ks, ds);
                    assert forall|x: Data| #[trigger] pairs(ks, ds.update(i as int, x))
                        == listing::with_entry(s, key@, x@) by {
                        lemma_place_of(s, key@, i as int);
                        listing::lemma_with_entry_at(s, key@, x@, i + 1);
                        assert(pairs(ks, ds.update(i as int, x)) =~= s.update(
                            i as int,
                            (key@, x@),
                        ));
                    }
                }
                Some(&mut self.data[i])
            },
            None => None,
        }
    }

    /// Gives `key` the data, and hands back those that it had before.
    pub fn insert(&mut self, key: Key, data: Data) -> (r: Option<Data>)
        ensures
            final(self)@ == listing::with_entry(old(self)@, key@, data@),
            match r {
                Some(d) => listing::lookup(old(self)@, key@) == Some(d@),
                None => listing::lookup(old(self)@, key@) is None,
            },
    {
        let i: usize = self.rank(&key);
        let found = self.find(&key);
        let ghost s = self@;
        proof {
            use_type_invariant(&*self);
            lemma_pairs(self.keys@, self.data@);
            listing::lemma_with_entry_ascending(s, key@, data@);
            match found {
                Some(p) => {
                    lemma_place_of(s, key@, p as int);
                    listing::lemma_with_entry_at(s, key@, data@, p + 1);
                },
                None => {
                    let p = listing::lemma_lookup_found(s, key@);
                    listing::lemma_with_entry_at(s, key@, data@, i as int);
                },
            }
        }
        let mut all = Entries::new();
        std::mem::swap(self, &mut all);
        let Entries { keys: mut ks, data: mut ds } = all;
        match found {
            Some(p) => {
                let mut spare = data;
                std::mem::swap(&mut spare, &mut ds[p]);
                assert(pairs(ks@, ds@) =~= s.update(p as int, (key@, data@)));
                proof {
                    lemma_pairs(ks@, ds@);
                }
                *self = Entries { keys: ks, data: ds };
                Some(spare)
            },
            None => {
                ks.insert(i, key);
                ds.insert(i, data);
                assert(pairs(ks@, ds@) =~= s.insert(i as int, (key@, data@)));
                proof {
                    lemma_pairs(ks@, ds@);
                }
                *self = Entries { keys: ks, data: ds };
                None
            },
        }
    }

    /// Takes `key` out, and hands back the data that it had.
    pub fn remove(&mut self, key: &Key) -> (r: Option<Data>)
        ensures
            final(self)@ == listing::without(old(self)@, key@),
            match r {
                Some(d) => listing::lookup(old(self)@, key@) == Some(d@),
                None => listing::lookup(old(self)@, key@) is None,
            },
    {
        match self.find(key) {
            Some(i) => {
                proof {
                    use_type_invariant(&*self);
                    lemma_pairs(self.keys@, self.data@);
                    listing::lemma_without_at(self@, key@, i as int);
                    listing::lemma_without_ascending(self@, key@);
                }
                let ghost s = self@;
                let mut all = Entries::new();
                std::mem::swap(self, &mut all);
                let Entries { keys: mut ks, data: mut ds } = all;
                ks.remove(i);
                let d = ds.remove(i);
                assert(pairs(ks@, ds@) =~= s.remove(i as int));
                proof {
                    lemma_pairs(ks@, ds@);
                }
                *self = Entries { keys: ks, data: ds };
                Some(d)
            },
            None => {
                proof {
                    listing::lemma_without_absent(self@, key@);
                }
                None
            },
        }
    }
}

impl Default for Entries {
    /// An empty map.
    fn default() -> (r: Entries)
        ensures
            r@ == Listing::empty(),
    {
        Entries::new()
    }
}

impl Clone for Entries {
    fn clone(&self) -> (r: Entries)
        ensures
            r@ == self@,
    {
        proof {
            use_type_invariant(self);
            lemma_pairs(self.keys@, self.data@);
        }
        let mut ks: Vec<Key> = Vec::new();
        let mut ds: Vec<Data> = Vec::new();
        let mut i: usize = 0;
        while i < self.keys.len()
            invariant
                i <= self.keys@.len(),
                self.keys@.len() == self.data@.len(),
                ks@.len() == i,
                ds@.len() == i,
                forall|j: int| 0 <= j < i ==> (#[trigger] ks@[j])@ == self.keys@[j]@,
                forall|j: int| 0 <= j < i ==> (#[trigger] ds@[j])@ == self.data@[j]@,
            decreases self.keys@.len() - i,
        {
            ks.push(self.keys[i].clone());
            ds.push(self.data[i].clone());
            i += 1;
        }
        assert(pairs(ks@, ds@) =~= self@);
        Entries { keys: ks, data: ds }
    }
}

} // verus!
