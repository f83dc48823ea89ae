//! The PARAM.SFO itself.
use vstd::prelude::*;

use crate::codec;
use crate::codec::SfoView;
use crate::data::{Data, DataView};
use crate::entries::Entries;
use crate::error::{Error, ErrorView, FormatError, FormatErrorView};
use crate::key;
use crate::key::Key;
use crate::listing;
use crate::listing::Listing;
use crate::read_back;
use crate::reader;
use crate::text;
use crate::value::Value;
use crate::writer;

verus! {

/// The most common version of PARAM.SFO (1.1).
pub const VERSION_1_1: [u8; 4] = [1, 1, 0, 0];

/// A version and the entries, sorted by key.
#[derive(Debug, PartialEq, Eq)]
pub struct ParamSFO {
    version: [u8; 4],
    entries: Entries,
}

impl View for ParamSFO {
    type V = SfoView;

    closed spec fn view(&self) -> SfoView {
        SfoView { version: self.version@, entries: self.entries@ }
    }
}

/// The error of one part: a key that cannot be one, or a value that does not fit.
pub open spec fn part_error(name: Seq<char>, value: Value, max_len: u32) -> Option<ErrorView> {
    if !key::valid_key_text(name) {
        Some(ErrorView::InvalidKey)
    } else if value@.len() > DataView::granted(value@, max_len) {
        Some(ErrorView::MaxLenExceeded)
    } else {
        None
    }
}

/// The error of the first of `n` parts that has one.
pub open spec fn parts_error(
    keys: Seq<String>,
    values: Seq<Value>,
    max_lens: Seq<u32>,
    n: nat,
) -> Option<ErrorView>
    decreases n,
{
    if n == 0 {
        None
    } else {
        let i = n - 1;
        match parts_error(keys, values, max_lens, i as nat) {
            Some(e) => Some(e),
            None => part_error(keys[i]@, values[i], max_lens[i]),
        }
    }
}

/// The entries that the parts describe, in the order in which they are given.
pub open spec fn parts_items(keys: Seq<String>, values: Seq<Value>, max_lens: Seq<u32>) -> Listing {
    Seq::new(
        keys.len(),
        |i: int|
            (
                text::uppercase(keys[i]@),
                DataView {
                    value: values[i]@,
                    max_len: DataView::granted(values[i]@, max_lens[i]),
                },
            ),
    )
}

/// The key and the data of one part.
fn part(name: &str, value: Value, max_len: u32) -> (r: Result<(Key, Data), Error>)
    ensures
        match part_error(name@, value, max_len) {
            Some(e) => r matches Err(f) && f@ == e,
            None => r matches Ok((key, data)) && key@ == text::uppercase(name@) && data@ == (
            DataView { value: value@, max_len: DataView::granted(value@, max_len) }),
        },
{
    let key = match Key::new(name) {
        Ok(key) => key,
        Err(e) => {
            return Err(e);
        },
    };
    match Data::new(value, max_len) {
        Ok(data) => Ok((key, data)),
        Err(e) => Err(e),
    }
}

/// The items of a vector from the last to the first.
fn reversed<T>(items: Vec<T>) -> (r: Vec<T>)
    ensures
        r@ == items@.reverse(),
{
    let mut rest = items;
    let mut r: Vec<T> = Vec::new();
    while rest.len() > 0
        invariant
            r@ + rest@.reverse() == items@.reverse(),
        decreases rest@.len(),
    {
        let ghost before = rest@;
        if let Some(x) = rest.pop() {
            r.push(x);
            assert(before.reverse() =~= seq![x] + rest@.reverse());
        }
    }
    assert(rest@.reverse() =~= Seq::<T>::empty());
    r
}

/// The error of some parts stays when more of them are looked at.
proof fn lemma_parts_error(
    keys: Seq<String>,
    values: Seq<Value>,
    max_lens: Seq<u32>,
    m: nat,
    n: nat,
)
    requires
        m <= n,
        parts_error(keys, values, max_lens, m) is Some,
    ensures
        parts_error(keys, values, max_lens, n) == parts_error(keys, values, max_lens, m),
    decreases n,
{
    if m < n {
        lemma_parts_error(keys, values, max_lens, m, (n - 1) as nat);
    }
}

impl ParamSFO {
    /// Creates an empty PARAM.SFO.
    ///
    /// By default, the version of PARAM.SFO is set to 1.1.
    /// Use [set_version](Self::set_version) to change it.
    pub fn new() -> (r: ParamSFO)
        ensures
            r@ == (SfoView { version: VERSION_1_1@, entries: Listing::empty() }),
    {
        ParamSFO { version: VERSION_1_1, entries: Entries::new() }
    }

    /// Creates a new PARAM.SFO with the given entries.
    ///
    /// By default, the version of PARAM.SFO is set to 1.1.
    /// Use [set_version](Self::set_version) to change it.
    pub fn with_entries(entries: Entries) -> (r: ParamSFO)
        ensures
            r@ == (SfoView { version: VERSION_1_1@, entries: entries@ }),
    {
        ParamSFO { version: VERSION_1_1, entries }
    }

    /// Reads a PARAM.SFO from a slice of bytes.
    ///
    /// Returns an [Error] if they do not hold one. Bytes behind the last one that is needed do
    /// not matter.
    pub fn from_bytes(bytes: &[u8]) -> (r: Result<ParamSFO, Error>)
        ensures
            codec::decode(bytes@) == (match r {
                Ok(sfo) => Ok::<SfoView, ErrorView>(sfo@),
                Err(e) => Err::<SfoView, ErrorView>(e@),
            }),
    {
        match reader::read(bytes) {
            Ok((version, entries)) => Ok(ParamSFO { version, entries }),
            Err(e) => Err(e),
        }
    }

    /// Creates a PARAM.SFO from its parts (vectors of keys, values, max lengths).
    ///
    /// Of two parts with the same key the later one counts.
    ///
    /// Returns an [Error] if the length of given vectors isn't the same, or else the error of
    /// the first part that is not valid.
    pub fn from_parts(keys: Vec<String>, values: Vec<Value>, max_lens: Vec<u32>) -> (r: Result<
        ParamSFO,
        Error,
    >)
        ensures
            if keys@.len() != values@.len() || values@.len() != max_lens@.len() {
                r == Err::<ParamSFO, Error>(Error::InvalidParts)
            } else {
                match parts_error(keys@, values@, max_lens@, keys@.len()) {
                    Some(e) => r matches Err(f) && f@ == e,
                    None => r matches Ok(sfo) && sfo@ == (SfoView {
                        version: VERSION_1_1@,
                        entries: listing::collect(parts_items(keys@, values@, max_lens@)),
                    }),
                }
            },
    {
        if keys.len() != values.len() || values.len() != max_lens.len() {
            return Err(Error::InvalidParts);
        }
        let n: usize = keys.len();
        let mut ks = reversed(keys);
        let mut vs = reversed(values);
        let mut entries = Entries::new();
        let ghost items = parts_items(keys@, values@, max_lens@);
        assert(items.take(0) =~= Seq::empty());
        let mut i: usize = 0;
        while i < n
            invariant
                i <= n,
                n == keys@.len(),
                n == values@.len(),
                n == max_lens@.len(),
                ks@ == keys@.reverse().take(n - i),
                vs@ == values@.reverse().take(n - i),
                items == parts_items(keys@, values@, max_lens@),
                parts_error(keys@, values@, max_lens@, i as nat) is None,
                entries@ == listing::collect(items.take(i as int)),
            decreases n - i,
        {
            let ghost at = i as int;
            let k = ks.pop();
            let v = vs.pop();
            proof {
                assert(ks@ =~= keys@.reverse().take(n - i - 1));
                assert(vs@ =~= values@.reverse().take(n - i - 1));
                assert(items.take(i + 1).drop_last() =~= items.take(at));
            }
            if let (Some(k), Some(v)) = (k, v) {
                assert(k == keys@[at]);
                assert(v == values@[at]);
                match part(k.as_str(), v, max_lens[i]) {
                    Ok((key, data)) => {
                        assert(items[at] == (key@, data@));
                        let _ = entries.insert(key, data);
                    },
                    Err(e) => {
                        proof {
                            lemma_parts_error(keys@, values@, max_lens@, (i + 1) as nat, n as nat);
                        }
                        return Err(e);
                    },
                }
            }
            i += 1;
        }
        assert(items.take(n as int) =~= items);
        Ok(ParamSFO::with_entries(entries))
    }

    /// Writes the PARAM.SFO to a vector of bytes.
    ///
    /// Returns an [Error] if a number that the file has to hold does not fit in its field.
    ///
    /// Every value must fit in its maximum length. One that was read from a file need not;
    /// [`checked_to_bytes`](Self::checked_to_bytes) looks first.
    pub fn to_bytes(&self) -> (r: Result<Vec<u8>, Error>)
        requires
            codec::writable(self@.entries),
        ensures
            if codec::addressable(self@.entries) {
                r matches Ok(b) && b@ == codec::encode(self@)
            } else {
                r matches Err(e) && e@ == ErrorView::InvalidFormat(FormatErrorView::Unaddressable)
            },
    {
        match writer::file_len(&self.entries) {
            Some(_) => Ok(writer::write(&self.version, &self.entries)),
            None => Err(Error::InvalidFormat(FormatError::Unaddressable)),
        }
    }

    /// Writes the PARAM.SFO to a vector of bytes, whatever the values.
    ///
    /// Returns `None` if a value is longer than its maximum length, or the file too long for
    /// the memory.
    pub fn checked_to_bytes(&self) -> (r: Option<Result<Vec<u8>, Error>>)
        ensures
            if !codec::writable(self@.entries) {
                r is None
            } else if codec::addressable(self@.entries) {
                r matches Some(Ok(b)) && b@ == codec::encode(self@)
            } else {
                r matches Some(Err(e)) && e@ == ErrorView::InvalidFormat(
                    FormatErrorView::Unaddressable,
                )
            },
    {
        if writer::is_writable(&self.entries) {
            Some(self.to_bytes())
        } else {
            None
        }
    }

    /// Whether every value fits in its room and every number in its field, reading reaches all
    /// data, and a key made from the text of a key is that key. The file of this PARAM.SFO is
    /// then read back as this PARAM.SFO.
    pub fn reads_back(&self) -> (r: bool)
        ensures
            r == read_back::restorable(self@.entries),
            r ==> codec::decode(codec::encode(self@)) == Ok::<SfoView, ErrorView>(self@),
    {
        proof {
            use_type_invariant(&self.entries);
            self.entries.lemma_in_order();
        }
        let r = writer::is_restorable(&self.entries);
        proof {
            if r {
                read_back::law_read_back(self@);
            }
        }
        r
    }

    /// Returns an immutable reference to the entries of the current PARAM.SFO. Their keys are in
    /// order, whatever was done to them.
    pub fn entries(&self) -> (r: &Entries)
        ensures
            r@ == self@.entries,
            listing::ascending(self@.entries),
    {
        proof {
            use_type_invariant(&self.entries);
            self.entries.lemma_in_order();
        }
        &self.entries
    }

    /// Returns a mutable reference to the entries of the current PARAM.SFO.
    pub fn entries_mut(&mut self) -> (r: &mut Entries)
        ensures
            r@ == old(self)@.entries,
            final(self)@ == (SfoView { version: old(self)@.version, entries: final(r)@ }),
    {
        &mut self.entries
    }

    /// Sets and replaces the current entries with the given ones.
    pub fn set_entries(&mut self, entries: Entries)
        ensures
            final(self)@ == (SfoView { version: old(self)@.version, entries: entries@ }),
    {
        self.entries = entries;
    }

    /// Returns the version of PARAM.SFO.
    pub fn version(&self) -> (r: [u8; 4])
        ensures
            r@ == self@.version,
    {
        self.version
    }

    /// Sets the version of PARAM.SFO.
    pub fn set_version(&mut self, version: [u8; 4])
        ensures
            final(self)@ == (SfoView { version: version@, entries: old(self)@.entries }),
    {
        self.version = version;
    }
}

impl Default for ParamSFO {
    /// The same as [`ParamSFO::new`].
    fn default() -> (r: ParamSFO)
        ensures
            r@ == (SfoView { version: VERSION_1_1@, entries: Listing::empty() }),
    {
        ParamSFO::new()
    }
}

impl Clone for ParamSFO {
    fn clone(&self) -> (r: ParamSFO)
        ensures
            r@ == self@,
    {
        ParamSFO { version: self.version, entries: self.entries.clone() }
    }
}

} // verus!
