//! The names of entries.
use vstd::prelude::*;
use vstd::utf8::*;

use crate::error::Error;
use crate::order;
use crate::order::Place;
use crate::read_back;
use crate::text;

verus! {

/// The key of an entry.
///
/// A key itself is a string that contains only uppercase symbols.
/// When using [Key::new()] the given string is automatically converted
/// to the uppercase equivalent of itself. This is a requirement of the format.
///
/// This struct dereferences to &str, thus all its methods are available.
#[derive(Debug, Hash, PartialEq, Eq, PartialOrd, Ord)]
pub struct Key(String);

impl View for Key {
    type V = Seq<char>;

    closed spec fn view(&self) -> Seq<char> {
        self.0@
    }
}

/// The text can name an entry: it has no zero character, and its length fits in a `u32`.
pub open spec fn valid_key_text(text: Seq<char>) -> bool {
    encode_utf8(text).len() <= u32::MAX && !text.contains('\0')
}

/// What [`Key::new`] answers for `text`.
pub open spec fn key_result(text: Seq<char>, r: Result<Key, Error>) -> bool {
    if valid_key_text(text) {
        r matches Ok(k) && k@ == text::uppercase(text)
    } else {
        r == Err::<Key, Error>(Error::InvalidKey)
    }
}

impl Key {
    /// Creates a new [Key] from a given string reference.
    ///
    /// Returns an error, if it contains a `\0` byte or its length
    /// is greater than `u32::MAX`.
    pub fn new(key: &str) -> (r: Result<Key, Error>)
        ensures
            key_result(key@, r),
            r is Ok <==> encode_utf8(key@).len() <= u32::MAX && !key@.contains('\0'),
            r matches Ok(k) ==> k@ == text::uppercase(key@),
    {
        if key.as_bytes().len() > u32::MAX as usize || text::has_zero(key) {
            return Err(Error::InvalidKey);
        }
        Ok(Key(key.to_uppercase()))
    }

    /// Whether a key that is made from the text of this one is the same key, as it always is
    /// where this one was made from ASCII text.
    pub fn is_stable(&self) -> (r: bool)
        ensures
            r == read_back::stable_key(self@),
    {
        let name = self.0.as_str();
        if text::has_zero(name) {
            return false;
        }
        let again = name.to_uppercase();
        match order::place(again.as_str(), name) {
            Place::Same => true,
            _ => false,
        }
    }

    /// Returns a string slice representing the key.
    pub fn as_str(&self) -> (r: &str)
        ensures
            r@ == self@,
    {
        self.0.as_str()
    }

    /// Consumes itself and returns the underlying [String].
    pub fn into_inner(self) -> (r: String)
        ensures
            r@ == self@,
    {
        self.0
    }
}

impl Clone for Key {
    fn clone(&self) -> (r: Key)
        ensures
            r@ == self@,
    {
        Key(self.0.clone())
    }
}

impl core::ops::Deref for Key {
    type Target = str;

    /// The text of the key.
    fn deref(&self) -> (r: &str)
        ensures
            r@ == self@,
    {
        self.0.as_str()
    }
}

impl vstd::std_specs::convert::TryFromSpecImpl<&str> for Key {
    open spec fn obeys_try_from_spec() -> bool {
        false
    }

    open spec fn try_from_spec(value: &str) -> Result<Key, Error> {
        arbitrary()
    }
}

impl TryFrom<&str> for Key {
    type Error = Error;

    /// The same as [`Key::new`].
    fn try_from(value: &str) -> (r: Result<Key, Error>)
        ensures
            key_result(value@, r),
    {
        Key::new(value)
    }
}

impl vstd::std_specs::convert::TryFromSpecImpl<String> for Key {
    open spec fn obeys_try_from_spec() -> bool {
        false
    }

    open spec fn try_from_spec(value: String) -> Result<Key, Error> {
        arbitrary()
    }
}

impl TryFrom<String> for Key {
    type Error = Error;

    /// The same as [`Key::new`].
    fn try_from(value: String) -> (r: Result<Key, Error>)
        ensures
            key_result(value@, r),
    {
        Key::new(value.as_str())
    }
}

} // verus!
