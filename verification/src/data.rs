//! A value and the room that a file keeps for it.
use vstd::prelude::*;

use crate::error::Error;
use crate::value::{Value, ValueView, U32_SIZE};

verus! {

/// The data of an entry.
///
/// It contains a [Value] and the maximum length of it.
#[derive(Debug, PartialEq, Eq)]
pub struct Data {
    value: Value,
    max_len: u32,
}

/// What a [`Data`] holds.
pub struct DataView {
    pub value: ValueView,
    pub max_len: u32,
}

impl DataView {
    /// The value is no longer than the room kept for it.
    pub open spec fn fits(self) -> bool {
        self.value.len() <= self.max_len
    }

    /// The maximum length that `value` is given where `asked` is asked for: an integer always
    /// takes 4 bytes.
    pub open spec fn granted(value: ValueView, asked: u32) -> u32 {
        if value is Int {
            U32_SIZE
        } else {
            asked
        }
    }
}

impl View for Data {
    type V = DataView;

    closed spec fn view(&self) -> DataView {
        DataView { value: self.value@, max_len: self.max_len }
    }
}

impl Data {
    /// Creates a new [Data] with the `value` and the `max_len` (maximum length of it).
    ///
    /// If the value is an integer, `max_len` is ignored (u32 is always 4 bytes).
    ///
    /// Returns an [Error] if the `value`'s length is greater than the `max_len` or [u32::MAX].
    pub fn new(value: Value, max_len: u32) -> (r: Result<Data, Error>)
        ensures
            ({
                let granted = DataView::granted(value@, max_len);
                if value@.len() <= granted {
                    r matches Ok(d) && d@ == (DataView { value: value@, max_len: granted })
                } else {
                    r == Err::<Data, Error>(Error::MaxLenExceeded)
                }
            }),
            r matches Ok(d) ==> d@.fits(),
            r is Ok <==> value@ is Int || value@.len() <= max_len,
            r matches Ok(d) ==> d@.value == value@,
            r matches Ok(d) ==> (!(value@ is Int) ==> d@.max_len == max_len),
            r matches Ok(d) ==> (value@ is Int ==> d@.max_len == 4),
    {
        let room: u32 = match &value {
            Value::Int(_) => U32_SIZE,
            _ => max_len,
        };
        if !value.fits(room) {
            Err(Error::MaxLenExceeded)
        } else {
            Ok(Data { value, max_len: room })
        }
    }

    /// Data as a file has it: the maximum length is the one stated there, whatever the value.
    pub(crate) fn from_file_parts(value: Value, max_len: u32) -> (r: Data)
        ensures
            r@ == (DataView { value: value@, max_len }),
    {
        Data { value, max_len }
    }

    /// Returns an immutable reference to the underlying Value.
    pub fn value(&self) -> (r: &Value)
        ensures
            r@ == self@.value,
    {
        &self.value
    }

    /// Sets and replaces the value with the given one.
    ///
    /// If the new value is an integer, `max_len` is set to 4 (u32 is always 4 bytes).
    ///
    /// Returns an [Error], and leaves the data as it is, if the value's length is greater than
    /// the `max_len`.
    pub fn set_value(&mut self, value: Value) -> (r: Result<(), Error>)
        ensures
            ({
                let granted = DataView::granted(value@, old(self)@.max_len);
                if value@.len() <= granted {
                    &&& r == Ok::<(), Error>(())
                    &&& final(self)@ == (DataView { value: value@, max_len: granted })
                } else {
                    &&& r == Err::<(), Error>(Error::MaxLenExceeded)
                    &&& *final(self) == *old(self)
                }
            }),
            r is Ok ==> final(self)@.fits(),
            r is Ok <==> value@ is Int || value@.len() <= old(self)@.max_len,
            r is Ok ==> final(self)@.value == value@,
            !(value@ is Int) ==> final(self)@.max_len == old(self)@.max_len,
            value@ is Int ==> final(self)@.max_len == 4,
    {
        let room: u32 = match &value {
            Value::Int(_) => U32_SIZE,
            _ => self.max_len,
        };
        if !value.fits(room) {
            Err(Error::MaxLenExceeded)
        } else {
            self.value = value;
            self.max_len = room;
            Ok(())
        }
    }

    /// Returns the maximum length of the data.
    pub fn max_len(&self) -> (r: u32)
        ensures
            r == self@.max_len,
    {
        self.max_len
    }

    /// Sets the maximum length of the data.
    ///
    /// If the value is an integer, this method does nothing and returns [Ok]
    /// (u32 is always 4 bytes).
    ///
    /// Returns an [Error], and leaves the data as it is, if the value's length is greater than
    /// the `max_len`.
    pub fn set_max_len(&mut self, max_len: u32) -> (r: Result<(), Error>)
        ensures
            if old(self)@.value is Int {
                &&& r == Ok::<(), Error>(())
                &&& *final(self) == *old(self)
            } else if old(self)@.value.len() <= max_len {
                &&& r == Ok::<(), Error>(())
                &&& final(self)@ == (DataView { value: old(self)@.value, max_len })
            } else {
                &&& r == Err::<(), Error>(Error::MaxLenExceeded)
                &&& *final(self) == *old(self)
            },
            old(self)@.fits() ==> final(self)@.fits(),
    {
        if let Value::Int(_) = &self.value {
            return Ok(());
        }
        if !self.value.fits(max_len) {
            Err(Error::MaxLenExceeded)
        } else {
            self.max_len = max_len;
            Ok(())
        }
    }
}

impl Clone for Data {
    fn clone(&self) -> (r: Data)
        ensures
            r@ == self@,
    {
        Data { value: self.value.clone(), max_len: self.max_len }
    }
}

} // verus!
