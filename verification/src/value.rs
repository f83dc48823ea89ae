//! The values that entries hold.
use vstd::prelude::*;
use vstd::utf8::*;

use crate::bytes;
use crate::text;

verus! {

/// The number of bytes of an integer.
pub const U32_SIZE: u32 = 4;

/// How the value of an entry is to be read.
#[derive(Debug, Clone, Copy, PartialEq, Eq, Structural)]
pub enum DataFmt {
    /// An array of bytes.
    Bytes,
    /// A UTF-8 string with a closing zero byte.
    Utf8,
    /// A `u32` integer.
    Int,
}

impl DataFmt {
    /// The number that stands for the format in a file.
    pub open spec fn spec_code(self) -> u16 {
        match self {
            DataFmt::Bytes => 0x4,
            DataFmt::Utf8 => 0x204,
            DataFmt::Int => 0x404,
        }
    }

    /// The format that a number stands for, if it stands for one.
    pub open spec fn spec_from_code(code: u16) -> Option<DataFmt> {
        if code == 0x4 {
            Some(DataFmt::Bytes)
        } else if code == 0x204 {
            Some(DataFmt::Utf8)
        } else if code == 0x404 {
            Some(DataFmt::Int)
        } else {
            None
        }
    }

    /// The number that stands for the format in a file.
    pub fn code(self) -> (r: u16)
        ensures
            r == self.spec_code(),
    {
        match self {
            DataFmt::Bytes => 0x4,
            DataFmt::Utf8 => 0x204,
            DataFmt::Int => 0x404,
        }
    }

    /// The format that a number stands for, if it stands for one.
    pub fn from_code(code: u16) -> (r: Option<DataFmt>)
        ensures
            r == DataFmt::spec_from_code(code),
    {
        if code == 0x4 {
            Some(DataFmt::Bytes)
        } else if code == 0x204 {
            Some(DataFmt::Utf8)
        } else if code == 0x404 {
            Some(DataFmt::Int)
        } else {
            None
        }
    }
}

/// The value of the data.
///
/// There are 3 variants of a value:
/// `Bytes` (a.k.a. "utf8 Special Mode", "utf-s"), a `Utf8` string and an `Int` (`u32` integer).
#[derive(Debug, PartialEq, Eq)]
pub enum Value {
    /// An array of bytes, also known as "utf8 Special Mode" or "utf-s".
    /// In most cases these are not actual strings though.
    Bytes(Vec<u8>),
    /// A UTF-8 string.
    Utf8(String),
    /// A `u32` integer.
    Int(u32),
}

/// What a [`Value`] holds.
pub enum ValueView {
    Bytes(Seq<u8>),
    Utf8(Seq<char>),
    Int(u32),
}

impl ValueView {
    /// The number of bytes that a file says the value takes: for a string that is not empty
    /// the closing zero byte is among them.
    pub open spec fn len(self) -> nat {
        match self {
            ValueView::Bytes(b) => b.len(),
            ValueView::Utf8(s) => if s.len() == 0 {
                0
            } else {
                encode_utf8(s).len() + 1
            },
            ValueView::Int(_) => U32_SIZE as nat,
        }
    }

    /// The format of the value.
    pub open spec fn fmt(self) -> DataFmt {
        match self {
            ValueView::Bytes(_) => DataFmt::Bytes,
            ValueView::Utf8(_) => DataFmt::Utf8,
            ValueView::Int(_) => DataFmt::Int,
        }
    }

    /// The bytes that the value takes in a file: a string that is not empty is closed by a zero
    /// byte.
    pub open spec fn payload(self) -> Seq<u8> {
        match self {
            ValueView::Bytes(b) => b,
            ValueView::Utf8(s) => if s.len() == 0 {
                Seq::empty()
            } else {
                encode_utf8(s).push(0)
            },
            ValueView::Int(n) => bytes::le32(n),
        }
    }
}

impl View for Value {
    type V = ValueView;

    open spec fn view(&self) -> ValueView {
        match *self {
            Value::Bytes(b) => ValueView::Bytes(b@),
            Value::Utf8(s) => ValueView::Utf8(s@),
            Value::Int(n) => ValueView::Int(n),
        }
    }
}

impl Value {
    /// The format of the value.
    pub fn data_fmt(&self) -> (r: DataFmt)
        ensures
            r == self@.fmt(),
    {
        match self {
            Value::Bytes(_) => DataFmt::Bytes,
            Value::Utf8(_) => DataFmt::Utf8,
            Value::Int(_) => DataFmt::Int,
        }
    }

    /// Whether the length of the value is at most `max_len`.
    pub fn fits(&self, max_len: u32) -> (r: bool)
        ensures
            r == (self@.len() <= max_len),
    {
        match self {
            Value::Bytes(v) => v.len() <= max_len as usize,
            Value::Utf8(v) => {
                let n: usize = v.as_str().as_bytes().len();
                proof {
                    text::lemma_encode_empty(v@);
                }
                n == 0 || n < max_len as usize
            },
            Value::Int(_) => U32_SIZE <= max_len,
        }
    }

    /// The length of the value.
    pub fn len(&self) -> (r: u32)
        requires
            self@.len() <= u32::MAX,
        ensures
            r == self@.len(),
    {
        match self {
            Value::Bytes(v) => v.len() as u32,
            Value::Utf8(v) => {
                let n: usize = v.as_str().as_bytes().len();
                proof {
                    text::lemma_encode_empty(v@);
                }
                if n != 0 {
                    n as u32 + 1
                } else {
                    0
                }
            },
            Value::Int(_) => U32_SIZE,
        }
    }

    /// Appends the bytes that the value takes in a file.
    pub(crate) fn put_payload(&self, out: &mut Vec<u8>)
        ensures
            final(out)@ == old(out)@ + self@.payload(),
    {
        match self {
            Value::Bytes(v) => bytes::put_slice(out, v.as_slice()),
            Value::Utf8(v) => {
                let b = v.as_str().as_bytes();
                proof {
                    text::lemma_encode_empty(v@);
                }
                if b.len() != 0 {
                    bytes::put_slice(out, b);
                    out.push(0);
                }
                assert(out@ =~= old(out)@ + self@.payload());
            },
            Value::Int(v) => bytes::put_u32(out, *v),
        }
    }
}

impl Clone for Value {
    fn clone(&self) -> (r: Value)
        ensures
            r@ == self@,
    {
        match self {
            Value::Bytes(v) => {
                let w = v.clone();
                assert(w@ =~= v@);
                Value::Bytes(w)
            },
            Value::Utf8(v) => Value::Utf8(v.clone()),
            Value::Int(v) => Value::Int(*v),
        }
    }
}

impl vstd::std_specs::convert::FromSpecImpl<&str> for Value {
    open spec fn obeys_from_spec() -> bool {
        false
    }

    open spec fn from_spec(value: &str) -> Value {
        arbitrary()
    }
}

impl From<&str> for Value {
    /// The string itself.
    fn from(value: &str) -> (r: Value)
        ensures
            r@ == ValueView::Utf8(value@),
    {
        Value::Utf8(value.to_owned())
    }
}

impl vstd::std_specs::convert::FromSpecImpl<String> for Value {
    open spec fn obeys_from_spec() -> bool {
        true
    }

    open spec fn from_spec(value: String) -> Value {
        Value::Utf8(value)
    }
}

impl From<String> for Value {
    /// The string itself.
    fn from(value: String) -> (r: Value)
        ensures
            r@ == ValueView::Utf8(value@),
    {
        Value::Utf8(value)
    }
}

impl vstd::std_specs::convert::FromSpecImpl<Vec<u8>> for Value {
    open spec fn obeys_from_spec() -> bool {
        true
    }

    open spec fn from_spec(value: Vec<u8>) -> Value {
        Value::Bytes(value)
    }
}

impl From<Vec<u8>> for Value {
    /// The bytes themselves.
    fn from(value: Vec<u8>) -> (r: Value)
        ensures
            r@ == ValueView::Bytes(value@),
    {
        Value::Bytes(value)
    }
}

impl vstd::std_specs::convert::FromSpecImpl<u32> for Value {
    open spec fn obeys_from_spec() -> bool {
        true
    }

    open spec fn from_spec(value: u32) -> Value {
        Value::Int(value)
    }
}

impl From<u32> for Value {
    /// The integer itself.
    fn from(value: u32) -> (r: Value)
        ensures
            r@ == ValueView::Int(value),
    {
        Value::Int(value)
    }
}

} // verus!
