//! What numbers, values, data, keys and parts are.
use vstd::prelude::*;
use vstd::utf8::*;

use crate::bytes;
use crate::data::DataView;
use crate::error::{Error, ErrorView, FormatError, FormatErrorView};
use crate::key;
use crate::key::Key;
use crate::listing;
use crate::order_laws;
use crate::read_back;
use crate::sfo;
use crate::text;
use crate::value::{DataFmt, Value, ValueView};

verus! {

/// The bytes of a number stand with the least significant first.
pub proof fn law_little_endian(x: u16, y: u32)
    ensures
        bytes::le16(x).len() == 2,
        bytes::le16(x)[0] + 0x100 * bytes::le16(x)[1] == x,
        bytes::le32(y).len() == 4,
        bytes::le32(y)[0] + 0x100 * bytes::le32(y)[1] + 0x1_0000 * bytes::le32(y)[2] + 0x100_0000
            * bytes::le32(y)[3] == y,
{
}

/// A number is read from bytes that stand with the least significant first.
pub proof fn law_numbers_in_bytes(b: Seq<u8>, at: int)
    ensures
        bytes::u16_at(b, at) == b[at] + 0x100 * b[at + 1],
        bytes::u32_at(b, at) == b[at] + 0x100 * b[at + 1] + 0x1_0000 * b[at + 2] + 0x100_0000 * b[at
            + 3],
{
}

/// Zeros are zeros.
pub proof fn law_zeros(n: nat, i: int)
    ensures
        bytes::zeros(n).len() == n,
        0 <= i < n ==> bytes::zeros(n)[i] == 0,
{
}

/// A value is seen as what it holds.
pub proof fn law_value_seen(v: Value)
    ensures
        v matches Value::Bytes(b) ==> v@ == ValueView::Bytes(b@),
        v matches Value::Utf8(s) ==> v@ == ValueView::Utf8(s@),
        v matches Value::Int(n) ==> v@ == ValueView::Int(n),
{
}

/// An error is seen as what it says.
pub proof fn law_error_seen(e: Error)
    ensures
        e matches Error::IO(x) ==> e@ == ErrorView::IO(x),
        e matches Error::InvalidFormat(x) ==> e@ == ErrorView::InvalidFormat(x@),
        e matches Error::FromUtf8Error(b) ==> e@ == ErrorView::FromUtf8Error(b@),
        e is MaxLenExceeded ==> e@ is MaxLenExceeded,
        e is InvalidParts ==> e@ is InvalidParts,
        e is InvalidKey ==> e@ is InvalidKey,
{
}

/// An error of the format is seen as what it says.
pub proof fn law_format_error_seen(e: FormatError)
    ensures
        e matches FormatError::BadMagic { pos, found } ==> e@ == (FormatErrorView::BadMagic {
            pos,
            found: found@,
        }),
        e is UnexpectedEof ==> e@ is UnexpectedEof,
        e matches FormatError::NoVariantMatch { pos } ==> e@ == (FormatErrorView::NoVariantMatch {
            pos,
        }),
        e matches FormatError::ShortInteger { pos } ==> e@ == (FormatErrorView::ShortInteger {
            pos,
        }),
        e is Unaddressable ==> e@ is Unaddressable,
{
}

/// The numbers of the formats, in both directions; no other number stands for a format.
pub proof fn law_format_numbers(fmt: DataFmt, code: u16)
    ensures
        DataFmt::spec_from_code(fmt.spec_code()) == Some(fmt),
        DataFmt::spec_from_code(code) matches Some(f) ==> f.spec_code() == code,
        DataFmt::spec_from_code(code) is Some <==> code == 0x004 || code == 0x204 || code == 0x404,
        DataFmt::Bytes.spec_code() == 0x004,
        DataFmt::Utf8.spec_code() == 0x204,
        DataFmt::Int.spec_code() == 0x404,
{
}

/// Each kind of value has its own format.
pub proof fn law_value_format(v: ValueView)
    ensures
        v.fmt() is Bytes <==> v is Bytes,
        v.fmt() is Utf8 <==> v is Utf8,
        v.fmt() is Int <==> v is Int,
{
}

/// A value takes as many bytes as its length says, and each kind of value its own: bytes
/// themselves; of a text that is not empty the UTF-8 and a closing zero byte, of an empty one
/// nothing; of an integer four bytes with the least significant first.
pub proof fn law_value_bytes(v: ValueView)
    ensures
        v.payload().len() == v.len(),
        v matches ValueView::Bytes(b) ==> v.payload() == b,
        v matches ValueView::Utf8(t) ==> t.len() == 0 ==> v.payload().len() == 0,
        v matches ValueView::Utf8(t) ==> t.len() > 0 ==> v.payload().len() == encode_utf8(t).len()
            + 1 && v.payload().drop_last() == encode_utf8(t) && v.payload().last() == 0,
        v matches ValueView::Int(n) ==> v.payload().len() == 4 && v.payload()[0] + 0x100
            * v.payload()[1] + 0x1_0000 * v.payload()[2] + 0x100_0000 * v.payload()[3] == n,
{
    if let ValueView::Utf8(t) = v {
        if t.len() > 0 {
            assert(v.payload().drop_last() =~= encode_utf8(t));
        }
    }
}

/// Data keep the maximum length that was asked for, and an integer has four.
pub proof fn law_room(value: ValueView, asked: u32)
    ensures
        value is Bytes || value is Utf8 ==> DataView::granted(value, asked) == asked,
        value is Int ==> DataView::granted(value, asked) == 4,
{
}

/// Data fit when the bytes of the value are no more than the maximum length.
pub proof fn law_fits(d: DataView)
    ensures
        d.fits() <==> d.value.payload().len() <= d.max_len,
{
    law_value_bytes(d.value);
}

/// A text can name an entry exactly when its UTF-8 has at most `u32::MAX` bytes and no zero
/// character is in it.
pub proof fn law_key_text(name: Seq<char>)
    ensures
        key::valid_key_text(name) <==> encode_utf8(name).len() <= 0xffff_ffff && forall|i: int|
            0 <= i < name.len() ==> #[trigger] name[i] != '\0',
{
    if name.contains('\0') {
        let i = name.index_of('\0');
        assert(name[i] == '\0');
    }
}

/// A key is made of every text that can name an entry, and is its upper-case form; of any other
/// text comes the error.
pub proof fn law_key_made(name: Seq<char>, r: Result<Key, Error>)
    requires
        key::key_result(name, r),
    ensures
        encode_utf8(name).len() <= 0xffff_ffff && !name.contains('\0') ==> (r matches Ok(k) && k@
            == text::uppercase(name)),
        encode_utf8(name).len() > 0xffff_ffff || name.contains('\0') ==> (r matches Err(e)
            && e is InvalidKey),
{
}

/// In the upper-case form of ASCII text the letters from `a` to `z` stand as `A` to `Z`, and
/// everything else stands as it was.
pub proof fn law_upper_case(name: Seq<char>, i: int)
    requires
        is_ascii_chars(name),
        0 <= i < name.len(),
    ensures
        text::uppercase(name).len() == name.len(),
        0x61 <= name[i] as int <= 0x7a ==> text::uppercase(name)[i] as int == name[i] as int - 0x20,
        !(0x61 <= name[i] as int <= 0x7a) ==> text::uppercase(name)[i] == name[i],
{
}

/// The upper-case form of other text is what the standard library makes of it, and that of no
/// text is no text.
pub proof fn law_upper_case_named(name: Seq<char>)
    ensures
        !is_ascii_chars(name) ==> text::uppercase(name) == text::unicode_uppercase(name),
        name.len() == 0 ==> text::uppercase(name).len() == 0,
{
}

/// A key is stable exactly when it has no zero character and upper case leaves it as it is.
pub proof fn law_stable(name: Seq<char>)
    ensures
        read_back::stable_key(name) <==> !name.contains('\0') && text::uppercase(name) == name,
{
}

/// A part is valid exactly when its text can name an entry and its value is an integer or no
/// longer than the maximum length. The key is looked at first.
pub proof fn law_part_valid(name: Seq<char>, value: Value, max_len: u32)
    ensures
        sfo::part_error(name, value, max_len) is None <==> !name.contains('\0') && encode_utf8(
            name,
        ).len() <= 0xffff_ffff && (value@ is Int || value@.len() <= max_len),
        name.contains('\0') || encode_utf8(name).len() > 0xffff_ffff ==> sfo::part_error(
            name,
            value,
            max_len,
        ) == Some(ErrorView::InvalidKey),
        !name.contains('\0') && encode_utf8(name).len() <= 0xffff_ffff ==> (sfo::part_error(
            name,
            value,
            max_len,
        ) matches Some(e) ==> e is MaxLenExceeded),
{
}

/// Parts are accepted exactly when all texts can name entries and all values are integers or
/// no longer than their maximum lengths.
pub proof fn law_parts_accepted(keys: Seq<String>, values: Seq<Value>, max_lens: Seq<u32>, n: nat)
    ensures
        sfo::parts_error(keys, values, max_lens, n) is None <==> forall|i: int|
            0 <= i < n ==> !(#[trigger] keys[i])@.contains('\0') && encode_utf8(keys[i]@).len()
                <= 0xffff_ffff && (values[i]@ is Int || values[i]@.len() <= max_lens[i]),
    decreases n,
{
    if n > 0 {
        law_parts_accepted(keys, values, max_lens, (n - 1) as nat);
        law_part_valid(keys[n - 1]@, values[n - 1], max_lens[n - 1]);
    }
}

/// Parts are refused with the error of the first that is not valid.
pub proof fn law_first_part_refused(
    keys: Seq<String>,
    values: Seq<Value>,
    max_lens: Seq<u32>,
    n: nat,
    i: int,
)
    requires
        0 <= i < n,
        forall|j: int|
            0 <= j < i ==> sfo::part_error((#[trigger] keys[j])@, values[j], max_lens[j]) is None,
        sfo::part_error(keys[i]@, values[i], max_lens[i]) is Some,
    ensures
        sfo::parts_error(keys, values, max_lens, n) == sfo::part_error(
            keys[i]@,
            values[i],
            max_lens[i],
        ),
    decreases n,
{
    if i < n - 1 {
        law_first_part_refused(keys, values, max_lens, (n - 1) as nat, i);
    } else {
        law_parts_accepted(keys, values, max_lens, i as nat);
        assert forall|j: int| 0 <= j < i implies !(#[trigger] keys[j])@.contains('\0')
            && encode_utf8(keys[j]@).len() <= 0xffff_ffff && (values[j]@ is Int || values[j]@.len()
            <= max_lens[j]) by {
            law_part_valid(keys[j]@, values[j], max_lens[j]);
        }
    }
}

/// Each part makes one item: its text in upper case, its value, and its maximum length, which
/// for an integer is four.
pub proof fn law_part_items(keys: Seq<String>, values: Seq<Value>, max_lens: Seq<u32>, i: int)
    requires
        0 <= i < keys.len(),
    ensures
        sfo::parts_items(keys, values, max_lens).len() == keys.len(),
        sfo::parts_items(keys, values, max_lens)[i].0 == text::uppercase(keys[i]@),
        sfo::parts_items(keys, values, max_lens)[i].1.value == values[i]@,
        values[i]@ is Int ==> sfo::parts_items(keys, values, max_lens)[i].1.max_len == 4,
        !(values[i]@ is Int) ==> sfo::parts_items(keys, values, max_lens)[i].1.max_len
            == max_lens[i],
{
}

/// A part whose key no later part has is found under that key: with its value, and with the
/// maximum length that was given, or four for an integer.
pub proof fn law_part_found(keys: Seq<String>, values: Seq<Value>, max_lens: Seq<u32>, i: int)
    requires
        0 <= i < keys.len(),
        forall|j: int|
            i < j < keys.len() ==> text::uppercase((#[trigger] keys[j])@) != text::uppercase(
                keys[i]@,
            ),
    ensures
        listing::lookup(
            listing::collect(sfo::parts_items(keys, values, max_lens)),
            text::uppercase(keys[i]@),
        ) matches Some(d) && d.value == values[i]@ && (values[i]@ is Int ==> d.max_len == 4) && (!(
        values[i]@ is Int) ==> d.max_len == max_lens[i]),
{
    let items = sfo::parts_items(keys, values, max_lens);
    let name = text::uppercase(keys[i]@);
    order_laws::law_collected(items, name);
    assert forall|j: int| i < j < items.len() implies (#[trigger] items[j]).0 != name by {
        assert(text::uppercase(keys[j]@) != name);
    }
    order_laws::law_found(items, name, i);
}

/// The version that a PARAM.SFO has by default is 1.1.
pub proof fn law_default_version()
    ensures
        sfo::VERSION_1_1@ == seq![1u8, 1, 0, 0],
{
    assert(sfo::VERSION_1_1@ =~= seq![1u8, 1, 0, 0]);
}

} // verus!
