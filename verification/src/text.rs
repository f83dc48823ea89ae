//! Text: upper case, UTF-8 and the zero byte.
use vstd::prelude::*;
use vstd::utf8::*;

verus! {

/// What `str::to_uppercase` makes of a text that is not all ASCII.
pub uninterp spec fn unicode_uppercase(text: Seq<char>) -> Seq<char>;

/// The upper-case form of one ASCII character.
pub open spec fn ascii_upper(c: char) -> char {
    if 'a' <= c <= 'z' {
        (c as u32 - 32) as char
    } else {
        c
    }
}

/// The upper-case form of a text.
pub open spec fn uppercase(text: Seq<char>) -> Seq<char> {
    if is_ascii_chars(text) {
        text.map_values(|c: char| ascii_upper(c))
    } else {
        unicode_uppercase(text)
    }
}

/// `str::to_uppercase`: an ASCII text has its letters `a` to `z` turned into `A` to `Z` and
/// nothing else changed. Of any other text the result is only named; in particular it is
/// not said that upper case leaves it as it is when applied once more.
pub assume_specification[ str::to_uppercase ](s: &str) -> (r: String)
    ensures
        is_ascii_chars(s@) ==> r@ == s@.map_values(|c: char| ascii_upper(c)),
        !is_ascii_chars(s@) ==> r@ == unicode_uppercase(s@),
;

/// The error of `core::str::from_utf8`; nothing is read from it.
#[verifier::external_type_specification]
#[verifier::external_body]
pub struct ExUtf8Error(core::str::Utf8Error);

/// `core::str::from_utf8`: succeeds on valid UTF-8 and on nothing else, with the text that
/// the bytes spell.
pub assume_specification[ core::str::from_utf8 ](v: &[u8]) -> (r: Result<
    &str,
    core::str::Utf8Error,
>)
    ensures
        r is Ok <==> valid_utf8(v@),
        r matches Ok(s) ==> s@ == decode_utf8(v@),
;

/// Upper case keeps an ASCII text ASCII, and applied twice it does what it does once.
pub proof fn lemma_uppercase_ascii(text: Seq<char>)
    requires
        is_ascii_chars(text),
    ensures
        is_ascii_chars(uppercase(text)),
        uppercase(uppercase(text)) == uppercase(text),
        text.contains('\0') <==> uppercase(text).contains('\0'),
{
    let up = uppercase(text);
    assert(up.len() == text.len());
    assert forall|i: int| 0 <= i < up.len() implies {
        &&& '\0' <= #[trigger] up[i] <= '\u{7f}'
        &&& ascii_upper(up[i]) == up[i]
        &&& (up[i] == '\0' <==> text[i] == '\0')
    } by {
        assert('\0' <= text[i] <= '\u{7f}');
    }
    assert(uppercase(up) =~= up);
    if text.contains('\0') {
        let i = text.index_of('\0');
        assert(up[i] == '\0');
    }
    if up.contains('\0') {
        let i = up.index_of('\0');
        assert(text[i] == '\0');
    }
}

/// One character is encoded with a zero byte only if it is the zero character.
proof fn lemma_scalar_zero(c: char)
    ensures
        encode_scalar(c as u32).contains(0u8) <==> c == '\0',
        c == '\0' ==> encode_scalar(c as u32) == seq![0u8],
{
    char_is_scalar(c);
    let s = c as u32;
    let e = encode_scalar(s);
    if has_width_1_encoding(s) {
        assert((s & 0x7F) as u8 == 0 <==> s == 0) by (bit_vector)
            requires
                s <= 0x7F,
        ;
        assert(e[0] == leading_byte_width_1(s));
        if s == 0 {
            assert(e.contains(0u8));
            assert(e =~= seq![0u8]);
        }
    } else {
        assert(0xC0 | ((s >> 6) & 0x1F) as u8 != 0) by (bit_vector);
        assert(0xE0 | ((s >> 12) & 0x0F) as u8 != 0) by (bit_vector);
        assert(0xF0 | ((s >> 18) & 0x7) as u8 != 0) by (bit_vector);
        assert(0x80 | (s & 0x3F) as u8 != 0) by (bit_vector);
        assert(0x80 | ((s >> 6) & 0x3F) as u8 != 0) by (bit_vector);
        assert(0x80 | ((s >> 12) & 0x3F) as u8 != 0) by (bit_vector);
    }
}

/// The encoding of a text holds a zero byte only where the text holds the zero character.
pub proof fn lemma_encode_zero(text: Seq<char>)
    ensures
        encode_utf8(text).contains(0u8) <==> text.contains('\0'),
    decreases text.len(),
{
    if text.len() > 0 {
        let head = encode_scalar(text[0] as u32);
        let rest = text.drop_first();
        let tail = encode_utf8(rest);
        let all = encode_utf8(text);
        lemma_scalar_zero(text[0]);
        lemma_encode_zero(rest);
        if all.contains(0u8) {
            let i = all.index_of(0u8);
            if i < head.len() {
                assert(head[i] == 0u8);
                assert(text[0] == '\0');
            } else {
                assert(tail[i - head.len()] == 0u8);
                let j = rest.index_of('\0');
                assert(text[j + 1] == '\0');
            }
        }
        if text.contains('\0') {
            let j = text.index_of('\0');
            if j == 0 {
                let i = head.index_of(0u8);
                assert(all[i] == 0u8);
            } else {
                assert(rest[j - 1] == '\0');
                let i = tail.index_of(0u8);
                assert(all[head.len() + i] == 0u8);
            }
        }
    }
}

/// An empty text is encoded in no bytes, and only that one.
pub proof fn lemma_encode_empty(text: Seq<char>)
    ensures
        text.len() == 0 <==> encode_utf8(text).len() == 0,
{
    if text.len() > 0 {
        assert(encode_scalar(text[0] as u32).len() > 0);
    }
}

/// Whether a text holds the zero character.
pub(crate) fn has_zero(text: &str) -> (r: bool)
    ensures
        r == text@.contains('\0'),
{
    let b = text.as_bytes();
    proof {
        lemma_encode_zero(text@);
    }
    let mut i: usize = 0;
    while i < b.len()
        invariant
            i <= b@.len(),
            b@.contains(0u8) <==> text@.contains('\0'),
            forall|j: int| 0 <= j < i ==> b@[j] != 0,
        decreases b@.len() - i,
    {
        if b[i] == 0 {
            assert(b@[i as int] == 0u8);
            return true;
        }
        i += 1;
    }
    false
}

} // verus!
