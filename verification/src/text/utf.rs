//! Text and its bytes.

use vstd::prelude::*;
use vstd::utf8::{decode_utf8, encode_scalar, encode_utf8, valid_utf8};

verus! {

/// `std::string::FromUtf8Error`, carried as it is.
#[verifier::external_type_specification]
#[verifier::external_body]
pub struct ExFromUtf8Error(std::string::FromUtf8Error);

/// The error of `String::from_utf8` on bytes that are not UTF-8: it holds the bytes and says how far
/// they are UTF-8.
pub uninterp spec fn utf8_error(bytes: Seq<u8>) -> std::string::FromUtf8Error;

/// `String::from_utf8` gives the text that the bytes encode, and an error exactly when they are
/// not UTF-8. The error depends on the bytes alone, and is called `utf8_error`.
pub assume_specification[ String::from_utf8 ](vec: Vec<u8>) -> (r: Result<
    String,
    std::string::FromUtf8Error,
>)
    ensures
        match r {
            Ok(s) => valid_utf8(vec@) && s@ == decode_utf8(vec@),
            Err(error) => !valid_utf8(vec@) && error == utf8_error(vec@),
        },
;

/// The text breaks at `i`: a line feed follows a carriage return.
pub open spec fn breaks_at(s: Seq<char>, i: int) -> bool {
    0 <= i && i + 1 < s.len() && s[i] == '\r' && s[i + 1] == '\n'
}

/// The text does not break.
pub open spec fn is_one_line(s: Seq<char>) -> bool {
    forall|i: int| !breaks_at(s, i)
}

/// An ASCII character is encoded as itself, any other in bytes outside ASCII.
pub proof fn lemma_scalar_bytes(c: char)
    ensures
        (c as u32) < 128 ==> encode_scalar(c as u32) == seq![(c as u32) as u8],
        (c as u32) >= 128 ==> forall|i: int|
            0 <= i < encode_scalar(c as u32).len() ==> #[trigger] encode_scalar(c as u32)[i]
                >= 128,
        encode_scalar(c as u32).len() > 0,
{
    let u = c as u32;
    vstd::utf8::char_is_scalar(c);
    assert(u < 128 ==> (u & 0x7F) as u8 == u as u8) by (bit_vector);
    assert(forall|b: u8| #[trigger] (0x80 | b) >= 128) by (bit_vector);
    assert(forall|b: u8| #[trigger] (0xC0 | b) >= 128) by (bit_vector);
    assert(forall|b: u8| #[trigger] (0xE0 | b) >= 128) by (bit_vector);
    assert(forall|b: u8| #[trigger] (0xF0 | b) >= 128) by (bit_vector);
}

/// The encoding of two texts one after the other.
pub proof fn lemma_encode_concat(a: Seq<char>, b: Seq<char>)
    ensures
        encode_utf8(a + b) == encode_utf8(a) + encode_utf8(b),
    decreases a.len(),
{
    if a.len() == 0 {
        assert(a + b =~= b);
        assert(encode_utf8(a) + encode_utf8(b) =~= encode_utf8(b));
    } else {
        lemma_encode_concat(a.drop_first(), b);
        assert((a + b).drop_first() =~= a.drop_first() + b);
        assert(encode_utf8(a + b) =~= encode_utf8(a) + encode_utf8(b));
    }
}

/// The encoding of a line break.
pub proof fn lemma_encode_break()
    ensures
        encode_utf8(seq!['\r', '\n']) == seq![13u8, 10u8],
{
    let s = seq!['\r', '\n'];
    lemma_scalar_bytes('\r');
    lemma_scalar_bytes('\n');
    assert(s.drop_first() =~= seq!['\n']);
    assert(s.drop_first().drop_first() =~= Seq::empty());
    reveal_with_fuel(encode_utf8, 3);
    assert(encode_utf8(s) =~= seq![13u8, 10u8]);
}

/// A first byte within ASCII is the first character.
proof fn lemma_first_byte(s: Seq<char>)
    requires
        encode_utf8(s).len() > 0,
        encode_utf8(s)[0] < 128,
    ensures
        s.len() > 0,
        s[0] as u32 == encode_utf8(s)[0],
{
    lemma_scalar_bytes(s[0]);
    let u = s[0] as u32;
    if u >= 128 {
        assert(encode_utf8(s)[0] == encode_scalar(u)[0]);
    }
}

/// A line break in the bytes of a text is a line break in the text.
pub proof fn lemma_break_in_bytes(s: Seq<char>, k: int)
    requires
        0 <= k,
        k + 1 < encode_utf8(s).len(),
        encode_utf8(s)[k] == 13,
        encode_utf8(s)[k + 1] == 10,
    ensures
        !is_one_line(s),
    decreases s.len(),
{
    let first = encode_scalar(s[0] as u32);
    let rest = s.drop_first();
    lemma_scalar_bytes(s[0]);
    if k < first.len() {
        assert(first[k] == 13);
        assert(s[0] as u32 == 13);
        assert(encode_utf8(rest)[0] == 10);
        lemma_first_byte(rest);
        assert(rest[0] as u32 == 10);
        assert(s[1] == rest[0]);
        vstd::utf8::char_u32_cast(s[0], 13);
        vstd::utf8::char_u32_cast(s[1], 10);
        assert(13u32 as char == '\r' && 10u32 as char == '\n');
        assert(breaks_at(s, 0));
    } else {
        lemma_break_in_bytes(rest, k - first.len());
        let i = choose|i: int| breaks_at(rest, i);
        assert(breaks_at(s, i + 1));
    }
}

/// A line break in a text is a line break in its bytes; the result is where.
pub proof fn lemma_break_in_text(s: Seq<char>, i: int) -> (k: int)
    requires
        breaks_at(s, i),
    ensures
        0 <= k,
        k + 1 < encode_utf8(s).len(),
        encode_utf8(s)[k] == 13,
        encode_utf8(s)[k + 1] == 10,
{
    let before = s.take(i);
    let after = s.skip(i + 2);
    let two = seq!['\r', '\n'];
    assert(s =~= before + two + after);
    lemma_encode_concat(before + two, after);
    lemma_encode_concat(before, two);
    lemma_encode_break();
    encode_utf8(before).len() as int
}

} // verus!
