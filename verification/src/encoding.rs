//! Text encodings that wire formats use: base64 and percent-encoding.

use base64::Engine;
use vstd::prelude::*;

verus! {

/// The bytes that a base64 text stands for, or what is said of a text that
/// stands for none.
pub uninterp spec fn base64_decoded(text: Seq<char>) -> Result<Seq<u8>, Seq<char>>;

/// What decoded bytes, or the failure to decode, hold.
pub open spec fn decoding(r: Result<Vec<u8>, String>) -> Result<Seq<u8>, Seq<char>> {
    match r {
        Ok(b) => Ok(b@),
        Err(e) => Err(e@),
    }
}

/// Trusts `base64`'s standard engine: what its `decode` returns for a text, its
/// error by its message, depends on the text alone and is called
/// [`base64_decoded`].
#[verifier::external_body]
pub(crate) fn base64_decode(text: &str) -> (r: Result<Vec<u8>, String>)
    ensures
        decoding(r) == base64_decoded(text@),
{
    base64::engine::general_purpose::STANDARD.decode(text).map_err(|e| e.to_string())
}

/// Whether a byte stands for itself in a query: a letter, a digit, or one of
/// `-`, `.`, `_` and `~`.
pub open spec fn is_unreserved(b: u8) -> bool {
    ||| 0x30 <= b <= 0x39
    ||| 0x41 <= b <= 0x5a
    ||| 0x61 <= b <= 0x7a
    ||| b == 0x2d
    ||| b == 0x2e
    ||| b == 0x5f
    ||| b == 0x7e
}

/// The hexadecimal digit `d`, a capital from ten up.
pub open spec fn hex_digit(d: int) -> char {
    if d < 10 {
        (0x30 + d) as u8 as char
    } else {
        (0x37 + d) as u8 as char
    }
}

/// A byte in a query: itself, or `%` and two hexadecimal digits.
pub open spec fn percent_byte(b: u8) -> Seq<char> {
    if is_unreserved(b) {
        seq![b as char]
    } else {
        seq!['%', hex_digit(b as int / 16), hex_digit(b as int % 16)]
    }
}

/// Bytes in a query, one after another.
pub open spec fn percent_bytes(bytes: Seq<u8>) -> Seq<char>
    decreases bytes.len(),
{
    if bytes.len() == 0 {
        Seq::empty()
    } else {
        percent_bytes(bytes.drop_last()) + percent_byte(bytes.last())
    }
}

/// A text in a query: the bytes of its UTF-8 form.
pub open spec fn percent_encoded(s: Seq<char>) -> Seq<char> {
    percent_bytes(vstd::utf8::encode_utf8(s))
}

/// Trusts `urlencoding::encode`: it percent-encodes every byte of the UTF-8
/// form except letters, digits, `-`, `.`, `_` and `~`.
#[verifier::external_body]
pub(crate) fn url_encode(s: &str) -> (r: String)
    ensures
        r@ == percent_encoded(s@),
{
    urlencoding::encode(s).into_owned()
}

/// Whether a character can stand in a query without ending a value or starting
/// another: an unreserved one, or the `%` of an encoded byte.
pub open spec fn is_query_safe(c: char) -> bool {
    c == '%' || (c as u32 <= 0x7f && is_unreserved(c as u8))
}

proof fn lemma_percent_bytes_safe(bytes: Seq<u8>)
    ensures
        forall|i: int|
            0 <= i < percent_bytes(bytes).len() ==> is_query_safe(
                #[trigger] percent_bytes(bytes)[i],
            ),
    decreases bytes.len(),
{
    if bytes.len() > 0 {
        lemma_percent_bytes_safe(bytes.drop_last());
        let head = percent_bytes(bytes.drop_last());
        let tail = percent_byte(bytes.last());
        assert forall|i: int| 0 <= i < percent_bytes(bytes).len() implies is_query_safe(
            #[trigger] percent_bytes(bytes)[i],
        ) by {
            if i < head.len() {
                assert(percent_bytes(bytes)[i] == head[i]);
            } else {
                assert(percent_bytes(bytes)[i] == tail[i - head.len()]);
            }
        }
    }
}

/// Nothing that separates values in a query, no white space and no character
/// beyond ASCII is left in an encoded text.
pub proof fn law_encoded_text_is_query_safe(s: Seq<char>)
    ensures
        forall|i: int|
            0 <= i < percent_encoded(s).len() ==> is_query_safe(#[trigger] percent_encoded(s)[i]),
{
    lemma_percent_bytes_safe(vstd::utf8::encode_utf8(s));
}

/// The number that a hexadecimal digit stands for.
pub open spec fn hex_value(c: char) -> int {
    if '0' <= c <= '9' {
        c as int - '0' as int
    } else {
        c as int - 'A' as int + 10
    }
}

/// A byte is encoded as itself where it is a letter, a digit, `-`, `.`, `_` or `~`, and
/// else as `%` and its number in two hexadecimal digits, so that it can be read back.
pub proof fn law_byte_can_be_read_back(b: u8)
    ensures
        ({
            let e = percent_byte(b);
            let c = b as char;
            if 'a' <= c <= 'z' || 'A' <= c <= 'Z' || '0' <= c <= '9' || c == '-' || c == '.' || c
                == '_' || c == '~' {
                e == seq![c]
            } else {
                e.len() == 3 && e[0] == '%' && 16 * hex_value(e[1]) + hex_value(e[2]) == b
            }
        }),
{
}

/// A text is encoded byte by byte.
pub proof fn law_bytes_are_encoded_in_order(bytes: Seq<u8>, b: u8)
    ensures
        percent_bytes(Seq::<u8>::empty()).len() == 0,
        percent_bytes(bytes.push(b)) == percent_bytes(bytes) + percent_byte(b),
{
    assert(bytes.push(b).drop_last() =~= bytes);
}

/// What was decoded is the bytes, or what is said of the failure.
pub proof fn law_what_was_decoded(r: Result<Vec<u8>, String>)
    ensures
        r matches Ok(b) ==> decoding(r) == Ok::<Seq<u8>, Seq<char>>(b@),
        r matches Err(e) ==> decoding(r) == Err::<Seq<u8>, Seq<char>>(e@),
{
}

} // verus!
