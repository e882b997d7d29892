//! Encodings of bytes as text, and the characters of HTTP header values.

use vstd::prelude::*;

use crate::text::{ascii_lower, same_ignoring_case};

verus! {

/// The bytes that stand for themselves in a percent-encoded text: ASCII letters,
/// digits and `-`, `.`, `_`, `~`.
pub open spec fn is_unreserved(b: u8) -> bool {
    ||| 48 <= b <= 57
    ||| 65 <= b <= 90
    ||| 97 <= b <= 122
    ||| b == 45
    ||| b == 46
    ||| b == 95
    ||| b == 126
}

/// The hexadecimal digit `d` with upper-case letters.
pub open spec fn upper_hex_digit(d: int) -> char {
    if d < 10 {
        (48 + d) as char
    } else {
        (55 + d) as char
    }
}

/// The hexadecimal digit `d` with lower-case letters.
pub open spec fn lower_hex_digit(d: int) -> char {
    if d < 10 {
        (48 + d) as char
    } else {
        (87 + d) as char
    }
}

/// Bytes in percent-encoding: unreserved bytes as they are, every other byte as `%`
/// and two upper-case hexadecimal digits.
pub open spec fn percent_encoded(bytes: Seq<u8>) -> Seq<char>
    decreases bytes.len(),
{
    if bytes.len() == 0 {
        Seq::empty()
    } else {
        let b = bytes.last();
        let before = percent_encoded(bytes.drop_last());
        if is_unreserved(b) {
            before.push(b as char)
        } else {
            before.push('%').push(upper_hex_digit(b as int / 16)).push(
                upper_hex_digit(b as int % 16),
            )
        }
    }
}

/// One byte in percent-encoding.
pub open spec fn encoded_byte(b: u8) -> Seq<char> {
    if is_unreserved(b) {
        seq![b as char]
    } else {
        seq!['%', upper_hex_digit(b as int / 16), upper_hex_digit(b as int % 16)]
    }
}

/// The encoding of a first byte comes first.
proof fn lemma_encoded_first(b: u8, rest: Seq<u8>)
    ensures
        percent_encoded(seq![b] + rest) == encoded_byte(b) + percent_encoded(rest),
    decreases rest.len(),
{
    let all = seq![b] + rest;
    if rest.len() == 0 {
        assert(all.drop_last() =~= Seq::<u8>::empty());
        assert(percent_encoded(Seq::<u8>::empty()) =~= Seq::<char>::empty());
        assert(all.last() == b);
        assert(percent_encoded(all) =~= encoded_byte(b) + percent_encoded(rest));
    } else {
        assert(all.drop_last() =~= seq![b] + rest.drop_last());
        assert(all.last() == rest.last());
        lemma_encoded_first(b, rest.drop_last());
        assert(percent_encoded(all) =~= encoded_byte(b) + percent_encoded(rest));
    }
}

/// Bytes that are encoded alike are alike.
pub proof fn percent_encoding_is_injective(a: Seq<u8>, b: Seq<u8>)
    requires
        percent_encoded(a) == percent_encoded(b),
    ensures
        a == b,
    decreases a.len(),
{
    if a.len() == 0 {
        assert(percent_encoded(a).len() == 0);
        assert(b.len() == 0);
        assert(a =~= b);
    } else {
        assert(percent_encoded(a).len() > 0);
        assert(b.len() > 0);
        let (x, y) = (a[0], b[0]);
        let (s, t) = (a.skip(1), b.skip(1));
        assert(a =~= seq![x] + s);
        assert(b =~= seq![y] + t);
        lemma_encoded_first(x, s);
        lemma_encoded_first(y, t);
        let (p, q) = (encoded_byte(x) + percent_encoded(s), encoded_byte(y) + percent_encoded(t));
        assert(p[0] == encoded_byte(x)[0]);
        assert(q[0] == encoded_byte(y)[0]);
        if !is_unreserved(x) && !is_unreserved(y) {
            assert(p[1] == upper_hex_digit(x as int / 16));
            assert(q[1] == upper_hex_digit(y as int / 16));
            assert(p[2] == upper_hex_digit(x as int % 16));
            assert(q[2] == upper_hex_digit(y as int % 16));
            assert(x as int / 16 == y as int / 16);
            assert(x as int % 16 == y as int % 16);
        }
        assert(x == y);
        let n = encoded_byte(x).len() as int;
        assert(p.skip(n) =~= percent_encoded(s));
        assert(q.skip(n) =~= percent_encoded(t));
        percent_encoding_is_injective(s, t);
        assert(a =~= b);
    }
}

/// Encoded bytes hold no slash.
proof fn lemma_encoded_has_no_slash(bytes: Seq<u8>)
    ensures
        !percent_encoded(bytes).contains('/'),
    decreases bytes.len(),
{
    if bytes.len() > 0 {
        let before = percent_encoded(bytes.drop_last());
        let all = percent_encoded(bytes);
        lemma_encoded_has_no_slash(bytes.drop_last());
        assert forall|i: int| 0 <= i < all.len() implies all[i] != '/' by {
            if i < before.len() {
                assert(before.contains(before[i]));
            }
        }
    }
}

/// Texts that are encoded alike are alike, and no encoded text holds a slash.
pub proof fn url_encoding_is_injective(a: Seq<char>, b: Seq<char>)
    ensures
        url_encoded(a) == url_encoded(b) ==> a == b,
        !url_encoded(a).contains('/'),
{
    lemma_encoded_has_no_slash(vstd::utf8::encode_utf8(a));
    if url_encoded(a) == url_encoded(b) {
        percent_encoding_is_injective(vstd::utf8::encode_utf8(a), vstd::utf8::encode_utf8(b));
        vstd::utf8::encode_utf8_decode_utf8(a);
        vstd::utf8::encode_utf8_decode_utf8(b);
    }
}

/// A text in percent-encoding, byte by byte of its UTF-8 form.
pub open spec fn url_encoded(s: Seq<char>) -> Seq<char> {
    percent_encoded(vstd::utf8::encode_utf8(s))
}

/// Bytes as two lower-case hexadecimal digits each.
pub open spec fn hex_encoded(bytes: Seq<u8>) -> Seq<char>
    decreases bytes.len(),
{
    if bytes.len() == 0 {
        Seq::empty()
    } else {
        hex_encoded(bytes.drop_last()).push(lower_hex_digit(bytes.last() as int / 16)).push(
            lower_hex_digit(bytes.last() as int % 16),
        )
    }
}

/// Whether an HTTP header value can hold these bytes: no control character but the
/// tab, and no DEL.
pub open spec fn is_header_text(bytes: Seq<u8>) -> bool {
    forall|i: int| 0 <= i < bytes.len() ==> (#[trigger] bytes[i] >= 32 && bytes[i] != 127) || bytes[i] == 9
}

/// `urlencoding::encode`: percent-encodes every byte of the text's UTF-8 form but
/// ASCII letters, digits and `-`, `_`, `.`, `~`.
#[verifier::external_body]
pub(crate) fn url_encode(s: &str) -> (out: String)
    ensures
        out@ == url_encoded(s@),
{
    urlencoding::encode(s).into_owned()
}

/// `hex::encode`: two lower-case hexadecimal digits for each byte, in order.
#[verifier::external_body]
pub(crate) fn hex_encode(bytes: &[u8]) -> (out: String)
    ensures
        out@ == hex_encoded(bytes@),
{
    hex::encode(bytes)
}

/// `reqwest::header::HeaderValue::from_str`: succeeds exactly when no byte of the
/// text's UTF-8 form is DEL or a control character other than the tab.
#[verifier::external_body]
pub(crate) fn is_header_value(s: &str) -> (r: bool)
    ensures
        r == is_header_text(vstd::utf8::encode_utf8(s@)),
{
    reqwest::header::HeaderValue::from_str(s).is_ok()
}

/// Different bytes have different hexadecimal texts, also where the case of letters does not
/// count.
pub proof fn hex_texts_tell_bytes_apart(a: Seq<u8>, b: Seq<u8>)
    requires
        same_ignoring_case(hex_encoded(a), hex_encoded(b)),
    ensures
        a == b,
    decreases a.len(),
{
    lemma_hex_len(a);
    lemma_hex_len(b);
    if a.len() == 0 {
        assert(a =~= b);
    } else {
        let (p, q) = (a.drop_last(), b.drop_last());
        let (s, t) = (hex_encoded(a), hex_encoded(b));
        lemma_hex_len(p);
        lemma_hex_len(q);
        let n = s.len() as int;
        assert(ascii_lower(s[n - 1]) == ascii_lower(t[n - 1]));
        assert(ascii_lower(s[n - 2]) == ascii_lower(t[n - 2]));
        let (x, y) = (a.last(), b.last());
        assert(x as int % 16 == y as int % 16);
        assert(x as int / 16 == y as int / 16);
        assert(x == y);
        assert forall|i: int| 0 <= i < hex_encoded(p).len() implies #[trigger] ascii_lower(
            hex_encoded(p)[i],
        ) == ascii_lower(hex_encoded(q)[i]) by {
            assert(hex_encoded(p)[i] == s[i] && hex_encoded(q)[i] == t[i]);
            assert(ascii_lower(s[i]) == ascii_lower(t[i]));
        }
        hex_texts_tell_bytes_apart(p, q);
        assert(a =~= p.push(x));
        assert(b =~= q.push(y));
    }
}

/// Two digits stand for each byte.
proof fn lemma_hex_len(bytes: Seq<u8>)
    ensures
        hex_encoded(bytes).len() == 2 * bytes.len(),
    decreases bytes.len(),
{
    if bytes.len() > 0 {
        lemma_hex_len(bytes.drop_last());
    }
}

/// An encoded text is made of unreserved characters, percent signs and digits: it holds
/// nothing that separates the parts of an address.
pub proof fn encoded_texts_hold_no_separator(s: Seq<char>)
    ensures
        !url_encoded(s).contains('/'),
        !url_encoded(s).contains('?'),
        !url_encoded(s).contains('&'),
        !url_encoded(s).contains('='),
        !url_encoded(s).contains('#'),
        !url_encoded(s).contains(' '),
{
    lemma_encoded_chars(vstd::utf8::encode_utf8(s));
    let text = url_encoded(s);
    assert forall|ch: char| #[trigger] text.contains(ch) implies is_address_char(ch) by {
        assert(is_address_char(text[text.index_of(ch)]));
    }
}

/// Whether a character can stand in an encoded text.
pub open spec fn is_address_char(ch: char) -> bool {
    ||| 'a' <= ch <= 'z'
    ||| 'A' <= ch <= 'Z'
    ||| '0' <= ch <= '9'
    ||| ch == '-'
    ||| ch == '.'
    ||| ch == '_'
    ||| ch == '~'
    ||| ch == '%'
}

/// Encoded bytes are made of these characters.
proof fn lemma_encoded_chars(bytes: Seq<u8>)
    ensures
        forall|i: int|
            0 <= i < percent_encoded(bytes).len() ==> is_address_char(
                #[trigger] percent_encoded(bytes)[i],
            ),
    decreases bytes.len(),
{
    if bytes.len() > 0 {
        lemma_encoded_chars(bytes.drop_last());
        let (before, all) = (percent_encoded(bytes.drop_last()), percent_encoded(bytes));
        assert forall|i: int| 0 <= i < all.len() implies is_address_char(#[trigger] all[i]) by {
            if i < before.len() {
                assert(all[i] == before[i]);
            }
        }
    }
}

/// A header value holds every byte but control characters, of which it holds the tab alone.
pub proof fn header_values_hold_no_control_characters(a: Seq<u8>, b: Seq<u8>, byte: u8)
    ensures
        is_header_text(a + b) <==> is_header_text(a) && is_header_text(b),
        is_header_text(seq![byte]) <==> byte == 9 || 32 <= byte < 127 || byte >= 128,
        is_header_text(Seq::<u8>::empty()),
{
    let whole = a + b;
    if is_header_text(whole) {
        assert forall|i: int| 0 <= i < a.len() implies (#[trigger] a[i] >= 32 && a[i] != 127)
            || a[i] == 9 by {
            assert(whole[i] == a[i]);
        }
        assert forall|i: int| 0 <= i < b.len() implies (#[trigger] b[i] >= 32 && b[i] != 127)
            || b[i] == 9 by {
            assert(whole[a.len() + i] == b[i]);
        }
    }
    if is_header_text(seq![byte]) {
        assert(seq![byte][0] == byte);
    }
}

/// A hexadecimal digit is a decimal digit, or one of the six letters that follow in their order.
pub proof fn hex_digits_are_in_order(d: int)
    ensures
        0 <= d < 10 ==> upper_hex_digit(d) as int == '0' as int + d && lower_hex_digit(d) as int
            == '0' as int + d,
        10 <= d < 16 ==> upper_hex_digit(d) as int - 'A' as int == d - 10 && lower_hex_digit(
            d,
        ) as int - 'a' as int == d - 10,
{
}

} // verus!
