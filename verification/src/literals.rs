//! Decoding of Go integer, imaginary, string and rune literal spellings.

use vstd::prelude::*;
use vstd::string::StringSliceAdditionalSpecFns;
use vstd::utf8::{encode_scalar, encode_utf8, has_width_1_encoding, is_ascii_chars, is_scalar, valid_utf8};

use crate::bignum::{
    big_to_decimal, digit_char, int_spelling, nat_spelling, parse_accepts, parse_big,
    parse_magnitude, parse_negative, parse_value, radix_digit, radix_digits_only, radix_value,
};
use crate::constant::{int_spelling_ok, int_spelling_value};
use crate::exact::{
    float_spelling_ok, float_spelling_value, without_underscores, ExactNumber,
};

verus! {

broadcast use vstd::utf8::is_ascii_chars_encode_utf8;

/// The characters of a decimal spelling are ASCII digits, one at least.
pub proof fn lemma_nat_spelling_digits(n: nat)
    ensures
        nat_spelling(n).len() > 0,
        forall|i: int|
            0 <= i < nat_spelling(n).len() ==> '0' <= #[trigger] nat_spelling(n)[i] <= '9',
        is_ascii_chars(nat_spelling(n)),
    decreases n,
{
    if n >= 10 {
        lemma_nat_spelling_digits(n / 10);
        let s = nat_spelling(n / 10);
        assert forall|i: int| 0 <= i < nat_spelling(n).len() implies '0' <= #[trigger] nat_spelling(
            n,
        )[i] <= '9' by {
            if i < s.len() {
                assert(nat_spelling(n)[i] == s[i]);
            }
        }
    }
}

/// The bytes of a decimal spelling read back as the number.
proof fn lemma_nat_spelling_value(n: nat)
    ensures
        radix_value(encode_utf8(nat_spelling(n)), 10) == n,
        radix_digits_only(encode_utf8(nat_spelling(n)), 10),
        encode_utf8(nat_spelling(n)).len() == nat_spelling(n).len(),
        forall|i: int|
            0 <= i < nat_spelling(n).len() ==> #[trigger] encode_utf8(nat_spelling(n))[i]
                == nat_spelling(n)[i] as u8,
    decreases n,
{
    lemma_nat_spelling_digits(n);
    let s = nat_spelling(n);
    let b = encode_utf8(s);
    assert(b.len() == s.len());
    assert(forall|i: int| 0 <= i < s.len() ==> s[i] as u8 == b[i]);
    if n < 10 {
        assert(b.drop_last().len() == 0);
        assert(radix_value(b.drop_last(), 10) == 0);
    } else {
        lemma_nat_spelling_value(n / 10);
        lemma_nat_spelling_digits(n / 10);
        let t = nat_spelling(n / 10);
        let c = encode_utf8(t);
        assert(b.drop_last() =~= c);
    }
}

/// The decimal spelling of an integer reads back as the integer.
pub proof fn lemma_int_spelling_roundtrip(v: int)
    ensures
        int_spelling_ok(int_spelling(v)),
        int_spelling_value(int_spelling(v)) == v,
{
    let m: nat = if v < 0 { (-v) as nat } else { v as nat };
    lemma_nat_spelling_value(m);
    lemma_nat_spelling_digits(m);
    let digits = nat_spelling(m);
    let d = encode_utf8(digits);
    assert(d[0] == digits[0] as u8);
    if v < 0 {
        let s = seq!['-'] + digits;
        assert(is_ascii_chars(s));
        let b = encode_utf8(s);
        assert(b.len() == s.len());
        assert(forall|i: int| 0 <= i < s.len() ==> s[i] as u8 == b[i]);
        assert(b[0] == 45);
        assert(b.skip(1) =~= d);
        assert(parse_magnitude(b) == d);
    } else {
        assert(parse_magnitude(d) == d);
    }
}


/// How `from_str_radix` of an unsigned integer reads ASCII bytes: an
/// optional leading plus sign, then at least one digit of `radix`.
pub open spec fn std_radix_ok(b: Seq<u8>, radix: int) -> bool {
    &&& radix_body(b).len() > 0
    &&& forall|i: int| 0 <= i < radix_body(b).len() ==> radix_digit(#[trigger] radix_body(b)[i]) < radix
}

/// The digits after an optional leading plus sign.
pub open spec fn radix_body(b: Seq<u8>) -> Seq<u8> {
    if b.len() > 0 && b[0] == 43 { b.skip(1) } else { b }
}

pub open spec fn std_radix_value(b: Seq<u8>, radix: int) -> int {
    radix_value(radix_body(b), radix)
}

/// `u32::from_str_radix` on bytes: the value when the bytes are digits
/// that fit in `u32`.
pub open spec fn std_radix_u32(b: Seq<u8>, radix: int) -> Option<u32> {
    if std_radix_ok(b, radix) && std_radix_value(b, radix) <= u32::MAX {
        Some(std_radix_value(b, radix) as u32)
    } else {
        None
    }
}

/// `std::str::from_utf8`: the bytes as a string slice when they are valid
/// UTF-8.
#[verifier::external_body]
fn str_from_utf8(bytes: &[u8]) -> (r: Option<&str>)
    ensures
        r is Some <==> valid_utf8(bytes@),
        r matches Some(text) ==> text.spec_bytes() == bytes@,
{
    std::str::from_utf8(bytes).ok()
}

/// `u32::from_str_radix`: an optional plus sign and digits of `radix` whose
/// value fits in `u32`.
#[verifier::external_body]
fn u32_from_str_radix(text: &str, radix: u32) -> (r: Option<u32>)
    requires
        2 <= radix <= 36,
    ensures
        r == std_radix_u32(text.spec_bytes(), radix as int),
{
    u32::from_str_radix(text, radix).ok()
}

/// `u8::from_str_radix`: an optional plus sign and digits of `radix` whose
/// value fits in `u8`.
#[verifier::external_body]
fn u8_from_str_radix(text: &str, radix: u32) -> (r: Option<u8>)
    requires
        2 <= radix <= 36,
    ensures
        r matches Some(v) ==> v as int == std_radix_value(text.spec_bytes(), radix as int),
        r is Some <==> (std_radix_ok(text.spec_bytes(), radix as int) && std_radix_value(
            text.spec_bytes(),
            radix as int,
        ) <= 255),
{
    u8::from_str_radix(text, radix).ok()
}

/// Bytes that `from_str_radix` accepts are ASCII, hence valid UTF-8.
proof fn lemma_radix_bytes_valid_utf8(b: Seq<u8>, radix: int)
    requires
        radix <= 36,
        std_radix_ok(b, radix),
    ensures
        valid_utf8(b),
{
    assert forall|i: int| 0 <= i < b.len() implies b[i] < 128 by {
        if b.len() > 0 && b[0] == 43 {
            if i > 0 {
                assert(radix_digit(radix_body(b)[i - 1]) < radix);
            }
        } else {
            assert(radix_digit(radix_body(b)[i]) < radix);
        }
    }
    let chars = Seq::new(b.len(), |i: int| b[i] as char);
    assert(is_ascii_chars(chars));
    vstd::utf8::is_ascii_chars_encode_utf8(chars);
    assert(encode_utf8(chars) =~= b);
    vstd::utf8::encode_utf8_valid_utf8(chars);
}

/// The value of the bytes as `u32::from_str_radix` reads the string they
/// spell.
fn u32_from_radix(digits: &[u8], radix: u32) -> (r: Option<u32>)
    requires
        2 <= radix <= 36,
    ensures
        r == std_radix_u32(digits@, radix as int),
{
    match str_from_utf8(digits) {
        Some(text) => u32_from_str_radix(text, radix),
        None => {
            proof {
                if std_radix_ok(digits@, radix as int) {
                    lemma_radix_bytes_valid_utf8(digits@, radix as int);
                }
            }
            None
        },
    }
}

/// The value of the bytes as `u8::from_str_radix` reads the string they
/// spell.
fn u8_from_radix(digits: &[u8], radix: u32) -> (r: Option<u8>)
    requires
        2 <= radix <= 36,
    ensures
        r matches Some(v) ==> v as int == std_radix_value(digits@, radix as int),
        r is Some <==> (std_radix_ok(digits@, radix as int) && std_radix_value(digits@, radix as int) <= 255),
{
    match str_from_utf8(digits) {
        Some(text) => u8_from_str_radix(text, radix),
        None => {
            proof {
                if std_radix_ok(digits@, radix as int) {
                    lemma_radix_bytes_valid_utf8(digits@, radix as int);
                }
            }
            None
        },
    }
}

/// `char::from_u32`: the character with a given scalar value.
#[verifier::external_body]
fn char_from_u32(value: u32) -> (r: Option<char>)
    ensures
        r is Some <==> is_scalar(value),
        r matches Some(c) ==> c as u32 == value,
{
    char::from_u32(value)
}

/// `char::encode_utf8`: the UTF-8 bytes of a character.
#[verifier::external_body]
fn char_utf8_bytes(c: char) -> (r: Vec<u8>)
    ensures
        r@ == encode_scalar(c as u32),
{
    let mut buffer = [0u8; 4];
    c.encode_utf8(&mut buffer).as_bytes().to_vec()
}

/// The value of a Unicode escape's hexadecimal digits, when it is a scalar.
pub open spec fn unicode_escape(d: Seq<u8>) -> Option<u32> {
    match std_radix_u32(d, 16) {
        Some(v) => if is_scalar(v) { Some(v) } else { None },
        None => None,
    }
}

/// The code point of a rune escape (the bytes after the backslash).
pub open spec fn rune_escape(e: Seq<u8>) -> Option<u32> {
    if e == seq![97u8] { Some(7) }
    else if e == seq![98u8] { Some(8) }
    else if e == seq![102u8] { Some(12) }
    else if e == seq![110u8] { Some(10) }
    else if e == seq![114u8] { Some(13) }
    else if e == seq![116u8] { Some(9) }
    else if e == seq![118u8] { Some(11) }
    else if e == seq![92u8] { Some(92) }
    else if e == seq![39u8] { Some(39) }
    else if e == seq![34u8] { Some(34) }
    else if e.len() == 3 && e[0] == 120 { std_radix_u32(e.skip(1), 16) }
    else if e.len() == 5 && e[0] == 117 { unicode_escape(e.skip(1)) }
    else if e.len() == 9 && e[0] == 85 { unicode_escape(e.skip(1)) }
    else if e.len() == 3 && (forall|i: int| 0 <= i < 3 ==> 48 <= #[trigger] e[i] <= 55) {
        std_radix_u32(e, 8)
    }
    else { None }
}

/// The code point of a Go rune literal spelling.
pub open spec fn go_rune(s: Seq<char>) -> Option<u32> {
    let b = encode_utf8(s);
    if b.len() < 2 || b[0] != 39 || b.last() != 39 {
        None
    } else {
        let inner = b.subrange(1, b.len() - 1);
        if inner.len() > 0 && inner[0] == 92 {
            rune_escape(inner.skip(1))
        } else if s.len() == 3 {
            Some(s[1] as u32)
        } else {
            None
        }
    }
}

/// The first byte of a character's UTF-8 encoding is a backslash only for
/// the backslash itself.
proof fn lemma_encode_scalar_first_byte(c: char)
    ensures
        encode_scalar(c as u32).len() >= 1,
        c != '\\' ==> encode_scalar(c as u32)[0] != 92,
{
    vstd::utf8::char_is_scalar(c);
    let v = c as u32;
    if has_width_1_encoding(v) {
        assert(v & 0x7F == v) by (bit_vector)
            requires
                v <= 0x7F,
        ;
    } else {
        let t = ((v >> 6) & 0x1F) as u8;
        let u = ((v >> 12) & 0x0F) as u8;
        let w = ((v >> 18) & 0x7) as u8;
        assert(0xC0u8 | t >= 0xC0) by (bit_vector);
        assert(0xE0u8 | u >= 0xE0) by (bit_vector);
        assert(0xF0u8 | w >= 0xF0) by (bit_vector);
    }
}

/// Every digit string that `from_str_radix` accepts in base 16 with at
/// most two bytes, or in base 8 with three octal digits, stays below 512.
proof fn lemma_short_radix_bound(d: Seq<u8>, radix: int)
    requires
        std_radix_ok(d, radix),
        (radix == 16 && d.len() == 2) || (radix == 8 && d.len() == 3 && 48 <= d[0] <= 55),
    ensures
        0 <= std_radix_value(d, radix) < 512,
{
    let body = radix_body(d);
    reveal_with_fuel(radix_value, 4);
    assert(radix_digit(body[0]) < radix);
    assert(body.len() >= 2 ==> radix_digit(body[1]) < radix);
    assert(body.len() >= 3 ==> radix_digit(body[2]) < radix);
    if body.len() == 1 {
        assert(body.drop_last().len() == 0);
        assert(body[0] != 95);
    } else if body.len() == 2 {
        assert(body[0] != 95 && body[1] != 95);
        assert(body.drop_last().drop_last().len() == 0);
        assert(body.drop_last().last() == body[0]);
        assert(radix_digit(body[0]) <= 15 && radix_digit(body[1]) <= 15);
    } else {
        assert(body[0] != 95 && body[1] != 95 && body[2] != 95);
        assert(body.drop_last().drop_last().drop_last().len() == 0);
        assert(body.drop_last().drop_last().last() == body[0]);
        assert(body.drop_last().last() == body[1]);
        assert(radix_digit(body[0]) <= 7 && radix_digit(body[1]) <= 7 && radix_digit(body[2]) <= 7);
    }
}

/// A rune literal that holds one character other than a backslash decodes to
/// that character, and every rune literal that decodes at all decodes to a
/// Unicode scalar value.
pub proof fn lemma_go_rune_law(c: char, s: Seq<char>)
    ensures
        c != '\\' ==> go_rune(seq!['\'', c, '\'']) == Some(c as u32),
        go_rune(s) matches Some(v) ==> is_scalar(v),
{
    let one = seq!['\'', c, '\''];
    reveal_with_fuel(encode_utf8, 4);
    assert(0x27u32 & 0x7F == 0x27u32) by (bit_vector);
    assert(one.drop_first().drop_first().drop_first().len() == 0);
    lemma_encode_scalar_first_byte(c);
    let ec = encode_scalar(c as u32);
    let b = encode_utf8(one);
    assert(encode_scalar(0x27u32) == seq![39u8]);
    assert(b == seq![39u8] + (ec + (seq![39u8] + Seq::<u8>::empty())));
    assert(b.subrange(1, b.len() - 1) =~= ec);
    if go_rune(s) is Some {
        let bs = encode_utf8(s);
        let inner = bs.subrange(1, bs.len() - 1);
        if inner.len() > 0 && inner[0] == 92 {
            let e = inner.skip(1);
            let v = rune_escape(e)->0;
            if e.len() == 3 && e[0] == 120 {
                lemma_short_radix_bound(e.skip(1), 16);
                assert(v < 512);
            } else if e.len() == 3 && (forall|i: int| 0 <= i < 3 ==> 48 <= #[trigger] e[i] <= 55) {
                assert(48 <= e[0] <= 55);
                lemma_short_radix_bound(e, 8);
                assert(v < 512);
            }
            assert(is_scalar(v));
        } else {
            vstd::utf8::char_is_scalar(s[1]);
            assert(is_scalar(s[1] as u32));
        }
    }
}

/// A rune literal written as a backslash and one ASCII character decodes
/// as that escape.
proof fn lemma_single_escape(c: char)
    requires
        '\0' <= c <= '\u{7f}',
    ensures
        go_rune(seq!['\'', '\\', c, '\'']) == rune_escape(seq![c as u8]),
{
    let s = seq!['\'', '\\', c, '\''];
    assert(is_ascii_chars(s));
    vstd::utf8::is_ascii_chars_encode_utf8(s);
    let b = encode_utf8(s);
    assert(b.len() == 4);
    assert(b[0] == 39 && b[1] == 92 && b[2] == c as u8 && b[3] == 39);
    assert(b.subrange(1, 3).skip(1) =~= seq![c as u8]);
}

/// The single-character rune escapes decode to the characters they name:
/// each gives the same code point as the named character written directly
/// between quotes, and these are Go's values for them: `\a` 7, `\b` 8,
/// `\f` 12, `\n` 10, `\r` 13, `\t` 9, `\v` 11, `\\` 92, `\'` 39 and
/// `\"` 34.
pub proof fn lemma_rune_escapes_name_their_characters()
    ensures
        go_rune(seq!['\'', '\\', 'a', '\'']) == go_rune(seq!['\'', '\u{7}', '\'']),
        go_rune(seq!['\'', '\\', 'b', '\'']) == go_rune(seq!['\'', '\u{8}', '\'']),
        go_rune(seq!['\'', '\\', 'f', '\'']) == go_rune(seq!['\'', '\u{c}', '\'']),
        go_rune(seq!['\'', '\\', 'n', '\'']) == go_rune(seq!['\'', '\n', '\'']),
        go_rune(seq!['\'', '\\', 'r', '\'']) == go_rune(seq!['\'', '\r', '\'']),
        go_rune(seq!['\'', '\\', 't', '\'']) == go_rune(seq!['\'', '\t', '\'']),
        go_rune(seq!['\'', '\\', 'v', '\'']) == go_rune(seq!['\'', '\u{b}', '\'']),
        go_rune(seq!['\'', '\\', '\'', '\'']) == go_rune(seq!['\'', '\'', '\'']),
        go_rune(seq!['\'', '\\', '"', '\'']) == go_rune(seq!['\'', '"', '\'']),
        go_rune(seq!['\'', '\\', '\\', '\'']) == Some('\\' as u32),
        go_rune(seq!['\'', '\\', 'a', '\'']) == Some(7u32),
        go_rune(seq!['\'', '\\', 'b', '\'']) == Some(8u32),
        go_rune(seq!['\'', '\\', 'f', '\'']) == Some(12u32),
        go_rune(seq!['\'', '\\', 'n', '\'']) == Some(10u32),
        go_rune(seq!['\'', '\\', 'r', '\'']) == Some(13u32),
        go_rune(seq!['\'', '\\', 't', '\'']) == Some(9u32),
        go_rune(seq!['\'', '\\', 'v', '\'']) == Some(11u32),
        go_rune(seq!['\'', '\\', '\\', '\'']) == Some(92u32),
        go_rune(seq!['\'', '\\', '\'', '\'']) == Some(39u32),
        go_rune(seq!['\'', '\\', '"', '\'']) == Some(34u32),
{
    let e = seq!['\u{7}', '\u{8}', '\u{c}', '\n', '\r', '\t', '\u{b}', '\'', '"'];
    lemma_single_escape('a');
    lemma_single_escape('b');
    lemma_single_escape('f');
    lemma_single_escape('n');
    lemma_single_escape('r');
    lemma_single_escape('t');
    lemma_single_escape('v');
    lemma_single_escape('\\');
    lemma_single_escape('\'');
    lemma_single_escape('"');
    lemma_go_rune_law('\u{7}', e);
    lemma_go_rune_law('\u{8}', e);
    lemma_go_rune_law('\u{c}', e);
    lemma_go_rune_law('\n', e);
    lemma_go_rune_law('\r', e);
    lemma_go_rune_law('\t', e);
    lemma_go_rune_law('\u{b}', e);
    lemma_go_rune_law('\'', e);
    lemma_go_rune_law('"', e);
}

/// Decodes the hexadecimal digits of a `\u` or `\U` escape to a scalar value.
pub fn parse_unicode_rune_escape(digits: &[u8]) -> (r: Option<u32>)
    ensures
        r == unicode_escape(digits@),
{
    let value = match u32_from_radix(digits, 16) {
        Some(v) => v,
        None => return None,
    };
    match char_from_u32(value) {
        Some(c) => Some(c as u32),
        None => None,
    }
}

/// Decodes a Go rune literal, quotes included, to its code point.
pub fn parse_go_rune(value: &str) -> (r: Option<u32>)
    ensures
        r == go_rune(value@),
{
    let b = value.as_bytes();
    let n = b.len();
    if n < 2 || b[0] != 39 || b[n - 1] != 39 {
        return None;
    }
    let inner = &b[1..n - 1];
    if inner.len() > 0 && inner[0] == 92 {
        let e = &inner[1..inner.len()];
        assert(e@ == inner@.skip(1));
        if e.len() == 1 {
            let c = e[0];
            assert(e@ == seq![c]);
            if c == 97 { return Some(7); }
            if c == 98 { return Some(8); }
            if c == 102 { return Some(12); }
            if c == 110 { return Some(10); }
            if c == 114 { return Some(13); }
            if c == 116 { return Some(9); }
            if c == 118 { return Some(11); }
            if c == 92 { return Some(92); }
            if c == 39 { return Some(39); }
            if c == 34 { return Some(34); }
            return None;
        }
        if e.len() == 3 && e[0] == 120 {
            let digits = &e[1..3];
            assert(digits@ == e@.skip(1));
            return u32_from_radix(digits, 16);
        }
        if e.len() == 5 && e[0] == 117 {
            let digits = &e[1..5];
            assert(digits@ == e@.skip(1));
            return parse_unicode_rune_escape(digits);
        }
        if e.len() == 9 && e[0] == 85 {
            let digits = &e[1..9];
            assert(digits@ == e@.skip(1));
            return parse_unicode_rune_escape(digits);
        }
        if e.len() == 3 && 48 <= e[0] && e[0] <= 55 && 48 <= e[1] && e[1] <= 55 && 48 <= e[2]
            && e[2] <= 55 {
            return u32_from_radix(e, 8);
        }
        proof {
            if e.len() == 3 {
                if forall|i: int| 0 <= i < 3 ==> 48 <= #[trigger] e@[i] <= 55 {
                    assert(48 <= e@[0] <= 55);
                    assert(48 <= e@[1] <= 55);
                    assert(48 <= e@[2] <= 55);
                }
            }
        }
        return None;
    }
    if value.unicode_len() == 3 {
        Some(value.get_char(1) as u32)
    } else {
        None
    }
}


/// The byte of a single-character escape such as `\\n`.
pub open spec fn simple_escape(e: u8) -> Option<u8> {
    if e == 97 { Some(7u8) }
    else if e == 98 { Some(8u8) }
    else if e == 102 { Some(12u8) }
    else if e == 110 { Some(10u8) }
    else if e == 114 { Some(13u8) }
    else if e == 116 { Some(9u8) }
    else if e == 118 { Some(11u8) }
    else if e == 92 { Some(92u8) }
    else if e == 39 { Some(39u8) }
    else if e == 34 { Some(34u8) }
    else { None }
}

/// `count` digits of `radix` read from position `start`, when that many bytes remain.
pub open spec fn radix_escape(b: Seq<u8>, start: int, count: int, radix: int) -> Option<u32> {
    if b.len() < start + count {
        None
    } else {
        std_radix_u32(b.subrange(start, start + count), radix)
    }
}

pub open spec fn prepend(head: Seq<u8>, rest: Option<Seq<u8>>) -> Option<Seq<u8>> {
    match rest {
        Some(r) => Some(head + r),
        None => None,
    }
}

/// The bytes that the body of an interpreted string literal denotes.
pub open spec fn interpreted(b: Seq<u8>) -> Option<Seq<u8>>
    decreases b.len(),
{
    if b.len() == 0 {
        Some(seq![])
    } else if b[0] != 92 {
        prepend(seq![b[0]], interpreted(b.skip(1)))
    } else if b.len() < 2 {
        None
    } else if simple_escape(b[1]) is Some {
        prepend(seq![simple_escape(b[1])->0], interpreted(b.skip(2)))
    } else if b[1] == 120 {
        match radix_escape(b, 2, 2, 16) {
            Some(v) => prepend(seq![v as u8], interpreted(b.skip(4))),
            None => None,
        }
    } else if b[1] == 117 {
        match radix_escape(b, 2, 4, 16) {
            Some(v) => if is_scalar(v) {
                prepend(encode_scalar(v), interpreted(b.skip(6)))
            } else {
                None
            },
            None => None,
        }
    } else if b[1] == 85 {
        match radix_escape(b, 2, 8, 16) {
            Some(v) => if is_scalar(v) {
                prepend(encode_scalar(v), interpreted(b.skip(10)))
            } else {
                None
            },
            None => None,
        }
    } else if 48 <= b[1] <= 55 {
        if b.len() < 4 {
            None
        } else if std_radix_ok(b.subrange(1, 4), 8) && std_radix_value(b.subrange(1, 4), 8) <= 255 {
            prepend(seq![std_radix_value(b.subrange(1, 4), 8) as u8], interpreted(b.skip(4)))
        } else {
            None
        }
    } else {
        None
    }
}

proof fn lemma_radix_escape_shift(b: Seq<u8>, i: int, start: int, count: int, radix: int)
    requires
        0 <= i <= b.len(),
        0 <= start,
        0 <= count,
    ensures
        radix_escape(b.skip(i), start, count, radix) == radix_escape(b, i + start, count, radix),
{
    if b.skip(i).len() >= start + count {
        assert(b.skip(i).subrange(start, start + count) =~= b.subrange(i + start, i + start + count));
    }
}

/// Reads `count` digits of `radix` at `start`, when that many bytes remain.
pub fn parse_radix_escape(b: &[u8], start: usize, count: usize, radix: u32) -> (r: Option<u32>)
    requires
        2 <= radix <= 36,
        start <= b@.len(),
        count <= 16,
    ensures
        r == radix_escape(b@, start as int, count as int, radix as int),
{
    if b.len() - start < count {
        return None;
    }
    u32_from_radix(&b[start..start + count], radix)
}

/// Appends the UTF-8 bytes of a scalar value; `None` when it is not one.
pub fn push_rune_bytes(result: &mut Vec<u8>, value: u32) -> (r: Option<()>)
    ensures
        r is Some <==> is_scalar(value),
        r is Some ==> final(result)@ == old(result)@ + encode_scalar(value),
        r is None ==> final(result)@ == old(result)@,
{
    let c = match char_from_u32(value) {
        Some(c) => c,
        None => return None,
    };
    let bytes = char_utf8_bytes(c);
    let mut i: usize = 0;
    while i < bytes.len()
        invariant
            i <= bytes@.len(),
            result@ == old(result)@ + bytes@.take(i as int),
        decreases bytes@.len() - i,
    {
        result.push(bytes[i]);
        i += 1;
        assert(result@ == old(result)@ + bytes@.take(i as int));
    }
    assert(bytes@.take(bytes@.len() as int) == bytes@);
    Some(())
}

/// Decodes the escape sequence at `i` (a backslash): the bytes it denotes
/// and its length, or `None` when it is invalid.
fn decode_escape(b: &[u8], i: usize) -> (r: Option<(Vec<u8>, usize)>)
    requires
        i < b@.len(),
        b@[i as int] == 92,
    ensures
        r is None ==> interpreted(b@.skip(i as int)) is None,
        r matches Some(p) ==> 2 <= p.1 <= b@.len() - i && interpreted(b@.skip(i as int))
            == prepend(p.0@, interpreted(b@.skip(i as int).skip(p.1 as int))),
{
    let ghost rest = b@.skip(i as int);
    if b.len() - i < 2 {
        return None;
    }
    let e = b[i + 1];
    assert(rest[1] == e);
    let simple: Option<u8> = if e == 97 { Some(7) }
        else if e == 98 { Some(8) }
        else if e == 102 { Some(12) }
        else if e == 110 { Some(10) }
        else if e == 114 { Some(13) }
        else if e == 116 { Some(9) }
        else if e == 118 { Some(11) }
        else if e == 92 { Some(92) }
        else if e == 39 { Some(39) }
        else if e == 34 { Some(34) }
        else { None };
    assert(simple == simple_escape(e));
    let mut head: Vec<u8> = Vec::new();
    if let Some(v) = simple {
        head.push(v);
        assert(head@ == seq![v]);
        return Some((head, 2));
    }
    if e == 120 {
        proof { lemma_radix_escape_shift(b@, i as int, 2, 2, 16); }
        let v = match parse_radix_escape(b, i + 2, 2, 16) {
            Some(v) => v,
            None => return None,
        };
        head.push(v as u8);
        assert(head@ == seq![v as u8]);
        return Some((head, 4));
    }
    if e == 117 || e == 85 {
        let count: usize = if e == 117 { 4 } else { 8 };
        proof { lemma_radix_escape_shift(b@, i as int, 2, count as int, 16); }
        let v = match parse_radix_escape(b, i + 2, count, 16) {
            Some(v) => v,
            None => return None,
        };
        if push_rune_bytes(&mut head, v).is_none() {
            return None;
        }
        assert(head@ =~= encode_scalar(v));
        return Some((head, 2 + count));
    }
    if 48 <= e && e <= 55 {
        if b.len() - i < 4 {
            return None;
        }
        let digits = &b[i + 1..i + 4];
        assert(digits@ =~= rest.subrange(1, 4));
        let v = match u8_from_radix(digits, 8) {
            Some(v) => v,
            None => return None,
        };
        head.push(v);
        assert(head@ == seq![v]);
        proof {
            let d = rest.subrange(1, 4);
            assert(std_radix_ok(d, 8) && std_radix_value(d, 8) <= 255);
            assert(std_radix_value(d, 8) == v as int);
            assert((v as int) as u8 == v);
            assert(std_radix_value(d, 8) as u8 == v);
            assert(!(simple_escape(rest[1]) is Some));
            assert(rest[1] != 120 && rest[1] != 117 && rest[1] != 85);
            assert(48 <= rest[1] <= 55);
            assert(rest.len() >= 4);
        }
        return Some((head, 4));
    }
    None
}

/// Appends bytes to a buffer.
fn append_bytes(result: &mut Vec<u8>, head: &Vec<u8>)
    ensures
        final(result)@ == old(result)@ + head@,
{
    let mut k: usize = 0;
    while k < head.len()
        invariant
            k <= head@.len(),
            result@ == old(result)@ + head@.take(k as int),
        decreases head@.len() - k,
    {
        result.push(head[k]);
        k += 1;
        assert(result@ == old(result)@ + head@.take(k as int));
    }
    assert(head@.take(head@.len() as int) == head@);
}

proof fn lemma_plain_byte(rest: Seq<u8>)
    requires
        rest.len() > 0,
        rest[0] != 92,
    ensures
        interpreted(rest) == prepend(seq![rest[0]], interpreted(rest.skip(1))),
{
}

/// No byte of a character's UTF-8 encoding is a backslash unless the
/// character is the backslash.
proof fn lemma_encode_scalar_no_backslash(c: char)
    requires
        c != '\\',
    ensures
        forall|i: int| 0 <= i < encode_scalar(c as u32).len() ==> #[trigger] encode_scalar(c as u32)[i] != 92,
{
    lemma_encode_scalar_first_byte(c);
    let v = c as u32;
    let x = (v & 0x3F) as u8;
    let y = ((v >> 6) & 0x3F) as u8;
    let z = ((v >> 12) & 0x3F) as u8;
    assert(0x80u8 | x >= 0x80) by (bit_vector);
    assert(0x80u8 | y >= 0x80) by (bit_vector);
    assert(0x80u8 | z >= 0x80) by (bit_vector);
}

proof fn lemma_encode_utf8_no_backslash(s: Seq<char>)
    requires
        forall|i: int| 0 <= i < s.len() ==> s[i] != '\\',
    ensures
        forall|i: int| 0 <= i < encode_utf8(s).len() ==> #[trigger] encode_utf8(s)[i] != 92,
    decreases s.len(),
{
    if s.len() > 0 {
        lemma_encode_scalar_no_backslash(s[0]);
        assert forall|i: int| 0 <= i < s.drop_first().len() implies s.drop_first()[i] != '\\' by {
            assert(s.drop_first()[i] == s[i + 1]);
        }
        lemma_encode_utf8_no_backslash(s.drop_first());
        let head = encode_scalar(s[0] as u32);
        let tail = encode_utf8(s.drop_first());
        assert(encode_utf8(s) == head + tail);
        assert forall|i: int| 0 <= i < encode_utf8(s).len() implies #[trigger] encode_utf8(s)[i] != 92 by {
            if i < head.len() {
                assert(encode_utf8(s)[i] == head[i]);
            } else {
                assert(encode_utf8(s)[i] == tail[i - head.len()]);
            }
        }
    }
}

proof fn lemma_escape_free_bytes(b: Seq<u8>)
    requires
        forall|i: int| 0 <= i < b.len() ==> b[i] != 92,
    ensures
        interpreted(b) == Some(b),
    decreases b.len(),
{
    if b.len() > 0 {
        assert forall|i: int| 0 <= i < b.skip(1).len() implies b.skip(1)[i] != 92 by {
            assert(b.skip(1)[i] == b[i + 1]);
        }
        lemma_escape_free_bytes(b.skip(1));
        assert(seq![b[0]] + b.skip(1) =~= b);
    }
}

/// The body of an interpreted string literal: text without a backslash
/// denotes its own UTF-8 bytes; a trailing backslash, a backslash before a
/// byte that begins no escape, a hexadecimal escape with fewer than two
/// digits and an octal escape with fewer than three are refused.
pub proof fn lemma_interpreted_law(s: Seq<char>, e: u8, rest: Seq<u8>, d: u8, d2: u8)
    ensures
        (forall|i: int| 0 <= i < s.len() ==> s[i] != '\\') ==> interpreted(encode_utf8(s)) == Some(encode_utf8(s)),
        interpreted(seq![92u8]) is None,
        (simple_escape(e) is None && e != 120 && e != 117 && e != 85 && !(48 <= e <= 55)) ==> interpreted(
            seq![92u8, e] + rest,
        ) is None,
        interpreted(seq![92u8, 120u8, d]) is None,
        48 <= d <= 55 ==> interpreted(seq![92u8, d, d2]) is None,
{
    if forall|i: int| 0 <= i < s.len() ==> s[i] != '\\' {
        lemma_encode_utf8_no_backslash(s);
        lemma_escape_free_bytes(encode_utf8(s));
    }
    let b = seq![92u8, e] + rest;
    assert(b[0] == 92 && b[1] == e);
}

/// Decodes the body of an interpreted string literal.
pub fn parse_interpreted_bytes(b: &[u8]) -> (r: Option<Vec<u8>>)
    ensures
        r matches Some(v) ==> interpreted(b@) == Some(v@),
        r is None ==> interpreted(b@) is None,
{
    let mut result: Vec<u8> = Vec::new();
    let mut i: usize = 0;
    assert(b@.skip(0) =~= b@);
    proof {
        match interpreted(b@) {
            Some(t) => assert(result@ + t =~= t),
            None => {},
        }
    }
    while i < b.len()
        invariant
            i <= b@.len(),
            interpreted(b@) == prepend(result@, interpreted(b@.skip(i as int))),
        decreases b@.len() - i,
    {
        let ghost rest = b@.skip(i as int);
        let ghost before = result@;
        let mut head: Vec<u8> = Vec::new();
        let step: usize;
        if b[i] != 92 {
            head.push(b[i]);
            step = 1;
            proof {
                lemma_plain_byte(rest);
            }
            assert(head@ == seq![rest[0]]);
        } else {
            match decode_escape(b, i) {
                Some((h, n)) => {
                    head = h;
                    step = n;
                },
                None => return None,
            }
        }
        assert(interpreted(rest) == prepend(head@, interpreted(rest.skip(step as int))));
        assert(rest.skip(step as int) =~= b@.skip(i + step));
        append_bytes(&mut result, &head);
        proof {
            match interpreted(rest.skip(step as int)) {
                Some(t) => assert(before + (head@ + t) =~= result@ + t),
                None => {},
            }
        }
        i += step;
    }
    assert(b@.skip(b@.len() as int) =~= Seq::<u8>::empty());
    assert(result@ + Seq::<u8>::empty() =~= result@);
    Some(result)
}

/// The bytes with carriage returns removed.
pub open spec fn without_carriage_returns(s: Seq<u8>) -> Seq<u8>
    decreases s.len(),
{
    if s.len() == 0 {
        s
    } else if s.last() == 13 {
        without_carriage_returns(s.drop_last())
    } else {
        without_carriage_returns(s.drop_last()).push(s.last())
    }
}

/// The bytes that a Go string literal, delimiters included, denotes.
pub open spec fn go_string(s: Seq<char>) -> Option<Seq<u8>> {
    let b = encode_utf8(s);
    if b.len() < 2 || b[0] != b.last() {
        None
    } else {
        let inner = b.subrange(1, b.len() - 1);
        if b[0] == 96 {
            Some(without_carriage_returns(inner))
        } else if b[0] == 34 {
            interpreted(inner)
        } else {
            None
        }
    }
}

/// Decodes a raw or interpreted Go string literal to its bytes.
pub fn parse_go_string(value: &str) -> (r: Option<Vec<u8>>)
    ensures
        r matches Some(v) ==> go_string(value@) == Some(v@),
        r is None ==> go_string(value@) is None,
{
    let b = value.as_bytes();
    let n = b.len();
    if n < 2 {
        return None;
    }
    let delimiter = b[0];
    if b[n - 1] != delimiter {
        return None;
    }
    let inner = &b[1..n - 1];
    if delimiter == 96 {
        let mut result: Vec<u8> = Vec::new();
        let mut i: usize = 0;
        while i < inner.len()
            invariant
                i <= inner@.len(),
                result@ == without_carriage_returns(inner@.take(i as int)),
            decreases inner@.len() - i,
        {
            assert(inner@.take(i as int + 1).drop_last() == inner@.take(i as int));
            if inner[i] != 13 {
                result.push(inner[i]);
            }
            i += 1;
        }
        assert(inner@.take(inner@.len() as int) == inner@);
        return Some(result);
    }
    if delimiter == 34 {
        parse_interpreted_bytes(inner)
    } else {
        None
    }
}


/// The bytes with leading `0` digits removed.
pub open spec fn trim_leading_zeros(s: Seq<u8>) -> Seq<u8>
    decreases s.len(),
{
    if s.len() > 0 && s[0] == 48 {
        trim_leading_zeros(s.skip(1))
    } else {
        s
    }
}

pub open spec fn has_prefix(c: Seq<u8>, lower: u8, upper: u8) -> bool {
    c.len() >= 2 && c[0] == 48 && (c[1] == lower || c[1] == upper)
}

/// The radix of a cleaned Go integer spelling and its digit bytes.
pub open spec fn go_integer_parts(c: Seq<u8>) -> (int, Seq<u8>) {
    if has_prefix(c, 98, 66) {
        (2, c.skip(2))
    } else if has_prefix(c, 111, 79) {
        (8, c.skip(2))
    } else if has_prefix(c, 120, 88) {
        (16, c.skip(2))
    } else if c.len() > 1 && c[0] == 48 {
        (8, trim_leading_zeros(c))
    } else {
        (10, c)
    }
}

/// The value of a Go integer literal spelling: binary, octal (legacy or
/// `0o`), hexadecimal or decimal, underscores aside, as `BigInt::parse_bytes`
/// reads the digits (an empty digit string reads as zero).
pub open spec fn go_integer_bytes(b: Seq<u8>) -> Option<int> {
    let c = without_underscores(b);
    let radix = go_integer_parts(c).0;
    let digits = if go_integer_parts(c).1.len() == 0 { seq![48u8] } else { go_integer_parts(c).1 };
    if parse_accepts(digits, radix) {
        Some(parse_value(digits, radix))
    } else {
        None
    }
}

/// Reads a Go integer literal and returns its decimal spelling.
pub fn parse_go_integer(value: &str) -> (r: Option<String>)
    ensures
        r is Some <==> go_integer_bytes(value.spec_bytes()) is Some,
        r matches Some(t) ==> t@ == int_spelling(go_integer_bytes(value.spec_bytes())->0),
{
    parse_go_integer_bytes(value.as_bytes())
}

/// `parse_go_integer` on the bytes of a spelling.
pub fn parse_go_integer_bytes(value: &[u8]) -> (r: Option<String>)
    ensures
        r is Some <==> go_integer_bytes(value@) is Some,
        r matches Some(t) ==> t@ == int_spelling(go_integer_bytes(value@)->0),
{
    let cleaned = crate::exact::strip_underscores(value);
    let c = cleaned.as_slice();
    let (radix, digits): (u32, &[u8]) = if c.len() >= 2 && c[0] == 48 && (c[1] == 98 || c[1] == 66) {
        (2, &c[2..c.len()])
    } else if c.len() >= 2 && c[0] == 48 && (c[1] == 111 || c[1] == 79) {
        (8, &c[2..c.len()])
    } else if c.len() >= 2 && c[0] == 48 && (c[1] == 120 || c[1] == 88) {
        (16, &c[2..c.len()])
    } else if c.len() > 1 && c[0] == 48 {
        let mut k: usize = 0;
        assert(c@.skip(0) =~= c@);
        while k < c.len() && c[k] == 48
            invariant
                k <= c@.len(),
                trim_leading_zeros(c@) == trim_leading_zeros(c@.skip(k as int)),
            decreases c@.len() - k,
        {
            assert(c@.skip(k as int).skip(1) =~= c@.skip(k + 1));
            k += 1;
        }
        assert(c@.skip(k as int).len() == 0 || c@.skip(k as int)[0] != 48);
        assert(c@.skip(k as int) == trim_leading_zeros(c@.skip(k as int)));
        assert(c@.subrange(k as int, c@.len() as int) =~= c@.skip(k as int));
        (8, &c[k..c.len()])
    } else {
        (10, c)
    };
    assert(radix as int == go_integer_parts(c@).0);
    assert(digits@ =~= go_integer_parts(c@).1) by {
        if c@.len() > 1 && c@[0] == 48 && !has_prefix(c@, 98, 66) && !has_prefix(c@, 111, 79)
            && !has_prefix(c@, 120, 88) {
        }
    }
    let zero: &[u8] = &[48];
    assert(zero@ =~= seq![48u8]);
    let spelled: &[u8] = if digits.len() == 0 { zero } else { digits };
    assert(spelled@ == (if go_integer_parts(c@).1.len() == 0 {
        seq![48u8]
    } else {
        go_integer_parts(c@).1
    }));
    match parse_big(spelled, radix) {
        Some(n) => Some(big_to_decimal(&n)),
        None => None,
    }
}

/// All bytes are decimal digits or underscores.
pub open spec fn decimal_or_underscores(b: Seq<u8>) -> bool {
    forall|i: int| 0 <= i < b.len() ==> (48 <= #[trigger] b[i] <= 57 || b[i] == 95)
}

/// The exact value (as a fraction) of a Go imaginary literal's component.
/// A component of decimal digits alone is decimal even with a leading zero.
pub open spec fn go_imaginary(s: Seq<char>) -> Option<(int, int)> {
    let b = encode_utf8(s);
    if b.len() == 0 || b.last() != 105 {
        None
    } else {
        let component = b.drop_last();
        let cleaned = without_underscores(component);
        if decimal_or_underscores(component) {
            if parse_accepts(cleaned, 10) {
                Some((parse_value(cleaned, 10), 1))
            } else {
                None
            }
        } else {
            match go_integer_bytes(component) {
                Some(v) => Some((v, 1)),
                None => if float_spelling_ok(cleaned) {
                    Some(float_spelling_value(cleaned))
                } else {
                    None
                },
            }
        }
    }
}

/// Reads the exact imaginary component of a Go imaginary literal.
pub fn parse_go_imaginary(value: &str) -> (r: Option<ExactNumber>)
    ensures
        r is Some <==> go_imaginary(value@) is Some,
        r matches Some(x) ==> x.wf() && (go_imaginary(value@) matches Some((n, d)) && x.equals(n, d)),
{
    let b = value.as_bytes();
    if b.len() == 0 || b[b.len() - 1] != 105 {
        return None;
    }
    let component = &b[0..b.len() - 1];
    assert(component@ == b@.drop_last());
    let cleaned = crate::exact::strip_underscores(component);
    let mut all_decimal = true;
    let mut i: usize = 0;
    while i < component.len()
        invariant
            i <= component@.len(),
            all_decimal == (forall|j: int| 0 <= j < i ==> (48 <= #[trigger] component@[j] <= 57
                || component@[j] == 95)),
        decreases component@.len() - i,
    {
        let d = component[i];
        if !((48 <= d && d <= 57) || d == 95) {
            all_decimal = false;
        }
        i += 1;
    }
    if all_decimal {
        return match parse_big(cleaned.as_slice(), 10) {
            Some(n) => {
                let spelling = big_to_decimal(&n);
                proof {
                    lemma_int_spelling_roundtrip(n.value());
                }
                ExactNumber::from_integer_spelling(spelling.as_str())
            },
            None => None,
        };
    }
    match parse_go_integer_bytes(component) {
        Some(spelling) => {
            proof {
                lemma_int_spelling_roundtrip(go_integer_bytes(component@)->0);
            }
            ExactNumber::from_integer_spelling(spelling.as_str())
        },
        None => ExactNumber::from_spelling_bytes(cleaned.as_slice()),
    }
}

/// The text of one decimal digit.
fn digit_text(d: u64) -> (r: &'static str)
    requires
        d < 10,
    ensures
        r@ == seq![digit_char(d as nat)],
{
    proof {
        reveal_strlit("0");
        reveal_strlit("1");
        reveal_strlit("2");
        reveal_strlit("3");
        reveal_strlit("4");
        reveal_strlit("5");
        reveal_strlit("6");
        reveal_strlit("7");
        reveal_strlit("8");
        reveal_strlit("9");
    }
    if d == 0 {
        "0"
    } else if d == 1 {
        "1"
    } else if d == 2 {
        "2"
    } else if d == 3 {
        "3"
    } else if d == 4 {
        "4"
    } else if d == 5 {
        "5"
    } else if d == 6 {
        "6"
    } else if d == 7 {
        "7"
    } else if d == 8 {
        "8"
    } else {
        "9"
    }
}

/// Appends the decimal spelling of a natural number.
fn push_nat_spelling(out: &mut String, n: u64)
    ensures
        final(out)@ == old(out)@ + nat_spelling(n as nat),
    decreases n,
{
    if n >= 10 {
        push_nat_spelling(out, n / 10);
    }
    let ghost before = out@;
    out.append(digit_text(n % 10));
    proof {
        if n >= 10 {
            assert(nat_spelling(n as nat) == nat_spelling((n / 10) as nat).push(digit_char((n % 10) as nat)));
            assert(out@ =~= old(out)@ + nat_spelling(n as nat));
        } else {
            assert(out@ =~= old(out)@ + nat_spelling(n as nat));
        }
    }
}

/// The decimal spelling of a `u64`, as `Display` writes it.
pub fn u64_spelling(v: u64) -> (r: String)
    ensures
        r@ == int_spelling(v as int),
{
    let mut out = String::new();
    push_nat_spelling(&mut out, v);
    proof {
        assert(out@ =~= int_spelling(v as int));
    }
    out
}

/// The decimal spelling of an `i64`, as `Display` writes it.
pub fn i64_spelling(v: i64) -> (r: String)
    ensures
        r@ == int_spelling(v as int),
{
    let mut out = String::new();
    if v < 0 {
        proof {
            reveal_strlit("-");
        }
        out.append("-");
        let magnitude: u64 = (0i128 - v as i128) as u64;
        push_nat_spelling(&mut out, magnitude);
        proof {
            assert(out@ =~= int_spelling(v as int));
        }
    } else {
        push_nat_spelling(&mut out, v as u64);
        proof {
            assert(out@ =~= int_spelling(v as int));
        }
    }
    out
}

} // verus!
