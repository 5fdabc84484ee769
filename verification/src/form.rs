use vstd::prelude::*;

use crate::numbers::{hex_digit, hex_value, is_hex_digit};
use crate::text::{
    after_first, before_first, chars_eq, chars_to_string, contains, find_char, index_of,
    lemma_index_of_bound, push_char, push_str, split_char, split_chars, str_chars, vecs_view,
};

verus! {

/// Bytes written as themselves in form encoding: ASCII letters, digits and
/// `-`, `_`, `.`, `~`.
pub open spec fn is_unreserved(b: u8) -> bool {
    (48 <= b <= 57) || (65 <= b <= 90) || (97 <= b <= 122) || b == 45 || b == 95 || b == 46 || b
        == 126
}

/// The upper-case hexadecimal digit for a value below sixteen.
pub open spec fn upper_hex_char(v: u8) -> char {
    if v < 10 {
        (48 + v) as char
    } else {
        (55 + v) as char
    }
}

/// How one byte is written in form encoding.
pub open spec fn form_encode_byte(b: u8) -> Seq<char> {
    if is_unreserved(b) {
        seq![b as char]
    } else {
        seq!['%', upper_hex_char(b / 16), upper_hex_char(b % 16)]
    }
}

/// The form encoding of a byte string.
pub open spec fn form_encode(bs: Seq<u8>) -> Seq<char>
    decreases bs.len(),
{
    if bs.len() == 0 {
        seq![]
    } else {
        form_encode(bs.drop_last()) + form_encode_byte(bs.last())
    }
}

fn upper_hex(v: u8) -> (res: char)
    requires
        v < 16,
    ensures
        res == upper_hex_char(v),
{
    if v < 10 {
        (48 + v) as char
    } else {
        (55 + v) as char
    }
}

/// Appends the form encoding of the UTF-8 bytes of `input` to `out`.
pub fn push_form_encoded(out: &mut String, input: &str)
    ensures
        final(out)@ == old(out)@ + form_encode(vstd::utf8::encode_utf8(input@)),
{
    let bytes = input.as_bytes();
    let ghost start = out@;
    let mut i: usize = 0;
    while i < bytes.len()
        invariant
            i <= bytes.len(),
            bytes@ == vstd::utf8::encode_utf8(input@),
            out@ == start + form_encode(bytes@.take(i as int)),
        decreases bytes.len() - i,
    {
        let byte = bytes[i];
        assert(bytes@.take(i + 1).drop_last() == bytes@.take(i as int));
        if (byte >= 48 && byte <= 57) || (byte >= 65 && byte <= 90) || (byte >= 97 && byte <= 122)
            || byte == 45 || byte == 95 || byte == 46 || byte == 126 {
            push_char(out, byte as char);
        } else {
            push_char(out, '%');
            push_char(out, upper_hex(byte / 16));
            push_char(out, upper_hex(byte % 16));
        }
        i += 1;
    }
    assert(bytes@.take(bytes.len() as int) == bytes@);
}

/// The value of a byte that is a hexadecimal digit.
pub open spec fn hex_byte(b: u8) -> Option<int> {
    if is_hex_digit(b as char) {
        Some(hex_value(b as char))
    } else {
        None
    }
}

/// The text that form-encoded bytes stand for: `+` is a space, `%XY` the
/// byte with hex value XY, any other byte itself; each byte becomes the
/// character with that value. `None` on a `%` without two hex digits.
pub open spec fn form_decode_spec(bs: Seq<u8>) -> Option<Seq<char>>
    decreases bs.len(),
{
    if bs.len() == 0 {
        Some(seq![])
    } else if bs[0] == 43 {
        match form_decode_spec(bs.drop_first()) {
            Some(r) => Some(seq![' '] + r),
            None => None,
        }
    } else if bs[0] == 37 {
        if bs.len() < 3 {
            None
        } else {
            match (hex_byte(bs[1]), hex_byte(bs[2])) {
                (Some(hi), Some(lo)) => match form_decode_spec(bs.skip(3)) {
                    Some(r) => Some(seq![((hi * 16 + lo) as u8) as char] + r),
                    None => None,
                },
                _ => None,
            }
        }
    } else {
        match form_decode_spec(bs.drop_first()) {
            Some(r) => Some(seq![bs[0] as char] + r),
            None => None,
        }
    }
}

pub open spec fn opt_string_view(o: Option<String>) -> Option<Seq<char>> {
    match o {
        Some(s) => Some(s@),
        None => None,
    }
}

pub open spec fn prepend_all(p: Seq<char>, o: Option<Seq<char>>) -> Option<Seq<char>> {
    match o {
        Some(r) => Some(p + r),
        None => None,
    }
}

/// The text form-encoded in the UTF-8 bytes of `input`.
pub fn form_decode(input: &str) -> (res: Option<String>)
    ensures
        opt_string_view(res) == form_decode_spec(vstd::utf8::encode_utf8(input@)),
{
    let bytes = input.as_bytes();
    let mut out = String::new();
    let mut index: usize = 0;
    assert(bytes@.skip(0) == bytes@);
    assert(Seq::<char>::empty() + form_decode_spec(bytes@)->0 == form_decode_spec(bytes@)->0);
    while index < bytes.len()
        invariant
            index <= bytes.len(),
            bytes@ == vstd::utf8::encode_utf8(input@),
            form_decode_spec(bytes@) == prepend_all(out@, form_decode_spec(bytes@.skip(index as int))),
        decreases bytes.len() - index,
    {
        let ghost s = bytes@.skip(index as int);
        let ghost before = out@;
        assert(s[0] == bytes@[index as int]);
        let b = bytes[index];
        if b == 43 {
            assert(s.drop_first() == bytes@.skip(index + 1));
            push_char(&mut out, ' ');
            proof {
                if form_decode_spec(s.drop_first()) is Some {
                    assert(before + (seq![' '] + form_decode_spec(s.drop_first())->0) == out@ + form_decode_spec(s.drop_first())->0);
                }
            }
            index += 1;
        } else if b == 37 {
            if bytes.len() - index <= 2 {
                return None;
            }
            assert(s[1] == bytes@[index + 1]);
            assert(s[2] == bytes@[index + 2]);
            let hi = match hex_digit(bytes[index + 1]) {
                Some(h) => h,
                None => {
                    return None;
                },
            };
            let lo = match hex_digit(bytes[index + 2]) {
                Some(l) => l,
                None => {
                    return None;
                },
            };
            let value = hi * 16 + lo;
            assert(s.skip(3) == bytes@.skip(index + 3));
            push_char(&mut out, value as char);
            proof {
                if form_decode_spec(s.skip(3)) is Some {
                    assert(before + (seq![value as char] + form_decode_spec(s.skip(3))->0) == out@ + form_decode_spec(s.skip(3))->0);
                }
            }
            index += 3;
        } else {
            assert(s.drop_first() == bytes@.skip(index + 1));
            push_char(&mut out, b as char);
            proof {
                if form_decode_spec(s.drop_first()) is Some {
                    assert(before + (seq![b as char] + form_decode_spec(s.drop_first())->0) == out@ + form_decode_spec(s.drop_first())->0);
                }
            }
            index += 1;
        }
    }
    assert(bytes@.skip(index as int).len() == 0);
    assert(out@ + Seq::<char>::empty() == out@);
    Some(out)
}

/// The value of the first pair of `pairs` (from index `k` on) whose decoded key
/// is `name`, decoded; `None` when none is, or when a key met on the way
/// does not decode.
pub open spec fn form_value_from(pairs: Seq<Seq<char>>, k: int, name: Seq<char>) -> Option<Seq<char>>
    decreases pairs.len() - k,
{
    if k < 0 || k >= pairs.len() {
        None
    } else {
        let pair = pairs[k];
        match form_decode_spec(vstd::utf8::encode_utf8(before_first(pair, '='))) {
            None => None,
            Some(key) => if key == name {
                form_decode_spec(vstd::utf8::encode_utf8(after_first(pair, '=')))
            } else {
                form_value_from(pairs, k + 1, name)
            },
        }
    }
}

/// The decoded value of the field `name` in a form-encoded text.
pub open spec fn form_value_spec(input: Seq<char>, name: Seq<char>) -> Option<Seq<char>> {
    form_value_from(split_char(input, '&'), 0, name)
}

/// The decoded value of the field `name` in the form-encoded `input`.
pub fn form_value(input: &str, name: &str) -> (res: Option<String>)
    ensures
        opt_string_view(res) == form_value_spec(input@, name@),
{
    let chars = str_chars(input);
    let name_chars = str_chars(name);
    let pairs = split_chars(chars.as_slice(), '&');
    let ghost pv = vecs_view(pairs@);
    let mut k: usize = 0;
    while k < pairs.len()
        invariant
            k <= pairs.len(),
            pv == vecs_view(pairs@),
            pv == split_char(input@, '&'),
            name_chars@ == name@,
            form_value_spec(input@, name@) == form_value_from(pv, k as int, name@),
        decreases pairs.len() - k,
    {
        let pair = pairs[k].as_slice();
        let _pl = pair.len();
        assert(pair@ == pv[k as int]);
        proof {
            lemma_index_of_bound(pair@, '=');
        }
        let (key_chars, value_chars) = match find_char(pair, '=') {
            Some(eq) => {
                assert(eq < pair@.len());
                assert(pair@.subrange(0, eq as int) == pair@.take(eq as int));
                assert(pair@.subrange(eq + 1, pair@.len() as int) == pair@.skip(eq + 1));
                (&pair[0..eq], &pair[eq + 1..pair.len()])
            },
            None => {
                let empty: &[char] = &[];
                assert(empty@ == Seq::<char>::empty());
                (pair, empty)
            },
        };
        assert(key_chars@ == before_first(pair@, '='));
        assert(value_chars@ == after_first(pair@, '='));
        let key_string = chars_to_string(key_chars);
        let key = match form_decode(key_string.as_str()) {
            Some(key) => key,
            None => {
                return None;
            },
        };
        let key_vec = str_chars(key.as_str());
        if chars_eq(key_vec.as_slice(), name_chars.as_slice()) {
            let value_string = chars_to_string(value_chars);
            return form_decode(value_string.as_str());
        }
        k += 1;
    }
    None
}

/// Appends `name=value` to the query of `url`, the value form-encoded.
pub fn append_query_param(url: &mut String, name: &str, value: &str)
    ensures
        final(url)@ == old(url)@ + (if contains(old(url)@, seq!['?']) {
            seq!['&']
        } else {
            seq!['?']
        }) + name@ + seq!['='] + form_encode(vstd::utf8::encode_utf8(value@)),
{
    let chars = str_chars(url.as_str());
    let q = ['?'];
    assert(q@ == seq!['?']);
    if crate::text::contains_chars(chars.as_slice(), &q) {
        push_char(url, '&');
    } else {
        push_char(url, '?');
    }
    push_str(url, name);
    push_char(url, '=');
    push_form_encoded(url, value);
}

// ---------------------------------------------------------------------------
// Decoding what was encoded.

/// Each byte as the character with that code.
pub open spec fn latin1(bytes: Seq<u8>) -> Seq<char> {
    bytes.map_values(|b: u8| b as char)
}

/// The bytes of characters that are all ASCII.
pub open spec fn ascii_bytes(chars: Seq<char>) -> Seq<u8> {
    chars.map_values(|c: char| c as u8)
}

pub open spec fn all_ascii(chars: Seq<char>) -> bool {
    forall|k: int| 0 <= k < chars.len() ==> (#[trigger] chars[k] as u32) < 128
}

proof fn lemma_ascii_scalar(c: char)
    requires
        (c as u32) < 128,
    ensures
        vstd::utf8::encode_scalar(c as u32) == seq![c as u8],
{
    let v = c as u32;
    assert((v & 0x7F) as u8 == v as u8 && (v as u8) as u32 == v) by (bit_vector)
        requires
            v < 128,
    ;
    assert(vstd::utf8::has_width_1_encoding(v));
}

/// The UTF-8 encoding of ASCII text is its characters' codes.
proof fn lemma_encode_ascii(chars: Seq<char>)
    requires
        all_ascii(chars),
    ensures
        vstd::utf8::encode_utf8(chars) == ascii_bytes(chars),
    decreases chars.len(),
{
    if chars.len() > 0 {
        assert((chars[0] as u32) < 128);
        lemma_ascii_scalar(chars[0]);
        let rest = chars.drop_first();
        assert forall|k: int| 0 <= k < rest.len() implies (#[trigger] rest[k] as u32) < 128 by {
            assert(rest[k] == chars[k + 1]);
        }
        lemma_encode_ascii(rest);
        assert(ascii_bytes(chars) =~= seq![chars[0] as u8] + ascii_bytes(rest));
    }
}

proof fn lemma_upper_hex(v: u8)
    requires
        v < 16,
    ensures
        (upper_hex_char(v) as u32) < 128,
        hex_byte(upper_hex_char(v) as u8) == Some(v as int),
{
    let c = upper_hex_char(v);
    if v < 10 {
        assert(c as int == 48 + v);
    } else {
        assert(c as int == 55 + v);
    }
    assert((c as u8) as int == c as int);
    assert((c as u8) as char == c);
}

proof fn lemma_encode_byte_ascii(b: u8)
    ensures
        all_ascii(form_encode_byte(b)),
{
    if !is_unreserved(b) {
        lemma_upper_hex(b / 16);
        lemma_upper_hex(b % 16);
    }
    assert((b as char) as u32 == b);
}

proof fn lemma_form_encode_front(bs: Seq<u8>)
    requires
        bs.len() > 0,
    ensures
        form_encode(bs) == form_encode_byte(bs[0]) + form_encode(bs.drop_first()),
    decreases bs.len(),
{
    if bs.len() == 1 {
        assert(bs.drop_last() =~= Seq::<u8>::empty());
        assert(bs.drop_first() =~= Seq::<u8>::empty());
    } else {
        lemma_form_encode_front(bs.drop_last());
        assert(bs.drop_last().drop_first() =~= bs.drop_first().drop_last());
        assert(bs.drop_first().last() == bs.last());
    }
}

proof fn lemma_form_encode_ascii(bs: Seq<u8>)
    ensures
        all_ascii(form_encode(bs)),
    decreases bs.len(),
{
    if bs.len() > 0 {
        lemma_form_encode_ascii(bs.drop_last());
        lemma_encode_byte_ascii(bs.last());
        let a = form_encode(bs.drop_last());
        let b = form_encode_byte(bs.last());
        assert forall|k: int| 0 <= k < (a + b).len() implies (#[trigger] (a + b)[k] as u32) < 128 by {
            if k < a.len() {
                assert((a + b)[k] == a[k]);
            } else {
                assert((a + b)[k] == b[k - a.len()]);
            }
        }
    }
}

proof fn lemma_decode_encoded_byte(b: u8, rest: Seq<u8>)
    ensures
        form_decode_spec(ascii_bytes(form_encode_byte(b)) + rest) == prepend_all(
            seq![b as char],
            form_decode_spec(rest),
        ),
{
    let unit = ascii_bytes(form_encode_byte(b));
    let all = unit + rest;
    if is_unreserved(b) {
        assert((b as char) as u8 == b);
        assert(all[0] == b);
        assert(all.drop_first() =~= rest);
    } else {
        lemma_upper_hex(b / 16);
        lemma_upper_hex(b % 16);
        assert(all[0] == 37u8);
        assert(all[1] == upper_hex_char(b / 16) as u8);
        assert(all[2] == upper_hex_char(b % 16) as u8);
        assert(all.skip(3) =~= rest);
        assert((((b / 16) as int * 16 + (b % 16) as int) as u8) == b);
    }
}

/// Decoding the form encoding of any bytes gives back each byte, as the
/// character with that code; for ASCII text, the text itself.
pub proof fn lemma_form_decode_encode(bs: Seq<u8>)
    ensures
        form_decode_spec(vstd::utf8::encode_utf8(form_encode(bs))) == Some(latin1(bs)),
    decreases bs.len(),
{
    lemma_form_encode_ascii(bs);
    lemma_encode_ascii(form_encode(bs));
    if bs.len() == 0 {
        assert(ascii_bytes(form_encode(bs)) =~= Seq::<u8>::empty());
        assert(latin1(bs) =~= Seq::<char>::empty());
    } else {
        lemma_form_decode_encode(bs.drop_first());
        lemma_form_encode_ascii(bs.drop_first());
        lemma_encode_ascii(form_encode(bs.drop_first()));
        lemma_form_encode_front(bs);
        let unit = form_encode_byte(bs[0]);
        let rest = form_encode(bs.drop_first());
        assert(ascii_bytes(unit + rest) =~= ascii_bytes(unit) + ascii_bytes(rest));
        lemma_decode_encoded_byte(bs[0], ascii_bytes(rest));
        assert(latin1(bs) =~= seq![bs[0] as char] + latin1(bs.drop_first()));
    }
}


/// A character the form encoding writes: an ASCII letter or digit, one of
/// `-`, `_`, `.`, `~`, or `%`.
pub open spec fn form_alphabet(c: char) -> bool {
    (c as u32) < 128 && (c == '%' || is_unreserved(c as u8))
}

proof fn lemma_form_encode_byte_alphabet(b: u8)
    ensures
        forall|j: int| 0 <= j < form_encode_byte(b).len() ==> form_alphabet(#[trigger] form_encode_byte(b)[j]),
{
    if is_unreserved(b) {
        assert((b as char) as u32 == b);
        assert(((b as char) as u8) == b);
    } else {
        let hi = upper_hex_char(b / 16);
        let lo = upper_hex_char(b % 16);
        if b / 16 < 10 {
            assert(hi as int == 48 + b / 16);
        } else {
            assert(hi as int == 55 + b / 16);
        }
        if b % 16 < 10 {
            assert(lo as int == 48 + b % 16);
        } else {
            assert(lo as int == 55 + b % 16);
        }
        assert((hi as u8) as int == hi as int);
        assert((lo as u8) as int == lo as int);
        assert(form_alphabet(hi));
        assert(form_alphabet(lo));
        assert(form_alphabet('%'));
    }
}

proof fn lemma_form_encode_alphabet(bs: Seq<u8>)
    ensures
        forall|k: int| 0 <= k < form_encode(bs).len() ==> form_alphabet(#[trigger] form_encode(bs)[k]),
    decreases bs.len(),
{
    if bs.len() > 0 {
        lemma_form_encode_alphabet(bs.drop_last());
        lemma_form_encode_byte_alphabet(bs.last());
        let a = form_encode(bs.drop_last());
        let u = form_encode_byte(bs.last());
        assert forall|k: int| 0 <= k < (a + u).len() implies form_alphabet(#[trigger] (a + u)[k]) by {
            if k < a.len() {
                assert((a + u)[k] == a[k]);
            } else {
                assert((a + u)[k] == u[k - a.len()]);
            }
        }
    }
}

proof fn lemma_ascii_char_code(c: char)
    requires
        (c as u32) < 128,
    ensures
        (c as u8) as char == c,
{
    let v = c as u32;
    assert(v as u8 == c as u8);
    assert((v as u8) as u32 == v) by (bit_vector)
        requires
            v < 128,
    ;
    assert(((c as u8) as u32) as char == c);
}

/// Form-encoding ASCII text and decoding the result gives the text back, and
/// the encoding holds only ASCII letters and digits, `-`, `_`, `.`, `~` and
/// `%`.
pub proof fn lemma_form_ascii_roundtrip(t: Seq<char>)
    requires
        all_ascii(t),
    ensures
        form_decode_spec(vstd::utf8::encode_utf8(form_encode(vstd::utf8::encode_utf8(t)))) == Some(t),
        forall|k: int|
            0 <= k < form_encode(vstd::utf8::encode_utf8(t)).len() ==> form_alphabet(
                #[trigger] form_encode(vstd::utf8::encode_utf8(t))[k],
            ),
{
    lemma_encode_ascii(t);
    lemma_form_decode_encode(vstd::utf8::encode_utf8(t));
    lemma_form_encode_alphabet(vstd::utf8::encode_utf8(t));
    assert forall|k: int| 0 <= k < t.len() implies #[trigger] latin1(ascii_bytes(t))[k] == t[k] by {
        lemma_ascii_char_code(t[k]);
    }
    assert(latin1(ascii_bytes(t)) =~= t);
}


} // verus!
