use vstd::prelude::*;

use crate::numbers::{all_hex, hex_digits_value, json_hex_digit, lower_hex_char, parse_hex_u16, parse_usize_chars, decimal_value_at_most, opt_usize, opt_u16};
use crate::text::{find, find_chars, is_ascii_whitespace, opt_index, push_char, push_chars, push_str, str_chars};

verus! {

// ---------------------------------------------------------------------------
// Matching brackets.

/// Scanning JSON text from index `i` for the bracket that closes the one the
/// scan began at: `depth` brackets are open, and the scan may be inside a
/// string literal, just after a backslash in it.
pub open spec fn json_scan(
    s: Seq<char>,
    i: int,
    open: char,
    close: char,
    depth: int,
    in_string: bool,
    escaped: bool,
) -> Option<int>
    decreases s.len() - i,
{
    if i < 0 || i >= s.len() {
        None
    } else {
        let c = s[i];
        if in_string {
            if escaped {
                json_scan(s, i + 1, open, close, depth, true, false)
            } else if c == '\\' {
                json_scan(s, i + 1, open, close, depth, true, true)
            } else if c == '"' {
                json_scan(s, i + 1, open, close, depth, false, false)
            } else {
                json_scan(s, i + 1, open, close, depth, true, false)
            }
        } else if c == '"' {
            json_scan(s, i + 1, open, close, depth, true, false)
        } else if c == open {
            json_scan(s, i + 1, open, close, depth + 1, false, false)
        } else if c == close {
            if depth == 0 {
                None
            } else if depth == 1 {
                Some(i)
            } else {
                json_scan(s, i + 1, open, close, depth - 1, false, false)
            }
        } else {
            json_scan(s, i + 1, open, close, depth, false, false)
        }
    }
}

/// The index of the bracket that closes the `open` bracket at `start`,
/// skipping brackets inside string literals.
pub open spec fn matching_json(s: Seq<char>, start: int, open: char, close: char) -> Option<int> {
    if 0 <= start < s.len() && s[start] == open {
        json_scan(s, start, open, close, 0, false, false)
    } else {
        None
    }
}

/// The index of the bracket that closes the `open` bracket at `start`.
pub fn find_matching_json(input: &[char], start: usize, open: char, close: char) -> (res: Option<
    usize,
>)
    ensures
        opt_index(res) == matching_json(input@, start as int, open, close),
        res matches Some(e) ==> start < e < input@.len(),
{
    if start >= input.len() || input[start] != open {
        return None;
    }
    let mut depth: usize = 0;
    let mut in_string = false;
    let mut escaped = false;
    let mut index = start;
    while index < input.len()
        invariant
            start <= index <= input.len(),
            start < input.len(),
            input@[start as int] == open,
            depth <= index,
            !in_string ==> !escaped,
            matching_json(input@, start as int, open, close) == json_scan(
                input@,
                index as int,
                open,
                close,
                depth as int,
                in_string,
                escaped,
            ),
        decreases input.len() - index,
    {
        let c = input[index];
        let ghost d0 = depth as int;
        let ghost s0 = in_string;
        let ghost e0 = escaped;
        if in_string {
            if escaped {
                escaped = false;
            } else if c == '\\' {
                escaped = true;
            } else if c == '"' {
                in_string = false;
            }
        } else if c == '"' {
            in_string = true;
        } else if c == open {
            depth += 1;
        } else if c == close {
            if depth == 0 {
                return None;
            }
            depth -= 1;
            if depth == 0 {
                return Some(index);
            }
        }
        assert(json_scan(input@, index as int, open, close, d0, s0, e0) == json_scan(
            input@,
            index + 1,
            open,
            close,
            depth as int,
            in_string,
            escaped,
        ));
        index += 1;
    }
    None
}

// ---------------------------------------------------------------------------
// String literals.

/// The character with scalar value `v`, if there is one.
pub open spec fn char_of(v: u32) -> Option<char> {
    if v <= 0xD7FF || (0xE000 <= v && v <= 0x10FFFF) {
        Some(v as char)
    } else {
        None
    }
}

/// std's `char::from_u32`: the character whose scalar value is `v`, or
/// `None` where `v` is a surrogate or above U+10FFFF.
#[verifier::external_body]
fn char_from_u32(v: u32) -> (res: Option<char>)
    ensures
        res == char_of(v),
{
    core::char::from_u32(v)
}

pub open spec fn prepend(c: char, o: Option<Seq<char>>) -> Option<Seq<char>> {
    match o {
        Some(r) => Some(seq![c] + r),
        None => None,
    }
}

pub open spec fn prepend_all(p: Seq<char>, o: Option<Seq<char>>) -> Option<Seq<char>> {
    match o {
        Some(r) => Some(p + r),
        None => None,
    }
}

/// The value of four hexadecimal digits at the front of `s`.
pub open spec fn hex4(s: Seq<char>) -> Option<nat> {
    if s.len() >= 4 && all_hex(s.take(4)) {
        Some(hex_digits_value(s.take(4)))
    } else {
        None
    }
}

/// The character a JSON escape letter stands for (other than `u`).
pub open spec fn simple_unescape(e: char) -> Option<char> {
    if e == '"' {
        Some('"')
    } else if e == '\\' {
        Some('\\')
    } else if e == '/' {
        Some('/')
    } else if e == 'b' {
        Some('\x08')
    } else if e == 'f' {
        Some('\x0C')
    } else if e == 'n' {
        Some('\n')
    } else if e == 'r' {
        Some('\r')
    } else if e == 't' {
        Some('\t')
    } else {
        None
    }
}

/// The text of a JSON string literal whose opening quote came just before `s`,
/// up to its closing quote; `None` where it is not closed or holds a bad escape.
pub open spec fn json_string_decode(s: Seq<char>) -> Option<Seq<char>>
    decreases s.len(),
{
    if s.len() == 0 {
        None
    } else if s[0] == '"' {
        Some(seq![])
    } else if s[0] != '\\' {
        prepend(s[0], json_string_decode(s.drop_first()))
    } else if s.len() < 2 {
        None
    } else if s[1] == 'u' {
        match hex4(s.skip(2)) {
            None => None,
            Some(code) => if 0xD800 <= code <= 0xDBFF {
                let tail = s.skip(6);
                if tail.len() < 6 || tail[0] != '\\' || tail[1] != 'u' {
                    None
                } else {
                    match hex4(tail.skip(2)) {
                        None => None,
                        Some(low) => if !(0xDC00 <= low <= 0xDFFF) {
                            None
                        } else {
                            let scalar = (0x10000 + (code - 0xD800) * 1024 + (low - 0xDC00)) as u32;
                            match char_of(scalar) {
                                Some(c) => prepend(c, json_string_decode(s.skip(12))),
                                None => None,
                            }
                        },
                    }
                }
            } else {
                match char_of(code as u32) {
                    Some(c) => prepend(c, json_string_decode(s.skip(6))),
                    None => None,
                }
            },
        }
    } else {
        match simple_unescape(s[1]) {
            Some(c) => prepend(c, json_string_decode(s.skip(2))),
            None => None,
        }
    }
}

fn hex4_at(input: &[char], at: usize) -> (res: Option<u32>)
    requires
        at <= input@.len(),
    ensures
        match res {
            Some(v) => hex4(input@.skip(at as int)) == Some(v as nat) && v <= 0xFFFF,
            None => hex4(input@.skip(at as int)) is None,
        },
{
    if at > input.len() || input.len() - at < 4 {
        return None;
    }
    let r = parse_hex_u16(&input[at..at + 4]);
    assert(input@.subrange(at as int, at + 4) == input@.skip(at as int).take(4));
    match r {
        Some(v) => Some(v as u32),
        None => None,
    }
}

/// The text of the JSON string literal whose body starts at index `start`
/// of `s`, up to its closing quote.
pub open spec fn json_string_at(s: Seq<char>, start: int) -> Option<Seq<char>> {
    if 0 <= start <= s.len() {
        json_string_decode(s.skip(start))
    } else {
        None
    }
}

pub open spec fn opt_string_view(o: Option<String>) -> Option<Seq<char>> {
    match o {
        Some(s) => Some(s@),
        None => None,
    }
}

/// The text of the JSON string literal whose body starts at `start`, up to
/// its closing quote.
pub fn parse_json_string_value(input: &[char], start: usize) -> (res: Option<String>)
    ensures
        opt_string_view(res) == json_string_at(input@, start as int),
{
    let mut out = String::new();
    let mut index = start;
    if index > input.len() {
        return None;
    }
    while index < input.len()
        invariant
            start <= index <= input.len(),
            json_string_decode(input@.skip(start as int)) == prepend_all(
                out@,
                json_string_decode(input@.skip(index as int)),
            ),
        decreases input.len() - index,
    {
        let ghost s = input@.skip(index as int);
        let ch = input[index];
        assert(s[0] == ch);
        if ch == '"' {
            assert(out@ + Seq::<char>::empty() == out@);
            return Some(out);
        }
        assert(input@.skip(index as int).len() > 0);
        if ch != '\\' {
            assert(s.drop_first() == input@.skip(index + 1));
            let ghost before = out@;
            push_char(&mut out, ch);
            assert(before + (seq![ch] + json_string_decode(s.drop_first())->0) == out@ + json_string_decode(s.drop_first())->0);
            index += 1;
            continue;
        }
        if index + 1 >= input.len() {
            return None;
        }
        let e = input[index + 1];
        assert(s[1] == e);
        if e == 'u' {
            let code = match hex4_at(input, index + 2) {
                Some(c) => c,
                None => {
                    assert(s.skip(2) == input@.skip(index + 2));
                    return None;
                },
            };
            assert(s.skip(2) == input@.skip(index + 2));
            if 0xD800 <= code && code <= 0xDBFF {
                let ghost tail = s.skip(6);
                if index + 6 > input.len() || input.len() - (index + 6) < 6 {
                    return None;
                }
                assert(tail[0] == input@[index + 6]);
                assert(tail[1] == input@[index + 7]);
                if input[index + 6] != '\\' || input[index + 7] != 'u' {
                    return None;
                }
                let low = match hex4_at(input, index + 8) {
                    Some(l) => l,
                    None => {
                        assert(tail.skip(2) == input@.skip(index + 8));
                        return None;
                    },
                };
                assert(tail.skip(2) == input@.skip(index + 8));
                if !(0xDC00 <= low && low <= 0xDFFF) {
                    return None;
                }
                let scalar = 0x10000 + (code - 0xD800) * 1024 + (low - 0xDC00);
                let c = match char_from_u32(scalar) {
                    Some(c) => c,
                    None => {
                        return None;
                    },
                };
                assert(s.skip(12) == input@.skip(index + 12));
                let ghost before = out@;
                push_char(&mut out, c);
                assert(before + (seq![c] + json_string_decode(s.skip(12))->0) == out@ + json_string_decode(s.skip(12))->0);
                index += 12;
            } else {
                let c = match char_from_u32(code) {
                    Some(c) => c,
                    None => {
                        return None;
                    },
                };
                assert(s.skip(6) == input@.skip(index + 6));
                let ghost before = out@;
                push_char(&mut out, c);
                assert(before + (seq![c] + json_string_decode(s.skip(6))->0) == out@ + json_string_decode(s.skip(6))->0);
                index += 6;
            }
        } else {
            let c = if e == '"' {
                '"'
            } else if e == '\\' {
                '\\'
            } else if e == '/' {
                '/'
            } else if e == 'b' {
                '\x08'
            } else if e == 'f' {
                '\x0C'
            } else if e == 'n' {
                '\n'
            } else if e == 'r' {
                '\r'
            } else if e == 't' {
                '\t'
            } else {
                return None;
            };
            assert(s.skip(2) == input@.skip(index + 2));
            let ghost before = out@;
            push_char(&mut out, c);
            assert(before + (seq![c] + json_string_decode(s.skip(2))->0) == out@ + json_string_decode(s.skip(2))->0);
            index += 2;
        }
    }
    assert(input@.skip(index as int).len() == 0);
    None
}

} // verus!

verus! {

// ---------------------------------------------------------------------------
// Fields of a JSON text, found by their key.

/// `"name":"`, the text before a string-valued field's body.
pub open spec fn string_field_pattern(name: Seq<char>) -> Seq<char> {
    seq!['"'] + name + seq!['"', ':', '"']
}

/// `"name":`, the text before a field's value.
pub open spec fn field_pattern(name: Seq<char>) -> Seq<char> {
    seq!['"'] + name + seq!['"', ':']
}

/// `"name":{`, the text before an object-valued field's body.
pub open spec fn object_field_pattern(name: Seq<char>) -> Seq<char> {
    seq!['"'] + name + seq!['"', ':', '{']
}

/// The string value of the first field `name` whose value is a string
/// literal, as the first `"name":"` in the text shows it.
pub open spec fn json_string_field_spec(s: Seq<char>, name: Seq<char>) -> Option<Seq<char>> {
    let p = string_field_pattern(name);
    match find(s, p) {
        Some(i) => json_string_at(s, i + p.len()),
        None => None,
    }
}

fn quoted_key(name: &str, tail: &[char]) -> (res: Vec<char>)
    ensures
        res@ == seq!['"'] + name@ + tail@,
{
    let name_chars = str_chars(name);
    let mut p: Vec<char> = Vec::new();
    p.push('"');
    let mut i: usize = 0;
    while i < name_chars.len()
        invariant
            i <= name_chars.len(),
            p@ == seq!['"'] + name_chars@.take(i as int),
        decreases name_chars.len() - i,
    {
        p.push(name_chars[i]);
        i += 1;
        assert(p@ == seq!['"'] + name_chars@.take(i as int));
    }
    assert(name_chars@.take(name_chars.len() as int) == name_chars@);
    let mut k: usize = 0;
    while k < tail.len()
        invariant
            k <= tail.len(),
            p@ == seq!['"'] + name@ + tail@.take(k as int),
        decreases tail.len() - k,
    {
        p.push(tail[k]);
        k += 1;
        assert(p@ == seq!['"'] + name@ + tail@.take(k as int));
    }
    assert(tail@.take(tail.len() as int) == tail@);
    p
}

/// The string value of the field `name` (the first `"name":"` in `input`).
pub fn json_string_field(input: &[char], name: &str) -> (res: Option<String>)
    ensures
        opt_string_view(res) == json_string_field_spec(input@, name@),
{
    let _len = input.len();
    let tail = ['"', ':', '"'];
    let pattern = quoted_key(name, &tail);
    assert(tail@ == seq!['"', ':', '"']);
    match find_chars(input, pattern.as_slice()) {
        Some(i) => parse_json_string_value(input, i + pattern.len()),
        None => None,
    }
}

/// The first index at or after `i` that does not hold ASCII white space.
pub open spec fn skip_ascii_whitespace(s: Seq<char>, i: int) -> int
    decreases s.len() - i,
{
    if 0 <= i < s.len() && is_ascii_whitespace(s[i]) {
        skip_ascii_whitespace(s, i + 1)
    } else {
        i
    }
}

/// The end of the run of decimal digits that starts at `i`.
pub open spec fn digit_run_end(s: Seq<char>, i: int) -> int
    decreases s.len() - i,
{
    if 0 <= i < s.len() && crate::numbers::is_digit(s[i]) {
        digit_run_end(s, i + 1)
    } else {
        i
    }
}

/// The number written after the first `"name":` of the text, white space
/// allowed before it.
pub open spec fn json_usize_field_spec(s: Seq<char>, name: Seq<char>) -> Option<nat> {
    let p = field_pattern(name);
    match find(s, p) {
        Some(i) => {
            let a = skip_ascii_whitespace(s, i + p.len());
            let b = digit_run_end(s, a);
            decimal_value_at_most(s.subrange(a, b), usize::MAX as int)
        },
        None => None,
    }
}

/// The number after `"name":` (the first one in `input`).
pub fn json_usize_field(input: &[char], name: &str) -> (res: Option<usize>)
    ensures
        opt_usize(res) == json_usize_field_spec(input@, name@),
{
    let _len = input.len();
    let tail = ['"', ':'];
    let pattern = quoted_key(name, &tail);
    assert(tail@ == seq!['"', ':']);
    let found = match find_chars(input, pattern.as_slice()) {
        Some(i) => i,
        None => {
            return None;
        },
    };
    let mut index = found + pattern.len();
    while index < input.len() && (input[index] == ' ' || input[index] == '\t' || input[index]
        == '\n' || input[index] == '\x0C' || input[index] == '\r')
        invariant
            found + pattern.len() <= index <= input.len(),
            skip_ascii_whitespace(input@, found + pattern@.len()) == skip_ascii_whitespace(
                input@,
                index as int,
            ),
        decreases input.len() - index,
    {
        index += 1;
    }
    let start = index;
    while index < input.len() && input[index] >= '0' && input[index] <= '9'
        invariant
            start <= index <= input.len(),
            digit_run_end(input@, start as int) == digit_run_end(input@, index as int),
        decreases input.len() - index,
    {
        index += 1;
    }
    parse_usize_chars(&input[start..index])
}

/// The object that is the value of the field `name`, braces included, as the
/// first `"name":{` of the text shows it.
pub open spec fn json_object_field_spec(s: Seq<char>, name: Seq<char>) -> Option<Seq<char>> {
    let p = object_field_pattern(name);
    match find(s, p) {
        Some(i) => {
            let start = i + p.len() - 1;
            match matching_json(s, start, '{', '}') {
                Some(end) => Some(s.subrange(start, end + 1)),
                None => None,
            }
        },
        None => None,
    }
}

/// The object that is the value of the field `name`, braces included.
pub fn json_object_field<'a>(input: &'a [char], name: &str) -> (res: Option<&'a [char]>)
    ensures
        match res {
            Some(r) => json_object_field_spec(input@, name@) == Some(r@),
            None => json_object_field_spec(input@, name@) is None,
        },
{
    let _len = input.len();
    let tail = ['"', ':', '{'];
    let pattern = quoted_key(name, &tail);
    assert(tail@ == seq!['"', ':', '{']);
    let found = match find_chars(input, pattern.as_slice()) {
        Some(i) => i,
        None => {
            return None;
        },
    };
    let object_start = found + pattern.len() - 1;
    match find_matching_json(input, object_start, '{', '}') {
        Some(end) => Some(&input[object_start..end + 1]),
        None => None,
    }
}

/// The text of a renderer field: its `simpleText`, or else its `text`.
pub open spec fn renderer_text_spec(s: Seq<char>, field: Seq<char>) -> Option<Seq<char>> {
    match json_object_field_spec(s, field) {
        Some(v) => match json_string_field_spec(v, "simpleText"@) {
            Some(t) => Some(t),
            None => json_string_field_spec(v, "text"@),
        },
        None => None,
    }
}

/// The text of the renderer field `field` of `object`.
pub fn youtube_renderer_text(object: &[char], field: &str) -> (res: Option<String>)
    ensures
        opt_string_view(res) == renderer_text_spec(object@, field@),
{
    let value = match json_object_field(object, field) {
        Some(v) => v,
        None => {
            return None;
        },
    };
    match json_string_field(value, "simpleText") {
        Some(t) => Some(t),
        None => json_string_field(value, "text"),
    }
}

// ---------------------------------------------------------------------------
// Writing string literals.

/// How one character is written inside a JSON string literal.
pub open spec fn json_escape_char(c: char) -> Seq<char> {
    if c == '"' {
        seq!['\\', '"']
    } else if c == '\\' {
        seq!['\\', '\\']
    } else if c == '\n' {
        seq!['\\', 'n']
    } else if c == '\r' {
        seq!['\\', 'r']
    } else if c == '\t' {
        seq!['\\', 't']
    } else if c == '\x08' {
        seq!['\\', 'b']
    } else if c == '\x0C' {
        seq!['\\', 'f']
    } else if (c as u32) < 0x20 {
        seq!['\\', 'u', '0', '0', lower_hex_char(((c as u32) / 16) as u8), lower_hex_char(((c as u32) % 16) as u8)]
    } else {
        seq![c]
    }
}

/// A text as written inside a JSON string literal.
pub open spec fn json_escape(s: Seq<char>) -> Seq<char>
    decreases s.len(),
{
    if s.len() == 0 {
        seq![]
    } else {
        json_escape(s.drop_last()) + json_escape_char(s.last())
    }
}

/// Appends `value` to `out`, escaped for a JSON string literal.
pub fn push_json_escaped(out: &mut String, value: &str)
    ensures
        final(out)@ == old(out)@ + json_escape(value@),
{
    let chars = str_chars(value);
    let ghost start = out@;
    let mut i: usize = 0;
    while i < chars.len()
        invariant
            i <= chars.len(),
            chars@ == value@,
            out@ == start + json_escape(chars@.take(i as int)),
        decreases chars.len() - i,
    {
        let ch = chars[i];
        assert(chars@.take(i + 1).drop_last() == chars@.take(i as int));
        if ch == '"' {
            push_char(out, '\\');
            push_char(out, '"');
        } else if ch == '\\' {
            push_char(out, '\\');
            push_char(out, '\\');
        } else if ch == '\n' {
            push_char(out, '\\');
            push_char(out, 'n');
        } else if ch == '\r' {
            push_char(out, '\\');
            push_char(out, 'r');
        } else if ch == '\t' {
            push_char(out, '\\');
            push_char(out, 't');
        } else if ch == '\x08' {
            push_char(out, '\\');
            push_char(out, 'b');
        } else if ch == '\x0C' {
            push_char(out, '\\');
            push_char(out, 'f');
        } else if (ch as u32) < 0x20 {
            let code = ch as u32;
            let hi = (code / 16) as u8;
            let lo = (code % 16) as u8;
            push_char(out, '\\');
            push_char(out, 'u');
            push_char(out, '0');
            push_char(out, '0');
            push_char(out, json_hex_digit(hi));
            push_char(out, json_hex_digit(lo));
        } else {
            push_char(out, ch);
        }
        i += 1;
    }
    assert(chars@.take(chars.len() as int) == chars@);
}

} // verus!

verus! {

pub(crate) proof fn lemma_json_escape_concat(a: Seq<char>, b: Seq<char>)
    ensures
        json_escape(a + b) == json_escape(a) + json_escape(b),
    decreases b.len(),
{
    if b.len() == 0 {
        assert(a + b == a);
        assert(json_escape(a) + json_escape(b) == json_escape(a));
    } else {
        lemma_json_escape_concat(a, b.drop_last());
        assert((a + b).drop_last() == a + b.drop_last());
        assert((a + b).last() == b.last());
    }
}

proof fn lemma_lower_hex_char(v: u8)
    requires
        v < 16,
    ensures
        crate::numbers::is_hex_digit(lower_hex_char(v)),
        crate::numbers::hex_value(lower_hex_char(v)) == v,
{
}

proof fn lemma_hex4_of_escape(t: Seq<char>, hi: u8, lo: u8)
    requires
        hi < 16,
        lo < 16,
        t.len() >= 4,
        t[0] == '0',
        t[1] == '0',
        t[2] == lower_hex_char(hi),
        t[3] == lower_hex_char(lo),
    ensures
        hex4(t) == Some((hi * 16 + lo) as nat),
{
    lemma_lower_hex_char(hi);
    lemma_lower_hex_char(lo);
    let q = t.take(4);
    assert(all_hex(q)) by {
        assert forall|k: int| 0 <= k < q.len() implies crate::numbers::is_hex_digit(#[trigger] q[k]) by {
            assert(q[k] == t[k]);
        }
    }
    assert(q.drop_last() == t.take(3));
    assert(t.take(3).drop_last() == t.take(2));
    assert(t.take(2).drop_last() == t.take(1));
    assert(t.take(1).drop_last() == t.take(0));
    assert(hex_digits_value(t.take(0)) == 0);
    assert(hex_digits_value(t.take(1)) == 0);
    assert(hex_digits_value(t.take(2)) == 0);
    assert(hex_digits_value(t.take(3)) == hi);
}

proof fn lemma_decode_escaped_char(c: char, after: Seq<char>)
    ensures
        json_string_decode(json_escape_char(c) + after) == prepend(c, json_string_decode(after)),
{
    let e = json_escape_char(c);
    let whole = e + after;
    if e.len() == 1 {
        assert(whole[0] == c);
        assert(whole.drop_first() == after);
    } else if e.len() == 2 {
        assert(whole[0] == '\\');
        assert(whole[1] == e[1]);
        assert(whole.skip(2) == after);
    } else {
        let code = c as u32;
        assert(code < 0x20 ==> ((code / 16) as u8) < 16 && ((code % 16) as u8) < 16 && (((code
            / 16) as u8) as u32) * 16 + (((code % 16) as u8) as u32) == code) by (bit_vector);
        assert(whole[0] == '\\');
        assert(whole[1] == 'u');
        lemma_hex4_of_escape(whole.skip(2), (code / 16) as u8, (code % 16) as u8);
        assert(whole.skip(6) == after);
        vstd::utf8::char_u32_cast(c, code);
        assert(char_of(code) == Some(c));
    }
}

/// Reading back a text written as a JSON string literal (escaped, then closed
/// by a quote) gives the text, whatever follows the literal.
pub proof fn lemma_json_string_roundtrip(s: Seq<char>, rest: Seq<char>)
    ensures
        json_string_decode(json_escape(s) + seq!['"'] + rest) == Some(s),
    decreases s.len(),
{
    if s.len() == 0 {
        assert(json_escape(s) + seq!['"'] + rest == seq!['"'] + rest);
    } else {
        let c = s[0];
        let tail = s.drop_first();
        lemma_json_string_roundtrip(tail, rest);
        assert(s == seq![c] + tail);
        lemma_json_escape_concat(seq![c], tail);
        assert(seq![c].drop_last() == Seq::<char>::empty());
        assert(json_escape(Seq::<char>::empty()) == Seq::<char>::empty());
        assert(Seq::<char>::empty() + json_escape_char(c) == json_escape_char(c));
        assert(json_escape(seq![c]) == json_escape_char(c));
        let after = json_escape(tail) + seq!['"'] + rest;
        assert(json_escape(s) + seq!['"'] + rest == json_escape_char(c) + after);
        lemma_decode_escaped_char(c, after);
        assert(seq![c] + tail == s);
    }
}

} // verus!

verus! {

// ---------------------------------------------------------------------------
// The objects of a JSON array body, one after another.

/// Where the scan for a closing bracket finds one, it is at or after where
/// the scan began, inside the text.
pub proof fn lemma_json_scan_after(
    s: Seq<char>,
    i: int,
    open: char,
    close: char,
    depth: int,
    in_string: bool,
    escaped: bool,
)
    ensures
        json_scan(s, i, open, close, depth, in_string, escaped) matches Some(e) ==> i <= e < s.len(),
    decreases s.len() - i,
{
    if 0 <= i < s.len() {
        lemma_json_scan_after(s, i + 1, open, close, depth, true, false);
        lemma_json_scan_after(s, i + 1, open, close, depth, true, true);
        lemma_json_scan_after(s, i + 1, open, close, depth, false, false);
        lemma_json_scan_after(s, i + 1, open, close, depth + 1, false, false);
        lemma_json_scan_after(s, i + 1, open, close, depth - 1, false, false);
    }
}

/// The bracket that closes a `{` comes after it.
pub proof fn lemma_matching_json_after(s: Seq<char>, start: int)
    ensures
        matching_json(s, start, '{', '}') matches Some(e) ==> start < e < s.len(),
{
    if 0 <= start < s.len() && s[start] == '{' {
        lemma_json_scan_after(s, start + 1, '{', '}', 1, false, false);
    }
}

/// The first index at or after `i` that holds `{` (or the length, when none does).
pub open spec fn next_brace(s: Seq<char>, i: int) -> int
    decreases s.len() - i,
{
    if 0 <= i < s.len() && s[i] != '{' {
        next_brace(s, i + 1)
    } else {
        i
    }
}

/// The next `{` from `i` is at or after `i`, and is a `{` when inside the
/// text.
pub proof fn lemma_next_brace(s: Seq<char>, i: int)
    requires
        0 <= i,
    ensures
        i <= next_brace(s, i),
        next_brace(s, i) < s.len() ==> s[next_brace(s, i)] == '{',
    decreases s.len() - i,
{
    if 0 <= i < s.len() && s[i] != '{' {
        lemma_next_brace(s, i + 1);
    }
}

/// The objects of an array body from index `i` on: each `{...}` in turn,
/// until no `{` is left or one is not closed.
pub open spec fn json_objects_from(s: Seq<char>, i: int) -> Seq<Seq<char>>
    decreases s.len() - i,
{
    if i < 0 {
        seq![]
    } else {
        let k = next_brace(s, i);
        if k >= s.len() {
            seq![]
        } else {
            match matching_json(s, k, '{', '}') {
                None => seq![],
                Some(e) => {
                    proof {
                        lemma_next_brace(s, i);
                        lemma_matching_json_after(s, k);
                    }
                    seq![s.subrange(k, e + 1)] + json_objects_from(s, e + 1)
                },
            }
        }
    }
}

/// There are at most half as many objects as characters.
pub proof fn lemma_json_objects_count(s: Seq<char>, i: int)
    requires
        0 <= i <= s.len(),
    ensures
        2 * json_objects_from(s, i).len() <= s.len() - i,
    decreases s.len() - i,
{
    let k = next_brace(s, i);
    lemma_next_brace(s, i);
    if k < s.len() {
        lemma_matching_json_after(s, k);
        if let Some(e) = matching_json(s, k, '{', '}') {
            lemma_json_objects_count(s, e + 1);
        }
    }
}

/// A walk over the objects of a JSON array body.
pub struct JsonObjects<'a> {
    input: &'a [char],
    offset: usize,
}

impl<'a> JsonObjects<'a> {
    /// The objects not yet handed out.
    pub closed spec fn remaining(&self) -> Seq<Seq<char>> {
        json_objects_from(self.input@, self.offset as int)
    }

    /// A walk over the objects of the array body `input`.
    pub fn new(input: &'a [char]) -> (res: Self)
        ensures
            res.remaining() == json_objects_from(input@, 0),
    {
        JsonObjects { input, offset: 0 }
    }

    /// The next object, braces included.
    pub fn next_object(&mut self) -> (res: Option<&'a [char]>)
        ensures
            old(self).remaining().len() == 0 ==> res is None && final(self).remaining().len() == 0,
            old(self).remaining().len() > 0 ==> (res matches Some(o) && o@ == old(
                self,
            ).remaining()[0] && final(self).remaining() == old(self).remaining().drop_first()),
    {
        let ghost start = self.offset as int;
        let input = self.input;
        let mut offset = self.offset;
        while offset < input.len() && input[offset] != '{'
            invariant
                start <= offset <= input@.len() || offset == start,
                start == self.offset,
                input == self.input,
                next_brace(input@, start) == next_brace(input@, offset as int),
            decreases input.len() - offset,
        {
            offset += 1;
        }
        if offset >= input.len() {
            return None;
        }
        proof {
            lemma_matching_json_after(input@, offset as int);
        }
        let end = match find_matching_json(input, offset, '{', '}') {
            Some(e) => e,
            None => {
                return None;
            },
        };
        self.offset = end + 1;
        proof {
            let objs = json_objects_from(input@, start);
            assert(objs == seq![input@.subrange(offset as int, end + 1)] + json_objects_from(input@, end + 1));
            assert(objs.drop_first() == json_objects_from(input@, end + 1));
        }
        Some(&input[offset..end + 1])
    }
}

} // verus!

verus! {

// ---------------------------------------------------------------------------
// `\u` escapes.

proof fn lemma_hex4_bound(h: Seq<char>)
    requires
        h.len() == 4,
        all_hex(h),
    ensures
        hex_digits_value(h) <= 0xFFFF,
{
    let v0 = crate::numbers::hex_value(h[0]);
    let v1 = crate::numbers::hex_value(h[1]);
    let v2 = crate::numbers::hex_value(h[2]);
    let v3 = crate::numbers::hex_value(h[3]);
    assert(crate::numbers::is_hex_digit(h[0]) && crate::numbers::is_hex_digit(h[1])
        && crate::numbers::is_hex_digit(h[2]) && crate::numbers::is_hex_digit(h[3]));
    assert(0 <= v0 < 16 && 0 <= v1 < 16 && 0 <= v2 < 16 && 0 <= v3 < 16);
    let h3 = h.drop_last();
    let h2 = h3.drop_last();
    let h1 = h2.drop_last();
    let h0 = h1.drop_last();
    assert(h0.len() == 0);
    assert(hex_digits_value(h0) == 0);
    assert(h1.last() == h[0] && h2.last() == h[1] && h3.last() == h[2] && h.last() == h[3]);
    assert(hex_digits_value(h1) == v0);
    assert(hex_digits_value(h2) == v0 * 16 + v1);
    assert(hex_digits_value(h3) == (v0 * 16 + v1) * 16 + v2);
    assert(hex_digits_value(h) == ((v0 * 16 + v1) * 16 + v2) * 16 + v3);
    assert(((v0 * 16 + v1) * 16 + v2) * 16 + v3 <= 0xFFFF) by (nonlinear_arith)
        requires
            0 <= v0 < 16,
            0 <= v1 < 16,
            0 <= v2 < 16,
            0 <= v3 < 16,
    ;
}

/// A `\u` escape of four hex digits that name a character (not a
/// surrogate) reads as that character, whatever follows it.
pub proof fn lemma_unicode_escape_decodes(h: Seq<char>, rest: Seq<char>)
    requires
        h.len() == 4,
        all_hex(h),
        !(0xD800 <= hex_digits_value(h) <= 0xDFFF),
    ensures
        json_string_decode(seq!['\\', 'u'] + h + rest) == prepend(
            hex_digits_value(h) as char,
            json_string_decode(rest),
        ),
{
    let s = seq!['\\', 'u'] + h + rest;
    let v = hex_digits_value(h);
    lemma_hex4_bound(h);
    assert(s[0] == '\\' && s[1] == 'u');
    assert(s.skip(2).take(4) =~= h);
    assert(hex4(s.skip(2)) == Some(v));
    assert(s.skip(6) =~= rest);
    assert((v as u32) as int == v);
    assert(char_of(v as u32) == Some((v as u32) as char));
}

} // verus!
