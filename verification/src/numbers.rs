use vstd::prelude::*;

use crate::text::{push_char, str_chars};

verus! {

pub open spec fn is_digit(c: char) -> bool {
    ('0' as int) <= (c as int) <= ('9' as int)
}

pub open spec fn digit_value(c: char) -> int {
    c as int - '0' as int
}

pub open spec fn all_digits(s: Seq<char>) -> bool {
    forall|k: int| 0 <= k < s.len() ==> is_digit(#[trigger] s[k])
}

/// The number that a string of decimal digits spells.
pub open spec fn digits_value(s: Seq<char>) -> nat
    decreases s.len(),
{
    if s.len() == 0 {
        0
    } else {
        (digits_value(s.drop_last()) * 10 + digit_value(s.last())) as nat
    }
}

/// The number a text spells in decimal, when it is a nonempty run of digits
/// whose value is at most `max`.
pub open spec fn decimal_value_at_most(s: Seq<char>, max: int) -> Option<nat> {
    if s.len() > 0 && all_digits(s) && digits_value(s) <= max {
        Some(digits_value(s))
    } else {
        None
    }
}

pub open spec fn opt_usize(o: Option<usize>) -> Option<nat> {
    match o {
        Some(v) => Some(v as nat),
        None => None,
    }
}

pub open spec fn opt_u16(o: Option<u16>) -> Option<nat> {
    match o {
        Some(v) => Some(v as nat),
        None => None,
    }
}

pub open spec fn opt_u8(o: Option<u8>) -> Option<nat> {
    match o {
        Some(v) => Some(v as nat),
        None => None,
    }
}

proof fn lemma_digits_value_prefix(s: Seq<char>, i: int)
    requires
        0 <= i <= s.len(),
        all_digits(s),
    ensures
        digits_value(s.take(i)) <= digits_value(s),
    decreases s.len() - i,
{
    if i < s.len() {
        lemma_digits_value_prefix(s, i + 1);
        assert(s.take(i + 1).drop_last() == s.take(i));
        assert(is_digit(s[i]));
    } else {
        assert(s.take(i) == s);
    }
}

/// The decimal number `input` spells (digits only, no sign, no space).
pub fn parse_usize_chars(input: &[char]) -> (res: Option<usize>)
    ensures
        opt_usize(res) == decimal_value_at_most(input@, usize::MAX as int),
{
    if input.len() == 0 {
        return None;
    }
    let mut value: usize = 0;
    let mut i: usize = 0;
    while i < input.len()
        invariant
            i <= input.len(),
            input.len() > 0,
            all_digits(input@.take(i as int)),
            value == digits_value(input@.take(i as int)),
        decreases input.len() - i,
    {
        let ch = input[i];
        if !(ch >= '0' && ch <= '9') {
            return None;
        }
        assert(input@.take(i + 1).drop_last() == input@.take(i as int));
        let d = (ch as u32 - '0' as u32) as usize;
        assert(d as int == digit_value(ch));
        let next = match value.checked_mul(10) {
            Some(m) => m.checked_add(d),
            None => None,
        };
        match next {
            Some(n) => {
                value = n;
            },
            None => {
                proof {
                    if all_digits(input@) {
                        lemma_digits_value_prefix(input@, i + 1);
                    }
                }
                return None;
            },
        }
        i += 1;
    }
    assert(input@.take(input.len() as int) == input@);
    Some(value)
}

/// The decimal number `input` spells, if it fits in a `usize`.
pub fn parse_usize(input: &str) -> (res: Option<usize>)
    ensures
        opt_usize(res) == decimal_value_at_most(input@, usize::MAX as int),
{
    let chars = str_chars(input);
    parse_usize_chars(chars.as_slice())
}

/// The decimal number `input` spells, if it fits in a `u16`.
pub fn parse_u16_chars(input: &[char]) -> (res: Option<u16>)
    ensures
        opt_u16(res) == decimal_value_at_most(input@, u16::MAX as int),
{
    match parse_usize_chars(input) {
        Some(v) => if v <= 65535 {
            Some(v as u16)
        } else {
            None
        },
        None => None,
    }
}

/// The decimal number `input` spells, if it fits in a `u16`.
pub fn parse_u16(input: &str) -> (res: Option<u16>)
    ensures
        opt_u16(res) == decimal_value_at_most(input@, u16::MAX as int),
{
    let chars = str_chars(input);
    parse_u16_chars(chars.as_slice())
}

/// The decimal number `input` spells, if it fits in a `u8`.
pub fn parse_u8_chars(input: &[char]) -> (res: Option<u8>)
    ensures
        opt_u8(res) == decimal_value_at_most(input@, u8::MAX as int),
{
    match parse_usize_chars(input) {
        Some(v) => if v <= 255 {
            Some(v as u8)
        } else {
            None
        },
        None => None,
    }
}

/// The decimal number `input` spells, if it fits in a `u8`.
pub fn parse_u8(input: &str) -> (res: Option<u8>)
    ensures
        opt_u8(res) == decimal_value_at_most(input@, u8::MAX as int),
{
    let chars = str_chars(input);
    parse_u8_chars(chars.as_slice())
}

// ---------------------------------------------------------------------------
// Hexadecimal.

pub open spec fn is_hex_digit(c: char) -> bool {
    is_digit(c) || (('a' as int) <= (c as int) <= ('f' as int)) || (('A' as int) <= (c as int) <= ('F'
        as int))
}

pub open spec fn hex_value(c: char) -> int {
    if is_digit(c) {
        c as int - '0' as int
    } else if ('a' as int) <= (c as int) <= ('f' as int) {
        c as int - 'a' as int + 10
    } else {
        c as int - 'A' as int + 10
    }
}

pub open spec fn all_hex(s: Seq<char>) -> bool {
    forall|k: int| 0 <= k < s.len() ==> is_hex_digit(#[trigger] s[k])
}

/// The number that a string of hexadecimal digits spells.
pub open spec fn hex_digits_value(s: Seq<char>) -> nat
    decreases s.len(),
{
    if s.len() == 0 {
        0
    } else {
        (hex_digits_value(s.drop_last()) * 16 + hex_value(s.last())) as nat
    }
}

/// The number a text spells in hexadecimal, when it is a nonempty run of hex
/// digits whose value is at most `max`.
pub open spec fn hex_value_at_most(s: Seq<char>, max: int) -> Option<nat> {
    if s.len() > 0 && all_hex(s) && hex_digits_value(s) <= max {
        Some(hex_digits_value(s))
    } else {
        None
    }
}

proof fn lemma_hex_value_prefix(s: Seq<char>, i: int)
    requires
        0 <= i <= s.len(),
        all_hex(s),
    ensures
        hex_digits_value(s.take(i)) <= hex_digits_value(s),
    decreases s.len() - i,
{
    if i < s.len() {
        lemma_hex_value_prefix(s, i + 1);
        assert(s.take(i + 1).drop_last() == s.take(i));
        assert(is_hex_digit(s[i]));
    } else {
        assert(s.take(i) == s);
    }
}

/// The value of one hexadecimal digit.
pub fn hex_char_value(c: char) -> (res: Option<u32>)
    ensures
        match res {
            Some(v) => is_hex_digit(c) && v == hex_value(c),
            None => !is_hex_digit(c),
        },
{
    if c >= '0' && c <= '9' {
        Some(c as u32 - '0' as u32)
    } else if c >= 'a' && c <= 'f' {
        Some(c as u32 - 'a' as u32 + 10)
    } else if c >= 'A' && c <= 'F' {
        Some(c as u32 - 'A' as u32 + 10)
    } else {
        None
    }
}

/// The hexadecimal number `input` spells, if it fits in a `usize`.
pub fn parse_hex_usize_chars(input: &[char]) -> (res: Option<usize>)
    ensures
        opt_usize(res) == hex_value_at_most(input@, usize::MAX as int),
{
    if input.len() == 0 {
        return None;
    }
    let mut value: usize = 0;
    let mut i: usize = 0;
    while i < input.len()
        invariant
            i <= input.len(),
            input.len() > 0,
            all_hex(input@.take(i as int)),
            value == hex_digits_value(input@.take(i as int)),
        decreases input.len() - i,
    {
        let d = match hex_char_value(input[i]) {
            Some(d) => d as usize,
            None => {
                return None;
            },
        };
        assert(input@.take(i + 1).drop_last() == input@.take(i as int));
        let next = match value.checked_mul(16) {
            Some(m) => m.checked_add(d),
            None => None,
        };
        match next {
            Some(n) => {
                value = n;
            },
            None => {
                proof {
                    if all_hex(input@) {
                        lemma_hex_value_prefix(input@, i + 1);
                    }
                }
                return None;
            },
        }
        i += 1;
    }
    assert(input@.take(input.len() as int) == input@);
    Some(value)
}

/// The hexadecimal number `input` spells, if it fits in a `usize`.
pub fn parse_hex_usize(input: &str) -> (res: Option<usize>)
    ensures
        opt_usize(res) == hex_value_at_most(input@, usize::MAX as int),
{
    let chars = str_chars(input);
    parse_hex_usize_chars(chars.as_slice())
}

/// The number four hexadecimal digits spell.
pub fn parse_hex_u16(input: &[char]) -> (res: Option<u16>)
    ensures
        opt_u16(res) == (if input@.len() == 4 && all_hex(input@) {
            Some(hex_digits_value(input@))
        } else {
            None
        }),
{
    if input.len() != 4 {
        return None;
    }
    match parse_hex_usize_chars(input) {
        Some(v) => {
            proof {
                lemma_four_hex_digits_fit(input@);
            }
            Some(v as u16)
        },
        None => {
            proof {
                lemma_four_hex_digits_fit(input@);
            }
            None
        },
    }
}

pub open spec fn pow16(n: nat) -> nat
    decreases n,
{
    if n == 0 {
        1
    } else {
        16 * pow16((n - 1) as nat)
    }
}

proof fn lemma_hex_digits_bound(s: Seq<char>)
    requires
        all_hex(s),
    ensures
        hex_digits_value(s) < pow16(s.len()),
    decreases s.len(),
{
    if s.len() > 0 {
        lemma_hex_digits_bound(s.drop_last());
        assert(is_hex_digit(s[s.len() - 1]));
        let p = pow16((s.len() - 1) as nat);
        assert(hex_digits_value(s.drop_last()) + 1 <= p);
        assert((hex_digits_value(s.drop_last()) + 1) * 16 <= p * 16) by (nonlinear_arith)
            requires
                hex_digits_value(s.drop_last()) + 1 <= p,
        ;
    }
}

proof fn lemma_four_hex_digits_fit(s: Seq<char>)
    requires
        s.len() == 4,
    ensures
        all_hex(s) ==> hex_digits_value(s) <= 65535,
{
    if all_hex(s) {
        lemma_hex_digits_bound(s);
        reveal_with_fuel(pow16, 5);
    }
}

/// The value of a hexadecimal digit written as an ASCII byte.
pub fn hex_digit(byte: u8) -> (res: Option<u8>)
    ensures
        match res {
            Some(v) => is_hex_digit(byte as char) && v == hex_value(byte as char),
            None => !is_hex_digit(byte as char),
        },
{
    if byte >= 48 && byte <= 57 {
        Some(byte - 48)
    } else if byte >= 97 && byte <= 102 {
        Some(byte - 97 + 10)
    } else if byte >= 65 && byte <= 70 {
        Some(byte - 65 + 10)
    } else {
        None
    }
}

/// The lower-case hexadecimal digit for `value` (a `0` beyond fifteen).
pub open spec fn lower_hex_char(value: u8) -> char {
    if value <= 9 {
        (('0' as int) + value) as char
    } else if value <= 15 {
        (('a' as int) + value - 10) as char
    } else {
        '0'
    }
}

/// The lower-case hexadecimal digit for `value` (a `0` beyond fifteen).
pub fn json_hex_digit(value: u8) -> (res: char)
    ensures
        res == lower_hex_char(value),
{
    if value <= 9 {
        (48u8 + value) as char
    } else if value <= 15 {
        (97u8 + value - 10) as char
    } else {
        '0'
    }
}

/// The big-endian 16-bit number at `offset` in `data`.
pub fn read_u16(data: &[u8], offset: usize) -> (res: Option<u16>)
    ensures
        match res {
            Some(v) => offset + 1 < data@.len() && v == data@[offset as int] * 256 + data@[offset + 1],
            None => offset + 1 >= data@.len(),
        },
{
    if offset >= data.len() || data.len() - offset < 2 {
        return None;
    }
    let hi = data[offset] as u16;
    let lo = data[offset + 1] as u16;
    Some(hi * 256 + lo)
}

// ---------------------------------------------------------------------------
// Writing numbers.

pub open spec fn digit_char(d: nat) -> char {
    (('0' as int) + d) as char
}

/// The decimal digits of `n`, most significant first, without leading zeros.
pub open spec fn decimal(n: nat) -> Seq<char>
    decreases n,
{
    if n < 10 {
        seq![digit_char(n)]
    } else {
        decimal(n / 10).push(digit_char(n % 10))
    }
}

/// Appends the decimal digits of `n` to `out`.
pub fn push_decimal(out: &mut String, n: usize)
    ensures
        final(out)@ == old(out)@ + decimal(n as nat),
    decreases n,
{
    if n >= 10 {
        push_decimal(out, n / 10);
    }
    let d = (n % 10) as u8;
    push_char(out, (48u8 + d) as char);
    proof {
        if n >= 10 {
            assert(old(out)@ + decimal(n as nat) == (old(out)@ + decimal((n / 10) as nat)).push(
                digit_char((n % 10) as nat),
            ));
        }
    }
}

/// Reading back the decimal digits of a number gives the number.
pub proof fn lemma_decimal_roundtrip(n: nat)
    ensures
        decimal(n).len() > 0,
        all_digits(decimal(n)),
        digits_value(decimal(n)) == n,
    decreases n,
{
    if n >= 10 {
        lemma_decimal_roundtrip(n / 10);
        let s = decimal(n);
        assert(s.drop_last() == decimal(n / 10));
        assert(s.last() == digit_char(n % 10));
        assert(digit_value(digit_char(n % 10)) == n % 10);
        assert((n / 10) * 10 + n % 10 == n);
        assert(digits_value(s) == digits_value(decimal(n / 10)) * 10 + n % 10);
        assert forall|k: int| 0 <= k < s.len() implies is_digit(#[trigger] s[k]) by {
            if k < s.len() - 1 {
                assert(s[k] == decimal(n / 10)[k]);
            }
        }
    } else {
        let s = decimal(n);
        assert(s.drop_last() == Seq::<char>::empty());
        assert(digit_value(digit_char(n)) == n);
        assert(digits_value(s) == digits_value(Seq::<char>::empty()) * 10 + n);
    }
}

/// Parsing the decimal digits of a `usize` gives it back.
pub proof fn lemma_parse_decimal(n: usize)
    ensures
        decimal_value_at_most(decimal(n as nat), usize::MAX as int) == Some(n as nat),
{
    lemma_decimal_roundtrip(n as nat);
}

} // verus!
