use vstd::prelude::*;

verus! {

/// std's `String::push`: appends `ch` to `out`. Claimed: the text of `out`
/// afterwards is its text before with `ch` added at the end.
#[verifier::external_body]
pub(crate) fn push_char(out: &mut String, ch: char)
    ensures
        final(out)@ == old(out)@.push(ch),
{
    out.push(ch);
}

/// The characters of `s`, in order.
pub fn str_chars(s: &str) -> (res: Vec<char>)
    ensures
        res@ == s@,
{
    let mut res: Vec<char> = Vec::new();
    for ch in it: s.chars()
        invariant
            res@ == it.seq().take(it.index() as int),
    {
        res.push(ch);
    }
    res
}

/// Appends every character of `chars` to `out`.
pub fn push_chars(out: &mut String, chars: &[char])
    ensures
        final(out)@ == old(out)@ + chars@,
{
    let ghost start = out@;
    let mut i: usize = 0;
    while i < chars.len()
        invariant
            i <= chars.len(),
            out@ == start + chars@.take(i as int),
        decreases chars.len() - i,
    {
        push_char(out, chars[i]);
        i += 1;
        assert(chars@.take(i as int) == chars@.take(i - 1).push(chars@[i - 1]));
    }
    assert(chars@.take(chars.len() as int) == chars@);
}

/// Appends the text of `s` to `out`.
pub fn push_str(out: &mut String, s: &str)
    ensures
        final(out)@ == old(out)@ + s@,
{
    let chars = str_chars(s);
    push_chars(out, chars.as_slice());
}

/// A `String` holding exactly `chars`.
pub fn chars_to_string(chars: &[char]) -> (res: String)
    ensures
        res@ == chars@,
{
    let mut out = String::new();
    push_chars(&mut out, chars);
    out
}

/// `p` occurs in `s` at index `i`.
pub open spec fn matches_at<T>(s: Seq<T>, p: Seq<T>, i: int) -> bool {
    0 <= i && i + p.len() <= s.len() && s.subrange(i, i + p.len()) == p
}

/// The first index at or after `start` where `p` occurs in `s`.
pub open spec fn find_from<T>(s: Seq<T>, p: Seq<T>, start: int) -> Option<int>
    decreases s.len() + 1 - start,
{
    if start < 0 || start + p.len() > s.len() {
        None
    } else if matches_at(s, p, start) {
        Some(start)
    } else {
        find_from(s, p, start + 1)
    }
}

/// The first index where `p` occurs in `s`.
pub open spec fn find<T>(s: Seq<T>, p: Seq<T>) -> Option<int> {
    find_from(s, p, 0)
}

pub open spec fn contains<T>(s: Seq<T>, p: Seq<T>) -> bool {
    find(s, p) is Some
}

pub open spec fn starts_with<T>(s: Seq<T>, p: Seq<T>) -> bool {
    matches_at(s, p, 0)
}

pub open spec fn opt_index(o: Option<usize>) -> Option<int> {
    match o {
        Some(i) => Some(i as int),
        None => None,
    }
}

/// Whether `p` occurs in `s` at index `i`.
pub fn chars_match_at(s: &[char], p: &[char], i: usize) -> (res: bool)
    ensures
        res == matches_at(s@, p@, i as int),
{
    if i > s.len() || p.len() > s.len() - i {
        return false;
    }
    let mut k: usize = 0;
    while k < p.len()
        invariant
            i + p.len() <= s.len(),
            k <= p.len(),
            forall|j: int| 0 <= j < k ==> s@[i + j] == p@[j],
        decreases p.len() - k,
    {
        if s[i + k] != p[k] {
            assert(s@.subrange(i as int, i + p.len())[k as int] != p@[k as int]);
            return false;
        }
        k += 1;
    }
    assert(s@.subrange(i as int, i + p.len()) =~= p@);
    true
}

/// A match that `find_from` reports is a match, at or after `start`.
pub proof fn lemma_find_from_found<T>(s: Seq<T>, p: Seq<T>, start: int)
    ensures
        find_from(s, p, start) matches Some(i) ==> start <= i && matches_at(s, p, i),
    decreases s.len() + 1 - start,
{
    if !(start < 0 || start + p.len() > s.len()) && !matches_at(s, p, start) {
        lemma_find_from_found(s, p, start + 1);
    }
}

/// The first index at or after `start` where `p` occurs in `s`.
pub fn find_chars_from(s: &[char], p: &[char], start: usize) -> (res: Option<usize>)
    ensures
        opt_index(res) == find_from(s@, p@, start as int),
        res matches Some(i) ==> start <= i && i + p@.len() <= s@.len(),
{
    proof {
        lemma_find_from_found(s@, p@, start as int);
    }
    let mut i = start;
    while i <= s.len() && p.len() <= s.len() - i
        invariant
            start <= i,
            find_from(s@, p@, start as int) == find_from(s@, p@, i as int),
        decreases s.len() + 1 - i,
    {
        if chars_match_at(s, p, i) {
            return Some(i);
        }
        if i == s.len() {
            assert(find_from(s@, p@, i + 1) is None);
            return None;
        }
        i += 1;
    }
    None
}

/// The first index where `p` occurs in `s`.
pub fn find_chars(s: &[char], p: &[char]) -> (res: Option<usize>)
    ensures
        opt_index(res) == find(s@, p@),
        res matches Some(i) ==> i + p@.len() <= s@.len(),
{
    find_chars_from(s, p, 0)
}

/// Whether `p` occurs in `s`.
pub fn contains_chars(s: &[char], p: &[char]) -> (res: bool)
    ensures
        res == contains(s@, p@),
{
    find_chars(s, p).is_some()
}

/// Whether `s` starts with `p`.
pub fn starts_with_chars(s: &[char], p: &[char]) -> (res: bool)
    ensures
        res == starts_with(s@, p@),
{
    chars_match_at(s, p, 0)
}

/// Whether the text of `s` contains the text of `p`.
pub fn str_contains(s: &str, p: &str) -> (res: bool)
    ensures
        res == contains(s@, p@),
{
    let sc = str_chars(s);
    let pc = str_chars(p);
    contains_chars(sc.as_slice(), pc.as_slice())
}

/// Splitting a text at each `sep`: the finished pieces and the piece in progress.
pub open spec fn split_run<T>(
    state: (Seq<Seq<T>>, Seq<T>),
    s: Seq<T>,
    sep: T,
) -> (Seq<Seq<T>>, Seq<T>)
    decreases s.len(),
{
    if s.len() == 0 {
        state
    } else {
        let prev = split_run(state, s.drop_last(), sep);
        if s.last() == sep {
            (prev.0.push(prev.1), seq![])
        } else {
            (prev.0, prev.1.push(s.last()))
        }
    }
}

/// `s` split at every `sep` (std's `str::split` with a single character).
pub open spec fn split_char<T>(s: Seq<T>, sep: T) -> Seq<Seq<T>> {
    let st = split_run((seq![], seq![]), s, sep);
    st.0.push(st.1)
}

/// A line without the carriage return that preceded its newline.
pub open spec fn strip_cr(line: Seq<char>) -> Seq<char> {
    if line.len() > 0 && line.last() == '\r' {
        line.drop_last()
    } else {
        line
    }
}

/// The lines of a text (std's `str::lines`): split at `\n`, a `\r` before a
/// `\n` dropped, and no empty last line after a final newline.
pub open spec fn lines(text: Seq<char>) -> Seq<Seq<char>> {
    let st = split_run((seq![], seq![]), text, '\n');
    let done = st.0.map_values(|l: Seq<char>| strip_cr(l));
    if st.1.len() == 0 {
        done
    } else {
        done.push(st.1)
    }
}

/// Splitting `a` and then going on with `b` is splitting `a + b`.
pub proof fn lemma_split_run_concat(
    st: (Seq<Seq<char>>, Seq<char>),
    a: Seq<char>,
    b: Seq<char>,
    sep: char,
)
    ensures
        split_run(st, a + b, sep) == split_run(split_run(st, a, sep), b, sep),
    decreases b.len(),
{
    if b.len() == 0 {
        assert(a + b == a);
    } else {
        lemma_split_run_concat(st, a, b.drop_last(), sep);
        assert((a + b).drop_last() == a + b.drop_last());
        assert((a + b).last() == b.last());
    }
}

/// Splitting a text without the separator only grows the current piece.
pub proof fn lemma_split_run_no_sep(st: (Seq<Seq<char>>, Seq<char>), s: Seq<char>, sep: char)
    requires
        forall|k: int| 0 <= k < s.len() ==> #[trigger] s[k] != sep,
    ensures
        split_run(st, s, sep) == (st.0, st.1 + s),
    decreases s.len(),
{
    if s.len() == 0 {
        assert(st.1 + s == st.1);
    } else {
        lemma_split_run_no_sep(st, s.drop_last(), sep);
        assert(s.last() == s[s.len() - 1]);
        assert((st.1 + s.drop_last()).push(s.last()) == st.1 + s);
    }
}

pub open spec fn vecs_view(v: Seq<Vec<char>>) -> Seq<Seq<char>> {
    v.map_values(|x: Vec<char>| x@)
}

fn slice_to_vec(s: &[char]) -> (res: Vec<char>)
    ensures
        res@ == s@,
{
    let mut out: Vec<char> = Vec::new();
    let mut i: usize = 0;
    while i < s.len()
        invariant
            i <= s.len(),
            out@ == s@.take(i as int),
        decreases s.len() - i,
    {
        out.push(s[i]);
        i += 1;
        assert(out@ == s@.take(i as int));
    }
    assert(s@.take(s.len() as int) == s@);
    out
}

fn push_vec(v: &mut Vec<Vec<char>>, x: Vec<char>)
    ensures
        vecs_view(final(v)@) == vecs_view(old(v)@).push(x@),
{
    let ghost before = vecs_view(v@);
    v.push(x);
    assert(vecs_view(v@) =~= before.push(x@));
}

/// `s` split at every `sep` (std's `str::split` with one character).
pub fn split_chars(s: &[char], sep: char) -> (res: Vec<Vec<char>>)
    ensures
        vecs_view(res@) == split_char(s@, sep),
{
    let mut done: Vec<Vec<char>> = Vec::new();
    let mut start: usize = 0;
    let mut i: usize = 0;
    while i < s.len()
        invariant
            start <= i <= s.len(),
            split_run((seq![], seq![]), s@.take(i as int), sep) == (
                vecs_view(done@),
                s@.subrange(start as int, i as int),
            ),
        decreases s.len() - i,
    {
        assert(s@.take(i + 1).drop_last() == s@.take(i as int));
        if s[i] == sep {
            let piece = slice_to_vec(&s[start..i]);
            push_vec(&mut done, piece);
            start = i + 1;
        } else {
            assert(s@.subrange(start as int, i + 1) == s@.subrange(start as int, i as int).push(s@[i as int]));
        }
        i += 1;
    }
    assert(s@.take(s.len() as int) == s@);
    let last = slice_to_vec(&s[start..s.len()]);
    push_vec(&mut done, last);
    done
}

/// The lines of `text` (std's `str::lines`).
pub fn lines_chars(text: &[char]) -> (res: Vec<Vec<char>>)
    ensures
        vecs_view(res@) == lines(text@),
{
    let mut out: Vec<Vec<char>> = Vec::new();
    let ghost mut done: Seq<Seq<char>> = seq![];
    let mut start: usize = 0;
    let mut i: usize = 0;
    while i < text.len()
        invariant
            start <= i <= text.len(),
            split_run((seq![], seq![]), text@.take(i as int), '\n') == (
                done,
                text@.subrange(start as int, i as int),
            ),
            vecs_view(out@) == done.map_values(|l: Seq<char>| strip_cr(l)),
        decreases text.len() - i,
    {
        assert(text@.take(i + 1).drop_last() == text@.take(i as int));
        if text[i] == '\n' {
            let piece = &text[start..i];
            let ghost stripped = strip_cr(piece@);
            if i > start && text[i - 1] == '\r' {
                let line = slice_to_vec(&text[start..i - 1]);
                assert(line@ == stripped);
                push_vec(&mut out, line);
            } else {
                let line = slice_to_vec(piece);
                assert(line@ == stripped);
                push_vec(&mut out, line);
            }
            proof {
                let old_map = done.map_values(|l: Seq<char>| strip_cr(l));
                done = done.push(piece@);
                assert(done.map_values(|l: Seq<char>| strip_cr(l)) =~= old_map.push(stripped));
            }
            start = i + 1;
        } else {
            assert(text@.subrange(start as int, i + 1) == text@.subrange(start as int, i as int).push(
                text@[i as int],
            ));
        }
        i += 1;
    }
    assert(text@.take(text.len() as int) == text@);
    if start < text.len() {
        let rest = slice_to_vec(&text[start..text.len()]);
        push_vec(&mut out, rest);
    }
    out
}

/// Unicode white space (std's `char::is_whitespace`).
pub open spec fn is_whitespace(c: char) -> bool {
    let v = c as int;
    (0x09 <= v <= 0x0d) || v == 0x20 || v == 0x85 || v == 0xa0 || v == 0x1680 || (0x2000 <= v
        <= 0x200a) || v == 0x2028 || v == 0x2029 || v == 0x202f || v == 0x205f || v == 0x3000
}

/// Whether `c` is white space (std's `char::is_whitespace`).
pub fn char_is_whitespace(c: char) -> (res: bool)
    ensures
        res == is_whitespace(c),
{
    let v = c as u32;
    (0x09 <= v && v <= 0x0d) || v == 0x20 || v == 0x85 || v == 0xa0 || v == 0x1680 || (0x2000
        <= v && v <= 0x200a) || v == 0x2028 || v == 0x2029 || v == 0x202f || v == 0x205f || v
        == 0x3000
}

/// ASCII white space (std's `u8::is_ascii_whitespace`): space, tab, line feed,
/// form feed, carriage return.
pub open spec fn is_ascii_whitespace(c: char) -> bool {
    c == ' ' || c == '\t' || c == '\n' || c == '\x0C' || c == '\r'
}

pub open spec fn trim_start(s: Seq<char>) -> Seq<char>
    decreases s.len(),
{
    if s.len() > 0 && is_whitespace(s[0]) {
        trim_start(s.drop_first())
    } else {
        s
    }
}

pub open spec fn trim_end(s: Seq<char>) -> Seq<char>
    decreases s.len(),
{
    if s.len() > 0 && is_whitespace(s.last()) {
        trim_end(s.drop_last())
    } else {
        s
    }
}

/// `s` without leading and trailing white space (std's `str::trim`).
pub open spec fn trim(s: Seq<char>) -> Seq<char> {
    trim_end(trim_start(s))
}

/// The bounds of `s` without its leading and trailing white space.
pub fn trim_bounds(s: &[char]) -> (res: (usize, usize))
    ensures
        res.0 <= res.1 <= s@.len(),
        s@.subrange(res.0 as int, res.1 as int) == trim(s@),
{
    let mut a: usize = 0;
    assert(s@.subrange(0, s@.len() as int) == s@);
    while a < s.len() && char_is_whitespace(s[a])
        invariant
            a <= s.len(),
            trim_start(s@) == trim_start(s@.subrange(a as int, s@.len() as int)),
        decreases s.len() - a,
    {
        assert(s@.subrange(a as int, s@.len() as int).drop_first() == s@.subrange(a + 1, s@.len() as int));
        a += 1;
    }
    assert(trim_start(s@) == s@.subrange(a as int, s@.len() as int));
    let mut b: usize = s.len();
    while b > a && char_is_whitespace(s[b - 1])
        invariant
            a <= b <= s.len(),
            trim_start(s@) == s@.subrange(a as int, s@.len() as int),
            trim(s@) == trim_end(s@.subrange(a as int, b as int)),
        decreases b,
    {
        assert(s@.subrange(a as int, b as int).drop_last() == s@.subrange(a as int, b - 1));
        b -= 1;
    }
    (a, b)
}

/// `s` without leading and trailing white space, as a new vector.
pub fn trim_chars(s: &[char]) -> (res: Vec<char>)
    ensures
        res@ == trim(s@),
{
    let (a, b) = trim_bounds(s);
    slice_to_vec(&s[a..b])
}

/// The white-space separated words of a text (std's `str::split_whitespace`):
/// finished words and the word in progress.
pub open spec fn words_run(s: Seq<char>) -> (Seq<Seq<char>>, Seq<char>)
    decreases s.len(),
{
    if s.len() == 0 {
        (seq![], seq![])
    } else {
        let prev = words_run(s.drop_last());
        if is_whitespace(s.last()) {
            if prev.1.len() > 0 {
                (prev.0.push(prev.1), seq![])
            } else {
                prev
            }
        } else {
            (prev.0, prev.1.push(s.last()))
        }
    }
}

/// The white-space separated words of `s`.
pub open spec fn words(s: Seq<char>) -> Seq<Seq<char>> {
    let st = words_run(s);
    if st.1.len() > 0 {
        st.0.push(st.1)
    } else {
        st.0
    }
}

/// The white-space separated words of `s`.
pub fn split_whitespace(s: &[char]) -> (res: Vec<Vec<char>>)
    ensures
        vecs_view(res@) == words(s@),
{
    let mut done: Vec<Vec<char>> = Vec::new();
    let mut start: usize = 0;
    let mut i: usize = 0;
    while i < s.len()
        invariant
            start <= i <= s.len(),
            words_run(s@.take(i as int)) == (vecs_view(done@), s@.subrange(start as int, i as int)),
        decreases s.len() - i,
    {
        assert(s@.take(i + 1).drop_last() == s@.take(i as int));
        if char_is_whitespace(s[i]) {
            if start < i {
                let w = slice_to_vec(&s[start..i]);
                push_vec(&mut done, w);
            }
            start = i + 1;
        } else {
            assert(s@.subrange(start as int, i + 1) == s@.subrange(start as int, i as int).push(s@[i as int]));
        }
        i += 1;
    }
    assert(s@.take(s.len() as int) == s@);
    if start < s.len() {
        let w = slice_to_vec(&s[start..s.len()]);
        push_vec(&mut done, w);
    }
    done
}

/// `c` with ASCII upper-case letters mapped to lower case.
pub open spec fn ascii_lower(c: char) -> char {
    if ('A' as int) <= (c as int) <= ('Z' as int) {
        ((c as int) + 32) as char
    } else {
        c
    }
}

/// `c` with an ASCII capital letter made small.
pub fn char_to_ascii_lower(c: char) -> (res: char)
    ensures
        res == ascii_lower(c),
{
    if c >= 'A' && c <= 'Z' {
        ((c as u32 + 32) as u8) as char
    } else {
        c
    }
}

/// Whether two texts are equal up to ASCII case (std's `eq_ignore_ascii_case`).
pub open spec fn eq_ignore_ascii_case_spec(a: Seq<char>, b: Seq<char>) -> bool {
    a.len() == b.len() && forall|k: int| 0 <= k < a.len() ==> ascii_lower(#[trigger] a[k]) == ascii_lower(b[k])
}

/// Whether two texts are equal up to ASCII case.
pub fn eq_ignore_ascii_case(left: &[char], right: &[char]) -> (res: bool)
    ensures
        res == eq_ignore_ascii_case_spec(left@, right@),
{
    if left.len() != right.len() {
        return false;
    }
    let mut i: usize = 0;
    while i < left.len()
        invariant
            left.len() == right.len(),
            i <= left.len(),
            forall|k: int| 0 <= k < i ==> ascii_lower(#[trigger] left@[k]) == ascii_lower(right@[k]),
        decreases left.len() - i,
    {
        if char_to_ascii_lower(left[i]) != char_to_ascii_lower(right[i]) {
            return false;
        }
        i += 1;
    }
    true
}

/// `s` with ASCII upper-case letters mapped to lower case.
pub open spec fn to_ascii_lower(s: Seq<char>) -> Seq<char> {
    s.map_values(|c: char| ascii_lower(c))
}

/// The characters of `s` with ASCII capital letters made small.
pub fn chars_to_ascii_lower(s: &[char]) -> (res: Vec<char>)
    ensures
        res@ == to_ascii_lower(s@),
{
    let mut out: Vec<char> = Vec::new();
    let mut i: usize = 0;
    while i < s.len()
        invariant
            i <= s.len(),
            out@ == to_ascii_lower(s@.take(i as int)),
        decreases s.len() - i,
    {
        out.push(char_to_ascii_lower(s[i]));
        i += 1;
        assert(out@ =~= to_ascii_lower(s@.take(i as int)));
    }
    assert(s@.take(s.len() as int) == s@);
    out
}

/// The last index of `c` in `s`.
pub open spec fn rfind_char(s: Seq<char>, c: char) -> Option<int>
    decreases s.len(),
{
    if s.len() == 0 {
        None
    } else if s.last() == c {
        Some(s.len() - 1)
    } else {
        rfind_char(s.drop_last(), c)
    }
}

/// Where `rfind_char` finds a character, it is inside the text.
pub proof fn lemma_rfind_char_bound(s: Seq<char>, c: char)
    ensures
        rfind_char(s, c) matches Some(i) ==> 0 <= i < s.len() && s[i] == c,
    decreases s.len(),
{
    if s.len() > 0 && s.last() != c {
        lemma_rfind_char_bound(s.drop_last(), c);
    }
}

/// The last index of `c` in `s`.
pub fn rfind_char_in(s: &[char], c: char) -> (res: Option<usize>)
    ensures
        opt_index(res) == rfind_char(s@, c),
        res matches Some(i) ==> i < s@.len() && s@[i as int] == c,
{
    let mut i = s.len();
    assert(s@.take(s.len() as int) == s@);
    while i > 0
        invariant
            i <= s.len(),
            rfind_char(s@, c) == rfind_char(s@.take(i as int), c),
        decreases i,
    {
        assert(s@.take(i as int).drop_last() == s@.take(i - 1));
        if s[i - 1] == c {
            return Some(i - 1);
        }
        i -= 1;
    }
    None
}

/// Whether two character runs are equal.
pub fn chars_eq(a: &[char], b: &[char]) -> (res: bool)
    ensures
        res == (a@ == b@),
{
    if a.len() != b.len() {
        return false;
    }
    let r = chars_match_at(a, b, 0);
    proof {
        assert(a@.subrange(0, b@.len() as int) == a@);
    }
    r
}

/// A `String` holding the text of `s`.
pub fn string_from(s: &str) -> (res: String)
    ensures
        res@ == s@,
{
    let mut out = String::new();
    push_str(&mut out, s);
    out
}

/// Whether byte string `p` occurs in `s` at index `i`.
pub fn bytes_match_at(s: &[u8], p: &[u8], i: usize) -> (res: bool)
    ensures
        res == matches_at(s@, p@, i as int),
{
    if i > s.len() || p.len() > s.len() - i {
        return false;
    }
    let mut k: usize = 0;
    while k < p.len()
        invariant
            i + p.len() <= s.len(),
            k <= p.len(),
            forall|j: int| 0 <= j < k ==> s@[i + j] == p@[j],
        decreases p.len() - k,
    {
        if s[i + k] != p[k] {
            assert(s@.subrange(i as int, i + p.len())[k as int] != p@[k as int]);
            return false;
        }
        k += 1;
    }
    assert(s@.subrange(i as int, i + p.len()) =~= p@);
    true
}

/// The first index at or after `start` where the nonempty `needle` occurs in
/// `haystack`.
pub open spec fn find_bytes_from_spec(haystack: Seq<u8>, needle: Seq<u8>, start: int) -> Option<int> {
    if needle.len() == 0 || haystack.len() < needle.len() || start > haystack.len() {
        None
    } else {
        find_from(haystack, needle, start)
    }
}

/// The first index at or after `start` where the nonempty `needle` occurs in
/// `haystack`.
pub fn find_bytes_from(haystack: &[u8], needle: &[u8], start: usize) -> (res: Option<usize>)
    ensures
        opt_index(res) == find_bytes_from_spec(haystack@, needle@, start as int),
        res matches Some(i) ==> start <= i && i + needle@.len() <= haystack@.len(),
{
    proof {
        lemma_find_from_found(haystack@, needle@, start as int);
    }
    if needle.len() == 0 || haystack.len() < needle.len() || start > haystack.len() {
        return None;
    }
    let mut i = start;
    while i <= haystack.len() - needle.len()
        invariant
            start <= i,
            needle.len() > 0,
            needle.len() <= haystack.len(),
            find_from(haystack@, needle@, start as int) == find_from(haystack@, needle@, i as int),
        decreases haystack.len() + 1 - i,
    {
        if bytes_match_at(haystack, needle, i) {
            return Some(i);
        }
        i += 1;
    }
    None
}

/// The first index where the nonempty `needle` occurs in `haystack`.
pub fn find_bytes(haystack: &[u8], needle: &[u8]) -> (res: Option<usize>)
    ensures
        opt_index(res) == find_bytes_from_spec(haystack@, needle@, 0),
        res matches Some(i) ==> i + needle@.len() <= haystack@.len(),
{
    find_bytes_from(haystack, needle, 0)
}

/// The first index of `c` in `s`.
pub open spec fn index_of(s: Seq<char>, c: char) -> Option<int>
    decreases s.len(),
{
    if s.len() == 0 {
        None
    } else if s[0] == c {
        Some(0)
    } else {
        match index_of(s.drop_first(), c) {
            Some(i) => Some(i + 1),
            None => None,
        }
    }
}

/// The first index of `c` in `s`.
pub fn find_char(s: &[char], c: char) -> (res: Option<usize>)
    ensures
        opt_index(res) == index_of(s@, c),
        res matches Some(i) ==> i < s@.len() && s@[i as int] == c,
{
    let mut i: usize = 0;
    assert(s@.skip(0) == s@);
    while i < s.len()
        invariant
            i <= s.len(),
            index_of(s@, c) == match index_of(s@.skip(i as int), c) {
                Some(k) => Some(k + i),
                None => None,
            },
        decreases s.len() - i,
    {
        assert(s@.skip(i as int)[0] == s@[i as int]);
        if s[i] == c {
            return Some(i);
        }
        assert(s@.skip(i as int).drop_first() == s@.skip(i + 1));
        i += 1;
    }
    assert(s@.skip(i as int).len() == 0);
    None
}

/// The text before the first `c` (all of it when there is none).
pub open spec fn before_first(s: Seq<char>, c: char) -> Seq<char> {
    match index_of(s, c) {
        Some(i) => s.take(i),
        None => s,
    }
}

/// The text after the first `c` (nothing when there is none).
pub open spec fn after_first(s: Seq<char>, c: char) -> Seq<char> {
    match index_of(s, c) {
        Some(i) => s.skip(i + 1),
        None => seq![],
    }
}

/// Where `index_of` finds a character, it is inside the text.
pub proof fn lemma_index_of_bound(s: Seq<char>, c: char)
    ensures
        index_of(s, c) matches Some(i) ==> 0 <= i < s.len() && s[i] == c,
    decreases s.len(),
{
    if s.len() > 0 && s[0] != c {
        lemma_index_of_bound(s.drop_first(), c);
    }
}

} // verus!
