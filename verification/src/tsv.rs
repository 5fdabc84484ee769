use vstd::prelude::*;

use crate::text::{
    lemma_split_run_concat, lemma_split_run_no_sep, lines, push_char, push_str, split_run, str_chars,
    strip_cr,
};

verus! {

/// One YouTube search hit, as exchanged between the search client and its front ends.
#[derive(Clone)]
pub struct YoutubeSearchResult {
    pub video_id: String,
    pub title: String,
    pub channel: Option<String>,
    pub duration: Option<String>,
    pub thumbnail_url: Option<String>,
}

/// The text of a search hit.
pub struct SearchResultView {
    pub video_id: Seq<char>,
    pub title: Seq<char>,
    pub channel: Option<Seq<char>>,
    pub duration: Option<Seq<char>>,
    pub thumbnail_url: Option<Seq<char>>,
}

pub open spec fn opt_string_view(o: Option<String>) -> Option<Seq<char>> {
    match o {
        Some(s) => Some(s@),
        None => None,
    }
}

impl View for YoutubeSearchResult {
    type V = SearchResultView;

    open spec fn view(&self) -> SearchResultView {
        SearchResultView {
            video_id: self.video_id@,
            title: self.title@,
            channel: opt_string_view(self.channel),
            duration: opt_string_view(self.duration),
            thumbnail_url: opt_string_view(self.thumbnail_url),
        }
    }
}

pub open spec fn results_view(rs: Seq<YoutubeSearchResult>) -> Seq<SearchResultView> {
    rs.map_values(|r: YoutubeSearchResult| r@)
}

pub open spec fn watch_url_prefix() -> Seq<char> {
    "https://www.youtube.com/watch?v="@
}

impl YoutubeSearchResult {
    /// The watch page of this video.
    pub fn watch_url(&self) -> (res: String)
        ensures
            res@ == watch_url_prefix() + self.video_id@,
    {
        let mut out = String::new();
        push_str(&mut out, "https://www.youtube.com/watch?v=");
        push_str(&mut out, self.video_id.as_str());
        out
    }
}

/// How one character of a field is written in the TSV form.
pub open spec fn escape_char(c: char) -> Seq<char> {
    if c == '\\' {
        seq!['\\', '\\']
    } else if c == '\t' {
        seq!['\\', 't']
    } else if c == '\n' {
        seq!['\\', 'n']
    } else if c == '\r' {
        seq!['\\', 'r']
    } else {
        seq![c]
    }
}

/// A field as written in the TSV form: each character escaped in turn.
pub open spec fn escape_field(s: Seq<char>) -> Seq<char>
    decreases s.len(),
{
    if s.len() == 0 {
        seq![]
    } else {
        escape_field(s.drop_last()) + escape_char(s.last())
    }
}

pub open spec fn opt_text(o: Option<Seq<char>>) -> Seq<char> {
    match o {
        Some(s) => s,
        None => seq![],
    }
}

/// The line of a search hit, without its terminating newline.
pub open spec fn encode_record_body(r: SearchResultView) -> Seq<char> {
    escape_field(r.video_id) + seq!['\t'] + escape_field(r.title) + seq!['\t'] + escape_field(
        opt_text(r.channel),
    ) + seq!['\t'] + escape_field(opt_text(r.duration)) + seq!['\t'] + escape_field(
        opt_text(r.thumbnail_url),
    )
}

pub open spec fn encode_record(r: SearchResultView) -> Seq<char> {
    encode_record_body(r) + seq!['\n']
}

/// The TSV form of a list of search hits: one line per hit.
pub open spec fn encode_records(rs: Seq<SearchResultView>) -> Seq<char>
    decreases rs.len(),
{
    if rs.len() == 0 {
        seq![]
    } else {
        encode_records(rs.drop_last()) + encode_record(rs.last())
    }
}

/// Appends `value`, escaped, to `out`.
pub fn push_escaped_field(out: &mut String, value: &str)
    ensures
        final(out)@ == old(out)@ + escape_field(value@),
{
    let chars = str_chars(value);
    let ghost start = out@;
    let mut i: usize = 0;
    while i < chars.len()
        invariant
            i <= chars.len(),
            chars@ == value@,
            out@ == start + escape_field(chars@.take(i as int)),
        decreases chars.len() - i,
    {
        let ch = chars[i];
        assert(chars@.take(i + 1).drop_last() == chars@.take(i as int));
        if ch == '\\' {
            push_char(out, '\\');
            push_char(out, '\\');
        } else if ch == '\t' {
            push_char(out, '\\');
            push_char(out, 't');
        } else if ch == '\n' {
            push_char(out, '\\');
            push_char(out, 'n');
        } else if ch == '\r' {
            push_char(out, '\\');
            push_char(out, 'r');
        } else {
            push_char(out, ch);
        }
        i += 1;
    }
    assert(chars@.take(chars.len() as int) == chars@);
}

fn push_optional_field(out: &mut String, value: &Option<String>)
    ensures
        final(out)@ == old(out)@ + escape_field(opt_text(opt_string_view(*value))),
{
    match value {
        Some(v) => push_escaped_field(out, v.as_str()),
        None => {
            assert(escape_field(seq![]) == Seq::<char>::empty());
            assert(out@ + Seq::<char>::empty() == out@);
        },
    }
}

/// The TSV form of `results`, one line per hit.
pub fn encode_search_results_tsv(results: &[YoutubeSearchResult]) -> (res: String)
    ensures
        res@ == encode_records(results_view(results@)),
{
    let mut out = String::new();
    let mut i: usize = 0;
    while i < results.len()
        invariant
            i <= results.len(),
            out@ == encode_records(results_view(results@.take(i as int))),
        decreases results.len() - i,
    {
        let result = &results[i];
        let ghost before = out@;
        push_escaped_field(&mut out, result.video_id.as_str());
        push_char(&mut out, '\t');
        push_escaped_field(&mut out, result.title.as_str());
        push_char(&mut out, '\t');
        push_optional_field(&mut out, &result.channel);
        push_char(&mut out, '\t');
        push_optional_field(&mut out, &result.duration);
        push_char(&mut out, '\t');
        push_optional_field(&mut out, &result.thumbnail_url);
        push_char(&mut out, '\n');
        proof {
            let rs = results_view(results@.take(i + 1));
            assert(rs.drop_last() == results_view(results@.take(i as int)));
            assert(rs.last() == results@[i as int]@);
            assert(out@ == before + encode_record(results@[i as int]@));
        }
        i += 1;
    }
    assert(results@.take(results.len() as int) == results@);
    out
}

// ---------------------------------------------------------------------------
// Reading the TSV form back.

pub open spec fn unescape_char(c: char) -> char {
    if c == 't' {
        '\t'
    } else if c == 'n' {
        '\n'
    } else if c == 'r' {
        '\r'
    } else {
        c
    }
}

/// One character of a TSV line: the finished fields, the field in progress, and
/// whether a backslash is pending.
pub open spec fn field_step(
    st: (Seq<Seq<char>>, Seq<char>, bool),
    c: char,
) -> (Seq<Seq<char>>, Seq<char>, bool) {
    if st.2 {
        (st.0, st.1.push(unescape_char(c)), false)
    } else if c == '\\' {
        (st.0, st.1, true)
    } else if c == '\t' {
        (st.0.push(st.1), seq![], false)
    } else {
        (st.0, st.1.push(c), false)
    }
}

pub open spec fn field_run(
    st: (Seq<Seq<char>>, Seq<char>, bool),
    s: Seq<char>,
) -> (Seq<Seq<char>>, Seq<char>, bool)
    decreases s.len(),
{
    if s.len() == 0 {
        st
    } else {
        field_step(field_run(st, s.drop_last()), s.last())
    }
}

/// The unescaped fields of a TSV line.
pub open spec fn split_fields(line: Seq<char>) -> Seq<Seq<char>> {
    let st = field_run((seq![], seq![], false), line);
    st.0.push(st.1)
}

pub open spec fn non_empty_text(s: Seq<char>) -> Option<Seq<char>> {
    if s.len() == 0 {
        None
    } else {
        Some(s)
    }
}

/// The search hit a TSV line holds, if it holds one.
pub open spec fn parse_line(line: Seq<char>) -> Option<SearchResultView> {
    let f = split_fields(line);
    if f.len() < 5 || f[0].len() == 0 || f[1].len() == 0 {
        None
    } else {
        Some(
            SearchResultView {
                video_id: f[0],
                title: f[1],
                channel: non_empty_text(f[2]),
                duration: non_empty_text(f[3]),
                thumbnail_url: non_empty_text(f[4]),
            },
        )
    }
}

pub open spec fn parse_lines(ls: Seq<Seq<char>>) -> Seq<SearchResultView>
    decreases ls.len(),
{
    if ls.len() == 0 {
        seq![]
    } else {
        let prev = parse_lines(ls.drop_last());
        match parse_line(ls.last()) {
            Some(r) => prev.push(r),
            None => prev,
        }
    }
}

/// The search hits of a TSV text: one per line that holds one.
pub open spec fn parse_tsv(text: Seq<char>) -> Seq<SearchResultView> {
    parse_lines(lines(text))
}

pub open spec fn strings_view(v: Seq<String>) -> Seq<Seq<char>> {
    v.map_values(|s: String| s@)
}

fn split_escaped_tsv_chars(line: &[char]) -> (res: Vec<String>)
    ensures
        strings_view(res@) == split_fields(line@),
{
    let mut fields: Vec<String> = Vec::new();
    let mut current = String::new();
    let mut escaped = false;
    let mut i: usize = 0;
    while i < line.len()
        invariant
            i <= line.len(),
            (strings_view(fields@), current@, escaped) == field_run(
                (seq![], seq![], false),
                line@.take(i as int),
            ),
        decreases line.len() - i,
    {
        let ch = line[i];
        assert(line@.take(i + 1).drop_last() == line@.take(i as int));
        if escaped {
            if ch == 't' {
                push_char(&mut current, '\t');
            } else if ch == 'n' {
                push_char(&mut current, '\n');
            } else if ch == 'r' {
                push_char(&mut current, '\r');
            } else {
                push_char(&mut current, ch);
            }
            escaped = false;
        } else if ch == '\\' {
            escaped = true;
        } else if ch == '\t' {
            let ghost fv = strings_view(fields@);
            fields.push(current);
            current = String::new();
            assert(strings_view(fields@) == fv.push(fields@.last()@));
        } else {
            push_char(&mut current, ch);
        }
        i += 1;
    }
    assert(line@.take(line.len() as int) == line@);
    let ghost fv = strings_view(fields@);
    fields.push(current);
    assert(strings_view(fields@) == fv.push(fields@.last()@));
    fields
}

/// `Some(value)` unless `value` is empty.
pub fn non_empty(value: String) -> (res: Option<String>)
    ensures
        opt_string_view(res) == non_empty_text(value@),
{
    if string_is_empty(&value) {
        None
    } else {
        Some(value)
    }
}

fn clone_string(s: &String) -> (res: String)
    ensures
        res@ == s@,
{
    s.clone()
}

fn parse_search_result_tsv_chars(line: &[char]) -> (res: Option<YoutubeSearchResult>)
    ensures
        match res {
            Some(r) => parse_line(line@) == Some(r@),
            None => parse_line(line@) is None,
        },
{
    let fields = split_escaped_tsv_chars(line);
    proof {
        assert(forall|k: int| 0 <= k < fields@.len() ==> strings_view(fields@)[k] == #[trigger] fields@[k]@);
    }
    if fields.len() < 5 || string_is_empty(&fields[0]) || string_is_empty(&fields[1]) {
        return None;
    }
    let r = YoutubeSearchResult {
        video_id: clone_string(&fields[0]),
        title: clone_string(&fields[1]),
        channel: non_empty(clone_string(&fields[2])),
        duration: non_empty(clone_string(&fields[3])),
        thumbnail_url: non_empty(clone_string(&fields[4])),
    };
    Some(r)
}

/// The unescaped fields of one TSV line.
pub fn split_escaped_tsv_line(line: &str) -> (res: Vec<String>)
    ensures
        strings_view(res@) == split_fields(line@),
{
    let chars = str_chars(line);
    split_escaped_tsv_chars(chars.as_slice())
}

/// The search hit one TSV line holds, if any.
pub fn parse_search_result_tsv_line(line: &str) -> (res: Option<YoutubeSearchResult>)
    ensures
        match res {
            Some(r) => parse_line(line@) == Some(r@),
            None => parse_line(line@) is None,
        },
{
    let chars = str_chars(line);
    parse_search_result_tsv_chars(chars.as_slice())
}

/// Whether `s` holds no character.
pub fn string_is_empty(s: &String) -> (res: bool)
    ensures
        res == (s@.len() == 0),
{
    s.as_str().is_empty()
}

} // verus!

verus! {

fn push_parsed_line(results: &mut Vec<YoutubeSearchResult>, line: &[char])
    ensures
        results_view(final(results)@) == match parse_line(line@) {
            Some(r) => results_view(old(results)@).push(r),
            None => results_view(old(results)@),
        },
{
    match parse_search_result_tsv_chars(line) {
        Some(r) => {
            let ghost before = results_view(results@);
            results.push(r);
            assert(results_view(results@) =~= before.push(r@));
        },
        None => {},
    }
}

/// The search hits of a TSV text, one per line that holds one.
pub fn parse_search_results_tsv(text: &str) -> (res: Vec<YoutubeSearchResult>)
    ensures
        results_view(res@) == parse_tsv(text@),
{
    let chars = str_chars(text);
    let mut results: Vec<YoutubeSearchResult> = Vec::new();
    let ghost mut done: Seq<Seq<char>> = seq![];
    let mut start: usize = 0;
    let mut i: usize = 0;
    while i < chars.len()
        invariant
            start <= i <= chars.len(),
            chars@ == text@,
            split_run((seq![], seq![]), chars@.take(i as int), '\n') == (
                done,
                chars@.subrange(start as int, i as int),
            ),
            results_view(results@) == parse_lines(done.map_values(|l: Seq<char>| strip_cr(l))),
        decreases chars.len() - i,
    {
        assert(chars@.take(i + 1).drop_last() == chars@.take(i as int));
        if chars[i] == '\n' {
            let piece = &chars[start..i];
            let ghost stripped = strip_cr(piece@);
            if i > start && chars[i - 1] == '\r' {
                let line = &chars[start..i - 1];
                assert(line@ == stripped);
                push_parsed_line(&mut results, line);
            } else {
                assert(piece@ == stripped);
                push_parsed_line(&mut results, piece);
            }
            proof {
                let old_map = done.map_values(|l: Seq<char>| strip_cr(l));
                done = done.push(piece@);
                let new_map = done.map_values(|l: Seq<char>| strip_cr(l));
                assert(new_map =~= old_map.push(stripped));
                assert(new_map.drop_last() == old_map);
            }
            start = i + 1;
        } else {
            assert(chars@.subrange(start as int, i + 1) == chars@.subrange(start as int, i as int).push(chars@[i as int]));
        }
        i += 1;
    }
    assert(chars@.take(chars.len() as int) == chars@);
    if start < chars.len() {
        let rest = &chars[start..chars.len()];
        proof {
            let m = done.map_values(|l: Seq<char>| strip_cr(l));
            assert(m.push(rest@).drop_last() == m);
        }
        push_parsed_line(&mut results, rest);
    }
    results
}

} // verus!

verus! {

// ---------------------------------------------------------------------------
// Writing then reading the TSV form.

/// A search hit that the TSV form carries unchanged: its id and title are
/// not empty, and no optional field is present but empty.
pub open spec fn record_well_formed(r: SearchResultView) -> bool {
    &&& r.video_id.len() > 0
    &&& r.title.len() > 0
    &&& (r.channel matches Some(s) ==> s.len() > 0)
    &&& (r.duration matches Some(s) ==> s.len() > 0)
    &&& (r.thumbnail_url matches Some(s) ==> s.len() > 0)
}

pub open spec fn no_raw_separator(s: Seq<char>) -> bool {
    forall|k: int| 0 <= k < s.len() ==> #[trigger] s[k] != '\n' && s[k] != '\t' && s[k] != '\r'
}

proof fn lemma_escape_has_no_separator(s: Seq<char>)
    ensures
        no_raw_separator(escape_field(s)),
    decreases s.len(),
{
    if s.len() > 0 {
        lemma_escape_has_no_separator(s.drop_last());
        let a = escape_field(s.drop_last());
        let b = escape_char(s.last());
        assert forall|k: int| 0 <= k < (a + b).len() implies #[trigger] (a + b)[k] != '\n' && (a
            + b)[k] != '\t' && (a + b)[k] != '\r' by {
            if k >= a.len() {
                assert((a + b)[k] == b[k - a.len()]);
            } else {
                assert((a + b)[k] == a[k]);
            }
        }
    }
}

pub open spec fn record_bodies(rs: Seq<SearchResultView>) -> Seq<Seq<char>> {
    rs.map_values(|r: SearchResultView| encode_record_body(r))
}

proof fn lemma_body_no_newline(r: SearchResultView)
    ensures
        forall|k: int|
            0 <= k < encode_record_body(r).len() ==> #[trigger] encode_record_body(r)[k] != '\n'
                && encode_record_body(r)[k] != '\r',
        encode_record_body(r).len() > 0,
{
    lemma_escape_has_no_separator(r.video_id);
    lemma_escape_has_no_separator(r.title);
    lemma_escape_has_no_separator(opt_text(r.channel));
    lemma_escape_has_no_separator(opt_text(r.duration));
    lemma_escape_has_no_separator(opt_text(r.thumbnail_url));
    let e1 = escape_field(r.video_id);
    let e2 = escape_field(r.title);
    let e3 = escape_field(opt_text(r.channel));
    let e4 = escape_field(opt_text(r.duration));
    let e5 = escape_field(opt_text(r.thumbnail_url));
    let t = seq!['\t'];
    let body = e1 + t + e2 + t + e3 + t + e4 + t + e5;
    assert(body == encode_record_body(r));
    assert forall|k: int| 0 <= k < body.len() implies #[trigger] body[k] != '\n' && body[k]
        != '\r' by {
        let p1 = e1 + t;
        let p2 = p1 + e2;
        let p3 = p2 + t;
        let p4 = p3 + e3;
        let p5 = p4 + t;
        let p6 = p5 + e4;
        let p7 = p6 + t;
        assert forall|j: int| 0 <= j < p1.len() implies #[trigger] p1[j] != '\n' && p1[j] != '\r' by {
            if j < e1.len() { assert(p1[j] == e1[j]); } else { assert(p1[j] == t[j - e1.len()]); }
        }
        assert forall|j: int| 0 <= j < p2.len() implies #[trigger] p2[j] != '\n' && p2[j] != '\r' by {
            if j < p1.len() { assert(p2[j] == p1[j]); } else { assert(p2[j] == e2[j - p1.len()]); }
        }
        assert forall|j: int| 0 <= j < p3.len() implies #[trigger] p3[j] != '\n' && p3[j] != '\r' by {
            if j < p2.len() { assert(p3[j] == p2[j]); } else { assert(p3[j] == t[j - p2.len()]); }
        }
        assert forall|j: int| 0 <= j < p4.len() implies #[trigger] p4[j] != '\n' && p4[j] != '\r' by {
            if j < p3.len() { assert(p4[j] == p3[j]); } else { assert(p4[j] == e3[j - p3.len()]); }
        }
        assert forall|j: int| 0 <= j < p5.len() implies #[trigger] p5[j] != '\n' && p5[j] != '\r' by {
            if j < p4.len() { assert(p5[j] == p4[j]); } else { assert(p5[j] == t[j - p4.len()]); }
        }
        assert forall|j: int| 0 <= j < p6.len() implies #[trigger] p6[j] != '\n' && p6[j] != '\r' by {
            if j < p5.len() { assert(p6[j] == p5[j]); } else { assert(p6[j] == e4[j - p5.len()]); }
        }
        assert forall|j: int| 0 <= j < p7.len() implies #[trigger] p7[j] != '\n' && p7[j] != '\r' by {
            if j < p6.len() { assert(p7[j] == p6[j]); } else { assert(p7[j] == t[j - p6.len()]); }
        }
        if k < p7.len() { assert(body[k] == p7[k]); } else { assert(body[k] == e5[k - p7.len()]); }
    }
}

proof fn lemma_split_encoded(rs: Seq<SearchResultView>)
    ensures
        split_run((seq![], seq![]), encode_records(rs), '\n') == (record_bodies(rs), Seq::<char>::empty()),
    decreases rs.len(),
{
    if rs.len() == 0 {
        assert(record_bodies(rs) =~= seq![]);
    } else {
        let prev = encode_records(rs.drop_last());
        let body = encode_record_body(rs.last());
        lemma_split_encoded(rs.drop_last());
        lemma_split_run_concat((seq![], seq![]), prev, body + seq!['\n'], '\n');
        lemma_body_no_newline(rs.last());
        lemma_split_run_no_sep((record_bodies(rs.drop_last()), seq![]), body, '\n');
        assert((body + seq!['\n']).drop_last() == body);
        assert(Seq::<char>::empty() + body == body);
        assert(record_bodies(rs) =~= record_bodies(rs.drop_last()).push(body));
    }
}

proof fn lemma_field_run_concat(
    st: (Seq<Seq<char>>, Seq<char>, bool),
    a: Seq<char>,
    b: Seq<char>,
)
    ensures
        field_run(st, a + b) == field_run(field_run(st, a), b),
    decreases b.len(),
{
    if b.len() == 0 {
        assert(a + b == a);
    } else {
        lemma_field_run_concat(st, a, b.drop_last());
        assert((a + b).drop_last() == a + b.drop_last());
        assert((a + b).last() == b.last());
    }
}

proof fn lemma_field_run_one(st: (Seq<Seq<char>>, Seq<char>, bool), a: char)
    ensures
        field_run(st, seq![a]) == field_step(st, a),
{
    assert(seq![a].drop_last() == Seq::<char>::empty());
    assert(field_run(st, Seq::<char>::empty()) == st);
}

proof fn lemma_field_run_two(st: (Seq<Seq<char>>, Seq<char>, bool), a: char, b: char)
    ensures
        field_run(st, seq![a, b]) == field_step(field_step(st, a), b),
{
    assert(seq![a, b].drop_last() == seq![a]);
    lemma_field_run_one(st, a);
}

proof fn lemma_field_run_escaped(f: Seq<Seq<char>>, c: Seq<char>, x: Seq<char>)
    ensures
        field_run((f, c, false), escape_field(x)) == (f, c + x, false),
    decreases x.len(),
{
    if x.len() == 0 {
        assert(c + x == c);
    } else {
        let xp = x.drop_last();
        let l = x.last();
        lemma_field_run_escaped(f, c, xp);
        lemma_field_run_concat((f, c, false), escape_field(xp), escape_char(l));
        let mid = (f, c + xp, false);
        if l == '\\' {
            lemma_field_run_two(mid, '\\', '\\');
        } else if l == '\t' {
            lemma_field_run_two(mid, '\\', 't');
        } else if l == '\n' {
            lemma_field_run_two(mid, '\\', 'n');
        } else if l == '\r' {
            lemma_field_run_two(mid, '\\', 'r');
        } else {
            lemma_field_run_one(mid, l);
        }
        assert((c + xp).push(l) == c + x);
    }
}

proof fn lemma_field_run_field(f: Seq<Seq<char>>, x: Seq<char>)
    ensures
        field_run((f, seq![], false), escape_field(x) + seq!['\t']) == (f.push(x), Seq::<char>::empty(), false),
{
    lemma_field_run_escaped(f, seq![], x);
    lemma_field_run_concat((f, seq![], false), escape_field(x), seq!['\t']);
    assert(Seq::<char>::empty() + x == x);
    lemma_field_run_one((f, x, false), '\t');
}

proof fn lemma_split_body(r: SearchResultView)
    ensures
        split_fields(encode_record_body(r)) == seq![
            r.video_id,
            r.title,
            opt_text(r.channel),
            opt_text(r.duration),
            opt_text(r.thumbnail_url),
        ],
{
    let e1 = escape_field(r.video_id);
    let e2 = escape_field(r.title);
    let e3 = escape_field(opt_text(r.channel));
    let e4 = escape_field(opt_text(r.duration));
    let e5 = escape_field(opt_text(r.thumbnail_url));
    let t = seq!['\t'];
    let init = (Seq::<Seq<char>>::empty(), Seq::<char>::empty(), false);
    let p1 = e1 + t;
    let p2 = p1 + (e2 + t);
    let p3 = p2 + (e3 + t);
    let p4 = p3 + (e4 + t);
    assert(encode_record_body(r) == p4 + e5);
    let f1 = seq![r.video_id];
    let f2 = f1.push(r.title);
    let f3 = f2.push(opt_text(r.channel));
    let f4 = f3.push(opt_text(r.duration));
    lemma_field_run_field(seq![], r.video_id);
    assert(Seq::<Seq<char>>::empty().push(r.video_id) == f1);
    lemma_field_run_concat(init, p1, e2 + t);
    lemma_field_run_field(f1, r.title);
    lemma_field_run_concat(init, p2, e3 + t);
    lemma_field_run_field(f2, opt_text(r.channel));
    lemma_field_run_concat(init, p3, e4 + t);
    lemma_field_run_field(f3, opt_text(r.duration));
    lemma_field_run_concat(init, p4, e5);
    lemma_field_run_escaped(f4, seq![], opt_text(r.thumbnail_url));
    assert(Seq::<char>::empty() + opt_text(r.thumbnail_url) == opt_text(r.thumbnail_url));
    assert(f4.push(opt_text(r.thumbnail_url)) =~= seq![
        r.video_id,
        r.title,
        opt_text(r.channel),
        opt_text(r.duration),
        opt_text(r.thumbnail_url),
    ]);
}

/// What reading a hit back from its TSV line gives: nothing when its id or
/// title is empty, else the hit with each optional field that is present but
/// empty read as absent.
pub open spec fn read_back(r: SearchResultView) -> Option<SearchResultView> {
    if r.video_id.len() == 0 || r.title.len() == 0 {
        None
    } else {
        Some(
            SearchResultView {
                video_id: r.video_id,
                title: r.title,
                channel: non_empty_text(opt_text(r.channel)),
                duration: non_empty_text(opt_text(r.duration)),
                thumbnail_url: non_empty_text(opt_text(r.thumbnail_url)),
            },
        )
    }
}

/// The hits read back from the TSV form of `rs`, in order.
pub open spec fn read_back_all(rs: Seq<SearchResultView>) -> Seq<SearchResultView>
    decreases rs.len(),
{
    if rs.len() == 0 {
        seq![]
    } else {
        let prev = read_back_all(rs.drop_last());
        match read_back(rs.last()) {
            Some(r) => prev.push(r),
            None => prev,
        }
    }
}

proof fn lemma_parse_bodies(rs: Seq<SearchResultView>)
    ensures
        parse_lines(record_bodies(rs)) == read_back_all(rs),
    decreases rs.len(),
{
    if rs.len() > 0 {
        let r = rs.last();
        lemma_parse_bodies(rs.drop_last());
        assert(record_bodies(rs).drop_last() =~= record_bodies(rs.drop_last()));
        lemma_split_body(r);
        assert(parse_line(encode_record_body(r)) == read_back(r));
    }
}

proof fn lemma_read_back_well_formed(rs: Seq<SearchResultView>)
    requires
        forall|i: int| 0 <= i < rs.len() ==> record_well_formed(#[trigger] rs[i]),
    ensures
        read_back_all(rs) == rs,
    decreases rs.len(),
{
    if rs.len() == 0 {
        assert(rs =~= seq![]);
    } else {
        let r = rs.last();
        assert(record_well_formed(rs[rs.len() - 1]));
        assert forall|i: int| 0 <= i < rs.drop_last().len() implies record_well_formed(
            #[trigger] rs.drop_last()[i],
        ) by {
            assert(record_well_formed(rs[i]));
        }
        lemma_read_back_well_formed(rs.drop_last());
        assert(non_empty_text(opt_text(r.channel)) == r.channel);
        assert(non_empty_text(opt_text(r.duration)) == r.duration);
        assert(non_empty_text(opt_text(r.thumbnail_url)) == r.thumbnail_url);
        assert(read_back(r) == Some(r));
        assert(rs.drop_last().push(r) =~= rs);
    }
}

/// Reading back the TSV form of any list of search hits gives, in order,
/// the hits whose id and title are not empty, each optional field that is
/// present but empty read back as absent.
pub proof fn lemma_tsv_read_back(rs: Seq<SearchResultView>)
    ensures
        parse_tsv(encode_records(rs)) == read_back_all(rs),
{
    lemma_split_encoded(rs);
    let bodies = record_bodies(rs);
    assert forall|i: int| 0 <= i < bodies.len() implies strip_cr(#[trigger] bodies[i]) == bodies[i] by {
        lemma_body_no_newline(rs[i]);
        let b = bodies[i];
        assert(b[b.len() - 1] != '\r');
    }
    assert(bodies.map_values(|l: Seq<char>| strip_cr(l)) =~= bodies);
    lemma_parse_bodies(rs);
}

/// Reading back the TSV form of search hits gives the same hits, for every
/// list of hits that the form carries unchanged (see `record_well_formed`).
pub proof fn lemma_tsv_roundtrip(rs: Seq<SearchResultView>)
    requires
        forall|i: int| 0 <= i < rs.len() ==> record_well_formed(#[trigger] rs[i]),
    ensures
        parse_tsv(encode_records(rs)) == rs,
{
    lemma_tsv_read_back(rs);
    lemma_read_back_well_formed(rs);
}

proof fn lemma_split_run_prefix(a: Seq<Seq<char>>, s: Seq<char>)
    ensures
        split_run((a, seq![]), s, '\n') == (
            a + split_run((seq![], seq![]), s, '\n').0,
            split_run((seq![], seq![]), s, '\n').1,
        ),
    decreases s.len(),
{
    if s.len() == 0 {
        assert(a + Seq::<Seq<char>>::empty() == a);
    } else {
        lemma_split_run_prefix(a, s.drop_last());
        let p = split_run((seq![], seq![]), s.drop_last(), '\n');
        if s.last() == '\n' {
            assert((a + p.0).push(p.1) == a + p.0.push(p.1));
        }
    }
}

proof fn lemma_parse_lines_concat(x: Seq<Seq<char>>, y: Seq<Seq<char>>)
    ensures
        parse_lines(x + y) == parse_lines(x) + parse_lines(y),
    decreases y.len(),
{
    if y.len() == 0 {
        assert(x + y == x);
        assert(parse_lines(x) + parse_lines(y) == parse_lines(x));
    } else {
        lemma_parse_lines_concat(x, y.drop_last());
        assert((x + y).drop_last() == x + y.drop_last());
        assert((x + y).last() == y.last());
        match parse_line(y.last()) {
            Some(r) => {
                assert((parse_lines(x) + parse_lines(y.drop_last())).push(r) == parse_lines(x)
                    + parse_lines(y.drop_last()).push(r));
            },
            None => {},
        }
    }
}

/// Reading the TSV of two texts joined, the first empty or ending in a
/// newline, gives the hits of the first followed by those of the second.
pub proof fn lemma_parse_tsv_concat(s1: Seq<char>, s2: Seq<char>)
    requires
        s1.len() == 0 || s1.last() == '\n',
    ensures
        parse_tsv(s1 + s2) == parse_tsv(s1) + parse_tsv(s2),
{
    let init = (Seq::<Seq<char>>::empty(), Seq::<char>::empty());
    lemma_split_run_concat(init, s1, s2, '\n');
    let p1 = split_run(init, s1, '\n');
    assert(p1.1.len() == 0);
    assert(p1 == (p1.0, Seq::<char>::empty()));
    lemma_split_run_prefix(p1.0, s2);
    let p2 = split_run(init, s2, '\n');
    assert(split_run(init, s1 + s2, '\n') == (p1.0 + p2.0, p2.1));
    assert(lines(s1) =~= p1.0.map_values(|l: Seq<char>| strip_cr(l)));
    assert(lines(s1 + s2) =~= lines(s1) + lines(s2));
    lemma_parse_lines_concat(lines(s1), lines(s2));
}

/// The escaped fields `fs` joined by tabs: one TSV line.
pub open spec fn join_escaped(fs: Seq<Seq<char>>) -> Seq<char>
    decreases fs.len(),
{
    if fs.len() <= 1 {
        if fs.len() == 1 {
            escape_field(fs[0])
        } else {
            seq![]
        }
    } else {
        join_escaped(fs.drop_last()) + seq!['\t'] + escape_field(fs.last())
    }
}

proof fn lemma_field_run_joined(fs: Seq<Seq<char>>)
    requires
        fs.len() >= 1,
    ensures
        field_run((seq![], seq![], false), join_escaped(fs)) == (fs.drop_last(), fs.last(), false),
    decreases fs.len(),
{
    let init = (Seq::<Seq<char>>::empty(), Seq::<char>::empty(), false);
    if fs.len() == 1 {
        lemma_field_run_escaped(seq![], seq![], fs[0]);
        assert(Seq::<char>::empty() + fs[0] == fs[0]);
        assert(fs.drop_last() =~= Seq::<Seq<char>>::empty());
    } else {
        let prev = fs.drop_last();
        lemma_field_run_joined(prev);
        let j = join_escaped(prev);
        lemma_field_run_concat(init, j + seq!['\t'], escape_field(fs.last()));
        lemma_field_run_concat(init, j, seq!['\t']);
        lemma_field_run_one((prev.drop_last(), prev.last(), false), '\t');
        assert(prev.drop_last().push(prev.last()) =~= prev);
        lemma_field_run_escaped(prev, seq![], fs.last());
        assert(Seq::<char>::empty() + fs.last() == fs.last());
    }
}

/// Splitting a line of escaped fields joined by tabs gives the fields back.
pub proof fn lemma_split_joined_fields(fs: Seq<Seq<char>>)
    requires
        fs.len() >= 1,
    ensures
        split_fields(join_escaped(fs)) == fs,
{
    lemma_field_run_joined(fs);
    assert(fs.drop_last().push(fs.last()) =~= fs);
}

} // verus!
