use vstd::prelude::*;

use crate::numbers::{decimal_value_at_most, parse_u16_chars};
use crate::text::{
    chars_eq, chars_to_ascii_lower, chars_to_string, contains, contains_chars, find, find_char,
    find_chars, index_of, lemma_index_of_bound, push_char, push_chars, push_str, rfind_char,
    rfind_char_in, split_char, split_chars, starts_with, str_chars, string_from, to_ascii_lower,
    vecs_view,
};

verus! {

/// The parts of an absolute URL that the client needs.
#[derive(Clone, Debug)]
pub struct UrlParts {
    pub scheme: String,
    pub host: String,
    pub port: u16,
    pub path: String,
}

/// The text of a URL's parts.
pub struct UrlView {
    pub scheme: Seq<char>,
    pub host: Seq<char>,
    pub port: u16,
    pub path: Seq<char>,
}

impl View for UrlParts {
    type V = UrlView;

    open spec fn view(&self) -> UrlView {
        UrlView { scheme: self.scheme@, host: self.host@, port: self.port, path: self.path@ }
    }
}

pub open spec fn url_result_view(r: Result<UrlParts, String>) -> Result<UrlView, Seq<char>> {
    match r {
        Ok(u) => Ok(u@),
        Err(e) => Err(e@),
    }
}

/// Where the path (or query) of a URL's remainder begins: at the first `/`
/// or `?`, whichever comes first.
pub open spec fn path_start(rest: Seq<char>) -> int {
    match (index_of(rest, '/'), index_of(rest, '?')) {
        (Some(a), Some(b)) => if a <= b {
            a
        } else {
            b
        },
        (Some(a), None) => a,
        (None, Some(b)) => b,
        (None, None) => rest.len() as int,
    }
}

/// The request path of a URL's remainder: from the first `/` or `?` on, a
/// `/` put before a bare query, and `/` when there is neither.
pub open spec fn url_path(rest: Seq<char>) -> Seq<char> {
    let ps = path_start(rest);
    if ps < rest.len() {
        if rest[ps] == '?' {
            seq!['/'] + rest.skip(ps)
        } else {
            rest.skip(ps)
        }
    } else {
        seq!['/']
    }
}

/// The parts of an absolute URL `scheme://host[:port][/path][?query]`, or the
/// error that rejects it. The scheme is lower-cased; without a port, `http`
/// means 80 and `https` 443, and any other scheme is refused.
pub open spec fn parse_url_spec(s: Seq<char>) -> Result<UrlView, Seq<char>> {
    match find(s, "://"@) {
        None => Err("URL must include a scheme"@),
        Some(se) => {
            let scheme = to_ascii_lower(s.take(se));
            let rest = s.skip(se + 3);
            let authority = rest.take(path_start(rest));
            let path = url_path(rest);
            if authority.len() == 0 {
                Err("URL host is empty"@)
            } else {
                match rfind_char(authority, ':') {
                    Some(colon) => match decimal_value_at_most(authority.skip(colon + 1), 65535) {
                        Some(p) => Ok(
                            UrlView { scheme, host: authority.take(colon), port: p as u16, path },
                        ),
                        None => Err("invalid URL port"@),
                    },
                    None => if scheme == "http"@ {
                        Ok(UrlView { scheme, host: authority, port: 80, path })
                    } else if scheme == "https"@ {
                        Ok(UrlView { scheme, host: authority, port: 443, path })
                    } else {
                        Err("unsupported URL scheme: "@ + scheme)
                    },
                }
            }
        },
    }
}

fn path_start_in(rest: &[char]) -> (res: usize)
    ensures
        res == path_start(rest@),
        res <= rest@.len(),
{
    proof {
        lemma_index_of_bound(rest@, '/');
        lemma_index_of_bound(rest@, '?');
    }
    match (find_char(rest, '/'), find_char(rest, '?')) {
        (Some(a), Some(b)) => if a <= b {
            a
        } else {
            b
        },
        (Some(a), None) => a,
        (None, Some(b)) => b,
        (None, None) => rest.len(),
    }
}

/// The parts of the absolute URL `input`.
pub fn parse_url(input: &str) -> (res: Result<UrlParts, String>)
    ensures
        url_result_view(res) == parse_url_spec(input@),
{
    let chars = str_chars(input);
    let sep = str_chars("://");
    proof {
        reveal_strlit("://");
    }
    let _n = chars.len();
    let found = find_chars(chars.as_slice(), sep.as_slice());
    let scheme_end = match found {
        Some(i) => i,
        None => {
            return Err(string_from("URL must include a scheme"));
        },
    };
    assert(sep@.len() == 3);
    assert(found == Some(scheme_end));
    let scheme_chars = chars_to_ascii_lower(&chars.as_slice()[0..scheme_end]);
    assert(chars@.subrange(0, scheme_end as int) == chars@.take(scheme_end as int));
    let rest = &chars.as_slice()[scheme_end + 3..chars.len()];
    assert(rest@ == chars@.skip(scheme_end + 3));
    let ps = path_start_in(rest);
    let authority = &rest[0..ps];
    assert(authority@ == rest@.take(ps as int));
    let mut path = String::new();
    if ps < rest.len() {
        if rest[ps] == '?' {
            push_char(&mut path, '/');
        }
        push_chars(&mut path, &rest[ps..rest.len()]);
        assert(rest@.subrange(ps as int, rest@.len() as int) == rest@.skip(ps as int));
    } else {
        push_char(&mut path, '/');
    }
    assert(path@ == url_path(rest@));
    if authority.len() == 0 {
        return Err(string_from("URL host is empty"));
    }
    let scheme = chars_to_string(scheme_chars.as_slice());
    match rfind_char_in(authority, ':') {
        Some(colon) => {
            let port_chars = &authority[colon + 1..authority.len()];
            assert(port_chars@ == authority@.skip(colon + 1));
            match parse_u16_chars(port_chars) {
                Some(port) => {
                    let host = chars_to_string(&authority[0..colon]);
                    assert(authority@.subrange(0, colon as int) == authority@.take(colon as int));
                    Ok(UrlParts { scheme, host, port, path })
                },
                None => Err(string_from("invalid URL port")),
            }
        },
        None => {
            let http = str_chars("http");
            let https = str_chars("https");
            let host = chars_to_string(authority);
            if chars_eq(scheme_chars.as_slice(), http.as_slice()) {
                Ok(UrlParts { scheme, host, port: 80, path })
            } else if chars_eq(scheme_chars.as_slice(), https.as_slice()) {
                Ok(UrlParts { scheme, host, port: 443, path })
            } else {
                let mut message = string_from("unsupported URL scheme: ");
                push_chars(&mut message, scheme_chars.as_slice());
                Err(message)
            }
        },
    }
}

/// The URL a redirect's `Location` leads to from `base`: an absolute URL as
/// it is, an absolute path on the same server, or a path relative to the
/// directory of `base`'s path.
pub open spec fn resolve_redirect_spec(base: UrlView, location: Seq<char>) -> Result<
    UrlView,
    Seq<char>,
> {
    if contains(location, "://"@) {
        parse_url_spec(location)
    } else if location.len() > 0 && location[0] == '/' {
        Ok(UrlView { path: location, ..base })
    } else {
        let dir = match rfind_char(base.path, '/') {
            Some(i) => base.path.take(i + 1),
            None => base.path,
        };
        Ok(UrlView { path: dir + location, ..base })
    }
}

fn clone_string(s: &String) -> (res: String)
    ensures
        res@ == s@,
{
    s.clone()
}

/// The URL that the redirect `location` leads to from `base`.
pub fn resolve_redirect(base: &UrlParts, location: &str) -> (res: Result<UrlParts, String>)
    ensures
        url_result_view(res) == resolve_redirect_spec(base@, location@),
{
    let loc = str_chars(location);
    let sep = str_chars("://");
    if contains_chars(loc.as_slice(), sep.as_slice()) {
        return parse_url(location);
    }
    if loc.len() > 0 && loc[0] == '/' {
        return Ok(
            UrlParts {
                scheme: clone_string(&base.scheme),
                host: clone_string(&base.host),
                port: base.port,
                path: string_from(location),
            },
        );
    }
    let base_path = str_chars(base.path.as_str());
    let mut path = String::new();
    match rfind_char_in(base_path.as_slice(), '/') {
        Some(slash) => {
            push_chars(&mut path, &base_path.as_slice()[0..slash + 1]);
            assert(base_path@.subrange(0, slash + 1) == base_path@.take(slash + 1));
        },
        None => {
            push_chars(&mut path, base_path.as_slice());
        },
    }
    push_str(&mut path, location);
    Ok(
        UrlParts {
            scheme: clone_string(&base.scheme),
            host: clone_string(&base.host),
            port: base.port,
            path,
        },
    )
}

/// Whether `input` names a YouTube page.
pub fn is_youtube_url(input: &str) -> (res: bool)
    ensures
        res == (contains(input@, "youtube.com/"@) || contains(input@, "youtu.be/"@)),
{
    crate::text::str_contains(input, "youtube.com/") || crate::text::str_contains(input, "youtu.be/")
}

/// Whether `input` has the `scheme://` of a URL.
pub fn looks_like_url(input: &str) -> (res: bool)
    ensures
        res == contains(input@, "://"@),
{
    crate::text::str_contains(input, "://")
}

/// The text of `s` up to its first `?`, `&` or `/`.
pub open spec fn until_query_or_slash(s: Seq<char>) -> Seq<char>
    decreases s.len(),
{
    if s.len() == 0 || s[0] == '?' || s[0] == '&' || s[0] == '/' {
        seq![]
    } else {
        seq![s[0]] + until_query_or_slash(s.drop_first())
    }
}

/// The value of the first `v=` pair of `pairs`, from index `k` on.
pub open spec fn first_v_pair(pairs: Seq<Seq<char>>, k: int) -> Option<Seq<char>>
    decreases pairs.len() - k,
{
    if k < 0 || k >= pairs.len() {
        None
    } else if starts_with(pairs[k], "v="@) {
        Some(pairs[k].skip(2))
    } else {
        first_v_pair(pairs, k + 1)
    }
}

/// The video id a YouTube URL carries: after `youtu.be/` up to the next `?`,
/// `&` or `/`; otherwise the first `v=` pair of the query (the text between
/// the first and second `?`).
pub open spec fn youtube_video_id_spec(s: Seq<char>) -> Option<Seq<char>> {
    match find(s, "youtu.be/"@) {
        Some(p) => Some(until_query_or_slash(s.skip(p + 9))),
        None => {
            let pieces = split_char(s, '?');
            if pieces.len() < 2 {
                None
            } else {
                first_v_pair(split_char(pieces[1], '&'), 0)
            }
        },
    }
}

pub open spec fn opt_string_view(o: Option<String>) -> Option<Seq<char>> {
    match o {
        Some(s) => Some(s@),
        None => None,
    }
}

/// The video id of the YouTube URL `input`.
pub fn youtube_video_id(input: &str) -> (res: Option<String>)
    ensures
        opt_string_view(res) == youtube_video_id_spec(input@),
{
    let chars = str_chars(input);
    let _n = chars.len();
    let short = str_chars("youtu.be/");
    proof {
        reveal_strlit("youtu.be/");
    }
    match find_chars(chars.as_slice(), short.as_slice()) {
        Some(pos) => {
            assert(short@.len() == 9);
            let tail = &chars.as_slice()[pos + 9..chars.len()];
            assert(tail@ == chars@.skip(pos + 9));
            let mut out = String::new();
            let mut i: usize = 0;
            assert(tail@.skip(0) == tail@);
            assert(Seq::<char>::empty() + until_query_or_slash(tail@) == until_query_or_slash(tail@));
            while i < tail.len() && tail[i] != '?' && tail[i] != '&' && tail[i] != '/'
                invariant
                    i <= tail.len(),
                    until_query_or_slash(tail@) == out@ + until_query_or_slash(tail@.skip(i as int)),
                decreases tail.len() - i,
            {
                assert(tail@.skip(i as int)[0] == tail@[i as int]);
                assert(tail@.skip(i as int).drop_first() == tail@.skip(i + 1));
                push_char(&mut out, tail[i]);
                i += 1;
            }
            proof {
                if i < tail.len() {
                    assert(tail@.skip(i as int)[0] == tail@[i as int]);
                }
                assert(out@ + Seq::<char>::empty() == out@);
            }
            Some(out)
        },
        None => {
            let pieces = split_chars(chars.as_slice(), '?');
            if pieces.len() < 2 {
                return None;
            }
            let pairs = split_chars(pieces[1].as_slice(), '&');
            let ghost pv = vecs_view(pairs@);
            let prefix = ['v', '='];
            proof {
                reveal_strlit("v=");
                assert(prefix@ == "v="@);
            }
            let mut k: usize = 0;
            while k < pairs.len()
                invariant
                    k <= pairs.len(),
                    pv == vecs_view(pairs@),
                    prefix@ == "v="@,
                    youtube_video_id_spec(input@) == first_v_pair(pv, k as int),
                decreases pairs.len() - k,
            {
                let pair = pairs[k].as_slice();
                assert(pair@ == pv[k as int]);
                if crate::text::starts_with_chars(pair, &prefix) {
                    let value = chars_to_string(&pair[2..pair.len()]);
                    assert(pair@.subrange(2, pair@.len() as int) == pair@.skip(2));
                    return Some(value);
                }
                k += 1;
            }
            None
        },
    }
}

// ---------------------------------------------------------------------------
// Request paths.

/// Whether a request path is absolute: it begins with `/`.
pub open spec fn absolute_path(path: Seq<char>) -> bool {
    path.len() > 0 && path[0] == '/'
}

proof fn lemma_url_path_absolute(rest: Seq<char>)
    ensures
        absolute_path(url_path(rest)),
{
    lemma_index_of_bound(rest, '/');
    lemma_index_of_bound(rest, '?');
    let ps = path_start(rest);
    if ps < rest.len() && rest[ps] != '?' {
        assert(url_path(rest)[0] == rest[ps]);
    }
}

/// Every URL the client fetches has an absolute path: a URL it parses does,
/// and following a redirect from a URL that does leads to one that does.
pub proof fn lemma_paths_stay_absolute(input: Seq<char>, base: UrlView, location: Seq<char>)
    ensures
        parse_url_spec(input) matches Ok(u) ==> absolute_path(u.path),
        absolute_path(base.path) ==> (resolve_redirect_spec(base, location) matches Ok(u)
            ==> absolute_path(u.path)),
{
    if let Some(se) = find(input, "://"@) {
        lemma_url_path_absolute(input.skip(se + 3));
    }
    if let Some(se) = find(location, "://"@) {
        lemma_url_path_absolute(location.skip(se + 3));
    }
    if absolute_path(base.path) && !contains(location, "://"@) {
        crate::text::lemma_rfind_char_bound(base.path, '/');
        let dir = match rfind_char(base.path, '/') {
            Some(i) => base.path.take(i + 1),
            None => base.path,
        };
        assert(dir[0] == '/');
        assert((dir + location)[0] == '/');
    }
}

} // verus!

verus! {

// ---------------------------------------------------------------------------
// Writing the parts of a URL back out.

proof fn lemma_index_of_first(s: Seq<char>, c: char)
    ensures
        match index_of(s, c) {
            Some(i) => 0 <= i < s.len() && s[i] == c && forall|j: int| 0 <= j < i ==> s[j] != c,
            None => forall|j: int| 0 <= j < s.len() ==> s[j] != c,
        },
    decreases s.len(),
{
    if s.len() > 0 {
        let r = s.drop_first();
        lemma_index_of_first(r, c);
        assert forall|j: int| 1 <= j < s.len() implies s[j] == r[j - 1] by {}
    }
}

proof fn lemma_rfind_char_last(s: Seq<char>, c: char)
    ensures
        match rfind_char(s, c) {
            Some(i) => 0 <= i < s.len() && s[i] == c && forall|j: int| i < j < s.len() ==> s[j] != c,
            None => forall|j: int| 0 <= j < s.len() ==> s[j] != c,
        },
    decreases s.len(),
{
    if s.len() > 0 && s.last() != c {
        let r = s.drop_last();
        lemma_rfind_char_last(r, c);
        assert forall|j: int| 0 <= j < r.len() implies s[j] == r[j] by {}
        assert(s[s.len() - 1] != c);
    }
}

pub(crate) proof fn lemma_find_from_first(s: Seq<char>, p: Seq<char>, start: int)
    requires
        start >= 0,
    ensures
        match crate::text::find_from(s, p, start) {
            Some(i) => start <= i && crate::text::matches_at(s, p, i) && forall|j: int|
                start <= j < i ==> !crate::text::matches_at(s, p, j),
            None => forall|j: int| start <= j ==> !crate::text::matches_at(s, p, j),
        },
    decreases s.len() + 1 - start,
{
    if !(start + p.len() > s.len()) && !crate::text::matches_at(s, p, start) {
        lemma_find_from_first(s, p, start + 1);
    }
}

/// Lower-casing a character leaves `:` and `/` alone, makes nothing else
/// into them, and lower-casing twice is lower-casing once.
proof fn lemma_ascii_lower_char(c: char)
    ensures
        crate::text::ascii_lower(crate::text::ascii_lower(c)) == crate::text::ascii_lower(c),
        crate::text::ascii_lower(c) == ':' ==> c == ':',
        crate::text::ascii_lower(c) == '/' ==> c == '/',
{
    if ('A' as int) <= (c as int) <= ('Z' as int) {
        let x = (c as int) + 32;
        assert((x as char) as int == x);
    }
}

proof fn lemma_to_ascii_lower_twice(s: Seq<char>)
    ensures
        to_ascii_lower(to_ascii_lower(s)) == to_ascii_lower(s),
{
    assert forall|k: int| 0 <= k < s.len() implies #[trigger] to_ascii_lower(to_ascii_lower(s))[k]
        == to_ascii_lower(s)[k] by {
        lemma_ascii_lower_char(s[k]);
    }
    assert(to_ascii_lower(to_ascii_lower(s)) =~= to_ascii_lower(s));
}

/// The text `scheme://host:port` followed by the path, for a URL's parts.
pub open spec fn url_text(u: UrlView) -> Seq<char> {
    u.scheme + "://"@ + u.host + seq![':'] + crate::numbers::decimal(u.port as nat) + u.path
}

proof fn lemma_no_separator_before_path(
    host: Seq<char>,
    d: Seq<char>,
    path: Seq<char>,
)
    requires
        forall|j: int| 0 <= j < host.len() ==> host[j] != '/' && host[j] != '?',
        crate::numbers::all_digits(d),
        absolute_path(path),
    ensures
        ({
            let r = host + seq![':'] + d + path;
            let h = (host.len() + 1 + d.len()) as int;
            &&& path_start(r) == h
            &&& url_path(r) == path
            &&& r.take(h) == host + seq![':'] + d
        }),
{
    let r = host + seq![':'] + d + path;
    let h = (host.len() + 1 + d.len()) as int;
    assert forall|j: int| 0 <= j < h implies r[j] != '/' && r[j] != '?' by {
        if j < host.len() {
            assert(r[j] == host[j]);
        } else if j == host.len() {
            assert(r[j] == ':');
        } else {
            assert(r[j] == d[j - host.len() - 1]);
            assert(crate::numbers::is_digit(d[j - host.len() - 1]));
        }
    }
    assert(r[h] == path[0]);
    lemma_index_of_first(r, '/');
    lemma_index_of_first(r, '?');
    assert(index_of(r, '/') == Some(h));
    assert(r.skip(h) =~= path);
    assert(r.take(h) =~= host + seq![':'] + d);
}

proof fn lemma_no_sep_before_scheme_end(sc: Seq<char>, tail: Seq<char>, j: int)
    requires
        0 <= j < sc.len(),
        j + 3 <= sc.len() ==> !crate::text::matches_at(sc, "://"@, j),
    ensures
        !crate::text::matches_at(to_ascii_lower(sc) + "://"@ + tail, "://"@, j),
{
    reveal_strlit("://");
    let sep = "://"@;
    assert(sep.len() == 3 && sep[0] == ':' && sep[1] == '/' && sep[2] == '/');
    let scheme = to_ascii_lower(sc);
    let t = scheme + sep + tail;
    let l = sc.len() as int;
    if crate::text::matches_at(t, sep, j) {
        let w = t.subrange(j, j + 3);
        assert(w == sep);
        if j + 3 <= l {
            assert(w[0] == scheme[j] && w[1] == scheme[j + 1] && w[2] == scheme[j + 2]);
            lemma_ascii_lower_char(sc[j]);
            lemma_ascii_lower_char(sc[j + 1]);
            lemma_ascii_lower_char(sc[j + 2]);
            assert(sc.subrange(j, j + 3) =~= sep);
            assert(crate::text::matches_at(sc, sep, j));
        } else {
            assert(t[l] == ':');
            assert(w[l - j] == t[l]);
            assert(sep[l - j] == '/');
        }
    }
}

proof fn lemma_find_after_scheme(sc: Seq<char>, tail: Seq<char>)
    requires
        forall|j: int| 0 <= j && j + 3 <= sc.len() ==> !crate::text::matches_at(sc, "://"@, j),
    ensures
        find(to_ascii_lower(sc) + "://"@ + tail, "://"@) == Some(sc.len() as int),
{
    reveal_strlit("://");
    let sep = "://"@;
    let t = to_ascii_lower(sc) + sep + tail;
    let l = sc.len() as int;
    assert(t.subrange(l, l + 3) =~= sep);
    assert forall|j: int| 0 <= j < l implies !crate::text::matches_at(t, sep, j) by {
        lemma_no_sep_before_scheme_end(sc, tail, j);
    }
    lemma_find_from_first(t, sep, 0);
    assert(crate::text::matches_at(t, sep, l));
}

proof fn lemma_authority_with_port(host: Seq<char>, port: u16)
    ensures
        ({
            let d = crate::numbers::decimal(port as nat);
            let a = host + seq![':'] + d;
            &&& rfind_char(a, ':') == Some(host.len() as int)
            &&& a.skip(host.len() as int + 1) == d
            &&& a.take(host.len() as int) == host
            &&& decimal_value_at_most(d, 65535) == Some(port as nat)
            &&& crate::numbers::all_digits(d)
        }),
{
    let d = crate::numbers::decimal(port as nat);
    crate::numbers::lemma_decimal_roundtrip(port as nat);
    let a = host + seq![':'] + d;
    lemma_rfind_char_last(a, ':');
    assert(a[host.len() as int] == ':');
    assert forall|j: int| host.len() < j < a.len() implies a[j] != ':' by {
        assert(a[j] == d[j - host.len() - 1]);
        assert(crate::numbers::is_digit(d[j - host.len() - 1]));
    }
    assert(a.skip(host.len() as int + 1) =~= d);
    assert(a.take(host.len() as int) =~= host);
}

/// `parse_url` on its own output: a URL that parses has a path that begins
/// with `/` and a lower-case scheme, and writing its parts out as
/// `scheme://host:port` and the path (`url_text`) parses back to the same
/// parts.
pub proof fn lemma_parse_url_reformat(s: Seq<char>)
    requires
        parse_url_spec(s) is Ok,
    ensures
        ({
            let u = parse_url_spec(s)->Ok_0;
            &&& absolute_path(u.path)
            &&& to_ascii_lower(u.scheme) == u.scheme
            &&& parse_url_spec(url_text(u)) == Ok::<UrlView, Seq<char>>(u)
        }),
{
    reveal_strlit("://");
    let sep = "://"@;
    assert(sep.len() == 3);
    let u = parse_url_spec(s)->Ok_0;
    let se = find(s, sep)->0;
    lemma_find_from_first(s, sep, 0);
    let sc = s.take(se);
    let rest = s.skip(se + 3);
    let ps = path_start(rest);
    let authority = rest.take(ps);
    lemma_index_of_first(rest, '/');
    lemma_index_of_first(rest, '?');
    lemma_url_path_absolute(rest);
    assert forall|j: int| 0 <= j < authority.len() implies authority[j] != '/' && authority[j]
        != '?' by {
        assert(authority[j] == rest[j]);
    }
    lemma_rfind_char_last(authority, ':');
    match rfind_char(authority, ':') {
        Some(colon) => {
            assert(u.host == authority.take(colon));
        },
        None => {
            assert(u.host == authority);
        },
    }
    assert forall|j: int| 0 <= j < u.host.len() implies u.host[j] != '/' && u.host[j] != '?' by {
        assert(u.host[j] == authority[j]);
    }
    lemma_to_ascii_lower_twice(sc);
    assert forall|j: int| 0 <= j && j + 3 <= sc.len() implies !crate::text::matches_at(sc, sep, j) by {
        if crate::text::matches_at(sc, sep, j) {
            assert(s.subrange(j, j + 3) =~= sc.subrange(j, j + 3));
            assert(crate::text::matches_at(s, sep, j));
        }
    }
    let d = crate::numbers::decimal(u.port as nat);
    let r2 = u.host + seq![':'] + d + u.path;
    lemma_find_after_scheme(sc, r2);
    let t = url_text(u);
    assert(t =~= to_ascii_lower(sc) + sep + r2);
    let l = se;
    assert(t.take(l) =~= u.scheme);
    assert(t.skip(l + 3) =~= r2);
    lemma_authority_with_port(u.host, u.port);
    lemma_no_separator_before_path(u.host, d, u.path);
}

proof fn lemma_no_short_link_in_watch_url(id: Seq<char>)
    requires
        !contains(id, "youtu.be/"@),
    ensures
        find(crate::tsv::watch_url_prefix() + id, "youtu.be/"@) is None,
{
    reveal_strlit("youtu.be/");
    reveal_strlit("https://www.youtube.com/watch?v=");
    let p = "youtu.be/"@;
    let pre = crate::tsv::watch_url_prefix();
    let s = pre + id;
    assert(pre.len() == 32);
    assert(p.len() == 9 && p[0] == 'y' && p[5] == '.');
    lemma_find_from_first(s, p, 0);
    lemma_find_from_first(id, p, 0);
    if let Some(i) = find(s, p) {
        let w = s.subrange(i, i + 9);
        assert(w == p);
        if i >= 32 {
            assert(id.subrange(i - 32, i - 23) =~= w);
            assert(crate::text::matches_at(id, p, i - 32));
        } else {
            assert(w[0] == s[i]);
            assert(s[i] == pre[i]);
            assert forall|k: int| 0 <= k < 32 && k != 12 implies pre[k] != 'y' by {}
            assert(i == 12);
            assert(w[5] == s[17]);
            assert(s[17] == 'b');
        }
    }
}

/// `youtube_video_id` of a hit's `watch_url` (the watch URL prefix and the
/// id) is the hit's video id, when the id holds no `?` or `&` and no
/// `youtu.be/`.
pub proof fn lemma_video_id_of_watch_url(id: Seq<char>)
    requires
        !id.contains('?'),
        !id.contains('&'),
        !contains(id, "youtu.be/"@),
    ensures
        youtube_video_id_spec(crate::tsv::watch_url_prefix() + id) == Some(id),
{
    reveal_strlit("https://www.youtube.com/watch?v=");
    reveal_strlit("v=");
    lemma_no_short_link_in_watch_url(id);
    let pre = crate::tsv::watch_url_prefix();
    let s = pre + id;
    let page = pre.take(29);
    let v = pre.skip(30);
    assert(pre =~= page + seq!['?'] + v);
    assert(v =~= "v="@);
    assert forall|k: int| 0 <= k < page.len() implies #[trigger] page[k] != '?' by {}
    assert forall|k: int| 0 <= k < id.len() implies #[trigger] id[k] != '?' && id[k] != '&' by {
        assert(id.contains(id[k]));
    }
    let init = (Seq::<Seq<char>>::empty(), Seq::<char>::empty());
    crate::text::lemma_split_run_concat(init, page + seq!['?'] + v, id, '?');
    crate::text::lemma_split_run_concat(init, page + seq!['?'], v, '?');
    crate::text::lemma_split_run_concat(init, page, seq!['?'], '?');
    crate::text::lemma_split_run_no_sep(init, page, '?');
    assert(Seq::<char>::empty() + page == page);
    assert(seq!['?'].drop_last() =~= Seq::<char>::empty());
    let st1 = (seq![page], Seq::<char>::empty());
    assert(crate::text::split_run(init, page, '?') == (Seq::<Seq<char>>::empty(), page));
    let q = seq!['?'];
    assert(q.len() == 1 && q.last() == '?');
    assert(q.drop_last() =~= Seq::<char>::empty());
    assert(crate::text::split_run((Seq::<Seq<char>>::empty(), page), q.drop_last(), '?') == (
        Seq::<Seq<char>>::empty(),
        page,
    ));
    assert(crate::text::split_run((Seq::<Seq<char>>::empty(), page), seq!['?'], '?') == (
        Seq::<Seq<char>>::empty().push(page),
        Seq::<char>::empty(),
    ));
    assert(Seq::<Seq<char>>::empty().push(page) =~= seq![page]);
    assert(crate::text::split_run(init, page + seq!['?'], '?') == st1);
    crate::text::lemma_split_run_no_sep(st1, v, '?');
    assert(Seq::<char>::empty() + v == v);
    assert(crate::text::split_run(init, page + seq!['?'] + v, '?') == (seq![page], v));
    crate::text::lemma_split_run_no_sep((seq![page], v), id, '?');
    assert(s =~= page + seq!['?'] + v + id);
    assert(crate::text::split_run(init, s, '?') == (seq![page], v + id));
    let pieces = split_char(s, '?');
    assert(pieces =~= seq![page, v + id]);
    crate::text::lemma_split_run_no_sep(init, v + id, '&');
    assert forall|k: int| 0 <= k < (v + id).len() implies #[trigger] (v + id)[k] != '&' by {
        if k >= 2 {
            assert((v + id)[k] == id[k - 2]);
        }
    }
    assert(split_char(v + id, '&') =~= seq![v + id]);
    assert((v + id).subrange(0, 2) =~= "v="@);
    assert((v + id).skip(2) =~= id);
}

} // verus!
