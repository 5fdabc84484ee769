use vstd::prelude::*;
use vstd::utf8::{decode_utf8, encode_utf8, valid_utf8};

use crate::numbers::{
    decimal, decimal_value_at_most, hex_value_at_most, opt_u16, opt_usize, parse_hex_usize_chars,
    parse_u16_chars, parse_usize, parse_usize_chars, push_decimal,
};
use crate::text::{
    after_first, before_first, chars_to_ascii_lower, chars_to_string, contains, contains_chars,
    eq_ignore_ascii_case, eq_ignore_ascii_case_spec, find_bytes, find_bytes_from,
    find_bytes_from_spec, find_char, index_of, lemma_find_from_found, lemma_index_of_bound, lines,
    lines_chars, opt_index, push_char, push_chars, push_str, split_whitespace, str_chars,
    string_from, to_ascii_lower, trim, trim_chars, vecs_view, words,
};
use crate::url::{UrlParts, UrlView};

verus! {

// ---------------------------------------------------------------------------
// Bytes as text.

/// std's `core::str::from_utf8`: the text whose UTF-8 encoding `bytes` is, or
/// `None` where `bytes` is not valid UTF-8.
#[verifier::external_body]
fn str_from_utf8(bytes: &[u8]) -> (res: Option<&str>)
    ensures
        res is Some <==> valid_utf8(bytes@),
        res matches Some(s) ==> encode_utf8(s@) == bytes@,
{
    core::str::from_utf8(bytes).ok()
}

/// The text whose UTF-8 encoding `bytes` is, if it is valid UTF-8.
pub fn utf8_text(bytes: &[u8]) -> (res: Option<&str>)
    ensures
        res is Some <==> valid_utf8(bytes@),
        res matches Some(s) ==> s@ == decode_utf8(bytes@),
{
    let r = str_from_utf8(bytes);
    proof {
        if let Some(s) = r {
            vstd::utf8::encode_utf8_decode_utf8(s@);
        }
    }
    r
}

pub open spec fn opt_string_view(o: Option<String>) -> Option<Seq<char>> {
    match o {
        Some(s) => Some(s@),
        None => None,
    }
}

// ---------------------------------------------------------------------------
// Status line and header fields.

/// Whether `status` asks the client to go elsewhere.
pub open spec fn is_redirect_status(status: u16) -> bool {
    status == 301 || status == 302 || status == 303 || status == 307 || status == 308
}

/// Whether `status` asks the client to go elsewhere.
pub fn is_redirect(status: u16) -> (res: bool)
    ensures
        res == is_redirect_status(status),
{
    status == 301 || status == 302 || status == 303 || status == 307 || status == 308
}

/// The status code of a response head: the second word of its first line.
pub open spec fn parse_status_spec(headers: Seq<char>) -> Result<u16, Seq<char>> {
    let ls = lines(headers);
    if ls.len() == 0 {
        Err("empty HTTP response"@)
    } else {
        let w = words(ls[0]);
        if w.len() >= 2 {
            match decimal_value_at_most(w[1], 65535) {
                Some(v) => Ok(v as u16),
                None => Err("invalid HTTP status"@),
            }
        } else {
            Err("invalid HTTP status"@)
        }
    }
}

pub open spec fn status_result_view(r: Result<u16, String>) -> Result<u16, Seq<char>> {
    match r {
        Ok(v) => Ok(v),
        Err(e) => Err(e@),
    }
}

/// The status code of the response head `headers`.
pub fn parse_status(headers: &str) -> (res: Result<u16, String>)
    ensures
        status_result_view(res) == parse_status_spec(headers@),
{
    let chars = str_chars(headers);
    let ls = lines_chars(chars.as_slice());
    if ls.len() == 0 {
        return Err(string_from("empty HTTP response"));
    }
    assert(vecs_view(ls@)[0] == ls@[0]@);
    let w = split_whitespace(ls[0].as_slice());
    if w.len() < 2 {
        return Err(string_from("invalid HTTP status"));
    }
    assert(vecs_view(w@)[1] == w@[1]@);
    match parse_u16_chars(w[1].as_slice()) {
        Some(v) => Ok(v),
        None => Err(string_from("invalid HTTP status")),
    }
}

/// The value of header field `name` (any case) in the lines from index `k`
/// on: the trimmed text after the colon of the first line whose name matches.
pub open spec fn header_value_from(ls: Seq<Seq<char>>, k: int, name: Seq<char>) -> Option<Seq<char>>
    decreases ls.len() - k,
{
    if k < 0 || k >= ls.len() {
        None
    } else {
        match index_of(ls[k], ':') {
            Some(colon) => if eq_ignore_ascii_case_spec(ls[k].take(colon), name) {
                Some(trim(ls[k].skip(colon + 1)))
            } else {
                header_value_from(ls, k + 1, name)
            },
            None => header_value_from(ls, k + 1, name),
        }
    }
}

/// The value of header field `name` in a response head (its status line
/// skipped).
pub open spec fn header_value_spec(headers: Seq<char>, name: Seq<char>) -> Option<Seq<char>> {
    header_value_from(lines(headers), 1, name)
}

/// The value of header field `name` (any case) in the response head `headers`.
pub fn header_value(headers: &str, name: &str) -> (res: Option<String>)
    ensures
        opt_string_view(res) == header_value_spec(headers@, name@),
{
    let chars = str_chars(headers);
    let name_chars = str_chars(name);
    let ls = lines_chars(chars.as_slice());
    let ghost lv = vecs_view(ls@);
    let mut k: usize = 1;
    while k < ls.len()
        invariant
            1 <= k,
            lv == vecs_view(ls@),
            lv == lines(headers@),
            name_chars@ == name@,
            header_value_spec(headers@, name@) == header_value_from(lv, k as int, name@),
        decreases ls.len() - k,
    {
        let line = ls[k].as_slice();
        let _ln = line.len();
        assert(line@ == lv[k as int]);
        proof {
            lemma_index_of_bound(line@, ':');
        }
        match find_char(line, ':') {
            Some(colon) => {
                let key = &line[0..colon];
                assert(key@ == line@.take(colon as int));
                if eq_ignore_ascii_case(key, name_chars.as_slice()) {
                    let value = trim_chars(&line[colon + 1..line.len()]);
                    assert(line@.subrange(colon + 1, line@.len() as int) == line@.skip(colon + 1));
                    return Some(chars_to_string(value.as_slice()));
                }
            },
            None => {},
        }
        k += 1;
    }
    None
}

// ---------------------------------------------------------------------------
// Requests.

/// A `GET` request for `url`'s path on its host, with the client's fixed
/// headers and `extra_headers` (each line already ending in CRLF).
pub open spec fn get_request_spec(url: UrlView, user_agent: Seq<char>, extra_headers: Seq<char>) -> Seq<char> {
    "GET "@ + url.path + " HTTP/1.1\r\nHost: "@ + url.host + "\r\nUser-Agent: "@ + user_agent
        + "\r\nAccept: */*\r\nAccept-Encoding: identity\r\n"@ + extra_headers
        + "Connection: close\r\n\r\n"@
}

/// The `GET` request for `url`.
pub fn http_get_request(url: &UrlParts, user_agent: &str, extra_headers: &str) -> (res: String)
    ensures
        res@ == get_request_spec(url@, user_agent@, extra_headers@),
{
    let mut out = string_from("GET ");
    push_str(&mut out, url.path.as_str());
    push_str(&mut out, " HTTP/1.1\r\nHost: ");
    push_str(&mut out, url.host.as_str());
    push_str(&mut out, "\r\nUser-Agent: ");
    push_str(&mut out, user_agent);
    push_str(&mut out, "\r\nAccept: */*\r\nAccept-Encoding: identity\r\n");
    push_str(&mut out, extra_headers);
    push_str(&mut out, "Connection: close\r\n\r\n");
    out
}

/// A `POST` of the JSON `body` to `url`, its `Content-Length` the number of
/// UTF-8 bytes of `body`.
pub open spec fn post_json_request_spec(
    url: UrlView,
    body: Seq<char>,
    user_agent: Seq<char>,
    extra_headers: Seq<char>,
) -> Seq<char> {
    "POST "@ + url.path + " HTTP/1.1\r\nHost: "@ + url.host + "\r\nUser-Agent: "@ + user_agent
        + "\r\nAccept: */*\r\nAccept-Encoding: identity\r\nContent-Type: application/json\r\n"@
        + extra_headers + "Content-Length: "@ + decimal(encode_utf8(body).len())
        + "\r\nConnection: close\r\n\r\n"@ + body
}

/// The `POST` request that sends the JSON `body` to `url`.
pub fn https_post_json_request(url: &UrlParts, body: &str, user_agent: &str, extra_headers: &str) -> (res: String)
    ensures
        res@ == post_json_request_spec(url@, body@, user_agent@, extra_headers@),
{
    let mut out = string_from("POST ");
    push_str(&mut out, url.path.as_str());
    push_str(&mut out, " HTTP/1.1\r\nHost: ");
    push_str(&mut out, url.host.as_str());
    push_str(&mut out, "\r\nUser-Agent: ");
    push_str(&mut out, user_agent);
    push_str(
        &mut out,
        "\r\nAccept: */*\r\nAccept-Encoding: identity\r\nContent-Type: application/json\r\n",
    );
    push_str(&mut out, extra_headers);
    push_str(&mut out, "Content-Length: ");
    push_decimal(&mut out, body.as_bytes().len());
    push_str(&mut out, "\r\nConnection: close\r\n\r\n");
    push_str(&mut out, body);
    out
}

} // verus!

verus! {

// ---------------------------------------------------------------------------
// Response bodies.

pub open spec fn crlf() -> Seq<u8> {
    seq![13u8, 10u8]
}

/// The blank line that ends a response head.
pub open spec fn head_end_marker() -> Seq<u8> {
    seq![13u8, 10u8, 13u8, 10u8]
}

/// Appends the bytes of `s` to `v`.
pub fn extend_bytes(v: &mut Vec<u8>, s: &[u8])
    ensures
        final(v)@ == old(v)@ + s@,
{
    let ghost start = v@;
    let mut i: usize = 0;
    while i < s.len()
        invariant
            i <= s.len(),
            v@ == start + s@.take(i as int),
        decreases s.len() - i,
    {
        v.push(s[i]);
        i += 1;
        assert(v@ == start + s@.take(i as int));
    }
    assert(s@.take(s.len() as int) == s@);
}

/// The size a chunk-size line gives: its hexadecimal digits before any `;`
/// extension, white space trimmed; `None` when the line is not UTF-8 or
/// holds no such number.
pub open spec fn chunk_size_of(line: Seq<u8>) -> Option<nat> {
    if valid_utf8(line) {
        hex_value_at_most(trim(before_first(decode_utf8(line), ';')), usize::MAX as int)
    } else {
        None
    }
}

/// The size a chunk-size line gives.
pub fn chunk_size(line: &[u8]) -> (res: Option<usize>)
    ensures
        opt_usize(res) == chunk_size_of(line@),
{
    let text = match utf8_text(line) {
        Some(t) => t,
        None => {
            return None;
        },
    };
    let chars = str_chars(text);
    proof {
        lemma_index_of_bound(chars@, ';');
    }
    let first = match find_char(chars.as_slice(), ';') {
        Some(i) => {
            assert(chars@.subrange(0, i as int) == chars@.take(i as int));
            &chars.as_slice()[0..i]
        },
        None => chars.as_slice(),
    };
    assert(first@ == before_first(chars@, ';'));
    let trimmed = trim_chars(first);
    parse_hex_usize_chars(trimmed.as_slice())
}

/// Whether a chunked body, read from `offset` on, holds its final empty chunk
/// and the line break after it.
pub open spec fn chunked_complete_from(buf: Seq<u8>, offset: int) -> bool
    decreases buf.len() - offset,
{
    match find_bytes_from_spec(buf, crlf(), offset) {
        None => false,
        Some(le) => match chunk_size_of(buf.subrange(offset, le)) {
            None => false,
            Some(size) => {
                let o = le + 2;
                if size == 0 {
                    buf.len() >= o + 2
                } else if buf.len() < o + size + 2 {
                    false
                } else {
                    proof {
                        lemma_find_from_found(buf, crlf(), offset);
                    }
                    chunked_complete_from(buf, o + size + 2)
                }
            },
        },
    }
}

/// Whether the chunked body `buffer` is complete.
pub fn chunked_body_complete(buffer: &[u8]) -> (res: bool)
    ensures
        res == chunked_complete_from(buffer@, 0),
{
    let crlf_bytes: [u8; 2] = [13, 10];
    assert(crlf_bytes@ == crlf());
    let mut offset: usize = 0;
    loop
        invariant
            offset <= buffer.len(),
            crlf_bytes@ == crlf(),
            chunked_complete_from(buffer@, 0) == chunked_complete_from(buffer@, offset as int),
        decreases buffer.len() - offset,
    {
        proof {
            lemma_find_from_found(buffer@, crlf(), offset as int);
        }
        let line_end = match find_bytes_from(buffer, &crlf_bytes, offset) {
            Some(pos) => pos,
            None => {
                return false;
            },
        };
        let size = match chunk_size(&buffer[offset..line_end]) {
            Some(size) => size,
            None => {
                return false;
            },
        };
        offset = line_end + 2;
        if size == 0 {
            return buffer.len() - offset >= 2;
        }
        if size > buffer.len() - offset || buffer.len() - offset - size < 2 {
            return false;
        }
        offset = offset + size + 2;
    }
}

pub open spec fn prepend_bytes(p: Seq<u8>, r: Result<Seq<u8>, Seq<char>>) -> Result<Seq<u8>, Seq<char>> {
    match r {
        Ok(b) => Ok(p + b),
        Err(e) => Err(e),
    }
}

/// The data of a chunked body read from `offset` on, or why it cannot be
/// read.
pub open spec fn chunked_decode_from(buf: Seq<u8>, offset: int) -> Result<Seq<u8>, Seq<char>>
    decreases buf.len() - offset,
{
    match find_bytes_from_spec(buf, crlf(), offset) {
        None => Err("invalid chunked body"@),
        Some(le) => match chunk_size_of(buf.subrange(offset, le)) {
            None => Err("invalid chunk size"@),
            Some(size) => {
                let o = le + 2;
                if size == 0 {
                    Ok(seq![])
                } else if buf.len() < o + size + 2 {
                    Err("truncated chunked body"@)
                } else {
                    proof {
                        lemma_find_from_found(buf, crlf(), offset);
                    }
                    prepend_bytes(buf.subrange(o, o + size), chunked_decode_from(buf, o + size + 2))
                }
            },
        },
    }
}

pub open spec fn bytes_result_view(r: Result<Vec<u8>, String>) -> Result<Seq<u8>, Seq<char>> {
    match r {
        Ok(b) => Ok(b@),
        Err(e) => Err(e@),
    }
}

/// The data of the chunked body `buffer`.
pub fn decode_chunked_buffer(buffer: &[u8]) -> (res: Result<Vec<u8>, String>)
    ensures
        bytes_result_view(res) == chunked_decode_from(buffer@, 0),
{
    let crlf_bytes: [u8; 2] = [13, 10];
    assert(crlf_bytes@ == crlf());
    let mut decoded: Vec<u8> = Vec::new();
    let mut offset: usize = 0;
    assert(Seq::<u8>::empty() + chunked_decode_from(buffer@, 0)->Ok_0 == chunked_decode_from(buffer@, 0)->Ok_0);
    loop
        invariant
            offset <= buffer.len(),
            crlf_bytes@ == crlf(),
            chunked_decode_from(buffer@, 0) == prepend_bytes(
                decoded@,
                chunked_decode_from(buffer@, offset as int),
            ),
        decreases buffer.len() - offset,
    {
        proof {
            lemma_find_from_found(buffer@, crlf(), offset as int);
        }
        let line_end = match find_bytes_from(buffer, &crlf_bytes, offset) {
            Some(pos) => pos,
            None => {
                return Err(string_from("invalid chunked body"));
            },
        };
        let size = match chunk_size(&buffer[offset..line_end]) {
            Some(size) => size,
            None => {
                return Err(string_from("invalid chunk size"));
            },
        };
        let ghost old_offset = offset as int;
        offset = line_end + 2;
        if size == 0 {
            assert(decoded@ + Seq::<u8>::empty() == decoded@);
            return Ok(decoded);
        }
        if size > buffer.len() - offset || buffer.len() - offset - size < 2 {
            return Err(string_from("truncated chunked body"));
        }
        let ghost before = decoded@;
        extend_bytes(&mut decoded, &buffer[offset..offset + size]);
        proof {
            let chunk = buffer@.subrange(offset as int, offset + size);
            let rest = chunked_decode_from(buffer@, offset + size + 2);
            if rest is Ok {
                assert(before + (chunk + rest->Ok_0) == decoded@ + rest->Ok_0);
            }
        }
        offset = offset + size + 2;
    }
}

/// Where the head of a response ends, just after its blank line.
pub open spec fn head_end(r: Seq<u8>) -> Option<int> {
    match find_bytes_from_spec(r, head_end_marker(), 0) {
        Some(p) => Some(p + 4),
        None => None,
    }
}

/// Where the head of the response in `received` ends, just after its blank
/// line.
pub fn find_head_end(received: &[u8]) -> (res: Option<usize>)
    ensures
        opt_index(res) == head_end(received@),
        res matches Some(e) ==> e <= received@.len(),
{
    let marker: [u8; 4] = [13, 10, 13, 10];
    assert(marker@ == head_end_marker());
    let _n = received.len();
    match find_bytes(received, &marker) {
        Some(pos) => Some(pos + 4),
        None => None,
    }
}

/// Whether a response head declares a chunked body.
pub open spec fn is_chunked_spec(h: Seq<char>) -> bool {
    match header_value_spec(h, "transfer-encoding"@) {
        Some(v) => contains(to_ascii_lower(v), "chunked"@),
        None => false,
    }
}

/// The `Content-Length` of a response head: absent, or its value read as a
/// number (`None` when it is not one).
pub open spec fn content_length_spec(h: Seq<char>) -> Option<Option<nat>> {
    match header_value_spec(h, "content-length"@) {
        None => None,
        Some(v) => Some(decimal_value_at_most(trim(v), usize::MAX as int)),
    }
}

/// Whether the response head `headers` declares a chunked body.
pub fn is_chunked(headers: &str) -> (res: bool)
    ensures
        res == is_chunked_spec(headers@),
{
    match header_value(headers, "transfer-encoding") {
        Some(v) => {
            let chars = str_chars(v.as_str());
            let lower = chars_to_ascii_lower(chars.as_slice());
            let chunked = str_chars("chunked");
            contains_chars(lower.as_slice(), chunked.as_slice())
        },
        None => false,
    }
}

/// The `Content-Length` of the response head `headers`.
pub fn content_length(headers: &str) -> (res: Option<Option<usize>>)
    ensures
        match res {
            None => content_length_spec(headers@) is None,
            Some(v) => content_length_spec(headers@) == Some(opt_usize(v)),
        },
{
    match header_value(headers, "content-length") {
        None => None,
        Some(v) => {
            let chars = str_chars(v.as_str());
            let trimmed = trim_chars(chars.as_slice());
            Some(parse_usize_chars(trimmed.as_slice()))
        },
    }
}

/// Whether the bytes received so far hold a whole response: its head, and a
/// body that is complete by its chunked framing or its `Content-Length`.
pub open spec fn response_complete_spec(r: Seq<u8>) -> bool {
    match head_end(r) {
        None => false,
        Some(he) => {
            let hb = r.take(he);
            if !valid_utf8(hb) {
                false
            } else {
                let h = decode_utf8(hb);
                let body = r.skip(he);
                if is_chunked_spec(h) {
                    chunked_complete_from(body, 0)
                } else {
                    match content_length_spec(h) {
                        Some(Some(cl)) => body.len() >= cl,
                        _ => false,
                    }
                }
            }
        },
    }
}

/// Whether `received` holds a whole response.
pub fn http_response_complete(received: &[u8]) -> (res: bool)
    ensures
        res == response_complete_spec(received@),
{
    let marker: [u8; 4] = [13, 10, 13, 10];
    assert(marker@ == head_end_marker());
    let _n = received.len();
    let header_end = match find_bytes(received, &marker) {
        Some(pos) => pos + 4,
        None => {
            return false;
        },
    };
    let head = &received[0..header_end];
    assert(head@ == received@.take(header_end as int));
    let headers = match utf8_text(head) {
        Some(h) => h,
        None => {
            return false;
        },
    };
    let body = &received[header_end..received.len()];
    assert(body@ == received@.skip(header_end as int));
    if is_chunked(headers) {
        return chunked_body_complete(body);
    }
    match content_length(headers) {
        Some(Some(cl)) => body.len() >= cl,
        _ => false,
    }
}

/// A response: its status, its head as text, and its body.
pub struct HttpResponse {
    pub status: u16,
    pub headers: String,
    pub body: Vec<u8>,
}

/// A response as text and bytes: status, head and body.
pub struct HttpResponseView {
    pub status: u16,
    pub headers: Seq<char>,
    pub body: Seq<u8>,
}

impl View for HttpResponse {
    type V = HttpResponseView;

    open spec fn view(&self) -> HttpResponseView {
        HttpResponseView { status: self.status, headers: self.headers@, body: self.body@ }
    }
}

pub open spec fn response_result_view(r: Result<HttpResponse, String>) -> Result<HttpResponseView, Seq<char>> {
    match r {
        Ok(v) => Ok(v@),
        Err(e) => Err(e@),
    }
}

/// The response whose bytes `r` are: its status, its head, and its body
/// unchunked or cut to its `Content-Length`; or why it cannot be read.
pub open spec fn parse_response_spec(r: Seq<u8>) -> Result<HttpResponseView, Seq<char>> {
    match head_end(r) {
        None => Err("HTTP headers not found"@),
        Some(he) => {
            let hb = r.take(he);
            if !valid_utf8(hb) {
                Err("HTTP headers are not UTF-8"@)
            } else {
                let h = decode_utf8(hb);
                match parse_status_spec(h) {
                    Err(e) => Err(e),
                    Ok(status) => {
                        let body = r.skip(he);
                        if is_chunked_spec(h) {
                            match chunked_decode_from(body, 0) {
                                Ok(b) => Ok(HttpResponseView { status, headers: h, body: b }),
                                Err(e) => Err(e),
                            }
                        } else {
                            match content_length_spec(h) {
                                None => Ok(HttpResponseView { status, headers: h, body }),
                                Some(None) => Err("invalid Content-Length header"@),
                                Some(Some(cl)) => Ok(
                                    HttpResponseView {
                                        status,
                                        headers: h,
                                        body: if body.len() > cl {
                                            body.take(cl as int)
                                        } else {
                                            body
                                        },
                                    },
                                ),
                            }
                        }
                    },
                }
            }
        },
    }
}

fn slice_to_bytes(s: &[u8]) -> (res: Vec<u8>)
    ensures
        res@ == s@,
{
    let mut v: Vec<u8> = Vec::new();
    extend_bytes(&mut v, s);
    assert(Seq::<u8>::empty() + s@ == s@);
    v
}

/// The response whose bytes were all received in `received`.
pub fn parse_complete_http_response(received: Vec<u8>) -> (res: Result<HttpResponse, String>)
    ensures
        response_result_view(res) == parse_response_spec(received@),
{
    let marker: [u8; 4] = [13, 10, 13, 10];
    assert(marker@ == head_end_marker());
    let _n = received.len();
    let header_end = match find_bytes(received.as_slice(), &marker) {
        Some(pos) => pos + 4,
        None => {
            return Err(string_from("HTTP headers not found"));
        },
    };
    let head = &received.as_slice()[0..header_end];
    assert(head@ == received@.take(header_end as int));
    let headers_text = match utf8_text(head) {
        Some(h) => h,
        None => {
            return Err(string_from("HTTP headers are not UTF-8"));
        },
    };
    let headers = string_from(headers_text);
    let status = match parse_status(headers_text) {
        Ok(s) => s,
        Err(e) => {
            return Err(e);
        },
    };
    let body_slice = &received.as_slice()[header_end..received.len()];
    assert(body_slice@ == received@.skip(header_end as int));
    if is_chunked(headers_text) {
        return match decode_chunked_buffer(body_slice) {
            Ok(body) => Ok(HttpResponse { status, headers, body }),
            Err(e) => Err(e),
        };
    }
    match content_length(headers_text) {
        None => Ok(HttpResponse { status, headers, body: slice_to_bytes(body_slice) }),
        Some(None) => Err(string_from("invalid Content-Length header")),
        Some(Some(cl)) => {
            let mut body = slice_to_bytes(body_slice);
            if body.len() > cl {
                body.truncate(cl);
            }
            Ok(HttpResponse { status, headers, body })
        },
    }
}

/// Reading a chunked body that is complete does not fail.
pub proof fn lemma_complete_chunked_decodes(buf: Seq<u8>, offset: int)
    requires
        chunked_complete_from(buf, offset),
    ensures
        chunked_decode_from(buf, offset) is Ok,
    decreases buf.len() - offset,
{
    lemma_find_from_found(buf, crlf(), offset);
    if let Some(le) = find_bytes_from_spec(buf, crlf(), offset) {
        if let Some(size) = chunk_size_of(buf.subrange(offset, le)) {
            let o = le + 2;
            if size != 0 && buf.len() >= o + size + 2 {
                lemma_complete_chunked_decodes(buf, o + size + 2);
            }
        }
    }
}

proof fn lemma_find_from_extend(s: Seq<u8>, p: Seq<u8>, start: int, x: Seq<u8>)
    requires
        crate::text::find_from(s, p, start) is Some,
    ensures
        crate::text::find_from(s + x, p, start) == crate::text::find_from(s, p, start),
    decreases s.len() + 1 - start,
{
    let t = s + x;
    if 0 <= start && start + p.len() <= s.len() {
        assert(t.subrange(start, start + p.len()) =~= s.subrange(start, start + p.len()));
        if !crate::text::matches_at(s, p, start) {
            lemma_find_from_extend(s, p, start + 1, x);
        }
    }
}

/// A chunked body that is complete stays complete when more bytes come
/// after it.
pub proof fn lemma_chunked_complete_extends(buf: Seq<u8>, offset: int, x: Seq<u8>)
    requires
        chunked_complete_from(buf, offset),
    ensures
        chunked_complete_from(buf + x, offset),
    decreases buf.len() - offset,
{
    let t = buf + x;
    let le = find_bytes_from_spec(buf, crlf(), offset)->0;
    lemma_find_from_found(buf, crlf(), offset);
    lemma_find_from_extend(buf, crlf(), offset, x);
    assert(find_bytes_from_spec(t, crlf(), offset) == Some(le));
    assert(t.subrange(offset, le) =~= buf.subrange(offset, le));
    let size = chunk_size_of(buf.subrange(offset, le))->0;
    if size != 0 {
        lemma_chunked_complete_extends(buf, le + 2 + size + 2, x);
    }
}

/// A response that `http_response_complete` accepts is read in full by
/// `parse_complete_http_response` unless its status line is bad: its body
/// framing never fails then.
pub proof fn lemma_complete_response_parses(r: Seq<u8>)
    requires
        response_complete_spec(r),
        parse_status_spec(decode_utf8(r.take(head_end(r)->0))) is Ok,
    ensures
        parse_response_spec(r) is Ok,
{
    let he = head_end(r)->0;
    let h = decode_utf8(r.take(he));
    if is_chunked_spec(h) {
        lemma_complete_chunked_decodes(r.skip(he), 0);
    }
}

} // verus!

verus! {

// ---------------------------------------------------------------------------
// Following redirects.

/// The number of redirects a download follows before it gives up.
pub const MAX_REDIRECTS: usize = 8;

/// What a download does with a response: go on to the URL a redirect names
/// (`Some`), stop with success (`None`), or fail. `redirect_index` counts the
/// redirects followed so far.
pub open spec fn redirect_step_spec(
    current: UrlView,
    status: u16,
    headers: Seq<char>,
    redirect_index: int,
) -> Result<Option<UrlView>, Seq<char>> {
    if is_redirect_status(status) {
        match header_value_spec(headers, "location"@) {
            None => Err("redirect without Location header"@),
            Some(location) => if redirect_index == MAX_REDIRECTS {
                Err("too many redirects"@)
            } else {
                match crate::url::resolve_redirect_spec(current, location) {
                    Ok(u) => Ok(Some(u)),
                    Err(e) => Err(e),
                }
            },
        }
    } else if status < 200 || status >= 300 {
        Err("HTTP status "@ + decimal(status as nat))
    } else {
        Ok(None)
    }
}

pub open spec fn step_result_view(r: Result<Option<UrlParts>, String>) -> Result<Option<UrlView>, Seq<char>> {
    match r {
        Ok(Some(u)) => Ok(Some(u@)),
        Ok(None) => Ok(None),
        Err(e) => Err(e@),
    }
}

/// What a download does with the response (`status`, `headers`) it got
/// from `current` after `redirect_index` redirects.
pub fn redirect_step(current: &UrlParts, status: u16, headers: &str, redirect_index: usize) -> (res: Result<Option<UrlParts>, String>)
    ensures
        step_result_view(res) == redirect_step_spec(current@, status, headers@, redirect_index as int),
{
    if is_redirect(status) {
        let location = match header_value(headers, "location") {
            Some(l) => l,
            None => {
                return Err(string_from("redirect without Location header"));
            },
        };
        if redirect_index == MAX_REDIRECTS {
            return Err(string_from("too many redirects"));
        }
        return match crate::url::resolve_redirect(current, location.as_str()) {
            Ok(u) => Ok(Some(u)),
            Err(e) => Err(e),
        };
    }
    if status < 200 || status >= 300 {
        let mut message = string_from("HTTP status ");
        push_decimal(&mut message, status as usize);
        return Err(message);
    }
    Ok(None)
}

// ---------------------------------------------------------------------------
// Reading a plain response from a socket.

/// How the end of a response body is found.
pub enum BodyFraming {
    /// The body is chunked.
    Chunked,
    /// The body has this many bytes.
    Length(usize),
    /// The body runs until the server closes the connection.
    UntilClose,
}

pub open spec fn framing_spec(h: Seq<char>) -> Result<BodyFraming, Seq<char>> {
    if is_chunked_spec(h) {
        Ok(BodyFraming::Chunked)
    } else {
        match content_length_spec(h) {
            None => Ok(BodyFraming::UntilClose),
            Some(None) => Err("invalid Content-Length header"@),
            Some(Some(n)) => Ok(BodyFraming::Length(n as usize)),
        }
    }
}

pub open spec fn framing_result_view(r: Result<BodyFraming, String>) -> Result<BodyFraming, Seq<char>> {
    match r {
        Ok(f) => Ok(f),
        Err(e) => Err(e@),
    }
}

/// How the end of the body that follows the response head `headers` is found.
pub fn body_framing(headers: &str) -> (res: Result<BodyFraming, String>)
    ensures
        framing_result_view(res) == framing_spec(headers@),
{
    if is_chunked(headers) {
        return Ok(BodyFraming::Chunked);
    }
    match content_length(headers) {
        None => Ok(BodyFraming::UntilClose),
        Some(None) => Err(string_from("invalid Content-Length header")),
        Some(Some(n)) => Ok(BodyFraming::Length(n)),
    }
}

/// The most bytes a plain response may have sent before its head is seen
/// whole.
pub const MAX_PLAIN_HEADER_BYTES: usize = 65536;

/// Where reading the head of a plain response stands: too large once more
/// than the limit arrived, else where the head ends if it is all in.
pub open spec fn head_progress_spec(received: Seq<u8>) -> Result<Option<int>, Seq<char>> {
    if received.len() > MAX_PLAIN_HEADER_BYTES {
        Err("HTTP headers are too large"@)
    } else {
        Ok(head_end(received))
    }
}

/// Where reading the head of a plain response stands.
pub fn head_progress(received: &[u8]) -> (res: Result<Option<usize>, String>)
    ensures
        match res {
            Ok(e) => head_progress_spec(received@) == Ok::<Option<int>, Seq<char>>(opt_index(e)),
            Err(m) => head_progress_spec(received@) == Err::<Option<int>, Seq<char>>(m@),
        },
{
    if received.len() > MAX_PLAIN_HEADER_BYTES {
        return Err(string_from("HTTP headers are too large"));
    }
    Ok(find_head_end(received))
}

/// Where reading a chunked body from a connection stands: more bytes are
/// needed, or the body is complete with this data, or it is malformed.
pub enum ChunkedProgress {
    NeedMore,
    Done(Vec<u8>),
    Invalid(String),
}

/// Where reading a chunked body stands, its data as bytes.
pub enum ChunkedProgressView {
    NeedMore,
    Done(Seq<u8>),
    Invalid(Seq<char>),
}

pub open spec fn chunked_progress_view(p: ChunkedProgress) -> ChunkedProgressView {
    match p {
        ChunkedProgress::NeedMore => ChunkedProgressView::NeedMore,
        ChunkedProgress::Done(d) => ChunkedProgressView::Done(d@),
        ChunkedProgress::Invalid(m) => ChunkedProgressView::Invalid(m@),
    }
}

pub open spec fn prepend_progress(p: Seq<u8>, r: ChunkedProgressView) -> ChunkedProgressView {
    match r {
        ChunkedProgressView::Done(d) => ChunkedProgressView::Done(p + d),
        other => other,
    }
}

/// Where reading the chunked body `buf` stands, from `offset` on: a size
/// line or a chunk not yet all in needs more bytes; the size line of the
/// empty chunk ends the body; a size line that does not read fails.
pub open spec fn chunked_progress_from(buf: Seq<u8>, offset: int) -> ChunkedProgressView
    decreases buf.len() - offset,
{
    match find_bytes_from_spec(buf, crlf(), offset) {
        None => ChunkedProgressView::NeedMore,
        Some(le) => match chunk_size_of(buf.subrange(offset, le)) {
            None => ChunkedProgressView::Invalid("invalid chunk size"@),
            Some(size) => {
                let o = le + 2;
                if size == 0 {
                    ChunkedProgressView::Done(seq![])
                } else if buf.len() < o + size + 2 {
                    ChunkedProgressView::NeedMore
                } else {
                    proof {
                        lemma_find_from_found(buf, crlf(), offset);
                    }
                    prepend_progress(buf.subrange(o, o + size), chunked_progress_from(buf, o + size + 2))
                }
            },
        },
    }
}

/// Where reading the chunked body received so far in `buffer` stands.
pub fn chunked_progress(buffer: &[u8]) -> (res: ChunkedProgress)
    ensures
        chunked_progress_view(res) == chunked_progress_from(buffer@, 0),
{
    let crlf_bytes: [u8; 2] = [13, 10];
    assert(crlf_bytes@ == crlf());
    let mut decoded: Vec<u8> = Vec::new();
    let mut offset: usize = 0;
    proof {
        match chunked_progress_from(buffer@, 0) {
            ChunkedProgressView::Done(d) => {
                assert(Seq::<u8>::empty() + d == d);
            },
            _ => {},
        }
    }
    loop
        invariant
            offset <= buffer.len(),
            crlf_bytes@ == crlf(),
            chunked_progress_from(buffer@, 0) == prepend_progress(
                decoded@,
                chunked_progress_from(buffer@, offset as int),
            ),
        decreases buffer.len() - offset,
    {
        proof {
            lemma_find_from_found(buffer@, crlf(), offset as int);
        }
        let line_end = match find_bytes_from(buffer, &crlf_bytes, offset) {
            Some(pos) => pos,
            None => {
                return ChunkedProgress::NeedMore;
            },
        };
        let size = match chunk_size(&buffer[offset..line_end]) {
            Some(size) => size,
            None => {
                return ChunkedProgress::Invalid(string_from("invalid chunk size"));
            },
        };
        offset = line_end + 2;
        if size == 0 {
            assert(decoded@ + Seq::<u8>::empty() == decoded@);
            return ChunkedProgress::Done(decoded);
        }
        if size > buffer.len() - offset || buffer.len() - offset - size < 2 {
            return ChunkedProgress::NeedMore;
        }
        let ghost before = decoded@;
        extend_bytes(&mut decoded, &buffer[offset..offset + size]);
        proof {
            let chunk = buffer@.subrange(offset as int, offset + size);
            let rest = chunked_progress_from(buffer@, offset + size + 2);
            match rest {
                ChunkedProgressView::Done(d) => {
                    assert(before + (chunk + d) == decoded@ + d);
                },
                _ => {},
            }
        }
        offset = offset + size + 2;
    }
}

/// Once reading a chunked body from a connection finds it complete, the
/// data it gives is what decoding the same bytes as a whole gives.
pub proof fn lemma_chunked_progress_agrees(buf: Seq<u8>, offset: int)
    ensures
        chunked_progress_from(buf, offset) matches ChunkedProgressView::Done(d) ==> chunked_decode_from(
            buf,
            offset,
        ) == Ok::<Seq<u8>, Seq<char>>(d),
    decreases buf.len() - offset,
{
    lemma_find_from_found(buf, crlf(), offset);
    match find_bytes_from_spec(buf, crlf(), offset) {
        None => {},
        Some(le) => match chunk_size_of(buf.subrange(offset, le)) {
            None => {},
            Some(size) => {
                let o = le + 2;
                if size != 0 && buf.len() >= o + size + 2 {
                    lemma_chunked_progress_agrees(buf, o + size + 2);
                }
            },
        },
    }
}

/// How a URL is fetched: over a plain connection or over TLS.
#[derive(PartialEq, Eq, Structural, Debug, Clone, Copy)]
pub enum Transport {
    Plain,
    Tls,
}

/// How a URL with scheme `scheme` is fetched: `http` plainly, `https` over
/// TLS, any other not at all.
pub open spec fn transport_spec(scheme: Seq<char>) -> Result<Transport, Seq<char>> {
    if scheme == "http"@ {
        Ok(Transport::Plain)
    } else if scheme == "https"@ {
        Ok(Transport::Tls)
    } else {
        Err("unsupported URL scheme: "@ + scheme)
    }
}

/// How `url` is fetched.
pub fn transport_for(url: &UrlParts) -> (res: Result<Transport, String>)
    ensures
        match res {
            Ok(t) => transport_spec(url@.scheme) == Ok::<Transport, Seq<char>>(t),
            Err(e) => transport_spec(url@.scheme) == Err::<Transport, Seq<char>>(e@),
        },
{
    let scheme = str_chars(url.scheme.as_str());
    let http = str_chars("http");
    let https = str_chars("https");
    if crate::text::chars_eq(scheme.as_slice(), http.as_slice()) {
        Ok(Transport::Plain)
    } else if crate::text::chars_eq(scheme.as_slice(), https.as_slice()) {
        Ok(Transport::Tls)
    } else {
        let mut message = string_from("unsupported URL scheme: ");
        push_str(&mut message, url.scheme.as_str());
        Err(message)
    }
}

/// Whether a response ends a download in failure by its status alone: it is
/// neither a redirect nor a success.
pub fn is_failure_status(status: u16) -> (res: bool)
    ensures
        res == (!is_redirect_status(status) && (status < 200 || status >= 300)),
{
    !is_redirect(status) && (status < 200 || status >= 300)
}

} // verus!

verus! {

/// Any 2xx answer ends a download successfully, whatever its headers, URL
/// and redirect count; an answer that is neither 2xx nor a redirect (301,
/// 302, 303, 307, 308) fails it with its status.
pub proof fn lemma_success_statuses(current: UrlView, status: u16, headers: Seq<char>, redirect_index: int)
    ensures
        200 <= status < 300 ==> redirect_step_spec(current, status, headers, redirect_index) == Ok::<
            Option<UrlView>,
            Seq<char>,
        >(None),
        !(200 <= status < 300) && status != 301 && status != 302 && status != 303 && status != 307
            && status != 308 ==> redirect_step_spec(current, status, headers, redirect_index) == Err::<
            Option<UrlView>,
            Seq<char>,
        >("HTTP status "@ + decimal(status as nat)),
{
}

} // verus!
