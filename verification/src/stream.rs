use vstd::prelude::*;
use vstd::utf8::{decode_utf8, valid_utf8};

use crate::http::{
    content_length, content_length_spec, extend_bytes, find_head_end, head_end_marker,
    is_chunked, is_chunked_spec, is_redirect, is_redirect_status, parse_status, parse_status_spec,
    utf8_text, HttpResponse, HttpResponseView,
};
use crate::text::{find_bytes_from_spec, string_from};

verus! {

/// The most bytes a response head may take before its end has been seen.
pub const MAX_HEADER_BYTES: usize = 65536;

/// The most bytes of an unsuccessful response's body that are kept.
pub const ERROR_BODY_LIMIT: usize = 512;

/// A response arriving record by record, its body streamed out to a file or
/// socket as it comes when the status is a success.
pub struct StreamingResponse {
    header_buffer: Vec<u8>,
    headers: Option<String>,
    status: u16,
    content_length: Option<usize>,
    body_written: usize,
    output_started: bool,
    error_body: Vec<u8>,
}

/// The state of a streamed response: the bytes of the head gathered so far,
/// the head once complete, its status and length, how many body bytes went
/// out, whether output began, and the kept part of an error body.
pub struct StreamingView {
    pub header_buffer: Seq<u8>,
    pub headers: Option<Seq<char>>,
    pub status: u16,
    pub content_length: Option<usize>,
    pub body_written: usize,
    pub output_started: bool,
    pub error_body: Seq<u8>,
}

pub open spec fn opt_string_view(o: Option<String>) -> Option<Seq<char>> {
    match o {
        Some(s) => Some(s@),
        None => None,
    }
}

impl View for StreamingResponse {
    type V = StreamingView;

    closed spec fn view(&self) -> StreamingView {
        StreamingView {
            header_buffer: self.header_buffer@,
            headers: opt_string_view(self.headers),
            status: self.status,
            content_length: self.content_length,
            body_written: self.body_written,
            output_started: self.output_started,
            error_body: self.error_body@,
        }
    }
}

/// What to do with the output after a record: nothing, create it empty, or
/// write bytes to it (starting it afresh when `truncate` holds).
pub enum StreamAction {
    Nothing,
    Touch,
    Write { bytes: Vec<u8>, truncate: bool },
}

/// What to do with the output, the bytes as a sequence.
pub enum StreamActionView {
    Nothing,
    Touch,
    Write { bytes: Seq<u8>, truncate: bool },
}

impl View for StreamAction {
    type V = StreamActionView;

    open spec fn view(&self) -> StreamActionView {
        match self {
            StreamAction::Nothing => StreamActionView::Nothing,
            StreamAction::Touch => StreamActionView::Touch,
            StreamAction::Write { bytes, truncate } => StreamActionView::Write {
                bytes: bytes@,
                truncate: *truncate,
            },
        }
    }
}

pub open spec fn sat_add(a: usize, b: int) -> usize {
    if a + b > usize::MAX {
        usize::MAX
    } else {
        (a + b) as usize
    }
}

pub open spec fn is_success(status: u16) -> bool {
    200 <= status < 300
}

pub open spec fn initial_stream() -> StreamingView {
    StreamingView {
        header_buffer: seq![],
        headers: None,
        status: 0,
        content_length: None,
        body_written: 0,
        output_started: false,
        error_body: seq![],
    }
}

/// One decrypted record of a streamed response: the new state and what to do
/// with the output, or why the download fails.
pub open spec fn stream_record_spec(st: StreamingView, payload: Seq<u8>) -> Result<
    (StreamingView, StreamActionView),
    Seq<char>,
> {
    if st.headers is None {
        let hb = st.header_buffer + payload;
        let end = find_bytes_from_spec(hb, head_end_marker(), 0);
        if hb.len() > MAX_HEADER_BYTES && end is None {
            Err("HTTP headers are too large"@)
        } else {
            match end {
                None => Ok((StreamingView { header_buffer: hb, ..st }, StreamActionView::Nothing)),
                Some(p) => {
                    let he = p + 4;
                    let head = hb.take(he);
                    if !valid_utf8(head) {
                        Err("HTTP headers are not UTF-8"@)
                    } else {
                        let h = decode_utf8(head);
                        match parse_status_spec(h) {
                            Err(e) => Err(e),
                            Ok(status) => if is_chunked_spec(h) && is_success(status) {
                                Err("streaming chunked HTTPS body is unsupported"@)
                            } else {
                                let cl = match content_length_spec(h) {
                                    Some(Some(n)) => Some(n as usize),
                                    _ => None,
                                };
                                let body = hb.skip(he);
                                if is_success(status) {
                                    let next = StreamingView {
                                        header_buffer: seq![],
                                        headers: Some(h),
                                        status,
                                        content_length: cl,
                                        output_started: true,
                                        body_written: if body.len() == 0 {
                                            st.body_written
                                        } else {
                                            sat_add(st.body_written, body.len() as int)
                                        },
                                        ..st
                                    };
                                    if body.len() == 0 {
                                        Ok((next, StreamActionView::Touch))
                                    } else {
                                        Ok(
                                            (
                                                next,
                                                StreamActionView::Write {
                                                    bytes: body,
                                                    truncate: !st.output_started,
                                                },
                                            ),
                                        )
                                    }
                                } else {
                                    Ok(
                                        (
                                            StreamingView {
                                                header_buffer: hb,
                                                headers: Some(h),
                                                status,
                                                content_length: cl,
                                                error_body: st.error_body + body,
                                                ..st
                                            },
                                            StreamActionView::Nothing,
                                        ),
                                    )
                                }
                            },
                        }
                    }
                },
            }
        }
    } else if is_success(st.status) {
        Ok(
            (
                StreamingView {
                    output_started: true,
                    body_written: sat_add(st.body_written, payload.len() as int),
                    ..st
                },
                StreamActionView::Write { bytes: payload, truncate: !st.output_started },
            ),
        )
    } else if st.error_body.len() < ERROR_BODY_LIMIT {
        let room = ERROR_BODY_LIMIT - st.error_body.len();
        let copy = if room < payload.len() {
            room
        } else {
            payload.len() as int
        };
        Ok(
            (
                StreamingView { error_body: st.error_body + payload.take(copy), ..st },
                StreamActionView::Nothing,
            ),
        )
    } else {
        Ok((st, StreamActionView::Nothing))
    }
}

/// The response a streamed download ends with, after a step of the TLS
/// connection (`closed` when the peer closed it): a redirect once its head is
/// in, a success once its `Content-Length` bytes went out, or whatever came
/// when the connection closed; `None` while it goes on.
pub open spec fn stream_finished_spec(st: StreamingView, closed: bool) -> Option<HttpResponseView> {
    let head = match st.headers {
        Some(h) => h,
        None => seq![],
    };
    if st.headers is Some && is_redirect_status(st.status) {
        Some(HttpResponseView { status: st.status, headers: head, body: st.error_body })
    } else if is_success(st.status) && st.content_length is Some && st.body_written
        >= st.content_length->0 {
        Some(HttpResponseView { status: st.status, headers: head, body: seq![] })
    } else if closed {
        Some(HttpResponseView { status: st.status, headers: head, body: st.error_body })
    } else {
        None
    }
}

pub open spec fn record_result_view(
    r: Result<StreamAction, String>,
    st: StreamingView,
) -> Result<(StreamingView, StreamActionView), Seq<char>> {
    match r {
        Ok(a) => Ok((st, a@)),
        Err(e) => Err(e@),
    }
}

fn clone_string(s: &String) -> (res: String)
    ensures
        res@ == s@,
{
    s.clone()
}

fn bytes_of(s: &[u8]) -> (res: Vec<u8>)
    ensures
        res@ == s@,
{
    let mut v: Vec<u8> = Vec::new();
    extend_bytes(&mut v, s);
    assert(Seq::<u8>::empty() + s@ == s@);
    v
}

impl StreamingResponse {
    /// A response of which nothing has arrived yet.
    pub fn new() -> (res: Self)
        ensures
            res@ == initial_stream(),
    {
        StreamingResponse {
            header_buffer: Vec::new(),
            headers: None,
            status: 0,
            content_length: None,
            body_written: 0,
            output_started: false,
            error_body: Vec::new(),
        }
    }

    fn add_written(&mut self, n: usize)
        ensures
            final(self)@ == (StreamingView {
                body_written: sat_add(old(self)@.body_written, n as int),
                ..old(self)@
            }),
    {
        if self.body_written > usize::MAX - n {
            self.body_written = usize::MAX;
        } else {
            self.body_written = self.body_written + n;
        }
    }

    /// Takes in one decrypted record of the response.
    pub fn on_record(&mut self, payload: &[u8]) -> (res: Result<StreamAction, String>)
        ensures
            record_result_view(res, final(self)@) == stream_record_spec(old(self)@, payload@),
            res is Err ==> final(self)@ == (StreamingView {
                header_buffer: old(self)@.header_buffer + payload@,
                ..old(self)@
            }),
    {
        if self.headers.is_none() {
            extend_bytes(&mut self.header_buffer, payload);
            let found = find_head_end(self.header_buffer.as_slice());
            if self.header_buffer.len() > MAX_HEADER_BYTES && found.is_none() {
                return Err(string_from("HTTP headers are too large"));
            }
            let header_end = match found {
                Some(e) => e,
                None => {
                    return Ok(StreamAction::Nothing);
                },
            };
            let head = &self.header_buffer.as_slice()[0..header_end];
            let text = match utf8_text(head) {
                Some(t) => t,
                None => {
                    return Err(string_from("HTTP headers are not UTF-8"));
                },
            };
            let status = match parse_status(text) {
                Ok(s) => s,
                Err(e) => {
                    return Err(e);
                },
            };
            let success = 200 <= status && status < 300;
            if is_chunked(text) && success {
                return Err(string_from("streaming chunked HTTPS body is unsupported"));
            }
            let cl = match content_length(text) {
                Some(Some(n)) => Some(n),
                _ => None,
            };
            let parsed = string_from(text);
            let body = bytes_of(&self.header_buffer.as_slice()[header_end..self.header_buffer.len()]);
            self.status = status;
            self.content_length = cl;
            self.headers = Some(parsed);
            if success {
                self.header_buffer = Vec::new();
                let truncate = !self.output_started;
                self.output_started = true;
                if body.len() == 0 {
                    return Ok(StreamAction::Touch);
                }
                self.add_written(body.len());
                return Ok(StreamAction::Write { bytes: body, truncate });
            } else {
                extend_bytes(&mut self.error_body, body.as_slice());
                return Ok(StreamAction::Nothing);
            }
        }
        if 200 <= self.status && self.status < 300 {
            let truncate = !self.output_started;
            self.output_started = true;
            self.add_written(payload.len());
            return Ok(StreamAction::Write { bytes: bytes_of(payload), truncate });
        }
        if self.error_body.len() < ERROR_BODY_LIMIT {
            let room = ERROR_BODY_LIMIT - self.error_body.len();
            let copy = if room < payload.len() {
                room
            } else {
                payload.len()
            };
            extend_bytes(&mut self.error_body, &payload[0..copy]);
        }
        Ok(StreamAction::Nothing)
    }

    /// The response the download ends with now, if it ends (`closed` when the
    /// peer closed the connection).
    pub fn finished(&self, closed: bool) -> (res: Option<HttpResponse>)
        ensures
            match res {
                Some(r) => stream_finished_spec(self@, closed) == Some(r@),
                None => stream_finished_spec(self@, closed) is None,
            },
    {
        let head = match &self.headers {
            Some(h) => clone_string(h),
            None => String::new(),
        };
        if self.headers.is_some() && is_redirect(self.status) {
            return Some(
                HttpResponse { status: self.status, headers: head, body: bytes_of(self.error_body.as_slice()) },
            );
        }
        if 200 <= self.status && self.status < 300 {
            if let Some(length) = self.content_length {
                if self.body_written >= length {
                    return Some(HttpResponse { status: self.status, headers: head, body: Vec::new() });
                }
            }
        }
        if closed {
            return Some(
                HttpResponse { status: self.status, headers: head, body: bytes_of(self.error_body.as_slice()) },
            );
        }
        None
    }
}

// ---------------------------------------------------------------------------
// What goes out.

/// The bytes a step writes to the output.
pub open spec fn written_bytes(a: StreamActionView) -> Seq<u8> {
    match a {
        StreamActionView::Write { bytes, .. } => bytes,
        _ => seq![],
    }
}

/// All the records one after another.
pub open spec fn concat_records(records: Seq<Seq<u8>>) -> Seq<u8>
    decreases records.len(),
{
    if records.len() == 0 {
        seq![]
    } else {
        concat_records(records.drop_last()) + records.last()
    }
}

/// The state after taking in `records` one by one from `st`, with all the
/// bytes written on the way; or the first failure.
pub open spec fn stream_records(st: StreamingView, records: Seq<Seq<u8>>) -> Result<
    (StreamingView, Seq<u8>),
    Seq<char>,
>
    decreases records.len(),
{
    if records.len() == 0 {
        Ok((st, seq![]))
    } else {
        match stream_records(st, records.drop_last()) {
            Err(e) => Err(e),
            Ok((s1, out)) => match stream_record_spec(s1, records.last()) {
                Err(e) => Err(e),
                Ok((s2, a)) => Ok((s2, out + written_bytes(a))),
            },
        }
    }
}

/// What the state says of the bytes received so far and the bytes written:
/// before the head is whole, all were kept and nothing went out; after a
/// successful head, the received bytes are the head and then what went out;
/// after an unsuccessful one, nothing went out.
pub open spec fn stream_accounts(st: StreamingView, received: Seq<u8>, out: Seq<u8>) -> bool {
    match st.headers {
        None => st.header_buffer == received && out.len() == 0 && !st.output_started,
        Some(h) => if is_success(st.status) {
            received == vstd::utf8::encode_utf8(h) + out
        } else {
            out.len() == 0 && !st.output_started
        },
    }
}

proof fn lemma_stream_step_accounts(st: StreamingView, received: Seq<u8>, out: Seq<u8>, payload: Seq<u8>)
    requires
        stream_accounts(st, received, out),
    ensures
        stream_record_spec(st, payload) matches Ok((s2, a)) ==> stream_accounts(
            s2,
            received + payload,
            out + written_bytes(a),
        ),
{
    if st.headers is None {
        let hb = st.header_buffer + payload;
        match find_bytes_from_spec(hb, head_end_marker(), 0) {
            None => {
                assert(out + Seq::<u8>::empty() =~= out);
            },
            Some(p) => {
                crate::text::lemma_find_from_found(hb, head_end_marker(), 0);
                let he = p + 4;
                let head = hb.take(he);
                if valid_utf8(head) {
                    let h = decode_utf8(head);
                    vstd::utf8::decode_utf8_encode_utf8(head);
                    assert(vstd::utf8::encode_utf8(h) == head);
                    let body = hb.skip(he);
                    assert(hb =~= head + body);
                    assert(out =~= Seq::<u8>::empty());
                    if body.len() == 0 {
                        assert(hb =~= head);
                        assert(head + (out + Seq::<u8>::empty()) =~= head);
                    } else {
                        assert(out + body =~= body);
                    }
                    assert(out + Seq::<u8>::empty() =~= out);
                }
            },
        }
    } else if is_success(st.status) {
        assert(received + payload == vstd::utf8::encode_utf8(st.headers->0) + (out + payload));
    } else {
        assert(out + Seq::<u8>::empty() =~= out);
    }
}

/// Whatever records a download over TLS receives, the bytes it writes out
/// are exactly the body of a successful response: the records, one after
/// another, are its head followed by what was written; and nothing is
/// written for an unsuccessful response or before the head is complete.
pub proof fn lemma_stream_writes_body(records: Seq<Seq<u8>>)
    ensures
        stream_records(initial_stream(), records) matches Ok((st, out)) ==> stream_accounts(
            st,
            concat_records(records),
            out,
        ),
    decreases records.len(),
{
    if records.len() == 0 {
        assert(initial_stream().header_buffer =~= concat_records(records));
    } else {
        lemma_stream_writes_body(records.drop_last());
        match stream_records(initial_stream(), records.drop_last()) {
            Err(_) => {},
            Ok((s1, out)) => {
                lemma_stream_step_accounts(s1, concat_records(records.drop_last()), out, records.last());
            },
        }
    }
}

} // verus!
