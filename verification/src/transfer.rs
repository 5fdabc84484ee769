use vstd::prelude::*;
use vstd::utf8::{decode_utf8, valid_utf8};

use crate::http::{extend_bytes, utf8_text};
use crate::numbers::{decimal, push_decimal};
use crate::text::{chars_eq, push_str, str_chars, string_from};

verus! {

// ---------------------------------------------------------------------------
// Writing a buffer out in full.

/// How many times in a row a write may be refused for now before the
/// transfer gives up, for the media stream to the player and for anything else.
pub open spec fn max_would_block_retries(context: Seq<char>) -> nat {
    if context == "media stream"@ {
        6000
    } else {
        200
    }
}

/// A buffer being written out: its length, how much went out, how many
/// refusals came in a row, and what the write is for (named in errors).
pub struct WriteAll {
    len: usize,
    written: usize,
    retries: usize,
    max_retries: usize,
    context: String,
}

/// A write in progress: length, bytes written, refusals in a row, their
/// limit, and what it is for.
pub struct WriteAllView {
    pub len: nat,
    pub written: nat,
    pub retries: nat,
    pub max_retries: nat,
    pub context: Seq<char>,
}

impl View for WriteAll {
    type V = WriteAllView;

    closed spec fn view(&self) -> WriteAllView {
        WriteAllView {
            len: self.len as nat,
            written: self.written as nat,
            retries: self.retries as nat,
            max_retries: self.max_retries as nat,
            context: self.context@,
        }
    }
}

/// What one attempt to write gave: that many bytes went out, the writer
/// refused for now, or it failed with that message.
pub enum WriteEvent {
    Wrote(usize),
    WouldBlock,
    Failed(String),
}

/// What comes next: write the rest after a pause of that many milliseconds,
/// or the buffer is out, or the transfer failed with that message.
pub enum WriteStep {
    Retry { pause_ms: u64 },
    Done,
    Fail(String),
}

pub open spec fn write_step_view(s: WriteStep) -> (int, Option<Seq<char>>) {
    match s {
        WriteStep::Retry { pause_ms } => (pause_ms as int, None),
        WriteStep::Done => (-1, None),
        WriteStep::Fail(m) => (-2, Some(m@)),
    }
}

impl WriteAll {
    pub closed spec fn well_formed(&self) -> bool {
        &&& self.written <= self.len
        &&& self.max_retries as nat == max_would_block_retries(self.context@)
        &&& self.retries <= self.max_retries
    }

    /// A write of `len` bytes for `context`, nothing written yet.
    pub fn new(context: &str, len: usize) -> (res: Self)
        ensures
            res.well_formed(),
            res@ == (WriteAllView {
                len: len as nat,
                written: 0,
                retries: 0,
                max_retries: max_would_block_retries(context@),
                context: context@,
            }),
    {
        let c = str_chars(context);
        let m = str_chars("media stream");
        let max_retries: usize = if chars_eq(c.as_slice(), m.as_slice()) {
            6000
        } else {
            200
        };
        WriteAll { len, written: 0, retries: 0, max_retries, context: string_from(context) }
    }

    /// Whether the whole buffer went out.
    pub fn is_done(&self) -> (res: bool)
        ensures
            res == (self@.written == self@.len),
    {
        self.written == self.len
    }

    /// Where the part still to write begins.
    pub fn offset(&self) -> (res: usize)
        ensures
            res == self@.written,
    {
        self.written
    }

    /// Takes in what an attempt to write the rest gave. Bytes written move
    /// the offset on and clear the refusals; none written is a short write;
    /// a refusal past the limit times out; a failure ends the transfer.
    pub fn on_event(&mut self, event: WriteEvent) -> (res: WriteStep)
        requires
            old(self).well_formed(),
            old(self)@.written < old(self)@.len,
            event matches WriteEvent::Wrote(n) ==> n <= old(self)@.len - old(self)@.written,
        ensures
            final(self).well_formed(),
            final(self)@.len == old(self)@.len,
            final(self)@.context == old(self)@.context,
            match event {
                WriteEvent::Wrote(n) => if n == 0 {
                    &&& write_step_view(res) == (-2int, Some(old(self)@.context + " short write"@))
                    &&& final(self)@ == old(self)@
                } else {
                    &&& final(self)@.written == old(self)@.written + n
                    &&& final(self)@.retries == 0
                    &&& write_step_view(res) == (if final(self)@.written == old(self)@.len {
                        (-1int, None::<Seq<char>>)
                    } else {
                        (1int, None::<Seq<char>>)
                    })
                },
                WriteEvent::WouldBlock => if old(self)@.retries + 1 > old(self)@.max_retries {
                    &&& write_step_view(res) == (-2int, Some(old(self)@.context + " write timed out"@))
                    &&& final(self)@ == old(self)@
                } else {
                    &&& final(self)@.written == old(self)@.written
                    &&& final(self)@.retries == old(self)@.retries + 1
                    &&& write_step_view(res) == (10int, None::<Seq<char>>)
                },
                WriteEvent::Failed(e) => {
                    &&& write_step_view(res) == (-2int, Some(old(self)@.context + " write failed: "@ + e@))
                    &&& final(self)@ == old(self)@
                },
            },
    {
        match event {
            WriteEvent::Wrote(n) => {
                if n == 0 {
                    let mut message = string_from(self.context.as_str());
                    push_str(&mut message, " short write");
                    return WriteStep::Fail(message);
                }
                self.retries = 0;
                self.written = self.written + n;
                if self.written == self.len {
                    WriteStep::Done
                } else {
                    WriteStep::Retry { pause_ms: 1 }
                }
            },
            WriteEvent::WouldBlock => {
                if self.retries >= self.max_retries {
                    let mut message = string_from(self.context.as_str());
                    push_str(&mut message, " write timed out");
                    return WriteStep::Fail(message);
                }
                self.retries = self.retries + 1;
                WriteStep::Retry { pause_ms: 10 }
            },
            WriteEvent::Failed(error) => {
                let mut message = string_from(self.context.as_str());
                push_str(&mut message, " write failed: ");
                push_str(&mut message, error.as_str());
                WriteStep::Fail(message)
            },
        }
    }
}

// ---------------------------------------------------------------------------
// Gathering a response.

/// The most bytes a response read over TLS may hold.
pub const MAX_HTTPS_RESPONSE_BYTES: usize = 536870912;

/// Adds a decrypted record to the response received so far, unless the
/// response would then pass the limit.
pub fn append_plaintext(plaintext: &mut Vec<u8>, payload: &[u8]) -> (res: Result<(), String>)
    ensures
        old(plaintext)@.len() + payload@.len() > MAX_HTTPS_RESPONSE_BYTES ==> (res matches Err(e)
            && e@ == "HTTPS response is too large"@ && final(plaintext)@ == old(plaintext)@),
        old(plaintext)@.len() + payload@.len() <= MAX_HTTPS_RESPONSE_BYTES ==> (res is Ok
            && final(plaintext)@ == old(plaintext)@ + payload@),
{
    if payload.len() > MAX_HTTPS_RESPONSE_BYTES || plaintext.len() > MAX_HTTPS_RESPONSE_BYTES
        - payload.len() {
        return Err(string_from("HTTPS response is too large"));
    }
    extend_bytes(plaintext, payload);
    Ok(())
}

/// The log line for an unsuccessful response's body: none when it is empty;
/// its first 512 bytes as text when they are UTF-8; else its size.
pub open spec fn error_body_message_spec(status: u16, body: Seq<u8>) -> Option<Seq<char>> {
    if body.len() == 0 {
        None
    } else {
        let head = if body.len() <= 512 {
            body
        } else {
            body.take(512)
        };
        let prefix = "[yt] HTTP "@ + decimal(status as nat) + " body: "@;
        if valid_utf8(head) {
            Some(prefix + decode_utf8(head))
        } else {
            Some(prefix + decimal(body.len()) + " bytes"@)
        }
    }
}

/// The log line for an unsuccessful response's body.
pub fn http_error_body_message(status: u16, body: &[u8]) -> (res: Option<String>)
    ensures
        match res {
            Some(m) => error_body_message_spec(status, body@) == Some(m@),
            None => error_body_message_spec(status, body@) is None,
        },
{
    if body.len() == 0 {
        return None;
    }
    let max_len: usize = if body.len() < 512 {
        body.len()
    } else {
        512
    };
    let head = &body[0..max_len];
    assert(head@ == (if body@.len() <= 512 {
        body@
    } else {
        body@.take(512)
    }));
    let mut message = string_from("[yt] HTTP ");
    push_decimal(&mut message, status as usize);
    push_str(&mut message, " body: ");
    match utf8_text(head) {
        Some(text) => push_str(&mut message, text),
        None => {
            push_decimal(&mut message, body.len());
            push_str(&mut message, " bytes");
        },
    }
    Some(message)
}

} // verus!
