use vstd::prelude::*;
use vstd::utf8::encode_utf8;

use crate::numbers::{decimal_value_at_most, parse_u8_chars, read_u16};
use crate::text::{split_char, split_chars, str_chars, string_from, vecs_view};

verus! {

/// The id the client puts in its DNS queries.
pub const DNS_QUERY_ID: u16 = 0x5954;

/// The header of an A query: id, recursion desired, one question.
pub open spec fn dns_query_header() -> Seq<u8> {
    seq![0x59u8, 0x54u8, 0x01u8, 0x00u8, 0x00u8, 0x01u8, 0x00u8, 0x00u8, 0x00u8, 0x00u8, 0x00u8, 0x00u8]
}

/// A name's labels as DNS writes them: each its length, then its bytes.
pub open spec fn encode_labels(labels: Seq<Seq<u8>>) -> Seq<u8>
    decreases labels.len(),
{
    if labels.len() == 0 {
        seq![]
    } else {
        encode_labels(labels.drop_last()) + seq![labels.last().len() as u8] + labels.last()
    }
}

/// Whether every label is between 1 and 63 bytes long.
pub open spec fn labels_valid(labels: Seq<Seq<u8>>) -> bool {
    forall|i: int| 0 <= i < labels.len() ==> 0 < #[trigger] labels[i].len() <= 63
}

/// The labels of a host name: its UTF-8 bytes split at each `.`.
pub open spec fn host_labels(host: Seq<char>) -> Seq<Seq<u8>> {
    split_char(encode_utf8(host), 46u8)
}

/// The DNS query for the A record of `host`, or the error for a name with an
/// empty or too long label.
pub open spec fn dns_query_spec(host: Seq<char>) -> Result<Seq<u8>, Seq<char>> {
    let labels = host_labels(host);
    if labels_valid(labels) {
        Ok(dns_query_header() + encode_labels(labels) + seq![0u8, 0u8, 1u8, 0u8, 1u8])
    } else {
        Err("invalid DNS name"@)
    }
}

pub open spec fn bytes_result_view(r: Result<Vec<u8>, String>) -> Result<Seq<u8>, Seq<char>> {
    match r {
        Ok(b) => Ok(b@),
        Err(e) => Err(e@),
    }
}

fn push_label(out: &mut Vec<u8>, label: &[u8])
    requires
        label@.len() <= 63,
    ensures
        final(out)@ == old(out)@ + seq![label@.len() as u8] + label@,
{
    out.push(label.len() as u8);
    let ghost start = out@;
    let mut i: usize = 0;
    while i < label.len()
        invariant
            i <= label.len(),
            out@ == start + label@.take(i as int),
        decreases label.len() - i,
    {
        out.push(label[i]);
        i += 1;
        assert(out@ == start + label@.take(i as int));
    }
    assert(label@.take(label.len() as int) == label@);
}

/// The DNS query for the A record of `host`.
pub fn build_dns_query(host: &str) -> (res: Result<Vec<u8>, String>)
    ensures
        bytes_result_view(res) == dns_query_spec(host@),
{
    let mut out: Vec<u8> = Vec::new();
    out.push(0x59);
    out.push(0x54);
    out.push(0x01);
    out.push(0x00);
    out.push(0x00);
    out.push(0x01);
    out.push(0x00);
    out.push(0x00);
    out.push(0x00);
    out.push(0x00);
    out.push(0x00);
    out.push(0x00);
    assert(out@ == dns_query_header());
    let bytes = host.as_bytes();
    let ghost labels = host_labels(host@);
    let ghost mut done: Seq<Seq<u8>> = seq![];
    let mut start: usize = 0;
    let mut i: usize = 0;
    while i < bytes.len()
        invariant
            start <= i <= bytes.len(),
            bytes@ == encode_utf8(host@),
            labels == host_labels(host@),
            crate::text::split_run((seq![], seq![]), bytes@.take(i as int), 46u8) == (
                done,
                bytes@.subrange(start as int, i as int),
            ),
            labels_valid(done),
            out@ == dns_query_header() + encode_labels(done),
        decreases bytes.len() - i,
    {
        assert(bytes@.take(i + 1).drop_last() == bytes@.take(i as int));
        if bytes[i] == 46 {
            let label = &bytes[start..i];
            if label.len() == 0 || label.len() > 63 {
                proof {
                    let st = crate::text::split_run((seq![], seq![]), bytes@.take(i + 1), 46u8);
                    assert(st.0 == done.push(label@));
                    lemma_split_keeps_done(bytes@, i + 1, done.push(label@));
                    assert(labels[done.len() as int] == done.push(label@)[done.len() as int]);
                    assert(!labels_valid(labels));
                }
                return Err(string_from("invalid DNS name"));
            }
            push_label(&mut out, label);
            proof {
                let d2 = done.push(label@);
                assert(d2.drop_last() == done);
                done = d2;
            }
            start = i + 1;
        } else {
            assert(bytes@.subrange(start as int, i + 1) == bytes@.subrange(start as int, i as int).push(bytes@[i as int]));
        }
        i += 1;
    }
    assert(bytes@.take(bytes.len() as int) == bytes@);
    let last = &bytes[start..bytes.len()];
    assert(labels == done.push(last@));
    if last.len() == 0 || last.len() > 63 {
        assert(!(0 < labels[labels.len() - 1].len() <= 63));
        return Err(string_from("invalid DNS name"));
    }
    push_label(&mut out, last);
    proof {
        assert(labels.drop_last() == done);
        assert(labels.last() == last@);
        assert(labels_valid(labels)) by {
            assert forall|k: int| 0 <= k < labels.len() implies 0 < #[trigger] labels[k].len() <= 63 by {
                if k < done.len() {
                    assert(labels[k] == done[k]);
                }
            }
        }
    }
    let ghost mid = out@;
    assert(encode_labels(labels) == encode_labels(done) + seq![last@.len() as u8] + last@);
    assert(mid =~= dns_query_header() + encode_labels(labels));
    out.push(0);
    out.push(0);
    out.push(1);
    out.push(0);
    out.push(1);
    assert(out@ =~= mid + seq![0u8, 0u8, 1u8, 0u8, 1u8]);
    Ok(out)
}

/// The finished pieces of a split only grow as more of the text is split.
proof fn lemma_split_keeps_done(s: Seq<u8>, i: int, prefix: Seq<Seq<u8>>)
    requires
        0 <= i <= s.len(),
        crate::text::split_run((seq![], seq![]), s.take(i), 46u8).0 == prefix,
    ensures
        forall|k: int| 0 <= k < prefix.len() ==> split_char(s, 46u8)[k] == #[trigger] prefix[k],
        prefix.len() < split_char(s, 46u8).len(),
    decreases s.len() - i,
{
    if i < s.len() {
        let st = crate::text::split_run((seq![], seq![]), s.take(i), 46u8);
        assert(s.take(i + 1).drop_last() == s.take(i));
        let st2 = crate::text::split_run((seq![], seq![]), s.take(i + 1), 46u8);
        assert(st2.0.len() >= prefix.len());
        assert(forall|k: int| 0 <= k < prefix.len() ==> st2.0[k] == prefix[k]);
        lemma_split_keeps_done(s, i + 1, st2.0);
    } else {
        assert(s.take(i) == s);
    }
}

// ---------------------------------------------------------------------------
// Responses.

/// The big-endian 16-bit number at `i`.
pub open spec fn be16(p: Seq<u8>, i: int) -> int {
    p[i] * 256 + p[i + 1]
}

/// Where the DNS name at `o` ends: after its terminating zero, or after a
/// two-byte compression pointer (a length byte with its top two bits set).
pub open spec fn skip_name_spec(p: Seq<u8>, o: int) -> Option<int>
    decreases p.len() - o,
{
    if o < 0 || o >= p.len() {
        None
    } else {
        let len = p[o];
        if len == 0 {
            Some(o + 1)
        } else if len >= 0xc0 {
            if o + 2 <= p.len() {
                Some(o + 2)
            } else {
                None
            }
        } else if o + 1 + len > p.len() {
            None
        } else {
            skip_name_spec(p, o + 1 + len)
        }
    }
}

/// Where the `n` questions that start at `o` end.
pub open spec fn skip_questions(p: Seq<u8>, o: int, n: nat) -> Option<int>
    decreases n,
{
    if n == 0 {
        Some(o)
    } else {
        match skip_name_spec(p, o) {
            None => None,
            Some(o1) => if o1 + 4 > p.len() {
                None
            } else {
                skip_questions(p, o1 + 4, (n - 1) as nat)
            },
        }
    }
}

/// The address of the first of the `n` answers starting at `o` that is an
/// Internet A record of four bytes.
pub open spec fn find_a_record(p: Seq<u8>, o: int, n: nat) -> Option<Seq<u8>>
    decreases n,
{
    if n == 0 {
        None
    } else {
        match skip_name_spec(p, o) {
            None => None,
            Some(o1) => if o1 + 10 > p.len() {
                None
            } else {
                let rdlen = be16(p, o1 + 8);
                let o2 = o1 + 10;
                if o2 + rdlen > p.len() {
                    None
                } else if be16(p, o1) == 1 && be16(p, o1 + 2) == 1 && rdlen == 4 {
                    Some(p.subrange(o2, o2 + 4))
                } else {
                    find_a_record(p, o2 + rdlen, (n - 1) as nat)
                }
            },
        }
    }
}

/// The address a DNS response to the client's query gives for its A record.
pub open spec fn dns_a_response_spec(p: Seq<u8>) -> Option<Seq<u8>> {
    if p.len() < 12 || be16(p, 0) != DNS_QUERY_ID {
        None
    } else {
        match skip_questions(p, 12, be16(p, 4) as nat) {
            None => None,
            Some(o) => find_a_record(p, o, be16(p, 6) as nat),
        }
    }
}

/// Moves `offset` past the DNS name that starts there.
pub fn skip_dns_name(packet: &[u8], offset: &mut usize) -> (res: Option<()>)
    ensures
        match res {
            Some(()) => skip_name_spec(packet@, *old(offset) as int) == Some(*final(offset) as int),
            None => skip_name_spec(packet@, *old(offset) as int) is None,
        },
{
    let ghost start = *offset as int;
    loop
        invariant
            start == *old(offset) as int,
            skip_name_spec(packet@, start) == skip_name_spec(packet@, *offset as int),
        decreases packet.len() - *offset,
    {
        if *offset >= packet.len() {
            return None;
        }
        let len = packet[*offset];
        *offset += 1;
        if len == 0 {
            return Some(());
        }
        assert((len & 0xc0 == 0xc0) == (len >= 0xc0)) by (bit_vector);
        if len & 0xc0 == 0xc0 {
            if *offset < packet.len() {
                *offset += 1;
                return Some(());
            } else {
                return None;
            }
        }
        if len as usize > packet.len() - *offset {
            return None;
        }
        *offset += len as usize;
    }
}

/// The address a DNS response to the client's query gives for its A record.
pub fn parse_dns_a_response(packet: &[u8]) -> (res: Option<[u8; 4]>)
    ensures
        match res {
            Some(a) => dns_a_response_spec(packet@) == Some(a@),
            None => dns_a_response_spec(packet@) is None,
        },
{
    if packet.len() < 12 {
        return None;
    }
    let id = match read_u16(packet, 0) {
        Some(v) => v,
        None => {
            return None;
        },
    };
    if id != DNS_QUERY_ID {
        return None;
    }
    let qdcount = match read_u16(packet, 4) {
        Some(v) => v as usize,
        None => {
            return None;
        },
    };
    let ancount = match read_u16(packet, 6) {
        Some(v) => v as usize,
        None => {
            return None;
        },
    };
    let mut offset: usize = 12;
    let mut q: usize = 0;
    while q < qdcount
        invariant
            q <= qdcount,
            offset <= packet.len(),
            qdcount == be16(packet@, 4),
            ancount == be16(packet@, 6),
            dns_a_response_spec(packet@) == match skip_questions(packet@, offset as int, (qdcount - q) as nat) {
                None => None,
                Some(o) => find_a_record(packet@, o, ancount as nat),
            },
        decreases qdcount - q,
    {
        if skip_dns_name(packet, &mut offset).is_none() {
            return None;
        }
        if offset > packet.len() || packet.len() - offset < 4 {
            return None;
        }
        offset = offset + 4;
        q += 1;
    }
    let mut a: usize = 0;
    while a < ancount
        invariant
            a <= ancount,
            offset <= packet.len(),
            ancount == be16(packet@, 6),
            dns_a_response_spec(packet@) == find_a_record(packet@, offset as int, (ancount - a) as nat),
        decreases ancount - a,
    {
        if skip_dns_name(packet, &mut offset).is_none() {
            return None;
        }
        if offset > packet.len() || packet.len() - offset < 10 {
            return None;
        }
        let rr_type = match read_u16(packet, offset) {
            Some(v) => v,
            None => {
                return None;
            },
        };
        let rr_class = match read_u16(packet, offset + 2) {
            Some(v) => v,
            None => {
                return None;
            },
        };
        let rdlen = match read_u16(packet, offset + 8) {
            Some(v) => v as usize,
            None => {
                return None;
            },
        };
        offset += 10;
        if rdlen > packet.len() - offset {
            return None;
        }
        if rr_type == 1 && rr_class == 1 && rdlen == 4 {
            let out = [packet[offset], packet[offset + 1], packet[offset + 2], packet[offset + 3]];
            assert(out@ == packet@.subrange(offset as int, offset + 4));
            return Some(out);
        }
        offset += rdlen;
        a += 1;
    }
    None
}

/// The address a dotted-quad text spells: four decimal numbers up to 255,
/// separated by `.`.
pub open spec fn ipv4_spec(s: Seq<char>) -> Option<Seq<u8>> {
    let parts = split_char(s, '.');
    if parts.len() == 4 && (forall|k: int| 0 <= k < 4 ==> decimal_value_at_most(#[trigger] parts[k], 255) is Some) {
        Some(Seq::new(4, |k: int| decimal_value_at_most(parts[k], 255)->0 as u8))
    } else {
        None
    }
}

/// The address the dotted-quad text `input` spells.
pub fn parse_ipv4(input: &str) -> (res: Option<[u8; 4]>)
    ensures
        match res {
            Some(a) => ipv4_spec(input@) == Some(a@),
            None => ipv4_spec(input@) is None,
        },
{
    let chars = str_chars(input);
    let parts = split_chars(chars.as_slice(), '.');
    let ghost pv = vecs_view(parts@);
    if parts.len() != 4 {
        return None;
    }
    let mut out: [u8; 4] = [0; 4];
    let mut k: usize = 0;
    while k < 4
        invariant
            k <= 4,
            parts@.len() == 4,
            pv == vecs_view(parts@),
            pv == split_char(input@, '.'),
            forall|j: int| 0 <= j < k ==> decimal_value_at_most(#[trigger] pv[j], 255) == Some(out@[j] as nat),
        decreases 4 - k,
    {
        assert(pv[k as int] == parts@[k as int]@);
        match parse_u8_chars(parts[k].as_slice()) {
            Some(v) => {
                out[k] = v;
            },
            None => {
                return None;
            },
        }
        k += 1;
    }
    assert(out@ =~= Seq::new(4, |j: int| decimal_value_at_most(pv[j], 255)->0 as u8));
    Some(out)
}

// ---------------------------------------------------------------------------
// Answers to the client's queries.

/// A reply that answers the query `query` with the address `ip`: the query
/// with its answer count set to one, then an Internet A record whose name
/// points back at the question.
pub open spec fn a_record_reply(query: Seq<u8>, ip: Seq<u8>) -> Seq<u8> {
    query.update(7, 1u8) + seq![0xc0u8, 12u8, 0u8, 1u8, 0u8, 1u8, 0u8, 0u8, 0u8, 0u8, 0u8, 4u8] + ip
}

proof fn lemma_encode_labels_front(labels: Seq<Seq<u8>>)
    requires
        labels.len() > 0,
    ensures
        encode_labels(labels) == seq![labels[0].len() as u8] + labels[0] + encode_labels(
            labels.drop_first(),
        ),
    decreases labels.len(),
{
    if labels.len() == 1 {
        assert(labels.drop_last() =~= Seq::<Seq<u8>>::empty());
        assert(labels.drop_first() =~= Seq::<Seq<u8>>::empty());
    } else {
        lemma_encode_labels_front(labels.drop_last());
        assert(labels.drop_last().drop_first() =~= labels.drop_first().drop_last());
        assert(labels.drop_first().last() == labels.last());
    }
}

/// A name written by the client, its labels and then a zero, is skipped in
/// one go.
proof fn lemma_skip_encoded_name(p: Seq<u8>, o: int, labels: Seq<Seq<u8>>)
    requires
        0 <= o,
        labels_valid(labels),
        o + encode_labels(labels).len() + 1 <= p.len(),
        p.subrange(o, o + encode_labels(labels).len() + 1) == encode_labels(labels) + seq![0u8],
    ensures
        skip_name_spec(p, o) == Some(o + encode_labels(labels).len() + 1),
    decreases labels.len(),
{
    let e = encode_labels(labels);
    if labels.len() == 0 {
        assert(p[o] == p.subrange(o, o + e.len() + 1)[0]);
    } else {
        lemma_encode_labels_front(labels);
        let first = labels[0];
        let rest = labels.drop_first();
        let er = encode_labels(rest);
        assert(0 < labels[0].len() <= 63);
        assert(p[o] == p.subrange(o, o + e.len() + 1)[0]);
        assert(p[o] == first.len() as u8);
        assert(labels_valid(rest)) by {
            assert forall|i: int| 0 <= i < rest.len() implies 0 < #[trigger] rest[i].len() <= 63 by {
                assert(rest[i] == labels[i + 1]);
            }
        }
        let o2 = o + 1 + first.len();
        assert(p.subrange(o2, o2 + er.len() + 1) =~= er + seq![0u8]) by {
            assert forall|k: int| 0 <= k < er.len() + 1 implies #[trigger] p.subrange(
                o2,
                o2 + er.len() + 1,
            )[k] == (er + seq![0u8])[k] by {
                assert(p.subrange(o, o + e.len() + 1)[1 + first.len() + k] == p[o2 + k]);
            }
        }
        lemma_skip_encoded_name(p, o2, rest);
    }
}

/// A reply to the client's query for `host` that answers it with an A
/// record gives that record's address.
pub proof fn lemma_reply_gives_address(host: Seq<char>, ip: Seq<u8>)
    requires
        dns_query_spec(host) is Ok,
        ip.len() == 4,
    ensures
        dns_a_response_spec(a_record_reply(dns_query_spec(host)->Ok_0, ip)) == Some(ip),
{
    let labels = host_labels(host);
    let e = encode_labels(labels);
    let q = dns_query_spec(host)->Ok_0;
    let answer = seq![0xc0u8, 12u8, 0u8, 1u8, 0u8, 1u8, 0u8, 0u8, 0u8, 0u8, 0u8, 4u8];
    let r = a_record_reply(q, ip);
    let n = q.len() as int;
    let el = e.len() as int;
    assert(q == dns_query_header() + e + seq![0u8, 0u8, 1u8, 0u8, 1u8]);
    assert(n == 12 + e.len() + 5);
    assert(r.len() == n + 16);
    assert forall|k: int| 0 <= k < n && k != 7 implies #[trigger] r[k] == q[k] by {}
    assert(r[7] == 1u8);
    assert forall|k: int| 0 <= k < 12 implies #[trigger] r[n + k] == answer[k] by {}
    assert forall|k: int| 0 <= k < 4 implies #[trigger] r[n + 12 + k] == ip[k] by {}
    assert(r[0] == 0x59u8 && r[1] == 0x54u8);
    assert(be16(r, 0) == DNS_QUERY_ID);
    assert(r[4] == 0u8 && r[5] == 1u8 && r[6] == 0u8);
    assert(be16(r, 4) == 1);
    assert(be16(r, 6) == 1);
    assert(r.subrange(12, 12 + el + 1) =~= e + seq![0u8]) by {
        assert forall|k: int| 0 <= k < e.len() + 1 implies #[trigger] r.subrange(12, 12 + el + 1)[k]
            == (e + seq![0u8])[k] by {
            assert(r[12 + k] == q[12 + k]);
        }
    }
    lemma_skip_encoded_name(r, 12, labels);
    assert(skip_name_spec(r, 12) == Some(12 + el + 1));
    assert(skip_questions(r, n, 0) == Some(n));
    assert(skip_questions(r, 12, 1) == Some(n));
    assert(r[n] == 0xc0u8);
    assert(skip_name_spec(r, n) == Some(n + 2));
    assert(be16(r, n + 2) == 1);
    assert(be16(r, n + 4) == 1);
    assert(be16(r, n + 10) == 4);
    assert(r.subrange(n + 12, n + 16) =~= ip);
    assert(find_a_record(r, n, 1) == Some(ip));
    assert(dns_a_response_spec(r) == Some(ip));
}

} // verus!
