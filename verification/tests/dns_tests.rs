use scarlet_youtube::dns::{build_dns_query, parse_dns_a_response, parse_ipv4, skip_dns_name};

#[test]
fn query_for_a_host() {
    let q = build_dns_query("www.a.io").unwrap();
    let mut expected = vec![0x59, 0x54, 0x01, 0x00, 0, 1, 0, 0, 0, 0, 0, 0];
    expected.extend_from_slice(&[3, b'w', b'w', b'w', 1, b'a', 2, b'i', b'o', 0, 0, 1, 0, 1]);
    assert_eq!(q, expected);
}

#[test]
fn query_refuses_empty_and_long_labels() {
    assert_eq!(build_dns_query("a..b").err(), Some("invalid DNS name".to_string()));
    assert_eq!(build_dns_query("").err(), Some("invalid DNS name".to_string()));
    let long = "x".repeat(64);
    assert_eq!(build_dns_query(&long).err(), Some("invalid DNS name".to_string()));
    assert!(build_dns_query(&"x".repeat(63)).is_ok());
}

fn answer_packet(rr_type: u8, rdata: &[u8]) -> Vec<u8> {
    let mut p = build_dns_query("h.io").unwrap();
    p[2] = 0x81;
    p[3] = 0x80;
    p[7] = 1;
    p.extend_from_slice(&[0xc0, 12, 0, rr_type, 0, 1, 0, 0, 0, 60, 0, rdata.len() as u8]);
    p.extend_from_slice(rdata);
    p
}

#[test]
fn response_with_an_a_record() {
    assert_eq!(parse_dns_a_response(&answer_packet(1, &[93, 184, 216, 34])), Some([93, 184, 216, 34]));
}

#[test]
fn response_without_an_a_record() {
    assert_eq!(parse_dns_a_response(&answer_packet(5, &[1, 2, 3, 4])), None);
    assert_eq!(parse_dns_a_response(&answer_packet(1, &[1, 2, 3])), None);
    let mut wrong_id = answer_packet(1, &[1, 2, 3, 4]);
    wrong_id[0] = 0;
    assert_eq!(parse_dns_a_response(&wrong_id), None);
    assert_eq!(parse_dns_a_response(&[0x59, 0x54, 0, 0]), None);
    let mut cut = answer_packet(1, &[1, 2, 3, 4]);
    cut.truncate(cut.len() - 1);
    assert_eq!(parse_dns_a_response(&cut), None);
}

#[test]
fn a_cname_before_the_a_record_is_skipped() {
    let mut p = build_dns_query("h.io").unwrap();
    p[7] = 2;
    p.extend_from_slice(&[0xc0, 12, 0, 5, 0, 1, 0, 0, 0, 60, 0, 2, 0xc0, 12]);
    p.extend_from_slice(&[0xc0, 12, 0, 1, 0, 1, 0, 0, 0, 60, 0, 4, 10, 0, 0, 7]);
    assert_eq!(parse_dns_a_response(&p), Some([10, 0, 0, 7]));
}

#[test]
fn names_are_skipped() {
    let packet = [1, b'a', 0, 0xc0, 5, 9];
    let mut offset = 0usize;
    assert_eq!(skip_dns_name(&packet, &mut offset), Some(()));
    assert_eq!(offset, 3);
    assert_eq!(skip_dns_name(&packet, &mut offset), Some(()));
    assert_eq!(offset, 5);
    let mut offset = 6usize;
    assert_eq!(skip_dns_name(&packet, &mut offset), None);
    let mut offset = 0usize;
    assert_eq!(skip_dns_name(&[5, b'a'], &mut offset), None);
}

#[test]
fn dotted_quads() {
    assert_eq!(parse_ipv4("10.0.2.3"), Some([10, 0, 2, 3]));
    assert_eq!(parse_ipv4("256.0.0.1"), None);
    assert_eq!(parse_ipv4("1.2.3"), None);
    assert_eq!(parse_ipv4("1.2.3.4.5"), None);
    assert_eq!(parse_ipv4("a.b.c.d"), None);
    assert_eq!(parse_ipv4("example.com"), None);
}
