use scarlet_youtube::form::{append_query_param, form_decode, form_value, push_form_encoded};

#[test]
fn form_encoding_keeps_unreserved_bytes() {
    let mut out = String::new();
    push_form_encoded(&mut out, "a Z-_.~/é");
    assert_eq!(out, "a%20Z-_.~%2F%C3%A9");
}

#[test]
fn form_decoding() {
    assert_eq!(form_decode("a+b%2Fc"), Some("a b/c".to_string()));
    assert_eq!(form_decode("%e9"), Some("\u{e9}".to_string()));
    assert_eq!(form_decode("%C3%A9"), Some("\u{c3}\u{a9}".to_string()));
    assert_eq!(form_decode("%4"), None);
    assert_eq!(form_decode("%zz"), None);
    assert_eq!(form_decode(""), Some(String::new()));
}

#[test]
fn decoding_what_was_encoded_gives_ascii_text_back() {
    let text = "sig=a/b c&d~e";
    let mut encoded = String::new();
    push_form_encoded(&mut encoded, text);
    assert_eq!(form_decode(&encoded), Some(text.to_string()));
}

#[test]
fn decoding_what_was_encoded_gives_each_byte_back() {
    let text = "é";
    let mut encoded = String::new();
    push_form_encoded(&mut encoded, text);
    let expected: String = text.bytes().map(|b| b as char).collect();
    assert_eq!(form_decode(&encoded), Some(expected));
}

#[test]
fn form_values() {
    let q = "s=abc%3D&sp=sig&url=https%3A%2F%2Fx%2Fv%3Fa%3D1";
    assert_eq!(form_value(q, "url"), Some("https://x/v?a=1".to_string()));
    assert_eq!(form_value(q, "s"), Some("abc=".to_string()));
    assert_eq!(form_value(q, "none"), None);
    assert_eq!(form_value("flag&x=1", "flag"), Some(String::new()));
    assert_eq!(form_value("%zz=1&x=2", "x"), None);
}

#[test]
fn query_parameters_are_appended() {
    let mut u = String::from("https://h/p");
    append_query_param(&mut u, "sig", "a b");
    assert_eq!(u, "https://h/p?sig=a%20b");
    append_query_param(&mut u, "n", "1&2");
    assert_eq!(u, "https://h/p?sig=a%20b&n=1%262");
}

#[test]
fn ascii_text_survives_form_encoding() {
    for text in ["", "plain", "a b+c&d=e/f?g%h", "~-_.!*'()", "\t\r\n\u{7f}"] {
        let mut encoded = String::new();
        push_form_encoded(&mut encoded, text);
        assert!(encoded.bytes().all(|b| b.is_ascii_alphanumeric() || b"-_.~%".contains(&b)));
        assert_eq!(form_decode(&encoded), Some(text.to_string()));
    }
}
