use scarlet_youtube::json::{
    find_matching_json, json_object_field, json_string_field, json_usize_field,
    parse_json_string_value, push_json_escaped, youtube_renderer_text, JsonObjects,
};

fn chars(s: &str) -> Vec<char> {
    s.chars().collect()
}

#[test]
fn matching_brackets_skip_strings() {
    let text = chars("{\"a\":\"}\\\"{\",\"b\":{\"c\":[1]}} tail");
    assert_eq!(find_matching_json(&text, 0, '{', '}'), Some(25));
    assert_eq!(find_matching_json(&text, 1, '{', '}'), None);
    assert_eq!(find_matching_json(&chars("{\"a\":1"), 0, '{', '}'), None);
    assert_eq!(find_matching_json(&chars("[[1],[2]]"), 0, '[', ']'), Some(8));
    assert_eq!(find_matching_json(&chars("{"), 5, '{', '}'), None);
}

#[test]
fn string_values_are_unescaped() {
    let text = chars("\"x\":\"a\\\"b\\\\c\\/d\\n\\t\\u00e9\\ud83d\\ude00\" more");
    assert_eq!(
        parse_json_string_value(&text, 5),
        Some("a\"b\\c/d\n\t\u{e9}\u{1F600}".to_string())
    );
}

#[test]
fn string_value_failures() {
    assert_eq!(parse_json_string_value(&chars("abc"), 0), None);
    assert_eq!(parse_json_string_value(&chars("a\\x\""), 0), None);
    assert_eq!(parse_json_string_value(&chars("\\ud83dx\""), 0), None);
    assert_eq!(parse_json_string_value(&chars("\\ud83d\\u0041\""), 0), None);
    assert_eq!(parse_json_string_value(&chars("\\udc00\""), 0), None);
    assert_eq!(parse_json_string_value(&chars("\\u00zz\""), 0), None);
    assert_eq!(parse_json_string_value(&chars("\""), 0), Some(String::new()));
}

#[test]
fn fields_by_name() {
    let obj = chars("{\"videoId\":\"abc\",\"height\": 720,\"title\":{\"runs\":[{\"text\":\"T\"}]},\"len\":{\"simpleText\":\"3:10\"}}");
    assert_eq!(json_string_field(&obj, "videoId"), Some("abc".to_string()));
    assert_eq!(json_string_field(&obj, "missing"), None);
    assert_eq!(json_usize_field(&obj, "height"), Some(720));
    assert_eq!(json_usize_field(&obj, "videoId"), None);
    let title: String = json_object_field(&obj, "title").unwrap().iter().collect();
    assert_eq!(title, "{\"runs\":[{\"text\":\"T\"}]}");
    assert_eq!(youtube_renderer_text(&obj, "title"), Some("T".to_string()));
    assert_eq!(youtube_renderer_text(&obj, "len"), Some("3:10".to_string()));
    assert_eq!(youtube_renderer_text(&obj, "videoId"), None);
}

#[test]
fn escaping_for_json() {
    let mut out = String::from("\"");
    push_json_escaped(&mut out, "q\"b\\n\nr\rt\t\u{8}\u{c}\u{1}é");
    assert_eq!(out, "\"q\\\"b\\\\n\\nr\\rt\\t\\b\\f\\u0001é");
}

#[test]
fn escaped_text_reads_back() {
    let text = "line\n\"quoted\" \\ tab\t \u{1f} ünï 😀";
    let mut out = String::new();
    push_json_escaped(&mut out, text);
    out.push('"');
    out.push_str(",\"next\":1");
    assert_eq!(parse_json_string_value(&chars(&out), 0), Some(text.to_string()));
}

#[test]
fn objects_one_after_another() {
    let text = chars("{\"a\":1}, {\"b\":{\"c\":2}} ,{\"d\":\"}\"}");
    let mut objects = JsonObjects::new(&text);
    let mut seen = Vec::new();
    while let Some(o) = objects.next_object() {
        seen.push(o.iter().collect::<String>());
    }
    assert_eq!(seen, vec!["{\"a\":1}".to_string(), "{\"b\":{\"c\":2}}".to_string(), "{\"d\":\"}\"}".to_string()]);
    let broken = chars("{\"a\":1} {\"b\":");
    let mut objects = JsonObjects::new(&broken);
    assert!(objects.next_object().is_some());
    assert!(objects.next_object().is_none());
}
