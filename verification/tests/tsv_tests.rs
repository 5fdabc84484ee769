use scarlet_youtube::tsv::{
    encode_search_results_tsv, non_empty, parse_search_result_tsv_line, parse_search_results_tsv,
    push_escaped_field, split_escaped_tsv_line, YoutubeSearchResult,
};

fn result(
    video_id: &str,
    title: &str,
    channel: Option<&str>,
    duration: Option<&str>,
    thumbnail_url: Option<&str>,
) -> YoutubeSearchResult {
    YoutubeSearchResult {
        video_id: video_id.to_string(),
        title: title.to_string(),
        channel: channel.map(|s| s.to_string()),
        duration: duration.map(|s| s.to_string()),
        thumbnail_url: thumbnail_url.map(|s| s.to_string()),
    }
}

fn same(a: &YoutubeSearchResult, b: &YoutubeSearchResult) -> bool {
    a.video_id == b.video_id
        && a.title == b.title
        && a.channel == b.channel
        && a.duration == b.duration
        && a.thumbnail_url == b.thumbnail_url
}

#[test]
fn watch_url_appends_the_video_id() {
    let r = result("dQw4w9WgXcQ", "t", None, None, None);
    assert_eq!(r.watch_url(), "https://www.youtube.com/watch?v=dQw4w9WgXcQ");
}

#[test]
fn encode_writes_one_escaped_line_per_result() {
    let rs = vec![
        result("a1", "Tab\there", Some("Chan"), None, Some("https://i/x.jpg")),
        result("b2", "Line\nbreak\\slash\r", None, Some("3:05"), None),
    ];
    let text = encode_search_results_tsv(&rs);
    assert_eq!(
        text,
        "a1\tTab\\there\tChan\t\thttps://i/x.jpg\nb2\tLine\\nbreak\\\\slash\\r\t\t3:05\t\n"
    );
}

#[test]
fn encode_of_no_results_is_empty() {
    assert_eq!(encode_search_results_tsv(&[]), "");
}

#[test]
fn push_escaped_field_escapes_separators() {
    let mut out = String::from(">");
    push_escaped_field(&mut out, "a\tb\nc\rd\\e");
    assert_eq!(out, ">a\\tb\\nc\\rd\\\\e");
}

#[test]
fn tsv_roundtrip_gives_the_results_back() {
    let rs = vec![
        result("id-1", "Title \t with \\ odd\nchars", Some("Channel"), Some("10:01"), Some("u")),
        result("id-2", "Plain", None, None, None),
        result("ünï", "日本語のタイトル", Some("c\r\n"), None, Some("https://x")),
    ];
    let parsed = parse_search_results_tsv(&encode_search_results_tsv(&rs));
    assert_eq!(parsed.len(), rs.len());
    for (a, b) in parsed.iter().zip(rs.iter()) {
        assert!(same(a, b));
    }
}

#[test]
fn tsv_roundtrip_turns_empty_optional_fields_into_none() {
    let rs = vec![result("v", "t", Some(""), Some(""), Some(""))];
    let parsed = parse_search_results_tsv(&encode_search_results_tsv(&rs));
    assert_eq!(parsed.len(), 1);
    assert_eq!(parsed[0].channel, None);
    assert_eq!(parsed[0].duration, None);
    assert_eq!(parsed[0].thumbnail_url, None);
}

#[test]
fn parse_skips_lines_without_id_title_or_enough_fields() {
    let text = "\tTitle\t\t\t\nid\t\t\t\t\nid\tTitle\tc\td\nok\tGood\t\t\t\n";
    let parsed = parse_search_results_tsv(text);
    assert_eq!(parsed.len(), 1);
    assert_eq!(parsed[0].video_id, "ok");
    assert_eq!(parsed[0].title, "Good");
}

#[test]
fn parse_accepts_crlf_lines_and_a_last_line_without_newline() {
    let text = "a\tA\tch\t1:00\tth\r\nb\tB\t\t\t";
    let parsed = parse_search_results_tsv(text);
    assert_eq!(parsed.len(), 2);
    assert_eq!(parsed[0].thumbnail_url.as_deref(), Some("th"));
    assert_eq!(parsed[1].video_id, "b");
    assert_eq!(parsed[1].channel, None);
}

#[test]
fn parse_keeps_extra_fields_out() {
    let parsed = parse_search_results_tsv("a\tA\tc\td\tt\textra\n");
    assert_eq!(parsed.len(), 1);
    assert_eq!(parsed[0].thumbnail_url.as_deref(), Some("t"));
}

#[test]
fn split_unescapes_and_keeps_unknown_escapes() {
    let fields = split_escaped_tsv_line("a\\tb\tc\\qd\t\\\\\t");
    assert_eq!(fields, vec!["a\tb".to_string(), "cqd".to_string(), "\\".to_string(), String::new()]);
}

#[test]
fn split_drops_a_trailing_backslash() {
    let fields = split_escaped_tsv_line("ab\\");
    assert_eq!(fields, vec!["ab".to_string()]);
}

#[test]
fn parse_line_needs_five_fields() {
    assert!(parse_search_result_tsv_line("a\tb\tc\td").is_none());
    let r = parse_search_result_tsv_line("a\tb\t\t\t").unwrap();
    assert!(same(&r, &result("a", "b", None, None, None)));
}

#[test]
fn non_empty_maps_empty_to_none() {
    assert_eq!(non_empty(String::new()), None);
    assert_eq!(non_empty("x".to_string()), Some("x".to_string()));
}

#[test]
fn any_hits_read_back_with_blank_ones_dropped() {
    let hits = vec![
        result("a", "A", Some(""), Some("1:00"), Some("")),
        result("", "no id", None, None, None),
        result("b", "", Some("x"), None, None),
        result("c\tid", "C\\title\n", None, Some(""), Some("t")),
    ];
    let back = parse_search_results_tsv(&encode_search_results_tsv(&hits));
    assert_eq!(back.len(), 2);
    assert!(same(&back[0], &result("a", "A", None, Some("1:00"), None)));
    assert!(same(&back[1], &result("c\tid", "C\\title\n", None, None, Some("t"))));
}

#[test]
fn joined_texts_read_as_their_hits_in_turn() {
    let first = encode_search_results_tsv(&[result("a", "A", None, None, None)]);
    let second = "b\tB\t\t\t\nbroken line\nc\tC\tch\t\t";
    let joined = parse_search_results_tsv(&format!("{}{}", first, second));
    let mut apart = parse_search_results_tsv(&first);
    apart.extend(parse_search_results_tsv(second));
    assert_eq!(joined.len(), 3);
    assert_eq!(joined.len(), apart.len());
    for (x, y) in joined.iter().zip(apart.iter()) {
        assert!(same(x, y));
    }
    assert_eq!(parse_search_results_tsv(&format!("{}{}", "", second)).len(), 2);
}

#[test]
fn a_line_of_escaped_fields_splits_back() {
    let fields = ["", "tab\there", "back\\slash", "line\nbreak\r", "x"];
    let mut line = String::new();
    for (i, f) in fields.iter().enumerate() {
        if i > 0 {
            line.push('\t');
        }
        push_escaped_field(&mut line, f);
    }
    assert_eq!(split_escaped_tsv_line(&line), fields.iter().map(|f| f.to_string()).collect::<Vec<_>>());
    let mut one = String::new();
    push_escaped_field(&mut one, "");
    assert_eq!(split_escaped_tsv_line(&one), vec![String::new()]);
}
