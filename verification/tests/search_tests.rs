use scarlet_youtube::search::{
    parse_youtube_search_result, parse_youtube_search_results, youtube_search_url,
};

fn renderer(id: &str, title: &str, extra: &str) -> String {
    format!(
        "\"videoRenderer\": {{\"videoId\":\"{}\",\"title\":{{\"runs\":[{{\"text\":\"{}\"}}]}}{}}}",
        id, title, extra
    )
}

#[test]
fn search_page_results_in_order() {
    let page = format!(
        "var ytInitialData = {{\"contents\":[{{{}}},{{{}}},{{{}}},{{{}}}]}};",
        renderer("a", "First", ",\"ownerText\":{\"runs\":[{\"text\":\"Chan A\"}]},\"lengthText\":{\"simpleText\":\"1:02\"}"),
        renderer("b", "Second", ",\"longBylineText\":{\"runs\":[{\"text\":\"Chan B\"}]}"),
        renderer("a", "Dup", ""),
        "\"videoRenderer\":{\"videoId\":\"c\"}"
    );
    let results = parse_youtube_search_results(&page);
    assert_eq!(results.len(), 2);
    assert_eq!(results[0].video_id, "a");
    assert_eq!(results[0].title, "First");
    assert_eq!(results[0].channel.as_deref(), Some("Chan A"));
    assert_eq!(results[0].duration.as_deref(), Some("1:02"));
    assert_eq!(results[1].video_id, "b");
    assert_eq!(results[1].channel.as_deref(), Some("Chan B"));
    assert_eq!(results[1].duration, None);
    assert_eq!(results[1].watch_url(), "https://www.youtube.com/watch?v=b");
}

#[test]
fn at_most_twenty_results() {
    let mut page = String::from("[");
    for i in 0..30 {
        page.push_str(&format!("{{{}}},", renderer(&format!("id{}", i), "T", "")));
    }
    page.push(']');
    let results = parse_youtube_search_results(&page);
    assert_eq!(results.len(), 20);
    assert_eq!(results[19].video_id, "id19");
}

#[test]
fn an_unclosed_renderer_ends_the_scan() {
    let page = format!("{{{}}} \"videoRenderer\":{{\"videoId\":\"x\"", renderer("a", "A", ""));
    let results = parse_youtube_search_results(&page);
    assert_eq!(results.len(), 1);
    assert!(parse_youtube_search_results("no results here").is_empty());
}

#[test]
fn one_renderer() {
    let object: Vec<char> = "{\"videoId\":\"v\",\"title\":{\"simpleText\":\"S\"},\"shortBylineText\":{\"runs\":[{\"text\":\"C\"}]}}".chars().collect();
    let r = parse_youtube_search_result(&object).unwrap();
    assert_eq!((r.video_id.as_str(), r.title.as_str(), r.channel.as_deref()), ("v", "S", Some("C")));
    let no_title: Vec<char> = "{\"videoId\":\"v\"}".chars().collect();
    assert!(parse_youtube_search_result(&no_title).is_none());
}

#[test]
fn search_url_form_encodes_the_query() {
    assert_eq!(
        youtube_search_url("hanaarashi eve/ü"),
        "https://www.youtube.com/results?search_query=hanaarashi%20eve%2F%C3%BC"
    );
}

#[test]
fn a_renderer_that_is_not_an_object_ends_the_scan() {
    let page = format!("\"videoRenderer\":null, {{{}}}", renderer("a", "A", ""));
    assert!(parse_youtube_search_results(&page).is_empty());
}

#[test]
fn thumbnails_and_tsv_hits() {
    let page = format!(
        "[{{{}}}]",
        renderer("a", "A", ",\"thumbnail\":{\"thumbnails\":[{\"url\":\"https://i/a1.jpg\"},{\"url\":\"https://i/a2.jpg\"}]}")
    );
    let results = parse_youtube_search_results(&page);
    assert_eq!(results.len(), 1);
    assert_eq!(results[0].thumbnail_url.as_deref(), Some("https://i/a1.jpg"));
    let hit = results.into_iter().next().unwrap().into_tsv_result();
    assert_eq!(hit.video_id, "a");
    assert_eq!(hit.title, "A");
    assert_eq!(hit.thumbnail_url.as_deref(), Some("https://i/a1.jpg"));
    let none = parse_youtube_search_results(&format!("[{{{}}}]", renderer("b", "B", "")));
    assert_eq!(none[0].thumbnail_url, None);
}
