use scarlet_youtube::url::{
    is_youtube_url, looks_like_url, parse_url, resolve_redirect, youtube_video_id,
};

fn parts(input: &str) -> (String, String, u16, String) {
    let u = parse_url(input).unwrap();
    (u.scheme, u.host, u.port, u.path)
}

#[test]
fn parse_url_splits_scheme_host_port_path() {
    assert_eq!(
        parts("HTTPS://www.youtube.com/watch?v=abc"),
        ("https".to_string(), "www.youtube.com".to_string(), 443, "/watch?v=abc".to_string())
    );
    assert_eq!(
        parts("http://example.com"),
        ("http".to_string(), "example.com".to_string(), 80, "/".to_string())
    );
    assert_eq!(
        parts("http://example.com?q=1/2"),
        ("http".to_string(), "example.com".to_string(), 80, "/?q=1/2".to_string())
    );
    assert_eq!(
        parts("ftp://h:21/x"),
        ("ftp".to_string(), "h".to_string(), 21, "/x".to_string())
    );
}

#[test]
fn parse_url_errors() {
    assert_eq!(parse_url("example.com/x").err(), Some("URL must include a scheme".to_string()));
    assert_eq!(parse_url("http:///x").err(), Some("URL host is empty".to_string()));
    assert_eq!(parse_url("http://h:99999/").err(), Some("invalid URL port".to_string()));
    assert_eq!(parse_url("http://h:/").err(), Some("invalid URL port".to_string()));
    assert_eq!(parse_url("gopher://h/").err(), Some("unsupported URL scheme: gopher".to_string()));
}

#[test]
fn redirects_resolve_against_the_base() {
    let base = parse_url("https://h.example:8443/a/b/c?x").unwrap();
    let abs = resolve_redirect(&base, "/root").unwrap();
    assert_eq!((abs.host.as_str(), abs.port, abs.path.as_str()), ("h.example", 8443, "/root"));
    let rel = resolve_redirect(&base, "d?e").unwrap();
    assert_eq!(rel.path, "/a/b/d?e");
    let full = resolve_redirect(&base, "http://o.example/p").unwrap();
    assert_eq!((full.scheme.as_str(), full.host.as_str(), full.port, full.path.as_str()), ("http", "o.example", 80, "/p"));
    assert_eq!(resolve_redirect(&base, "bad://").err(), Some("URL host is empty".to_string()));
}

#[test]
fn url_kinds() {
    assert!(is_youtube_url("https://www.youtube.com/watch?v=x"));
    assert!(is_youtube_url("youtu.be/x"));
    assert!(!is_youtube_url("https://example.com/"));
    assert!(looks_like_url("a://b"));
    assert!(!looks_like_url("just words"));
}

#[test]
fn video_ids() {
    assert_eq!(youtube_video_id("https://youtu.be/abc123?t=4"), Some("abc123".to_string()));
    assert_eq!(youtube_video_id("https://youtu.be/abc/def"), Some("abc".to_string()));
    assert_eq!(youtube_video_id("https://www.youtube.com/watch?feature=x&v=ID_9&t=1"), Some("ID_9".to_string()));
    assert_eq!(youtube_video_id("https://www.youtube.com/watch?feature=x"), None);
    assert_eq!(youtube_video_id("https://www.youtube.com/watch"), None);
    assert_eq!(youtube_video_id("https://www.youtube.com/watch?v="), Some(String::new()));
}

#[test]
fn watch_urls_give_back_their_video_id() {
    check_watch_url("dQw4w9WgXcQ");
    check_watch_url("");
    check_watch_url("x/y=z");
}

fn check_watch_url(id: &str) {
    let hit = scarlet_youtube::YoutubeSearchResult {
        video_id: id.to_string(),
        title: "T".to_string(),
        channel: None,
        duration: None,
        thumbnail_url: None,
    };
    assert_eq!(youtube_video_id(&hit.watch_url()), Some(id.to_string()));
}
