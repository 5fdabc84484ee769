use scarlet_youtube::cli::require_search_results;
use scarlet_youtube::cli::{
    choose_output_path, derive_audio_output_path, display_path, download_mode,
    download_with_marker, feed_prompt_line, is_media_stream_closed_by_player, join_query_terms,
    media_stream_outcome, needs_search, pair_download_outcome, parse_cli_args,
    parse_input_or_search_query, parse_thumbnail_manifest, path_basename, player_args,
    search_result_line,
    selection_index, stream_file_path, stream_player_args, stream_socket_path,
    youtube_output_path, CliCommand, DownloadMode,
};
use scarlet_youtube::search::YoutubeSearchResult;

fn args(list: &[&str]) -> Vec<String> {
    list.iter().map(|s| s.to_string()).collect()
}

#[test]
fn no_arguments_or_help_asks_for_usage() {
    assert!(matches!(parse_cli_args(&args(&["yt"])), Ok(CliCommand::Usage)));
    assert!(matches!(parse_cli_args(&args(&["yt", "x", "--help", "-o"])), Ok(CliCommand::Usage)));
    assert!(matches!(parse_cli_args(&args(&["yt", "-h"])), Ok(CliCommand::Usage)));
}

#[test]
fn options_and_words() {
    match parse_cli_args(&args(&["yt", "--headers", "search", "-o", "/tmp/x.mp4", "--no-play", "two words"])) {
        Ok(CliCommand::Run(o)) => {
            assert_eq!(o.output.as_deref(), Some("/tmp/x.mp4"));
            assert!(o.print_headers);
            assert!(!o.play);
            assert_eq!(o.positional, args(&["search", "two words"]));
        }
        _ => panic!("expected a run"),
    }
    match parse_cli_args(&args(&["yt", "--output", "a", "--output", "b"])) {
        Ok(CliCommand::Run(o)) => {
            assert_eq!(o.output.as_deref(), Some("b"));
            assert!(o.play);
            assert!(o.positional.is_empty());
        }
        _ => panic!("expected a run"),
    }
}

#[test]
fn output_needs_a_path() {
    assert_eq!(parse_cli_args(&args(&["yt", "url", "-o"])).err(), Some("--output requires a path".to_string()));
}

#[test]
fn query_words() {
    assert_eq!(join_query_terms(&args(&["a", "", "b"])), Ok("a  b".to_string()));
    assert_eq!(join_query_terms(&args(&["", "b"])), Ok("b".to_string()));
    assert_eq!(join_query_terms(&[]), Err("missing search query".to_string()));
    assert_eq!(parse_input_or_search_query(&args(&["search", "eve", "song"])), Ok("eve song".to_string()));
    assert_eq!(parse_input_or_search_query(&args(&["search"])), Err("missing search query".to_string()));
    assert_eq!(parse_input_or_search_query(&[]), Err("missing URL or search query".to_string()));
    assert_eq!(parse_input_or_search_query(&args(&["https://youtu.be/x"])), Ok("https://youtu.be/x".to_string()));
}

#[test]
fn what_needs_a_search() {
    assert!(needs_search("hanaarashi eve"));
    assert!(!needs_search("https://example.com/v.mp4"));
    assert!(!needs_search("youtu.be/abc"));
}

#[test]
fn paths() {
    assert_eq!(path_basename("/root/media/a.mp4"), "a.mp4");
    assert_eq!(path_basename("plain"), "plain");
    assert_eq!(path_basename("dir/"), "");
    assert_eq!(stream_socket_path("/root/media/a.mp4", "video", 42), "/tmp/scarlet-yt-42-video-a.mp4.sock");
    assert_eq!(stream_file_path("/root/media/a.m4a", "audio", 7), "/tmp/scarlet-yt-7-audio-a.m4a");
    assert_eq!(derive_audio_output_path("/root/media/a.mp4"), "/root/media/a.m4a");
    assert_eq!(derive_audio_output_path("/root/x.y/noext"), "/root/x.m4a");
    assert_eq!(derive_audio_output_path("noext"), "noext.m4a");
    assert_eq!(youtube_output_path("ID"), "/root/media/youtube-ID.mp4");
}

#[test]
fn output_path_choice() {
    assert_eq!(choose_output_path(Some("o.mp4".to_string()), Some("id")), "o.mp4");
    assert_eq!(choose_output_path(None, Some("id")), "/root/media/youtube-id.mp4");
    assert_eq!(choose_output_path(None, None), "/tmp/yt.mp4");
}

#[test]
fn long_paths_are_cut_for_display() {
    let short = "/a/b";
    assert_eq!(display_path(short), short);
    let long = "x".repeat(200);
    assert_eq!(display_path(&long), format!("{}...", "x".repeat(160)));
    let exact = "y".repeat(160);
    assert_eq!(display_path(&exact), exact);
}

#[test]
fn selection_answers() {
    assert_eq!(selection_index("", 3), Ok(0));
    assert_eq!(selection_index("2", 3), Ok(1));
    assert_eq!(selection_index("10", 20), Ok(9));
    assert_eq!(selection_index("11", 20), Err("selection out of range".to_string()));
    assert_eq!(selection_index("4", 3), Err("selection out of range".to_string()));
    assert_eq!(selection_index("0", 3), Err("selection out of range".to_string()));
    assert_eq!(selection_index("q", 3), Err("selection canceled".to_string()));
    assert_eq!(selection_index("Q", 3), Err("selection canceled".to_string()));
    assert_eq!(selection_index("x", 3), Err("invalid selection".to_string()));
}

#[test]
fn stream_outcomes() {
    assert!(is_media_stream_closed_by_player("media stream write failed: broken pipe"));
    assert!(is_media_stream_closed_by_player("media stream short write"));
    assert!(!is_media_stream_closed_by_player("media stream write timed out"));
    assert_eq!(media_stream_outcome(Err("media stream short write".to_string()), 0), Ok(()));
    assert_eq!(
        media_stream_outcome(Err("media stream short write".to_string()), 1),
        Err("media stream short write".to_string())
    );
    assert_eq!(media_stream_outcome(Err("HTTP status 403".to_string()), 0), Err("HTTP status 403".to_string()));
    assert_eq!(media_stream_outcome(Ok(()), 0), Ok(()));
    assert_eq!(media_stream_outcome(Ok(()), 3), Err("video_player exited with status 3".to_string()));
    assert_eq!(media_stream_outcome(Ok(()), -9), Err("video_player exited with status -9".to_string()));
    assert_eq!(
        media_stream_outcome(Ok(()), i32::MIN),
        Err(format!("video_player exited with status {}", i32::MIN))
    );
}

#[test]
fn download_modes_and_player_arguments() {
    assert_eq!(download_mode(true, true), DownloadMode::StreamAndPlay);
    assert_eq!(download_mode(false, true), DownloadMode::FetchPair);
    assert_eq!(download_mode(true, false), DownloadMode::FetchOne);
    assert_eq!(player_args("v.mp4", None, None, false), args(&["video_player", "--hwdc", "v.mp4"]));
    assert_eq!(
        player_args("v.mp4", Some("a.m4a"), None, false),
        args(&["video_player", "--hwdc", "v.mp4", "--audio", "a.m4a"])
    );
    assert_eq!(
        stream_player_args("/tmp/s.sock", "/tmp/a", "v.mp4", None, false),
        args(&["video_player", "--hwdc", "--stream", "--stream-socket", "/tmp/s.sock", "--audio", "/tmp/a", "v.mp4"])
    );
}

#[test]
fn search_result_lines() {
    let r = YoutubeSearchResult {
        video_id: "v".to_string(),
        title: "Title".to_string(),
        channel: None,
        duration: Some("4:01".to_string()),
        thumbnail_url: None,
    };
    assert_eq!(search_result_line(0, &r), "[1] Title [4:01] - unknown");
    let r = YoutubeSearchResult { video_id: "v".to_string(), title: "T".to_string(), channel: Some("C".to_string()), duration: None, thumbnail_url: None };
    assert_eq!(search_result_line(9, &r), "[10] T [--:--] - C");
}

#[test]
fn prompt_lines() {
    let mut line = String::new();
    assert_eq!(feed_prompt_line(&mut line, b"  1"), None);
    assert_eq!(line, "  1");
    assert_eq!(feed_prompt_line(&mut line, b"2 \r\nrest"), Some("12".to_string()));
    let mut line = String::new();
    assert_eq!(feed_prompt_line(&mut line, b"\n"), Some(String::new()));
    let mut line = String::new();
    assert_eq!(feed_prompt_line(&mut line, &[0xe9, b'\n']), Some("\u{e9}".to_string()));
}

#[test]
fn pair_outcomes() {
    assert_eq!(pair_download_outcome(Some(Ok(())), Some(Ok(()))), Ok(()));
    assert_eq!(pair_download_outcome(None, Some(Ok(()))), Err("video download did not finish".to_string()));
    assert_eq!(pair_download_outcome(Some(Ok(())), None), Err("audio download did not finish".to_string()));
    assert_eq!(
        pair_download_outcome(Some(Err("v".to_string())), Some(Err("a".to_string()))),
        Err("v".to_string())
    );
    assert_eq!(pair_download_outcome(Some(Ok(())), Some(Err("a".to_string()))), Err("a".to_string()));
    assert_eq!(download_with_marker(Ok(()), Some(Err("m".to_string()))), Err("m".to_string()));
    assert_eq!(download_with_marker(Ok(()), None), Ok(()));
    assert_eq!(download_with_marker(Err("d".to_string()), Some(Err("m".to_string()))), Err("d".to_string()));
}

#[test]
fn loop_and_title_options() {
    match parse_cli_args(&args(&["yt", "--loop", "--title", "My Song", "https://youtu.be/x"])) {
        Ok(CliCommand::Run(o)) => {
            assert!(o.loop_playback);
            assert_eq!(o.title.as_deref(), Some("My Song"));
            assert!(o.play);
            assert_eq!(o.positional, args(&["https://youtu.be/x"]));
        }
        _ => panic!("expected a run"),
    }
    match parse_cli_args(&args(&["yt", "url"])) {
        Ok(CliCommand::Run(o)) => {
            assert!(!o.loop_playback);
            assert_eq!(o.title, None);
        }
        _ => panic!("expected a run"),
    }
    assert_eq!(parse_cli_args(&args(&["yt", "url", "--title"])).err(), Some("--title requires a title".to_string()));
}

#[test]
fn search_results_option_writes_hits_instead_of_playing() {
    match parse_cli_args(&args(&["yt", "--search-results", "/tmp/r.tsv", "eve"])) {
        Ok(CliCommand::SearchResults { path, terms }) => {
            assert_eq!(path, "/tmp/r.tsv");
            assert_eq!(terms, args(&["eve"]));
        }
        _ => panic!("expected a search written to a file"),
    }
    match parse_cli_args(&args(&["yt", "search", "a", "--search-results", "p", "b"])) {
        Ok(CliCommand::SearchResults { path, terms }) => {
            assert_eq!(path, "p");
            assert_eq!(terms, args(&["search", "a", "b"]));
        }
        _ => panic!("expected a search written to a file"),
    }
    assert_eq!(
        parse_cli_args(&args(&["yt", "eve", "--search-results"])).err(),
        Some("--search-results requires a path".to_string())
    );
}

#[test]
fn thumbnail_batch_option() {
    match parse_cli_args(&args(&["yt", "--thumbnail-batch", "/tmp/m.txt"])) {
        Ok(CliCommand::ThumbnailBatch { manifest }) => assert_eq!(manifest, "/tmp/m.txt"),
        _ => panic!("expected a thumbnail batch"),
    }
    match parse_cli_args(&args(&["yt", "--search-results", "r", "--thumbnail-batch", "m", "q"])) {
        Ok(CliCommand::ThumbnailBatch { manifest }) => assert_eq!(manifest, "m"),
        _ => panic!("the manifest comes first"),
    }
    assert!(matches!(parse_cli_args(&args(&["yt", "--thumbnail-batch", "m", "--help"])), Ok(CliCommand::Usage)));
    assert_eq!(
        parse_cli_args(&args(&["yt", "--thumbnail-batch"])).err(),
        Some("--thumbnail-batch requires a path".to_string())
    );
}

#[test]
fn player_options_reach_the_player() {
    assert_eq!(
        player_args("v.mp4", Some("a.m4a"), Some("T"), true),
        args(&["video_player", "--hwdc", "--loop", "--title", "T", "v.mp4", "--audio", "a.m4a"])
    );
    assert_eq!(
        player_args("v.mp4", None, Some("T"), false),
        args(&["video_player", "--hwdc", "--title", "T", "v.mp4"])
    );
    assert_eq!(
        stream_player_args("/tmp/s.sock", "/tmp/a", "v.mp4", Some("T"), true),
        args(&[
            "video_player", "--hwdc", "--stream", "--loop", "--title", "T", "--stream-socket",
            "/tmp/s.sock", "--audio", "/tmp/a", "v.mp4"
        ])
    );
}

#[test]
fn thumbnail_manifests() {
    let parsed = parse_thumbnail_manifest("https://i/a.jpg\t/tmp/a.jpg\r\n\nhttps://i/b.jpg\t/tmp/b.jpg").unwrap();
    assert_eq!(
        parsed,
        vec![
            ("https://i/a.jpg".to_string(), "/tmp/a.jpg".to_string()),
            ("https://i/b.jpg".to_string(), "/tmp/b.jpg".to_string()),
        ]
    );
    assert_eq!(parse_thumbnail_manifest(""), Ok(vec![]));
    assert_eq!(parse_thumbnail_manifest("no tab here"), Err("invalid thumbnail manifest line".to_string()));
    assert_eq!(parse_thumbnail_manifest("\t/tmp/x"), Err("invalid thumbnail manifest line".to_string()));
    assert_eq!(parse_thumbnail_manifest("u\t"), Err("invalid thumbnail manifest line".to_string()));
}

#[test]
fn no_hits_leave_nothing_to_select() {
    assert_eq!(require_search_results(0), Err("no YouTube search results found".to_string()));
    assert_eq!(require_search_results(3), Ok(()));
    assert_eq!(selection_index("", 0), Err("no YouTube search results found".to_string()));
    assert_eq!(selection_index("q", 0), Err("no YouTube search results found".to_string()));
}
