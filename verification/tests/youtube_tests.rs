use scarlet_youtube::json::{find_matching_json, json_string_field};
use scarlet_youtube::youtube::{player_api_request_name, youtube_status};
use scarlet_youtube::youtube::{
    classify_player_payload, fallback_youtube_innertube_api_key, media_after_player_api,
    plan_from_watch_page, player_clients, select_youtube_dash_mp4, select_youtube_progressive_mp4,
    youtube_adaptive_formats_payload, youtube_format_stats, youtube_format_url,
    youtube_formats_payload, youtube_innertube_api_key, youtube_innertube_client_version,
    youtube_playability_reason, youtube_player_api_url, youtube_player_extra_headers,
    youtube_player_request_body, youtube_visitor_data, youtube_watch_page_url, MediaSelection,
    PlayerApiSearch, WatchPagePlan, YoutubeClientMedia, YoutubeClientPlatform, YoutubeClientSpec,
    YoutubeDashSelection,
};

const MEDIA_HEADERS: &str =
    "Accept-Language: en-US,en;q=0.9\r\nRange: bytes=0-\r\nReferer: https://www.youtube.com/\r\n";

fn chars(s: &str) -> Vec<char> {
    s.chars().collect()
}

fn sample_page() -> String {
    [
        "{\"INNERTUBE_API_KEY\":\"KEY1\",\"INNERTUBE_CLIENT_VERSION\":\"2.1\",\"VISITOR_DATA\":\"VD\",",
        "\"playabilityStatus\":{\"status\":\"OK\"},\"streamingData\":{",
        "\"formats\":[",
        "{\"mimeType\":\"video/mp4; codecs=\\\"avc1.42001E, mp4a.40.2\\\"\",\"height\":360,\"url\":\"https://v/p360\"},",
        "{\"mimeType\":\"video/mp4; codecs=\\\"avc1, mp4a\\\"\",\"height\":720,\"signatureCipher\":\"s=AB&url=https%3A%2F%2Fv%2Fp720\"}",
        "],\"adaptiveFormats\":[",
        "{\"mimeType\":\"video/mp4; codecs=\\\"avc1.640028\\\"\",\"height\":1080,\"url\":\"https://v/v1080\"},",
        "{\"mimeType\":\"video/webm; codecs=\\\"vp9\\\"\",\"height\":2160,\"url\":\"https://v/webm\"},",
        "{\"mimeType\":\"video/mp4; codecs=\\\"avc1.4d401f\\\"\",\"height\":720,\"signatureCipher\":\"sig=XY&sp=sg&url=https%3A%2F%2Fv%2Fv720%3Fa%3D1\"},",
        "{\"mimeType\":\"audio/mp4; codecs=\\\"mp4a.40.2\\\"\",\"averageBitrate\":128000,\"url\":\"https://v/a128\"},",
        "{\"mimeType\":\"audio/mp4; codecs=\\\"mp4a.40.5\\\"\",\"bitrate\":48000,\"url\":\"https://v/a48\"}",
        "]}}",
    ]
    .concat()
}

#[test]
fn payload_arrays() {
    let page = chars(&sample_page());
    let formats: String = youtube_formats_payload(&page).unwrap().iter().collect();
    assert!(formats.starts_with("{\"mimeType\":\"video/mp4; codecs=\\\"avc1.42001E"));
    assert!(formats.ends_with("p720\"}"));
    let adaptive: String = youtube_adaptive_formats_payload(&page).unwrap().iter().collect();
    assert!(adaptive.ends_with("\"url\":\"https://v/a48\"}"));
    assert!(youtube_formats_payload(&chars("{\"adaptiveFormats\":[]}")).is_none());
}

#[test]
fn dash_pair_is_the_tallest_h264_video_and_richest_aac_audio() {
    let page = chars(&sample_page());
    let dash = select_youtube_dash_mp4(&page).unwrap();
    assert_eq!(dash.video_url, "https://v/v1080");
    assert_eq!(dash.audio_url, "https://v/a128");
    assert_eq!(dash.video_height, 1080);
}

#[test]
fn dash_needs_both_streams() {
    let page = chars("{\"adaptiveFormats\":[{\"mimeType\":\"audio/mp4; mp4a\",\"url\":\"a\"}]}");
    assert!(select_youtube_dash_mp4(&page).is_none());
}

#[test]
fn progressive_stream_is_the_tallest_with_a_usable_url() {
    let page = chars(&sample_page());
    assert_eq!(select_youtube_progressive_mp4(&page), Some("https://v/p360".to_string()));
}

#[test]
fn format_urls() {
    assert_eq!(youtube_format_url(&chars("{\"url\":\"u\"}")), Some("u".to_string()));
    assert_eq!(
        youtube_format_url(&chars("{\"signatureCipher\":\"sig=XY&sp=sg&url=https%3A%2F%2Fv%2Fv%3Fa%3D1\"}")),
        Some("https://v/v?a=1&sg=XY".to_string())
    );
    assert_eq!(
        youtube_format_url(&chars("{\"cipher\":\"signature=Q%2B&url=https%3A%2F%2Fv%2Fw\"}")),
        Some("https://v/w?signature=Q%2B".to_string())
    );
    assert_eq!(youtube_format_url(&chars("{\"signatureCipher\":\"s=AB&url=x\"}")), None);
    assert_eq!(youtube_format_url(&chars("{\"signatureCipher\":\"url=plain\"}")), Some("plain".to_string()));
    assert_eq!(youtube_format_url(&chars("{\"height\":1}")), None);
}

#[test]
fn format_statistics() {
    let page = chars(&sample_page());
    let s = youtube_format_stats(&page);
    assert_eq!(s.total, 7);
    assert_eq!(s.progressive_mp4, 2);
    assert_eq!(s.h264_video_only, 2);
    assert_eq!(s.aac_audio_only, 2);
    assert_eq!(s.direct_url, 1);
    assert_eq!(s.signature_url, 0);
    assert_eq!(s.cipher_signature, 1);
    assert_eq!(s.dash_direct, 3);
    assert_eq!(s.dash_sig, 1);
    assert_eq!(s.dash_cipher_s, 0);
}

#[test]
fn page_values() {
    let page = chars(&sample_page());
    assert_eq!(youtube_innertube_api_key(&page), Some("KEY1".to_string()));
    assert_eq!(youtube_innertube_client_version(&page), Some("2.1".to_string()));
    assert_eq!(youtube_visitor_data(&page), Some("VD".to_string()));
    assert_eq!(youtube_visitor_data(&chars("{\"visitorData\":\"v2\"}")), Some("v2".to_string()));
    assert_eq!(youtube_playability_reason(&page), Some("OK".to_string()));
    assert_eq!(
        youtube_playability_reason(&chars("{\"status\":\"ERROR\",\"reason\":\"Private\"}")),
        Some("Private".to_string())
    );
    let parts = ["AI", "za", "Sy", "AO", "_FJ2SlqU8Q4STEHLGCilw", "_Y9_11qcW8"];
    assert_eq!(fallback_youtube_innertube_api_key(), parts.concat());
}

#[test]
fn clients_in_order() {
    let clients = player_clients("9.9");
    let labels: Vec<&str> = clients.iter().map(|c| c.label).collect();
    assert_eq!(labels, vec!["android_vr", "web", "mweb", "android", "ios"]);
    assert_eq!(clients[1].client_version, "9.9");
    assert_eq!(clients[0].client_id, 28);
    assert!(clients[0].platform == YoutubeClientPlatform::AndroidVr);
    assert_eq!(YoutubeClientSpec::mweb().client_name, "MWEB");
    assert_eq!(YoutubeClientSpec::ios().client_id, 5);
    assert_eq!(YoutubeClientSpec::android().client_version, "21.02.35");
}

#[test]
fn player_request_body_for_web() {
    let web = YoutubeClientSpec::web("2.1");
    assert_eq!(
        youtube_player_request_body("ab\"c", &web, Some("V\\D")),
        "{\"context\":{\"client\":{\"clientName\":\"WEB\",\"clientVersion\":\"2.1\",\"hl\":\"en\",\"gl\":\"US\",\"utcOffsetMinutes\":0,\"visitorData\":\"V\\\\D\"}},\"videoId\":\"ab\\\"c\",\"playbackContext\":{\"contentPlaybackContext\":{\"html5Preference\":\"HTML5_PREF_WANTS\"}},\"contentCheckOk\":true,\"racyCheckOk\":true}"
    );
}

#[test]
fn player_request_body_for_android() {
    let body = youtube_player_request_body("id", &YoutubeClientSpec::android(), None);
    assert!(body.starts_with("{\"context\":{\"client\":{\"clientName\":\"ANDROID\",\"clientVersion\":\"21.02.35\",\"hl\":\"en\",\"gl\":\"US\",\"utcOffsetMinutes\":0,\"androidSdkVersion\":30,"));
    assert!(body.contains("\"osVersion\":\"11\"}},\"videoId\":\"id\""));
}

#[test]
fn player_call_url_and_headers() {
    assert_eq!(
        youtube_player_api_url("K"),
        "https://www.youtube.com/youtubei/v1/player?key=K&prettyPrint=false"
    );
    assert_eq!(
        youtube_player_extra_headers("vid", &YoutubeClientSpec::ios(), Some("VD")),
        "Origin: https://www.youtube.com\r\nReferer: https://www.youtube.com/watch?v=vid\r\nX-YouTube-Client-Name: 5\r\nX-YouTube-Client-Version: 21.02.3\r\nX-Goog-Visitor-Id: VD\r\n"
    );
    assert_eq!(
        youtube_watch_page_url("vid"),
        "https://www.youtube.com/watch?v=vid&bpctr=9999999999&has_verified=1"
    );
}

#[test]
fn classification_of_player_responses() {
    assert!(matches!(classify_player_payload(&chars(&sample_page())), YoutubeClientMedia::Dash(_)));
    let progressive = "{\"formats\":[{\"mimeType\":\"video/mp4; avc1, mp4a\",\"url\":\"p\"}]}";
    match classify_player_payload(&chars(progressive)) {
        YoutubeClientMedia::Progressive(u) => assert_eq!(u, "p"),
        _ => panic!("expected a progressive stream"),
    }
    assert!(matches!(classify_player_payload(&chars("{}")), YoutubeClientMedia::NoStream));
}

fn dash(v: &str, a: &str) -> YoutubeDashSelection {
    YoutubeDashSelection { video_url: v.to_string(), audio_url: a.to_string(), video_height: 720 }
}

#[test]
fn player_api_search_stops_at_the_first_dash_pair() {
    let web = YoutubeClientSpec::web("1");
    let ios = YoutubeClientSpec::ios();
    let mut search = PlayerApiSearch::new();
    assert!(search.on_client_result(&web, Err("HTTP 403".to_string())).is_none());
    assert!(search.on_client_result(&web, Ok(YoutubeClientMedia::Progressive("p1".to_string()))).is_none());
    assert!(search.on_client_result(&ios, Ok(YoutubeClientMedia::Progressive("p2".to_string()))).is_none());
    let m = search.on_client_result(&ios, Ok(YoutubeClientMedia::Dash(dash("v", "a")))).unwrap();
    assert_eq!(m.video_url, "v");
    assert_eq!(m.audio_url.as_deref(), Some("a"));
    assert_eq!(m.user_agent, ios.user_agent);
    assert_eq!(m.extra_headers, MEDIA_HEADERS);
}

#[test]
fn player_api_search_falls_back_to_the_first_progressive_stream() {
    let web = YoutubeClientSpec::web("1");
    let mweb = YoutubeClientSpec::mweb();
    let mut search = PlayerApiSearch::new();
    assert!(search.on_client_result(&web, Ok(YoutubeClientMedia::Progressive("p1".to_string()))).is_none());
    assert!(search.on_client_result(&mweb, Ok(YoutubeClientMedia::NoStream)).is_none());
    let m = search.finish().unwrap();
    assert_eq!(m.video_url, "p1");
    assert!(m.audio_url.is_none());
    assert_eq!(m.user_agent, web.user_agent);
}

#[test]
fn player_api_search_reports_the_last_failure() {
    assert_eq!(PlayerApiSearch::new().finish().err(), Some("no YouTube player clients tried".to_string()));
    let mut search = PlayerApiSearch::new();
    search.on_client_result(&YoutubeClientSpec::android(), Err("boom".to_string()));
    search.on_client_result(&YoutubeClientSpec::mweb(), Ok(YoutubeClientMedia::NoStream));
    assert_eq!(search.finish().err(), Some("mweb returned no direct MP4 streams".to_string()));
    let mut search = PlayerApiSearch::new();
    search.on_client_result(&YoutubeClientSpec::mweb(), Ok(YoutubeClientMedia::NoStream));
    search.on_client_result(&YoutubeClientSpec::android(), Err("boom".to_string()));
    assert_eq!(search.finish().err(), Some("boom".to_string()));
}

#[test]
fn watch_page_plans() {
    match plan_from_watch_page(&chars(&sample_page())) {
        WatchPagePlan::Dash { media: m, video_height } => {
            assert_eq!(video_height, 1080);
            assert_eq!(m.video_url, "https://v/v1080");
            assert_eq!(m.audio_url.as_deref(), Some("https://v/a128"));
            assert_eq!(m.user_agent, "Mozilla/5.0 Scarlet-yt/0.1");
            assert_eq!(m.extra_headers, MEDIA_HEADERS);
        }
        _ => panic!("expected the DASH pair"),
    }
    match plan_from_watch_page(&chars("{\"visitorData\":\"vd\"}")) {
        WatchPagePlan::PlayerApi { api_key, client_version, visitor_data } => {
            assert_eq!(api_key, fallback_youtube_innertube_api_key());
            assert_eq!(client_version, "2.20260114.08.00");
            assert_eq!(visitor_data.as_deref(), Some("vd"));
        }
        _ => panic!("expected a player API search"),
    }
}

#[test]
fn media_after_the_player_api() {
    let ok = MediaSelection { video_url: "v".to_string(), audio_url: None, user_agent: "u", extra_headers: "" };
    assert_eq!(media_after_player_api(Ok(ok), &chars("{}")).unwrap().video_url, "v");
    let page = "{\"formats\":[{\"mimeType\":\"video/mp4; avc1, mp4a\",\"url\":\"p\"}]}";
    let m = media_after_player_api(Err("e".to_string()), &chars(page)).unwrap();
    assert_eq!(m.video_url, "p");
    assert_eq!(m.user_agent, "Mozilla/5.0 Scarlet-yt/0.1");
    assert_eq!(m.extra_headers, MEDIA_HEADERS);
    assert_eq!(media_after_player_api(Err("e".to_string()), &chars("{}")).err(), Some("e".to_string()));
}

#[test]
fn youtube_answers_need_a_success_status() {
    assert_eq!(youtube_status("YouTube search", 200), Ok(()));
    assert_eq!(youtube_status("YouTube search", 299), Ok(()));
    assert_eq!(youtube_status("YouTube search", 199), Err("YouTube search HTTP status 199".to_string()));
    assert_eq!(youtube_status("YouTube watch page", 404), Err("YouTube watch page HTTP status 404".to_string()));
    assert_eq!(player_api_request_name("android"), "YouTube android player API");
    assert_eq!(
        youtube_status(&player_api_request_name("ios"), 403),
        Err("YouTube ios player API HTTP status 403".to_string())
    );
}

#[test]
fn request_bodies_read_back() {
    let clients = [
        YoutubeClientSpec::web("2.20260114.08.00"),
        YoutubeClientSpec::mweb(),
        YoutubeClientSpec::android(),
        YoutubeClientSpec::android_vr(),
        YoutubeClientSpec::ios(),
    ];
    for client in clients.iter() {
        for visitor in [None, Some("vd\"x\\y\n"), Some("")] {
            for video in ["dQw4w9WgXcQ", "q\"}{\\", ""] {
                let body: Vec<char> = youtube_player_request_body(video, client, visitor).chars().collect();
                assert_eq!(json_string_field(&body, "videoId"), Some(video.to_string()));
                assert_eq!(json_string_field(&body, "visitorData"), visitor.map(String::from));
                assert_eq!(find_matching_json(&body, 0, '{', '}'), Some(body.len() - 1));
            }
        }
    }
}
