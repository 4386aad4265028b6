use pinterest_downloader::downloader::{
    extract_download_url, filename_from_url, find_mp4_url, normalize_url, unescape_slashes_str,
    video_filename, DownloadError,
};

const USER_AGENT: &str = "Mozilla/5.0 (Windows NT 10.0; Win64; x64) AppleWebKit/537.36 \
                          (KHTML, like Gecko) Chrome/120.0.0.0 Safari/537.36";

fn fetch_page(url: &str) -> Result<String, String> {
    let response = ureq::get(url)
        .set("User-Agent", USER_AGENT)
        .call()
        .map_err(|e| format!("{e}"))?;
    response
        .into_string()
        .map_err(|e| format!("erro ao ler corpo da resposta: {e}"))
}

#[test]
fn downloader_find_mp4_url_returns_url_when_present() {
    let html = r#"<script>"url":"https://v1.pinimg.com/videos/iht/720p/b7/1d/60/b71d60335f58562e9d2da8d0e06e4013.mp4"</script>"#;
    let url = find_mp4_url(html);
    assert_eq!(
        url,
        Some(
            "https://v1.pinimg.com/videos/iht/720p/b7/1d/60/b71d60335f58562e9d2da8d0e06e4013.mp4"
                .to_string()
        )
    );
}

#[test]
fn downloader_find_mp4_url_returns_none_when_no_video() {
    let html = "<html><body>no video here</body></html>";
    let url = find_mp4_url(html);
    assert_eq!(url, None);
}

#[test]
fn downloader_find_mp4_url_handles_real_sample() {
    let html = r#"<script>
            const __INITIAL_STATE__ = {"resources":{"data":{"https://in.pinterest.com/pin/879890845950202614/":{"data":{"pin":{"video_list":{"V_HLSV4":{"url":"https://v1.pinimg.com/videos/iht/hls/b7/1d/60/b71d60335f58562e9d2da8d0e06e4013.m3u8"},"V_720P":{"url":"https://v1.pinimg.com/videos/iht/720p/b7/1d/60/b71d60335f58562e9d2da8d0e06e4013.mp4"}}}}}}}};</script>"#;
    let url = find_mp4_url(html);
    assert_eq!(
        url,
        Some(
            "https://v1.pinimg.com/videos/iht/720p/b7/1d/60/b71d60335f58562e9d2da8d0e06e4013.mp4"
                .to_string()
        )
    );
}

#[test]
fn find_mp4_url_restores_escaped_slashes() {
    let html = r#"{"url":"https:\/\/v1.pinimg.com\/videos\/a.mp4?x=1"}"#;
    // `https:\/\/` is no `https://`, so this link does not match.
    assert_eq!(find_mp4_url(html), None);
    let html = r#"{"url":"https://v1.pinimg.com\/videos\/a.mp4?x=1"}"#;
    assert_eq!(
        find_mp4_url(html),
        Some("https://v1.pinimg.com/videos/a.mp4?x=1".to_string())
    );
}

#[test]
fn find_mp4_url_takes_the_leftmost_link() {
    let html = r#""https://a.com/1.mp4" "https://b.com/2.mp4""#;
    assert_eq!(find_mp4_url(html), Some("https://a.com/1.mp4".to_string()));
}

#[test]
fn find_mp4_url_needs_a_character_before_the_extension() {
    assert_eq!(find_mp4_url(r#""https://.mp4""#), None);
    assert_eq!(find_mp4_url(r#""https://x.mp4""#), Some("https://x.mp4".to_string()));
    assert_eq!(find_mp4_url(r#""https://x.mp4"#), None);
    assert_eq!(find_mp4_url(r#""http://x.mp4""#), None);
}

#[test]
fn unescape_slashes_replaces_only_escaped_slashes() {
    assert_eq!(unescape_slashes_str(r"a\/b\\/c\d\"), r"a/b\/c\d\");
    assert_eq!(unescape_slashes_str(""), "");
}

#[test]
fn normalize_url_keeps_url_with_scheme() {
    assert_eq!(
        normalize_url("https://www.pinterest.com/pin/879890845950202614/"),
        "https://www.pinterest.com/pin/879890845950202614/"
    );
}

#[test]
fn normalize_url_adds_https_when_scheme_is_missing() {
    assert_eq!(
        normalize_url("www.pinterest.com/pin/879890845950202614/"),
        "https://www.pinterest.com/pin/879890845950202614/"
    );
}

#[test]
fn normalize_url_trims_spaces() {
    assert_eq!(
        normalize_url("  www.pinterest.com/pin/879890845950202614/  "),
        "https://www.pinterest.com/pin/879890845950202614/"
    );
}

#[test]
fn normalize_url_keeps_http_and_trims_unicode_white_space() {
    assert_eq!(normalize_url("\u{3000}\thttp://x.com/\n\u{a0}"), "http://x.com/");
    assert_eq!(normalize_url("   "), "https://");
    let once = normalize_url(" pin.it/abc ");
    assert_eq!(normalize_url(&once), once);
}

#[test]
fn downloader_extract_download_url_returns_error_for_invalid_url() {
    let page = fetch_page(&normalize_url("https://invalid.url.xyz/"));
    let result = extract_download_url(page);
    assert!(result.is_err());
}

#[test]
fn extract_download_url_maps_each_outcome() {
    match extract_download_url(Err("timeout".to_string())) {
        Err(DownloadError::Request(e)) => assert_eq!(e, "timeout"),
        other => panic!("unexpected {other:?}"),
    }
    assert!(matches!(
        extract_download_url(Ok("<html></html>".to_string())),
        Err(DownloadError::VideoNotFound)
    ));
    assert_eq!(
        extract_download_url(Ok(r#"x "https://v.com/a.mp4" y"#.to_string())).unwrap(),
        "https://v.com/a.mp4"
    );
}

#[test]
fn downloader_download_error_is_debug_and_send() {
    fn assert_send<T: Send>() {}
    assert_send::<DownloadError>();
}

#[test]
fn downloader_download_error_display() {
    let err1 = DownloadError::Request("timeout".into());
    let err2 = DownloadError::VideoNotFound;
    assert!(format!("{err1:?}").contains("Request"));
    assert!(format!("{err2:?}").contains("VideoNotFound"));
}

#[test]
fn filename_from_url_extracts_mp4_name() {
    let url = "https://v1.pinimg.com/videos/iht/720p/b7/1d/60/b71d60335f58562e9d2da8d0e06e4013.mp4";
    assert_eq!(
        filename_from_url(url),
        Some("b71d60335f58562e9d2da8d0e06e4013.mp4".to_owned())
    );
}

#[test]
fn filename_from_url_returns_none_for_empty_path() {
    let url = "https://example.com/";
    assert_eq!(filename_from_url(url), None);
}

#[test]
fn filename_from_url_returns_name_for_simple_url() {
    let url = "https://example.com/video.mp4";
    assert_eq!(filename_from_url(url), Some("video.mp4".to_owned()));
}

#[test]
fn filename_from_url_cuts_query_and_fragment() {
    assert_eq!(filename_from_url("https://e.com/a.mp4?x=1#t"), Some("a.mp4".to_owned()));
    assert_eq!(filename_from_url("https://e.com/a.mp4#t?x"), Some("a.mp4".to_owned()));
    assert_eq!(filename_from_url("https://e.com/?a.b"), None);
    assert_eq!(filename_from_url("https://e.com/name"), None);
    assert_eq!(filename_from_url("plain.txt"), Some("plain.txt".to_owned()));
}

#[test]
fn video_filename_falls_back_to_video_mp4() {
    assert_eq!(video_filename("https://e.com/"), "video.mp4");
    assert_eq!(video_filename("https://e.com/clip.mp4"), "clip.mp4");
}
