use iptv_speed_tester::speedtest::{
    api_item_testable, api_result, classify_match_type, download_done, host_key,
    is_playlist_url, jsmpeg_channels, kept_host_speed, lists_channels, progress_bar,
    resolve_segment_url, transfer_rate, txiptv_channels, unique_hosts, zhgxtv_channels, ApiItem,
    MatchType, Progress, measure_plan, relocate_url, segment_from_parts,
};
use iptv_speed_tester::urls::UrlParts;
use iptv_speed_tester::types::Channel;

fn ch(name: &str, url: &str) -> Channel {
    Channel { name: name.to_string(), url: url.to_string() }
}

fn pairs(v: &[Channel]) -> Vec<(String, String)> {
    v.iter().map(|c| (c.name.clone(), c.url.clone())).collect()
}

#[test]
fn segment_absolute_relative_and_rooted() {
    let url = "http://host.example:8080/live/ch1/index.m3u8";
    assert_eq!(
        resolve_segment_url(url, "#EXTM3U\n#EXT-X-VERSION:3\n\nseg001.ts\nseg002.ts\n").as_deref(),
        Some("http://host.example:8080/live/ch1/seg001.ts")
    );
    assert_eq!(
        resolve_segment_url(url, "#EXTM3U\n  /hls/a.ts  \n").as_deref(),
        Some("http://host.example:8080/hls/a.ts")
    );
    assert_eq!(
        resolve_segment_url(url, "#EXTM3U\r\nhttp://cdn/x.ts\r\n").as_deref(),
        Some("http://cdn/x.ts")
    );
}

#[test]
fn rooted_segment_keeps_the_playlist_port() {
    assert_eq!(
        resolve_segment_url("http://h:8080/live/index.m3u8", "#EXTM3U\n/seg/1.ts\n").as_deref(),
        Some("http://h:8080/seg/1.ts")
    );
    assert_eq!(
        resolve_segment_url("http://h:80/live/index.m3u8", "/seg/1.ts\n").as_deref(),
        Some("http://h/seg/1.ts")
    );
}

#[test]
fn segment_from_given_parts() {
    let parts = UrlParts {
        scheme: "http".to_string(),
        host: Some("10.1.1.1".to_string()),
        path: "/p/i.m3u8".to_string(),
        query: None,
        port: Some(9901),
    };
    assert_eq!(
        segment_from_parts("http://10.1.1.1:9901/p/i.m3u8", &parts, "/a/b.ts\n").as_deref(),
        Some("http://10.1.1.1:9901/a/b.ts")
    );
    let no_host = UrlParts { host: None, ..parts };
    assert_eq!(segment_from_parts("x/y", &no_host, "a.ts\n"), None);
}

#[test]
fn relocating_a_url() {
    let parts = UrlParts {
        scheme: "https".to_string(),
        host: Some("old".to_string()),
        path: "/live/1.m3u8".to_string(),
        query: Some("k=v".to_string()),
        port: Some(81),
    };
    assert_eq!(relocate_url("new:8080", &parts), "https://new:8080/live/1.m3u8?k=v");
}

#[test]
fn measure_plans() {
    let (first, kept) = measure_plan(vec![ch("a", "http://1"), ch("b", "http://2")], true);
    assert_eq!(first.as_deref(), Some("http://1"));
    assert_eq!(kept.len(), 2);
    let (first, kept) = measure_plan(vec![ch("a", "http://1")], false);
    assert_eq!(first.as_deref(), Some("http://1"));
    assert!(kept.is_empty());
    let (first, kept) = measure_plan(vec![], true);
    assert!(first.is_none() && kept.is_empty());
}

#[test]
fn segment_none_without_entries_or_bad_url() {
    assert_eq!(resolve_segment_url("http://h/a.m3u8", "#EXTM3U\n#EXTINF:1\n"), None);
    assert_eq!(resolve_segment_url("not a url", "seg.ts\n"), None);
    assert_eq!(resolve_segment_url("unix:/run/x", "seg.ts\n"), None);
}

#[test]
fn txiptv_links_are_made_absolute() {
    let items = vec![
        ch("CCTV1", "/tsfile/live/0001_1.m3u8"),
        ch("", "/x.m3u8"),
        ch("CCTV2", "tsfile/live/0002_1.m3u8"),
        ch("CCTV3", "http://other/3.m3u8"),
        ch("CCTV4", "a,b"),
        ch("CCTV5", ""),
    ];
    let out = txiptv_channels("1.2.3.4:8080", &items);
    assert_eq!(
        pairs(&out),
        vec![
            ("CCTV1".to_string(), "http://1.2.3.4:8080/tsfile/live/0001_1.m3u8".to_string()),
            ("CCTV2".to_string(), "http://1.2.3.4:8080/tsfile/live/0002_1.m3u8".to_string()),
            ("CCTV3".to_string(), "http://other/3.m3u8".to_string()),
        ]
    );
}

#[test]
fn jsmpeg_keys_become_hls_playlists() {
    let items = vec![ch(" News ", " k1 "), ch("", "k2"), ch("Sport", "  ")];
    let out = jsmpeg_channels("h:9000", &items);
    assert_eq!(
        pairs(&out),
        vec![("News".to_string(), "http://h:9000/hls/k1/index.m3u8".to_string())]
    );
}

#[test]
fn zhgxtv_lines_are_moved_to_the_host() {
    let body = "CCTV1, http://10.0.0.1:8080/live/1.m3u8?token=ab \n\
                no comma line\n\
                CCTV2,/hls/2/index.m3u8\n\
                CCTV3,hls/3.m3u8\n\
                Bad,http://\n";
    let out = zhgxtv_channels("5.6.7.8:80", body);
    assert_eq!(
        pairs(&out),
        vec![
            ("CCTV1".to_string(), "http://5.6.7.8:80/live/1.m3u8?token=ab".to_string()),
            ("CCTV2".to_string(), "http://5.6.7.8:80/hls/2/index.m3u8".to_string()),
            ("CCTV3".to_string(), "http://5.6.7.8:80/hls/3.m3u8".to_string()),
        ]
    );
}

#[test]
fn match_types() {
    assert_eq!(classify_match_type("txiptv"), MatchType::Txiptv);
    assert_eq!(classify_match_type("hsmdtv"), MatchType::Hsmdtv);
    assert_eq!(classify_match_type("jsmpeg"), MatchType::Jsmpeg);
    assert_eq!(classify_match_type("zhgxtv"), MatchType::Zhgxtv);
    assert_eq!(classify_match_type("TXIPTV"), MatchType::Other);
    assert!(lists_channels(MatchType::Txiptv));
    assert!(!lists_channels(MatchType::Hsmdtv));
    assert!(!lists_channels(MatchType::Other));
}

#[test]
fn api_results_need_the_threshold() {
    let item = ApiItem {
        host: "1.1.1.1".to_string(),
        match_type: "txiptv".to_string(),
        source: "s".to_string(),
    };
    assert!(api_item_testable(&item));
    let r = api_result(&item, 2000, 1000).unwrap();
    assert_eq!((r.host.as_str(), r.match_type.as_str(), r.source.as_str(), r.speed), ("1.1.1.1", "txiptv", "s", 2000));
    assert!(r.channels.is_empty());
    assert!(api_result(&item, 1000, 1000).is_some());
    assert!(api_result(&item, 999, 1000).is_none());
    let empty = ApiItem { host: String::new(), match_type: String::new(), source: String::new() };
    assert!(!api_item_testable(&empty));
}

#[test]
fn progress_counts() {
    let mut p = Progress::new(3);
    assert_eq!(p.record(true), (1, 1));
    assert_eq!(p.record(false), (2, 1));
    assert_eq!(p.record(true), (3, 2));
}

#[test]
fn progress_bar_fills_by_thirtieths() {
    assert_eq!(progress_bar(0, 10), "-".repeat(30));
    assert_eq!(progress_bar(10, 10), "=".repeat(30));
    assert_eq!(progress_bar(1, 3), format!("{}{}", "=".repeat(10), "-".repeat(20)));
    assert_eq!(progress_bar(1, 7), format!("{}{}", "=".repeat(4), "-".repeat(26)));
}

#[test]
fn download_limits() {
    assert!(!download_done(0, 0, false));
    assert!(download_done(10 * 1024 * 1024 + 1, 0, false));
    assert!(!download_done(10 * 1024 * 1024, 8_000_000_000, false));
    assert!(download_done(0, 8_000_000_001, false));
    assert!(download_done(0, 0, true));
}

#[test]
fn transfer_rates() {
    assert_eq!(transfer_rate(1048576, 1_000_000_000), 1048576);
    assert_eq!(transfer_rate(5 * 1048576, 2_000_000_000), 2621440);
    assert_eq!(transfer_rate(1000, 0), 1_000_000);
    assert_eq!(transfer_rate(0, 5), 0);
    assert_eq!(transfer_rate(u64::MAX, 1), i64::MAX);
}

#[test]
fn slow_hosts_count_as_failed() {
    assert_eq!(kept_host_speed(10, 20), -1);
    assert_eq!(kept_host_speed(20, 20), 20);
}

#[test]
fn host_keys() {
    assert_eq!(host_key("http://1.2.3.4:8080/live/a.m3u8"), "1.2.3.4:8080");
    assert_eq!(host_key("rtp://239.0.0.1:5000"), "239.0.0.1:5000");
    assert_eq!(host_key("example.com/path"), "example.com");
}

#[test]
fn one_sample_per_host_in_first_order() {
    let chans = vec![
        ch("a", "http://h1/1"),
        ch("b", "http://h2/2"),
        ch("c", "http://h1/3"),
        ch("d", "http://h3/4"),
    ];
    let s = unique_hosts(&chans);
    let got: Vec<(String, String)> = s.iter().map(|x| (x.host.clone(), x.url.clone())).collect();
    assert_eq!(
        got,
        vec![
            ("h1".to_string(), "http://h1/1".to_string()),
            ("h2".to_string(), "http://h2/2".to_string()),
            ("h3".to_string(), "http://h3/4".to_string()),
        ]
    );
}

#[test]
fn playlist_urls_by_lower_case_form() {
    assert!(is_playlist_url("http://x/LIVE.M3U8"));
    assert!(is_playlist_url("http://x/HLS/1"));
    assert!(is_playlist_url("http://x/Live/2"));
    assert!(!is_playlist_url("http://x/stream.ts"));
}
