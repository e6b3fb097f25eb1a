use iptv_speed_tester::output::{build_playlists, render_txt, select_published, speed_tier};
use iptv_speed_tester::types::Entry;

fn e(name: &str, url: &str, speed: i64) -> Entry {
    Entry { name: name.to_string(), url: url.to_string(), index: 0, speed }
}

#[test]
fn tiers() {
    assert_eq!(speed_tier(5 * 1048576), "高速");
    assert_eq!(speed_tier(5 * 1048576 - 1), "普通");
    assert_eq!(speed_tier(1048576), "普通");
    assert_eq!(speed_tier(1048575), "低速");
}

#[test]
fn per_channel_limit_with_distinct_hosts() {
    let entries = vec![
        e("A", "http://h1/a", 10),
        e("A", "http://h1/b", 30),
        e("A", "http://h2/a", 20),
        e("A", "http://h3/a", 5),
        e("A", "http://h4/a", 1),
        e("B", "http://h1/x", 7),
    ];
    let out = select_published(entries, 3);
    let got: Vec<(String, String)> = out.iter().map(|x| (x.name.clone(), x.url.clone())).collect();
    assert_eq!(
        got,
        vec![
            ("A".to_string(), "http://h1/b".to_string()),
            ("A".to_string(), "http://h2/a".to_string()),
            ("B".to_string(), "http://h1/x".to_string()),
            ("A".to_string(), "http://h3/a".to_string()),
        ]
    );
}

#[test]
fn txt_groups_by_tier() {
    let entries = vec![e("A", "http://1", 6 * 1048576), e("B", "http://2", 2 * 1048576), e("C", "http://3", 3 * 1048576)];
    assert_eq!(
        render_txt(&entries),
        "高速,#genre#\nA,http://1\n普通,#genre#\nB,http://2\nC,http://3\n"
    );
}

#[test]
fn playlists_of_a_run() {
    let (m3u8, txt) = build_playlists(vec![e("CCTV1", "http://h/1", 100)], 3);
    assert_eq!(
        m3u8,
        "#EXTM3U x-tvg-url=\"https://epg.zsdc.eu.org/t.xml\"\n\
         #EXTINF:-1 tvg-name=\"CCTV1\" tvg-logo=\"https://ghfast.top/https://raw.githubusercontent.com/Jarrey/iptv_logo/main/tv/CCTV1.png\" group-title=\"低速\",CCTV1\n\
         http://h/1\n"
    );
    assert_eq!(txt, "低速,#genre#\nCCTV1,http://h/1\n");
    let (m, t) = build_playlists(vec![], 3);
    assert_eq!(m, "#EXTM3U x-tvg-url=\"https://epg.zsdc.eu.org/t.xml\"\n");
    assert_eq!(t, "");
}
