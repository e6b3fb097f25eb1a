use iptv_speed_tester::task::{after_collecting, after_probing, RunAction};
use iptv_speed_tester::task::{
    build_entries, filter_entries_by_resolution, map_to_standard_name, process_hsmdtv_channels,
    parse_channel_list, source_entries, subscribe_entries, HostSpeed, NameAlias,
};
use iptv_speed_tester::task::hsmdtv_entry_from_parts;
use iptv_speed_tester::urls::UrlParts;
use iptv_speed_tester::types::{Channel, Entry, SourceResult};

fn ch(name: &str, url: &str) -> Channel {
    Channel { name: name.to_string(), url: url.to_string() }
}

fn list(text: &str) -> Vec<NameAlias> {
    parse_channel_list(text)
}

fn view(v: &[Entry]) -> Vec<(String, String, usize, i64)> {
    v.iter().map(|e| (e.name.clone(), e.url.clone(), e.index, e.speed)).collect()
}

fn entry(name: &str, url: &str) -> Entry {
    Entry { name: name.to_string(), url: url.to_string(), index: 0, speed: 1 }
}

#[test]
fn channel_list_lines() {
    let m = list("CCTV1\n\n  湖南卫视 \r\nCCTV-5+\n");
    let got: Vec<(String, String)> = m.iter().map(|a| (a.alias.clone(), a.name.clone())).collect();
    assert_eq!(
        got,
        vec![
            ("CCTV1".to_string(), "CCTV1".to_string()),
            ("湖南卫视".to_string(), "湖南卫视".to_string()),
            ("CCTV5+".to_string(), "CCTV-5+".to_string()),
        ]
    );
}

#[test]
fn standard_names_by_key() {
    let m = list("CCTV1\nCCTV1 综合\n湖南卫视\n");
    assert_eq!(map_to_standard_name("cctv-1", &m), "CCTV1");
    assert_eq!(map_to_standard_name("CCTV 1", &m), "CCTV1");
    assert_eq!(map_to_standard_name("湖南 卫视", &m), "湖南卫视");
    assert_eq!(map_to_standard_name("Unknown-2", &m), "Unknown-2");
}

#[test]
fn entries_of_a_source() {
    let m = list("CCTV1\n");
    let out = build_entries(&vec![ch("CCTV-1", "http://h/1"), ch("X", "http://h/2")], 4, 777, &m);
    assert_eq!(
        view(&out),
        vec![
            ("CCTV1".to_string(), "http://h/1".to_string(), 4, 777),
            ("X".to_string(), "http://h/2".to_string(), 4, 777),
        ]
    );
}

#[test]
fn subscription_entries_take_their_host_speed() {
    let chans = vec![ch("A", "http://fast/1"), ch("B", "http://slow/2"), ch("C", "http://gone/3"), ch("D", "http://fast/4")];
    let speeds = vec![
        HostSpeed { host: "fast".to_string(), speed: 5000 },
        HostSpeed { host: "slow".to_string(), speed: -1 },
    ];
    let out = subscribe_entries(&chans, &speeds, 1000, 2, &vec![]);
    assert_eq!(
        view(&out),
        vec![
            ("A".to_string(), "http://fast/1".to_string(), 2, 5000),
            ("D".to_string(), "http://fast/4".to_string(), 2, 5000),
        ]
    );
}

#[test]
fn resolution_filter_rules() {
    let es = vec![
        entry("unknown", "u1"),
        entry("low", "u2"),
        entry("full", "u3"),
        entry("failed", "u4"),
        entry("width only", "u5"),
    ];
    let probes = vec![Some((0, 0)), Some((1280, 720)), Some((1920, 1080)), None, Some((640, 0))];
    let kept = filter_entries_by_resolution(es, &probes, 1080);
    let names: Vec<String> = kept.iter().map(|e| e.name.clone()).collect();
    assert_eq!(names, vec!["unknown", "full", "width only"]);
}

#[test]
fn hsmdtv_list_is_moved_to_the_host() {
    let data = "1 CCTV-1综合（默认频道） http://192.168.1.1:8080/newlive/live/hls/1/live.m3u8\n\
                \n\
                  23   湖南卫视 http://10.0.0.2/newlive/live/hls/23/live.m3u8 extra\n\
                no url here\n";
    let m = list("湖南 卫视\n");
    let out = process_hsmdtv_channels("9.9.9.9:8000", data, 3, 4242, &m);
    assert_eq!(
        view(&out),
        vec![
            ("CCTV-1综合".to_string(), "http://9.9.9.9:8000/newlive/live/hls/1/live.m3u8".to_string(), 3, 4242),
            ("湖南 卫视".to_string(), "http://9.9.9.9:8000/newlive/live/hls/23/live.m3u8".to_string(), 3, 4242),
        ]
    );
}

#[test]
fn source_entries_by_type() {
    let mut src = SourceResult {
        host: "h".to_string(),
        match_type: "txiptv".to_string(),
        source: String::new(),
        speed: 9,
        channels: vec![ch("A", "http://h/a")],
    };
    assert_eq!(source_entries(&src, 1, &vec![], &None).len(), 1);
    src.match_type = "hsmdtv".to_string();
    assert!(source_entries(&src, 1, &vec![], &None).is_empty());
    let list = Some("CH http://x/newlive/p.m3u8\n".to_string());
    let got = source_entries(&src, 1, &vec![], &list);
    assert_eq!(view(&got), vec![("CH".to_string(), "http://h/newlive/p.m3u8".to_string(), 1, 9)]);
    src.match_type = "other".to_string();
    assert!(source_entries(&src, 1, &vec![], &list).is_empty());
}

#[test]
fn run_steps() {
    assert_eq!(after_collecting(0, 1080), RunAction::KeepCache);
    assert_eq!(after_collecting(5, 1080), RunAction::ProbeResolution(1080));
    assert_eq!(after_collecting(5, 0), RunAction::Publish);
    assert_eq!(after_probing(0), RunAction::KeepCache);
    assert_eq!(after_probing(2), RunAction::Publish);
}

#[test]
fn hsmdtv_entry_from_given_parts() {
    let parts = UrlParts {
        scheme: "http".to_string(),
        host: Some("1.1.1.1".to_string()),
        path: "/newlive/live/hls/7/live.m3u8".to_string(),
        query: Some("x=1".to_string()),
        port: Some(8080),
    };
    let e = hsmdtv_entry_from_parts("2.2.2.2:9000", "  翡翠台（默认频道） ", &parts, 5, 100, &vec![]);
    assert_eq!(
        (e.name.as_str(), e.url.as_str(), e.index, e.speed),
        ("翡翠台", "http://2.2.2.2:9000/newlive/live/hls/7/live.m3u8", 5, 100)
    );
}
