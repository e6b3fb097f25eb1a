use iptv_speed_tester::selection::select_top_sources;
use iptv_speed_tester::types::SourceResult;

fn source(host: &str, match_type: &str, speed: i64) -> SourceResult {
    SourceResult {
        host: host.to_string(),
        match_type: match_type.to_string(),
        source: String::new(),
        speed,
        channels: vec![],
    }
}

#[test]
fn keeps_fastest_of_each_type_then_fills() {
    let input = vec![
        source("a", "txiptv", 10),
        source("b", "txiptv", 30),
        source("c", "hsmdtv", 5),
        source("d", "jsmpeg", 20),
        source("e", "zhgxtv", 1),
        source("f", "txiptv", 25),
    ];
    let out = select_top_sources(input, 5);
    let hosts: Vec<&str> = out.iter().map(|s| s.host.as_str()).collect();
    assert_eq!(hosts, vec!["b", "f", "d", "c", "e"]);
}

#[test]
fn one_source_per_host_and_fastest_first() {
    let input = vec![
        source("h", "txiptv", 50),
        source("h", "hsmdtv", 60),
        source("g", "jsmpeg", 10),
        source("k", "zhgxtv", 70),
    ];
    let out = select_top_sources(input, 2);
    let got: Vec<(&str, i64)> = out.iter().map(|s| (s.host.as_str(), s.speed)).collect();
    assert_eq!(got, vec![("k", 70), ("h", 50), ("g", 10)]);
}

#[test]
fn equal_speeds_keep_their_order() {
    let input = vec![
        source("a", "x", 5),
        source("b", "x", 5),
        source("c", "x", 5),
    ];
    let out = select_top_sources(input, 2);
    let hosts: Vec<&str> = out.iter().map(|s| s.host.as_str()).collect();
    assert_eq!(hosts, vec!["a", "b"]);
}

#[test]
fn nothing_to_select() {
    assert!(select_top_sources(vec![], 5).is_empty());
}

#[test]
fn selecting_twice_changes_nothing() {
    let input = vec![
        source("h", "txiptv", 50),
        source("h", "hsmdtv", 60),
        source("g", "jsmpeg", 10),
        source("k", "zhgxtv", 70),
        source("m", "txiptv", 40),
        source("n", "hsmdtv", 45),
        source("p", "other", 90),
    ];
    let once = select_top_sources(input, 3);
    let once_keys: Vec<(String, i64)> = once.iter().map(|s| (s.host.clone(), s.speed)).collect();
    let twice = select_top_sources(once, 3);
    let twice_keys: Vec<(String, i64)> =
        twice.iter().map(|s| (s.host.clone(), s.speed)).collect();
    assert_eq!(twice_keys, once_keys);
    let expected: Vec<(String, i64)> = vec![
        ("k".to_string(), 70),
        ("h".to_string(), 50),
        ("n".to_string(), 45),
        ("g".to_string(), 10),
    ];
    assert_eq!(once_keys, expected);
}

#[test]
fn distinct_hosts_keep_fastest_per_type_and_exact_size() {
    let input = || {
        vec![
            source("a", "txiptv", 10),
            source("b", "txiptv", 30),
            source("c", "hsmdtv", 5),
            source("d", "other", 50),
            source("e", "other", 40),
            source("f", "other", 1),
        ]
    };
    let keys = |v: Vec<SourceResult>| -> Vec<(String, i64)> {
        v.iter().map(|s| (s.host.clone(), s.speed)).collect()
    };
    assert_eq!(
        keys(select_top_sources(input(), 3)),
        vec![("d".to_string(), 50), ("b".to_string(), 30), ("c".to_string(), 5)]
    );
    assert_eq!(
        keys(select_top_sources(input(), 1)),
        vec![("b".to_string(), 30), ("c".to_string(), 5)]
    );
    assert_eq!(select_top_sources(input(), 10).len(), 6);
}
