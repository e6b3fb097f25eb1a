use iptv_speed_tester::config::{
    retry_api_fetch, subscribe_cache_file,
    data_dir, data_path, init_data_dir, init_min_resolution, init_speed_low, min_resolution,
    speed_low, Settings, DEFAULT_MIN_RESOLUTION, DEFAULT_SPEED_LOW,
};

#[test]
fn defaults_before_any_setting() {
    let s = Settings::new();
    assert_eq!(speed_low(&s), DEFAULT_SPEED_LOW);
    assert_eq!(min_resolution(&s), DEFAULT_MIN_RESOLUTION);
    assert_eq!(DEFAULT_SPEED_LOW, 1048576);
    assert_eq!(DEFAULT_MIN_RESOLUTION, 1080);
}

#[test]
fn first_setting_wins() {
    let mut s = Settings::new();
    init_speed_low(&mut s, 3 * 1048576);
    init_speed_low(&mut s, 7);
    assert_eq!(speed_low(&s), 3 * 1048576);
    init_min_resolution(&mut s, 720);
    init_min_resolution(&mut s, 2160);
    assert_eq!(min_resolution(&s), 720);
    init_data_dir(&mut s, "/data/iptv".to_string());
    init_data_dir(&mut s, "/elsewhere".to_string());
    assert_eq!(data_dir(&s), "/data/iptv");
}

#[test]
fn zero_resolution_turns_the_filter_off() {
    let mut s = Settings::new();
    init_min_resolution(&mut s, 0);
    assert_eq!(min_resolution(&s), 0);
}

#[test]
fn data_path_joins_with_one_separator() {
    let mut s = Settings::new();
    init_data_dir(&mut s, "/data/iptv".to_string());
    assert_eq!(data_path(&s, "iptv_sources.m3u8"), "/data/iptv/iptv_sources.m3u8");
    let mut t = Settings::new();
    init_data_dir(&mut t, "/data/".to_string());
    assert_eq!(data_path(&t, "a.txt"), "/data/a.txt");
    assert_eq!(data_path(&t, "/abs/b.txt"), "/abs/b.txt");
    let mut e = Settings::new();
    init_data_dir(&mut e, String::new());
    assert_eq!(data_path(&e, "c.txt"), "c.txt");
}

#[test]
fn api_fetch_is_tried_three_times() {
    assert!(retry_api_fetch(1));
    assert!(retry_api_fetch(2));
    assert!(!retry_api_fetch(3));
}

#[test]
fn subscription_cache_files() {
    assert_eq!(subscribe_cache_file(1), "sub_cache_1.txt");
    assert_eq!(subscribe_cache_file(12), "sub_cache_12.txt");
}
