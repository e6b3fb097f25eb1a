use iptv_speed_tester::state::{cron_expression, format_timestamp, initial_last_run, startup_needs_run};
use iptv_speed_tester::state::{is_running, Cli, RunFlag, SharedData};
use iptv_speed_tester::task::RunAction;

fn cli() -> Cli {
    Cli {
        port: 3030,
        workers: 20,
        top_n: 5,
        per_channel: 3,
        speed_low: 1048576,
        min_resolution: 1080,
        cron: "23 3 * * *".to_string(),
        timezone: "Asia/Shanghai".to_string(),
        dir: None,
        url1: None,
        url2: None,
        url3: None,
        url4: None,
        url5: None,
        url6: None,
        url7: None,
        url8: None,
        url9: None,
        url10: None,
        url11: None,
        url12: None,
        url13: None,
        url14: None,
        url15: None,
        url16: None,
        url17: None,
        url18: None,
        url19: None,
        url20: None,
    }
}

#[test]
fn collect_urls_keeps_order_and_drops_blank() {
    let mut c = cli();
    c.url3 = Some("http://b/list.m3u".to_string());
    c.url1 = Some("http://a/list.txt".to_string());
    c.url2 = Some("   ".to_string());
    c.url7 = Some(String::new());
    c.url20 = Some("http://z/".to_string());
    assert_eq!(
        c.collect_urls(),
        vec!["http://a/list.txt", "http://b/list.m3u", "http://z/"]
    );
}

#[test]
fn collect_urls_without_urls_is_empty() {
    assert!(cli().collect_urls().is_empty());
}

#[test]
fn collect_urls_keeps_surrounding_spaces_of_a_url() {
    let mut c = cli();
    c.url5 = Some(" http://x ".to_string());
    assert_eq!(c.collect_urls(), vec![" http://x "]);
}

#[test]
fn one_run_at_a_time() {
    let mut f = RunFlag::new();
    assert!(!is_running(&f));
    assert!(f.try_start());
    assert!(is_running(&f));
    assert!(!f.try_start());
    assert!(is_running(&f));
    assert_eq!(f.collected(3, 0), RunAction::Publish);
    assert!(is_running(&f));
    assert!(!f.try_start());
    f.published();
    assert!(!is_running(&f));
    assert!(f.try_start());
}

#[test]
fn every_exit_of_a_run_frees_the_flag() {
    let mut f = RunFlag::new();
    assert!(f.try_start());
    assert_eq!(f.collected(0, 1080), RunAction::KeepCache);
    assert!(!is_running(&f));

    assert!(f.try_start());
    assert_eq!(f.collected(5, 1080), RunAction::ProbeResolution(1080));
    assert!(is_running(&f));
    assert_eq!(f.probed(0), RunAction::KeepCache);
    assert!(!is_running(&f));

    assert!(f.try_start());
    assert_eq!(f.collected(5, 720), RunAction::ProbeResolution(720));
    assert_eq!(f.probed(2), RunAction::Publish);
    assert!(is_running(&f));
    assert!(!f.try_start());
    f.published();
    assert!(!is_running(&f));
}

#[test]
fn shared_data_starts_empty() {
    let d = SharedData::default();
    assert!(d.m3u8.is_empty() && d.txt.is_empty() && d.last_run.is_empty());
}

#[test]
fn startup_skips_the_run_only_with_both_caches() {
    assert!(!startup_needs_run(true, true));
    assert!(startup_needs_run(true, false));
    assert!(startup_needs_run(false, true));
    assert!(startup_needs_run(false, false));
}

#[test]
fn last_run_at_startup() {
    assert_eq!(initial_last_run(false, Some("x".to_string())), "Never");
    assert_eq!(initial_last_run(true, None), "cached (unknown time)");
    assert_eq!(initial_last_run(true, Some("2024-05-01 03:23:00".to_string())), "2024-05-01 03:23:00");
}

#[test]
fn cron_expression_gets_a_seconds_field() {
    assert_eq!(cron_expression(" 23 3 * * * "), "0 23 3 * * *");
}

#[test]
fn run_times_are_zero_padded() {
    assert_eq!(format_timestamp(2024, 5, 1, 3, 23, 0), "2024-05-01 03:23:00");
    assert_eq!(format_timestamp(999, 12, 31, 23, 59, 59), "0999-12-31 23:59:59");
}
