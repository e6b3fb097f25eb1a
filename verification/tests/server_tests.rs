use iptv_speed_tester::server::{
    handle_force_retest, handle_m3u8, handle_status, handle_txt, NOT_READY,
};
use iptv_speed_tester::state::SharedData;

fn data(m3u8: &str, txt: &str, last_run: &str) -> SharedData {
    SharedData { m3u8: m3u8.to_string(), txt: txt.to_string(), last_run: last_run.to_string() }
}

#[test]
fn playlists_wait_for_the_first_scan() {
    let d = data("", "", "Never");
    let r = handle_m3u8(&d);
    assert_eq!(r.status, 503);
    assert_eq!(r.body, NOT_READY);
    assert_eq!(r.body, "Not ready yet. Please wait for the first scan.");
    assert_eq!(r.content_type, "text/plain; charset=utf-8");
    assert_eq!(handle_txt(&d).status, 503);
}

#[test]
fn playlists_are_served_with_their_type() {
    let d = data("#EXTM3U\n", "a,http://x\n", "2024-01-01 03:23:00");
    let r = handle_m3u8(&d);
    assert_eq!(r.status, 200);
    assert_eq!(r.body, "#EXTM3U\n");
    assert_eq!(r.content_type, "application/vnd.apple.mpegurl");
    let t = handle_txt(&d);
    assert_eq!(t.status, 200);
    assert_eq!(t.body, "a,http://x\n");
    assert_eq!(t.content_type, "text/plain; charset=utf-8");
}

#[test]
fn status_reports_run_and_version() {
    let d = data("", "", "Never");
    let s = handle_status(&d, true);
    assert_eq!(s.status, "updating");
    assert_eq!(s.last_run, "Never");
    assert_eq!(s.version, "3.0.0");
    assert_eq!(handle_status(&d, false).status, "idle");
}

#[test]
fn retest_is_refused_while_running() {
    let busy = handle_force_retest(true);
    assert_eq!((busy.status, busy.state.as_str(), busy.start), (429, "busy", false));
    let ok = handle_force_retest(false);
    assert_eq!((ok.status, ok.state.as_str(), ok.start), (200, "started", true));
}
