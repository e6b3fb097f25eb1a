use iptv_speed_tester::schedule::{
    is_schedulable_instant, next_wait_secs, wait_until, ScheduleError,
};

// 2023-11-14 22:13:20 UTC.
const NOW: i64 = 1_700_000_000;

#[test]
fn next_run_in_utc() {
    let (zone, wait) = next_wait_secs("0 3 * * *", "UTC", NOW);
    assert_eq!(zone, "UTC");
    assert!(matches!(wait, Ok(Some(17_200))));
}

#[test]
fn next_run_in_the_zone_given() {
    let (zone, wait) = next_wait_secs(" 0 3 * * * ", "Asia/Shanghai", NOW);
    assert_eq!(zone, "Asia/Shanghai");
    assert!(matches!(wait, Ok(Some(74_800))));
}

#[test]
fn unknown_zone_falls_back_to_shanghai() {
    let (zone, wait) = next_wait_secs("0 3 * * *", "Mars/Olympus", NOW);
    assert_eq!(zone, "Asia/Shanghai");
    assert!(matches!(wait, Ok(Some(74_800))));
}

#[test]
fn refused_expression_is_reported() {
    let (zone, wait) = next_wait_secs("every morning", "UTC", NOW);
    assert_eq!(zone, "UTC");
    assert!(matches!(wait, Err(ScheduleError::BadExpression(_))));
}

#[test]
fn schedule_in_the_past_is_exhausted() {
    let (_, wait) = next_wait_secs("0 0 1 1 * 2015", "UTC", NOW);
    assert!(matches!(wait, Ok(None)));
}

#[test]
fn wait_from_the_next_time() {
    assert!(matches!(wait_until(Ok(Some(NOW + 50)), NOW), Ok(Some(50))));
    assert!(matches!(wait_until(Ok(Some(NOW - 10)), NOW), Ok(Some(0))));
    assert!(matches!(wait_until(Ok(None), NOW), Ok(None)));
    assert!(matches!(
        wait_until(Err(ScheduleError::UnknownZone), NOW),
        Err(ScheduleError::UnknownZone)
    ));
}

#[test]
fn instants_the_scheduler_reads() {
    assert!(is_schedulable_instant(NOW));
    assert!(!is_schedulable_instant(0));
    assert!(!is_schedulable_instant(i64::MAX));
}
