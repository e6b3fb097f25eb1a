use vstd::prelude::*;
use crate::state::cron_expression;
use crate::text::trim;

verus! {

#[verifier::external_type_specification]
#[verifier::external_body]
pub struct ExCronError(cron::error::Error);

/// The zone the schedule is read in when the one asked for is unknown.
pub const DEFAULT_TIMEZONE: &'static str = "Asia/Shanghai";

/// Why the schedule cannot be read.
#[derive(Debug)]
pub enum ScheduleError {
    /// `chrono_tz` knows no zone of that name.
    UnknownZone,
    /// `cron` refused the expression, for the reason it gives.
    BadExpression(cron::error::Error),
}

/// Whether `chrono_tz::Tz` parses from `name`.
pub uninterp spec fn tz_known(name: Seq<char>) -> bool;

/// Whether `cron::Schedule` parses from `expr`.
pub uninterp spec fn cron_accepts(expr: Seq<char>) -> bool;

/// The first time, in seconds since the Unix epoch, that the `cron`
/// schedule `expr`, read in the zone `tz`, fires after the instant `now`;
/// none when the schedule has no later time.
pub uninterp spec fn cron_next_after(expr: Seq<char>, tz: Seq<char>, now: i64) -> Option<i64>;

/// The schedule's answer: its next time after an instant, if any, or why
/// it cannot be read.
pub type NextFire = Result<Option<i64>, ScheduleError>;

/// Whether `r` says the zone is unknown.
pub open spec fn zone_refused<T>(r: Result<T, ScheduleError>) -> bool {
    r matches Err(ScheduleError::UnknownZone)
}

/// Whether `r` says `cron` refused the expression.
pub open spec fn expression_refused<T>(r: Result<T, ScheduleError>) -> bool {
    r matches Err(ScheduleError::BadExpression(_))
}

/// The instants at which a schedule can be asked for its next time: from
/// 2012 (the last day a zone skipped whole, on which `cron` would panic,
/// lies before) to the year 10000.
pub open spec fn schedulable_instant(now: i64) -> bool {
    1_325_376_000 <= now < 253_402_300_800
}

/// Whether the scheduler can work from the instant `now`.
pub fn is_schedulable_instant(now: i64) -> (r: bool)
    ensures
        r == schedulable_instant(now),
{
    1_325_376_000 <= now && now < 253_402_300_800
}

/// Reads `tz` as a `chrono_tz::Tz` and `expr` as a `cron::Schedule`, and
/// asks the schedule for the first time after `now` in that zone
/// (`Schedule::after(..).next()`). The contract claims that the zone is
/// refused exactly when it is unknown, the expression exactly when `cron`
/// refuses it, and that the time found depends on the three arguments
/// alone; which zones exist and which times a schedule names are the
/// crates'.
#[verifier::external_body]
fn cron_next(expr: &str, tz: &str, now: i64) -> (r: NextFire)
    requires
        schedulable_instant(now),
    ensures
        zone_refused(r) <==> !tz_known(tz@),
        expression_refused(r) <==> (tz_known(tz@) && !cron_accepts(expr@)),
        match r {
            Ok(t) => t == cron_next_after(expr@, tz@, now),
            Err(_) => true,
        },
{
    let zone: chrono_tz::Tz = match tz.parse() {
        Ok(z) => z,
        Err(_) => return Err(ScheduleError::UnknownZone),
    };
    let schedule = match <cron::Schedule as std::str::FromStr>::from_str(expr) {
        Ok(s) => s,
        Err(e) => return Err(ScheduleError::BadExpression(e)),
    };
    let start = chrono::DateTime::from_timestamp(now, 0).unwrap().with_timezone(&zone);
    match schedule.after(&start).next() {
        Some(t) => Ok(Some(t.timestamp())),
        None => Ok(None),
    }
}

/// The seconds to wait from `now` until `next`, none when there is no next
/// time; a time already past is waited for zero seconds.
pub open spec fn wait_for(next: Option<i64>, now: i64) -> Option<u64> {
    match next {
        Some(t) => Some(if t > now {
            (t - now) as u64
        } else {
            0u64
        }),
        None => None,
    }
}

/// What the scheduler makes of the schedule's answer `next` at `now`: the
/// seconds to wait before the next run, none when the schedule is over, or
/// why the schedule cannot be read.
pub fn wait_until(next: NextFire, now: i64) -> (r: Result<Option<u64>, ScheduleError>)
    ensures
        next is Ok <==> r is Ok,
        next is Ok ==> r->Ok_0 == wait_for(next->Ok_0, now),
        zone_refused(r) <==> zone_refused(next),
        expression_refused(r) <==> expression_refused(next),
{
    match next {
        Ok(Some(t)) => {
            if t > now {
                let d: i128 = t as i128 - now as i128;
                Ok(Some(d as u64))
            } else {
                Ok(Some(0))
            }
        },
        Ok(None) => Ok(None),
        Err(e) => Err(e),
    }
}

/// The zone the schedule is read in: `tz` when it is known, else the
/// default zone.
pub open spec fn schedule_zone(tz: Seq<char>) -> Seq<char> {
    if tz_known(tz) {
        tz
    } else {
        DEFAULT_TIMEZONE@
    }
}

/// One step of the scheduler at the instant `now`, for the five-field
/// expression `cron` and the zone `tz`: the zone it reads the schedule in
/// (`tz`, or the default zone when `tz` is unknown), and the seconds to
/// wait before the next run, none when the schedule is over. It fails
/// exactly when the zone read in is unknown, or `cron` refuses the
/// expression (a `0` seconds field before the five fields given).
pub fn next_wait_secs(cron: &str, tz: &str, now: i64) -> (r: (String, Result<
    Option<u64>,
    ScheduleError,
>))
    requires
        schedulable_instant(now),
    ensures
        r.0@ == schedule_zone(tz@),
        zone_refused(r.1) <==> !tz_known(r.0@),
        expression_refused(r.1) <==> tz_known(r.0@) && !cron_accepts("0 "@ + trim(cron@)),
        r.1 is Ok ==> r.1->Ok_0 == wait_for(cron_next_after("0 "@ + trim(cron@), r.0@, now), now),
{
    let expr = cron_expression(cron);
    match cron_next(expr.as_str(), tz, now) {
        Err(ScheduleError::UnknownZone) => {
            let zone = String::from_str(DEFAULT_TIMEZONE);
            let next = cron_next(expr.as_str(), zone.as_str(), now);
            (zone, wait_until(next, now))
        },
        other => (String::from_str(tz), wait_until(other, now)),
    }
}

} // verus!
