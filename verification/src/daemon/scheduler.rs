//! When scripts with a schedule are due.
use crate::common::error::Error;
use crate::time::{elapsed, law_since, since, Duration, Timestamp};
use chrono::Local;
use cron::Schedule;
use std::str::FromStr;
use vstd::prelude::*;

verus! {

/// `cron::Schedule`: the times that a cron expression stands for.
#[verifier::external_type_specification]
#[verifier::external_body]
pub struct ExSchedule(cron::Schedule);

/// What `cron::Schedule::from_str` makes of an expression: a schedule, or what
/// is wrong with the expression, in the words of its error.
pub uninterp spec fn cron_reading(expression: Seq<char>) -> Result<Schedule, Seq<char>>;

/// What is wrong with an expression; nothing where it is accepted.
pub open spec fn cron_complaint(expression: Seq<char>) -> Option<Seq<char>> {
    match cron_reading(expression) {
        Ok(_) => None,
        Err(complaint) => Some(complaint),
    }
}

/// The schedule that an accepted expression stands for.
pub open spec fn schedule_of(expression: Seq<char>) -> Schedule
    recommends
        cron_complaint(expression) is None,
{
    cron_reading(expression)->Ok_0
}

/// Calls `cron::Schedule::from_str` and puts its error into words. Both the
/// schedule and the error are those of the expression, whose text alone decides.
#[verifier::external_body]
pub(crate) fn read_schedule(expression: &str) -> (r: Result<Schedule, String>)
    ensures
        (match r {
            Ok(schedule) => Ok(schedule),
            Err(e) => Err(e@),
        }) == cron_reading(expression@),
{
    Schedule::from_str(expression).map_err(|e| e.to_string())
}

/// Calls `cron::Schedule::upcoming` for the machine's time zone and takes the
/// first time that it gives: a full second. Which one it is rests on the clock
/// and the time zone besides the schedule, and is left unsaid.
#[verifier::external_body]
fn upcoming(schedule: &Schedule) -> (r: Option<Timestamp>)
    ensures
        r is Some ==> r->0.nanos == 0,
{
    let next = schedule.upcoming(Local).next();
    next.map(|t| Timestamp { secs: t.timestamp(), nanos: t.timestamp_subsec_nanos() })
}

/// The schedule that an expression stands for, or what is wrong with the expression.
pub fn parse_schedule(cron_expr: &str) -> (r: Result<Schedule, Error>)
    ensures
        match r {
            Ok(schedule) => cron_complaint(cron_expr@) is None && schedule == schedule_of(
                cron_expr@,
            ),
            Err(e) => e matches Error::CronParse { expression, source } && expression@
                == cron_expr@ && cron_complaint(cron_expr@) == Some(source@),
        },
{
    match read_schedule(cron_expr) {
        Ok(schedule) => Ok(schedule),
        Err(source) => Err(Error::CronParse { expression: cron_expr.to_owned(), source }),
    }
}

/// When a schedule is next due, if it ever is again: at a full second. Whether
/// it is, and at which one, rests on the clock and the time zone.
pub fn next_due(schedule: &Schedule) -> (r: Option<Timestamp>)
    ensures
        r is Some ==> r->0.wf() && r->0.nanos == 0,
{
    upcoming(schedule)
}

/// What the task that waits for a schedule does next.
#[derive(Clone, Copy, Debug, PartialEq, Eq, Structural)]
pub enum CronStep {
    /// The schedule is never due again: end the task.
    Finish,
    /// Wait so long, then start the script.
    TickAfter(Duration),
}

/// What the task that waits for a schedule does next.
pub open spec fn step_after(next: Option<Timestamp>, now: Timestamp) -> CronStep {
    match next {
        None => CronStep::Finish,
        Some(t) => CronStep::TickAfter(since(now, t)),
    }
}

/// What the task that waits for a schedule does next.
pub fn cron_step(next: Option<Timestamp>, now: Timestamp) -> (r: CronStep)
    requires
        next is Some ==> next->0.wf(),
        now.wf(),
    ensures
        r == (match next {
            None => CronStep::Finish,
            Some(t) => CronStep::TickAfter(since(now, t)),
        }),
        r == step_after(next, now),
{
    match next {
        None => CronStep::Finish,
        Some(t) => CronStep::TickAfter(elapsed(now, t)),
    }
}

/// The task waits until the schedule is due, and no longer; where that time has
/// come already it does not wait; and where it never comes again it ends.
pub proof fn law_waits_until_due(next: Timestamp, now: Timestamp)
    requires
        next.wf(),
        now.wf(),
    ensures
        step_after(None, now) is Finish,
        match step_after(Some(next), now) {
            CronStep::TickAfter(wait) => {
                &&& now.total() <= next.total() ==> now.total() + wait.total() == next.total()
                &&& now.total() > next.total() ==> wait.total() == 0
            },
            CronStep::Finish => false,
        },
{
    law_since(now, next);
}

/// An expression is accepted, and stands for a schedule, just if it can be read.
pub proof fn law_reading(expression: Seq<char>)
    ensures
        match cron_reading(expression) {
            Ok(schedule) => cron_complaint(expression) is None && schedule_of(expression)
                == schedule,
            Err(complaint) => cron_complaint(expression) == Some(complaint),
        },
{
}

} // verus!
