//! Which scripts wait for a schedule.
use crate::common::error::Error;
use crate::daemon::scheduler::{cron_complaint, read_schedule, schedule_of};
use crate::names::{without, NameMap};
use crate::text::texts;
use cron::Schedule;
use vstd::prelude::*;

verus! {

/// The scripts that wait for a schedule, each with its cron expression.
#[derive(Debug)]
pub struct CronManager {
    pub tasks: NameMap<String>,
}

impl CronManager {
    /// No script waits twice.
    pub open spec fn wf(self) -> bool {
        self.tasks.wf()
    }

    /// The scripts that wait.
    pub open spec fn scheduled(self, name: Seq<char>) -> bool {
        self.tasks@.contains_key(name)
    }

    /// No script waits.
    pub fn new() -> (r: Self)
        ensures
            r.wf(),
            r.tasks@ == Map::<Seq<char>, String>::empty(),
    {
        CronManager { tasks: NameMap::new() }
    }

    /// Lets a script wait for a schedule in place of the one it waited for. A
    /// script whose expression is not accepted, for the given reason, waits for none.
    pub fn enter(&mut self, name: &str, cron_expr: &str, complaint: Option<String>) -> (r: Result<
        (),
        Error,
    >)
        requires
            old(self).wf(),
        ensures
            final(self).wf(),
            final(self).tasks@.remove(name@) == old(self).tasks@.remove(name@),
            match complaint {
                None => r is Ok && final(self).scheduled(name@) && final(self).tasks@[name@]@
                    == cron_expr@,
                Some(reason) => !final(self).scheduled(name@) && (r matches Err(
                    Error::CronParse { expression, source },
                ) && expression@ == cron_expr@ && source == reason),
            },
    {
        self.cancel(name);
        proof {
            let before = old(self).tasks@;
            assert(before.remove(name@).remove(name@) =~= before.remove(name@));
        }
        match complaint {
            None => {
                self.tasks.insert(name.to_owned(), cron_expr.to_owned());
                assert(self.tasks@.remove(name@) =~= old(self).tasks@.remove(name@));
                Ok(())
            },
            Some(source) => Err(Error::CronParse { expression: cron_expr.to_owned(), source }),
        }
    }

    /// Lets a script wait for the schedule of a cron expression in place of the
    /// one it waited for, and gives that schedule. A script whose expression is
    /// not accepted waits for none.
    pub fn schedule(&mut self, name: &str, cron_expr: &str) -> (r: Result<Schedule, Error>)
        requires
            old(self).wf(),
        ensures
            final(self).wf(),
            final(self).tasks@.remove(name@) == old(self).tasks@.remove(name@),
            final(self).scheduled(name@) == (cron_complaint(cron_expr@) is None),
            match r {
                Ok(schedule) => {
                    &&& final(self).scheduled(name@)
                    &&& final(self).tasks@[name@]@ == cron_expr@
                    &&& schedule == schedule_of(cron_expr@)
                },
                Err(e) => !final(self).scheduled(name@) && (e matches Error::CronParse {
                    expression,
                    source,
                } && expression@ == cron_expr@ && cron_complaint(cron_expr@) == Some(source@)),
            },
    {
        match read_schedule(cron_expr) {
            Ok(schedule) => {
                let _ = self.enter(name, cron_expr, None);
                Ok(schedule)
            },
            Err(complaint) => {
                let e = Error::CronParse {
                    expression: cron_expr.to_owned(),
                    source: complaint.clone(),
                };
                let _ = self.enter(name, cron_expr, Some(complaint));
                Err(e)
            },
        }
    }

    /// Lets a script wait no longer; tells whether it did.
    pub fn cancel(&mut self, name: &str) -> (r: bool)
        requires
            old(self).wf(),
        ensures
            final(self).wf(),
            r == old(self).scheduled(name@),
            final(self).tasks@ == old(self).tasks@.remove(name@),
            final(self).tasks.names() == without(old(self).tasks.names(), name@),
    {
        self.tasks.remove(name).is_some()
    }

    /// Lets no script wait any longer; gives the names of those that did.
    pub fn cancel_all(&mut self) -> (r: Vec<String>)
        requires
            old(self).wf(),
        ensures
            final(self).wf(),
            final(self).tasks@ == Map::<Seq<char>, String>::empty(),
            texts(r@) == old(self).tasks.names(),
    {
        let names = self.tasks.keys();
        self.tasks.clear();
        names
    }

    /// Whether a script waits.
    pub fn is_scheduled(&self, name: &str) -> (r: bool)
        ensures
            r == self.scheduled(name@),
    {
        self.tasks.contains_key(name)
    }
}

} // verus!
