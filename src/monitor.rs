use vstd::prelude::*;

use crate::policy::{Ignore, Policy, Schedule, copy_ignore, copy_strings, opt_ignore, texts};
use crate::schedule::{
    CronSchedule, IntervalSchedule, RequestView, ScanRequest, ScheduleTarget, cron_next,
    request_view, target_view, unix_now,
};

verus! {

/// Directories to watch for changes, with the filters to scan them with.
pub struct DirWatcher {
    pub watch_dirs: Vec<String>,
    pub ignore_files: Option<Ignore>,
    pub ignore_dirs: Option<Ignore>,
}

impl DirWatcher {
    pub fn new(watch_dirs: Vec<String>, ignore_files: Option<Ignore>, ignore_dirs: Option<Ignore>) -> (r:
        DirWatcher)
        ensures
            r.watch_dirs == watch_dirs,
            r.ignore_files == ignore_files,
            r.ignore_dirs == ignore_dirs,
    {
        DirWatcher { watch_dirs, ignore_files, ignore_dirs }
    }

    /// The scan that a write to `path` calls for: that path, with the
    /// watcher's filters.
    pub fn on_write(&self, path: String) -> (r: ScanRequest)
        ensures
            texts(r.dirs@) == seq![path@],
            opt_ignore(r.ignore_files) == opt_ignore(self.ignore_files),
            opt_ignore(r.ignore_dirs) == opt_ignore(self.ignore_dirs),
    {
        let ghost p = path@;
        let mut dirs: Vec<String> = Vec::new();
        dirs.push(path);
        proof {
            assert(texts(dirs@) =~= seq![p]);
        }
        ScanRequest {
            dirs,
            ignore_files: copy_ignore(&self.ignore_files),
            ignore_dirs: copy_ignore(&self.ignore_dirs),
        }
    }
}

/// One schedule of either kind.
pub enum ScheduleKind {
    Interval(IntervalSchedule),
    Cron(CronSchedule),
}

/// Whether a schedule is due at time `now` (seconds since the epoch).
pub open spec fn kind_due(k: ScheduleKind, now: u64) -> bool {
    match k {
        ScheduleKind::Interval(s) => now > s.next_run,
        ScheduleKind::Cron(s) => now <= i64::MAX && now as i64 >= s.next_run,
    }
}

/// What a schedule scans.
pub open spec fn kind_target(k: ScheduleKind) -> ScheduleTarget {
    match k {
        ScheduleKind::Interval(s) => s.target,
        ScheduleKind::Cron(s) => s.target,
    }
}

/// A schedule after it was asked at time `now`: a due interval schedule is
/// next due `interval` seconds after `now` (or at the latest representable
/// time), a due cron schedule at its expression's first occurrence after
/// `now` (or never); a schedule that is not due stays as it is.
pub open spec fn kind_next(k: ScheduleKind, now: u64) -> ScheduleKind {
    if !kind_due(k, now) {
        k
    } else {
        match k {
            ScheduleKind::Interval(s) => ScheduleKind::Interval(
                IntervalSchedule {
                    next_run: if now + s.interval <= u64::MAX {
                        (now + s.interval) as u64
                    } else {
                        u64::MAX
                    },
                    ..s
                },
            ),
            ScheduleKind::Cron(s) => ScheduleKind::Cron(
                CronSchedule {
                    next_run: match cron_next(s.expression@, now as i64) {
                        Some(t) => t,
                        None => i64::MAX,
                    },
                    ..s
                },
            ),
        }
    }
}

/// The requests of the schedules that are due at time `now`, in order.
pub open spec fn due_requests(ks: Seq<ScheduleKind>, now: u64) -> Seq<RequestView>
    decreases ks.len(),
{
    if ks.len() == 0 {
        Seq::empty()
    } else if kind_due(ks.last(), now) {
        due_requests(ks.drop_last(), now).push(target_view(kind_target(ks.last())))
    } else {
        due_requests(ks.drop_last(), now)
    }
}

pub open spec fn request_views(v: Seq<ScanRequest>) -> Seq<RequestView> {
    v.map_values(|q: ScanRequest| request_view(q))
}

impl ScheduleKind {
    /// Asks the schedule at time `now` (seconds since the epoch) whether a scan
    /// is due.
    pub fn interrogate_at(&mut self, now: u64) -> (r: Option<ScanRequest>)
        ensures
            r is Some <==> kind_due(*old(self), now),
            r matches Some(q) ==> request_view(q) == target_view(kind_target(*old(self))),
            *final(self) == kind_next(*old(self), now),
    {
        match self {
            ScheduleKind::Interval(s) => s.interrogate_at(now),
            ScheduleKind::Cron(s) => if now <= i64::MAX as u64 {
                s.interrogate_at(now as i64)
            } else {
                None
            },
        }
    }
}

/// The schedules of a policy, asked in turn.
pub struct ScheduleRunner {
    pub schedules: Vec<ScheduleKind>,
}

impl ScheduleRunner {
    pub fn new(schedules: Vec<ScheduleKind>) -> (r: ScheduleRunner)
        ensures
            r.schedules == schedules,
    {
        ScheduleRunner { schedules }
    }

    /// Asks every schedule, in order, at time `now`, and collects the scans
    /// that are due. Every schedule stays in place.
    pub fn poll_at(&mut self, now: u64) -> (r: Vec<ScanRequest>)
        ensures
            final(self).schedules@.len() == old(self).schedules@.len(),
            forall|j: int|
                0 <= j < old(self).schedules@.len() ==> #[trigger] final(self).schedules@[j]
                    == kind_next(old(self).schedules@[j], now),
            request_views(r@) == due_requests(old(self).schedules@, now),
    {
        let ghost start = self.schedules@;
        let mut due: Vec<ScanRequest> = Vec::new();
        let n = self.schedules.len();
        let mut i: usize = 0;
        while i < n
            invariant
                n == self.schedules@.len(),
                n == start.len(),
                i <= n,
                forall|j: int| i <= j < n ==> self.schedules@[j] == start[j],
                forall|j: int| 0 <= j < i ==> self.schedules@[j] == kind_next(start[j], now),
                request_views(due@) == due_requests(start.subrange(0, i as int), now),
            decreases n - i,
        {
            proof {
                assert(start.subrange(0, i as int + 1).drop_last() =~= start.subrange(0, i as int));
            }
            let ghost before = self.schedules@;
            let ghost due_before = due@;
            let mut s = self.schedules.remove(i);
            let asked = s.interrogate_at(now);
            self.schedules.insert(i, s);
            proof {
                assert(self.schedules@ =~= before.update(i as int, kind_next(start[i as int], now)));
            }
            match asked {
                Some(q) => {
                    due.push(q);
                    proof {
                        assert(request_views(due@) =~= request_views(due_before).push(request_view(q)));
                    }
                },
                None => {},
            }
            i = i + 1;
        }
        proof {
            assert(start.subrange(0, n as int) =~= start);
        }
        due
    }
}

/// Whether a policy schedule can be built at time `now`: not both a cron
/// expression and an interval, a cron expression with an occurrence after
/// `now`, an interval whose first run is representable.
pub open spec fn schedule_buildable(s: Schedule, now: u64) -> bool {
    &&& !(s.cron is Some && s.interval is Some)
    &&& s.cron matches Some(c) ==> (now <= i64::MAX && cron_next(c@, now as i64) is Some)
    &&& s.interval matches Some(n) ==> now + n <= u64::MAX
}

/// Whether a policy schedule names a timing at all.
pub open spec fn schedule_timed(s: Schedule) -> bool {
    s.cron is Some || s.interval is Some
}

/// The policy schedules that name a timing, in order.
pub open spec fn timed_entries(entries: Seq<(String, Schedule)>) -> Seq<Schedule>
    decreases entries.len(),
{
    if entries.len() == 0 {
        Seq::empty()
    } else if schedule_timed(entries.last().1) {
        timed_entries(entries.drop_last()).push(entries.last().1)
    } else {
        timed_entries(entries.drop_last())
    }
}

/// The target of a policy schedule: its directories and filters.
pub open spec fn schedule_request(s: Schedule) -> RequestView {
    RequestView {
        dirs: texts(s.dirs@),
        ignore_files: opt_ignore(s.ignore_files),
        ignore_dirs: opt_ignore(s.ignore_dirs),
    }
}

/// Each of `ks` is built at time `now` from the policy schedule at its place
/// in `ss`.
pub open spec fn built_all(ks: Seq<ScheduleKind>, ss: Seq<Schedule>, now: u64) -> bool {
    ks.len() == ss.len() && forall|j: int| 0 <= j < ks.len() ==> built_from(#[trigger] ks[j], ss[j], now)
}

/// `k` is the schedule built at time `now` from the policy schedule `s`: an
/// interval schedule first due `interval` seconds after `now`, or a cron
/// schedule first due at its expression's first occurrence after `now`, with
/// the directories and filters of `s`.
pub open spec fn built_from(k: ScheduleKind, s: Schedule, now: u64) -> bool {
    &&& target_view(kind_target(k)) == schedule_request(s)
    &&& match k {
        ScheduleKind::Interval(is) => s.interval matches Some(n) && is.interval == n as u64
            && is.next_run == now + n,
        ScheduleKind::Cron(cs) => s.cron matches Some(c) && cs.expression@ == c@ && Some(
            cs.next_run,
        ) == cron_next(c@, now as i64),
    }
}

fn target_of(s: &Schedule) -> (r: ScheduleTarget)
    ensures
        r.dirs_view() == texts(s.dirs@),
        opt_ignore(r.ignore_files) == opt_ignore(s.ignore_files),
        opt_ignore(r.ignore_dirs) == opt_ignore(s.ignore_dirs),
{
    ScheduleTarget {
        paths: copy_strings(&s.dirs),
        ignore_files: copy_ignore(&s.ignore_files),
        ignore_dirs: copy_ignore(&s.ignore_dirs),
    }
}

/// Builds the schedule of one policy entry, if it names a timing.
fn build_schedule(s: &Schedule, now: u64) -> (r: Result<Option<ScheduleKind>, String>)
    ensures
        r is Ok <==> schedule_buildable(*s, now),
        r matches Ok(k) ==> (k is Some <==> schedule_timed(*s)),
        r matches Ok(Some(k)) ==> built_from(k, *s, now),
{
    if s.cron.is_some() && s.interval.is_some() {
        return Err(String::from_str("Cannot have a schedule with both a cron and interval schedule!"));
    }
    match &s.cron {
        Some(c) => {
            if now > i64::MAX as u64 {
                return Err(String::from_str("the system clock is out of range"));
            }
            let t = target_of(s);
            return match CronSchedule::new_at(c.clone(), t.paths, t.ignore_files, t.ignore_dirs, now as i64) {
                Ok(cs) => Ok(Some(ScheduleKind::Cron(cs))),
                Err(e) => Err(e),
            };
        },
        None => {},
    }
    match s.interval {
        Some(n) => {
            let t = target_of(s);
            if n as u64 > u64::MAX - now {
                return Err(String::from_str("IntervalSchedule interval is too large"));
            }
            Ok(Some(ScheduleKind::Interval(IntervalSchedule { target: t, interval: n as u64, next_run: now + n as u64 })))
        },
        None => Ok(None),
    }
}

/// Whether every schedule of a policy can be built at time `now`.
pub open spec fn policy_buildable(policy: Policy, now: u64) -> bool {
    match policy.schedule {
        None => true,
        Some(list) => forall|i: int|
            0 <= i < list@.len() ==> schedule_buildable(#[trigger] list@[i].1, now),
    }
}

/// Builds the watcher and the schedule runner that a policy asks for, at
/// time `now`. A policy schedule that cannot be built fails the whole policy;
/// one that names no timing is left out.
pub fn build_monitors_at(policy: Policy, now: u64) -> (r: Result<(Option<DirWatcher>, Option<ScheduleRunner>), String>)
    ensures
        r is Ok <==> policy_buildable(policy, now),
        r matches Ok((w, s)) ==> (w is Some <==> policy.watch is Some) && (s is Some
            <==> policy.schedule is Some),
        r matches Ok((Some(w), _)) ==> policy.watch matches Some(pw) && w.watch_dirs == pw.dirs
            && w.ignore_files == pw.ignore_files && w.ignore_dirs == pw.ignore_dirs,
        r matches Ok((_, Some(s))) ==> policy.schedule matches Some(list) && built_all(
            s.schedules@,
            timed_entries(list@),
            now,
        ),
{
    let ghost whole = policy;
    let Policy { watch, schedule } = policy;
    assert(whole.schedule == schedule);
    let runner = match schedule {
        None => None,
        Some(list) => {
            let mut scheds: Vec<ScheduleKind> = Vec::new();
            let mut i: usize = 0;
            while i < list.len()
                invariant
                    whole.schedule == Some(list),
                    whole == policy,
                    i <= list@.len(),
                    forall|j: int| 0 <= j < i ==> schedule_buildable(#[trigger] list@[j].1, now),
                    scheds@.len() == timed_entries(list@.subrange(0, i as int)).len(),
                    forall|j: int|
                        0 <= j < scheds@.len() ==> built_from(
                            #[trigger] scheds@[j],
                            timed_entries(list@.subrange(0, i as int))[j],
                            now,
                        ),
                decreases list@.len() - i,
            {
                proof {
                    assert(list@.subrange(0, i as int + 1).drop_last() =~= list@.subrange(0, i as int));
                }
                match build_schedule(&list[i].1, now) {
                    Ok(Some(k)) => scheds.push(k),
                    Ok(None) => {},
                    Err(e) => {
                        proof {
                            assert(!schedule_buildable(list@[i as int].1, now));
                            assert(whole.schedule == Some(list));
                            assert(whole.schedule.unwrap()@[i as int].1 == list@[i as int].1);
                            assert(!schedule_buildable(whole.schedule.unwrap()@[i as int].1, now));
                            assert(!policy_buildable(whole, now));
                        }
                        return Err(e);
                    },
                }
                i = i + 1;
            }
            proof {
                assert(list@.subrange(0, list@.len() as int) =~= list@);
            }
            Some(ScheduleRunner::new(scheds))
        },
    };
    let watcher = match watch {
        Some(w) => Some(DirWatcher::new(w.dirs, w.ignore_files, w.ignore_dirs)),
        None => None,
    };
    Ok((watcher, runner))
}

/// Some policy schedule names both a cron expression and an interval.
pub open spec fn has_double_timing(policy: Policy) -> bool {
    policy.schedule matches Some(list) && exists|i: int|
        0 <= i < list@.len() && (#[trigger] list@[i]).1.cron is Some && list@[i].1.interval is Some
}

fn find_double_timing(policy: &Policy) -> (r: bool)
    ensures
        r == has_double_timing(*policy),
{
    match &policy.schedule {
        None => false,
        Some(list) => {
            let mut i: usize = 0;
            while i < list.len()
                invariant
                    policy.schedule == Some(*list),
                    i <= list@.len(),
                    forall|j: int|
                        0 <= j < i ==> !((#[trigger] list@[j]).1.cron is Some && list@[j].1.interval is Some),
                decreases list@.len() - i,
            {
                if list[i].1.cron.is_some() && list[i].1.interval.is_some() {
                    proof {
                        assert(list@[i as int].1.cron is Some && list@[i as int].1.interval is Some);
                    }
                    return true;
                }
                i = i + 1;
            }
            false
        },
    }
}

/// Builds the watcher and the schedule runner that a policy asks for, at the
/// current time. A schedule with both a cron expression and an interval fails
/// the policy before the clock is read. Otherwise the watcher carries the
/// policy's watched directories and filters, and the runner holds one schedule
/// per timed policy schedule, in order, built at one and the same instant.
pub fn build_monitors(policy: Policy) -> (r: Result<(Option<DirWatcher>, Option<ScheduleRunner>), String>)
    ensures
        has_double_timing(policy) ==> (r matches Err(e) && e@
            == "Cannot have a schedule with both a cron and interval schedule!"@),
        r matches Ok((w, s)) ==> (w is Some <==> policy.watch is Some) && (s is Some
            <==> policy.schedule is Some),
        r matches Ok((Some(w), _)) ==> policy.watch matches Some(pw) && w.watch_dirs == pw.dirs
            && w.ignore_files == pw.ignore_files && w.ignore_dirs == pw.ignore_dirs,
        r matches Ok((_, Some(s))) ==> policy.schedule matches Some(list) && exists|now: u64|
            #[trigger] built_all(s.schedules@, timed_entries(list@), now),
{
    if find_double_timing(&policy) {
        return Err(String::from_str("Cannot have a schedule with both a cron and interval schedule!"));
    }
    match unix_now() {
        Some(now) => {
            let ghost whole = policy;
            let r = build_monitors_at(policy, now);
            assert(r matches Ok((_, Some(s))) ==> built_all(
                s.schedules@,
                timed_entries(whole.schedule->0@),
                now,
            ));
            r
        },
        None => Err(String::from_str("the system clock is set before the epoch")),
    }
}

} // verus!
