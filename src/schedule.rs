use vstd::prelude::*;
use vstd::string::StringExecFns;

use crate::policy::{Ignore, IgnoreView, copy_ignore, copy_strings, opt_ignore, texts};

verus! {

/// The value of a string of decimal digits.
pub open spec fn digits_value(s: Seq<char>) -> int
    decreases s.len(),
{
    if s.len() == 0 {
        0
    } else {
        digits_value(s.drop_last()) * 10 + (s.last() as int - '0' as int)
    }
}

pub open spec fn all_digits(s: Seq<char>) -> bool {
    forall|i: int| 0 <= i < s.len() ==> '0' <= #[trigger] s[i] <= '9'
}

/// What `str::parse::<u64>` gives: an optional `+`, then at least one decimal
/// digit, whose value fits in 64 bits.
pub open spec fn parsed_u64(s: Seq<char>) -> Option<u64> {
    let body = if s.len() > 0 && s[0] == '+' {
        s.drop_first()
    } else {
        s
    };
    if body.len() > 0 && all_digits(body) && digits_value(body) <= u64::MAX {
        Some(digits_value(body) as u64)
    } else {
        None
    }
}

proof fn lemma_digits_grow(b: Seq<char>, k: int)
    requires
        0 <= k <= b.len(),
        all_digits(b),
    ensures
        digits_value(b) >= digits_value(b.subrange(0, k)),
        digits_value(b.subrange(0, k)) >= 0,
    decreases b.len(),
{
    if b.len() > 0 {
        let pre = b.drop_last();
        if k == b.len() {
            assert(b.subrange(0, k) =~= b);
            assert(pre.subrange(0, pre.len() as int) =~= pre);
            lemma_digits_grow(pre, pre.len() as int);
        } else {
            assert(b.subrange(0, k) =~= pre.subrange(0, k));
            lemma_digits_grow(pre, k);
        }
        assert(digits_value(pre) >= 0);
        assert('0' <= b[b.len() - 1] <= '9');
    } else {
        assert(b.subrange(0, k) =~= b);
    }
}

/// Reads a decimal number as `str::parse::<u64>` does: an optional `+`, then
/// at least one digit, the value fitting in 64 bits.
pub fn parse_u64(s: &str) -> (r: Option<u64>)
    ensures
        r == parsed_u64(s@),
{
    let n = s.unicode_len();
    let start: usize = if n > 0 && s.get_char(0) == '+' {
        1
    } else {
        0
    };
    let ghost body = if s@.len() > 0 && s@[0] == '+' {
        s@.drop_first()
    } else {
        s@
    };
    proof {
        assert(body =~= s@.subrange(start as int, n as int));
    }
    if start == n {
        return None;
    }
    let mut v: u64 = 0;
    let mut i: usize = start;
    proof {
        assert(body.subrange(0, 0) =~= Seq::<char>::empty());
    }
    while i < n
        invariant
            start <= i <= n,
            n == s@.len(),
            body == s@.subrange(start as int, n as int),
            body == (if s@.len() > 0 && s@[0] == '+' {
                s@.drop_first()
            } else {
                s@
            }),
            all_digits(body.subrange(0, i - start)),
            v == digits_value(body.subrange(0, i - start)),
        decreases n - i,
    {
        let c = s.get_char(i);
        let ghost seen = body.subrange(0, i - start + 1);
        proof {
            assert(seen.drop_last() =~= body.subrange(0, i - start));
            assert(seen.last() == c);
        }
        if c < '0' || c > '9' {
            proof {
                assert(!('0' <= body[i - start] <= '9'));
                assert(!all_digits(body));
            }
            return None;
        }
        let d = (c as u32 - '0' as u32) as u64;
        if v > (u64::MAX - d) / 10 {
            proof {
                assert(all_digits(seen));
                assert(digits_value(seen) == v * 10 + d);
                assert(v * 10 + d > u64::MAX) by (nonlinear_arith)
                    requires
                        v > (u64::MAX - d) / 10,
                        d <= 9,
                ;
                if all_digits(body) {
                    lemma_digits_grow(body, i - start + 1);
                    assert(body.subrange(0, i - start + 1) == seen);
                }
            }
            return None;
        }
        proof {
            assert(v * 10 + d <= u64::MAX) by (nonlinear_arith)
                requires
                    v <= (u64::MAX - d) / 10,
                    d <= 9,
            ;
        }
        v = v * 10 + d;
        i = i + 1;
    }
    proof {
        assert(body.subrange(0, n - start) =~= body);
    }
    Some(v)
}

/// Relies on `SystemTime::now` and `duration_since(UNIX_EPOCH)`: whole seconds
/// since the epoch, or nothing for a clock set before it.
#[verifier::external_body]
pub(crate) fn unix_now() -> (r: Option<u64>) {
    std::time::SystemTime::now().duration_since(std::time::UNIX_EPOCH).ok().map(|d| d.as_secs())
}

/// The first time, in seconds since the epoch and in UTC, that a cron
/// expression names strictly after `after`; nothing when the expression is
/// invalid, or when `after` or such a time cannot be represented.
pub uninterp spec fn cron_next(expr: Seq<char>, after: i64) -> Option<i64>;

/// Relies on `cron_parser::parse` in UTC, with the instant built by chrono's
/// `DateTime::from_timestamp`: the first occurrence strictly after `after`.
#[verifier::external_body]
fn next_occurrence(expr: &str, after: i64) -> (r: Option<i64>)
    ensures
        r == cron_next(expr@, after),
        r matches Some(t) ==> t > after,
{
    let at = chrono::DateTime::from_timestamp(after, 0)?;
    cron_parser::parse(expr, &at).ok().map(|t| t.timestamp())
}

/// The directories that a due schedule asks to scan, with its filters.
pub struct ScanRequest {
    pub dirs: Vec<String>,
    pub ignore_files: Option<Ignore>,
    pub ignore_dirs: Option<Ignore>,
}

/// A scan request in the abstract: directories and the two filters.
pub struct RequestView {
    pub dirs: Seq<Seq<char>>,
    pub ignore_files: Option<IgnoreView>,
    pub ignore_dirs: Option<IgnoreView>,
}

pub open spec fn request_view(q: ScanRequest) -> RequestView {
    RequestView {
        dirs: texts(q.dirs@),
        ignore_files: opt_ignore(q.ignore_files),
        ignore_dirs: opt_ignore(q.ignore_dirs),
    }
}

/// The request that a schedule's target makes.
pub open spec fn target_view(t: ScheduleTarget) -> RequestView {
    RequestView {
        dirs: texts(t.paths@),
        ignore_files: opt_ignore(t.ignore_files),
        ignore_dirs: opt_ignore(t.ignore_dirs),
    }
}

/// What every schedule offers: asked now, it says whether a scan is due.
pub trait ISchedule {
    /// Interrogates a schedule: if it is due, the scan to run.
    fn interrogate(&mut self) -> Option<ScanRequest>;
}

/// What a schedule scans: its directories and filters.
pub struct ScheduleTarget {
    pub paths: Vec<String>,
    pub ignore_files: Option<Ignore>,
    pub ignore_dirs: Option<Ignore>,
}

impl ScheduleTarget {
    pub open spec fn dirs_view(&self) -> Seq<Seq<char>> {
        texts(self.paths@)
    }

    /// The scan request for this target.
    pub fn request(&self) -> (r: ScanRequest)
        ensures
            texts(r.dirs@) == self.dirs_view(),
            opt_ignore(r.ignore_files) == opt_ignore(self.ignore_files),
            opt_ignore(r.ignore_dirs) == opt_ignore(self.ignore_dirs),
    {
        ScanRequest {
            dirs: copy_strings(&self.paths),
            ignore_files: copy_ignore(&self.ignore_files),
            ignore_dirs: copy_ignore(&self.ignore_dirs),
        }
    }
}

/// A schedule that falls due a fixed number of seconds after its last run.
pub struct IntervalSchedule {
    pub target: ScheduleTarget,
    pub interval: u64,
    pub next_run: u64,
}

impl IntervalSchedule {
    /// A schedule whose interval is the decimal text `schedule`, first due
    /// `interval` seconds after `now`. The interval must parse as an unsigned
    /// 64-bit number, and the first run must be representable.
    pub fn new_at(
        schedule: String,
        paths: Vec<String>,
        ignore_files: Option<Ignore>,
        ignore_dirs: Option<Ignore>,
        now: u64,
    ) -> (r: Result<IntervalSchedule, String>)
        ensures
            r is Ok <==> (parsed_u64(schedule@) matches Some(n) && now + n <= u64::MAX),
            parsed_u64(schedule@) is None ==> (r matches Err(e) && e@
                == "IntervalSchedule expected integer interval, got "@ + schedule@),
            parsed_u64(schedule@) is Some ==> (r matches Err(e) ==> e@
                == "IntervalSchedule interval is too large"@),
            r matches Ok(s) ==> Some(s.interval) == parsed_u64(schedule@) && s.next_run == now
                + s.interval && s.target.dirs_view() == texts(paths@) && opt_ignore(
                s.target.ignore_files,
            ) == opt_ignore(ignore_files) && opt_ignore(s.target.ignore_dirs) == opt_ignore(
                ignore_dirs,
            ),
    {
        let interval = match parse_u64(schedule.as_str()) {
            Some(n) => n,
            None => {
                return Err(
                    String::from_str("IntervalSchedule expected integer interval, got ").concat(
                        schedule.as_str(),
                    ),
                )
            },
        };
        if interval > u64::MAX - now {
            return Err(String::from_str("IntervalSchedule interval is too large"));
        }
        Ok(IntervalSchedule {
            target: ScheduleTarget { paths, ignore_files, ignore_dirs },
            interval,
            next_run: now + interval,
        })
    }

    /// A schedule whose interval is the decimal text `schedule`, first due
    /// that many seconds from the current time.
    pub fn new(
        schedule: String,
        paths: Vec<String>,
        ignore_files: Option<Ignore>,
        ignore_dirs: Option<Ignore>,
    ) -> (r: Result<IntervalSchedule, String>)
        ensures
            parsed_u64(schedule@) is None ==> (r matches Err(e) && e@
                == "IntervalSchedule expected integer interval, got "@ + schedule@),
            r matches Ok(s) ==> Some(s.interval) == parsed_u64(schedule@)
                && s.target.dirs_view() == texts(paths@),
            r matches Ok(s) ==> opt_ignore(s.target.ignore_files) == opt_ignore(ignore_files)
                && opt_ignore(s.target.ignore_dirs) == opt_ignore(ignore_dirs),
            r matches Ok(s) ==> s.next_run >= s.interval,
    {
        if parse_u64(schedule.as_str()).is_none() {
            return Err(
                String::from_str("IntervalSchedule expected integer interval, got ").concat(
                    schedule.as_str(),
                ),
            );
        }
        match unix_now() {
            Some(now) => IntervalSchedule::new_at(schedule, paths, ignore_files, ignore_dirs, now),
            None => Err(String::from_str("the system clock is set before the epoch")),
        }
    }

    /// Asked at time `now`: once `now` is past the due time, the scan is due
    /// and the next run is set `interval` seconds after `now` (at the latest
    /// representable time if that overflows).
    pub fn interrogate_at(&mut self, now: u64) -> (r: Option<ScanRequest>)
        ensures
            final(self).interval == old(self).interval,
            final(self).target == old(self).target,
            r is Some <==> now > old(self).next_run,
            r is Some ==> final(self).next_run == (if now + old(self).interval <= u64::MAX {
                now + old(self).interval
            } else {
                u64::MAX as int
            }),
            r is None ==> final(self).next_run == old(self).next_run,
            r matches Some(q) ==> request_view(q) == target_view(old(self).target),
    {
        if now > self.next_run {
            self.next_run = now.saturating_add(self.interval);
            Some(self.target.request())
        } else {
            None
        }
    }
}

impl ISchedule for IntervalSchedule {
    fn interrogate(&mut self) -> Option<ScanRequest> {
        match unix_now() {
            Some(now) => self.interrogate_at(now),
            None => None,
        }
    }
}

/// A schedule that falls due at the times that a cron expression names.
pub struct CronSchedule {
    pub target: ScheduleTarget,
    pub expression: String,
    pub next_run: i64,
}

impl CronSchedule {
    /// A schedule for the cron expression `schedule`, first due at its first
    /// occurrence after `now`; an expression with no such occurrence is
    /// refused.
    pub fn new_at(
        schedule: String,
        paths: Vec<String>,
        ignore_files: Option<Ignore>,
        ignore_dirs: Option<Ignore>,
        now: i64,
    ) -> (r: Result<CronSchedule, String>)
        ensures
            r is Ok <==> cron_next(schedule@, now) is Some,
            r matches Err(e) ==> e@ == "CronSchedule expected cron schedule, got "@ + schedule@,
            r matches Ok(s) ==> Some(s.next_run) == cron_next(schedule@, now) && s.expression@
                == schedule@ && s.target.dirs_view() == texts(paths@),
            r matches Ok(s) ==> opt_ignore(s.target.ignore_files) == opt_ignore(ignore_files)
                && opt_ignore(s.target.ignore_dirs) == opt_ignore(ignore_dirs),
    {
        match next_occurrence(schedule.as_str(), now) {
            Some(t) => Ok(
                CronSchedule {
                    target: ScheduleTarget { paths, ignore_files, ignore_dirs },
                    expression: schedule,
                    next_run: t,
                },
            ),
            None => Err(
                String::from_str("CronSchedule expected cron schedule, got ").concat(
                    schedule.as_str(),
                ),
            ),
        }
    }

    /// A schedule for the cron expression `schedule`, first due at its first
    /// occurrence after the current time.
    pub fn new(
        schedule: String,
        paths: Vec<String>,
        ignore_files: Option<Ignore>,
        ignore_dirs: Option<Ignore>,
    ) -> (r: Result<CronSchedule, String>)
        ensures
            r matches Ok(s) ==> s.expression@ == schedule@ && s.target.dirs_view() == texts(
                paths@,
            ),
            r matches Ok(s) ==> opt_ignore(s.target.ignore_files) == opt_ignore(ignore_files)
                && opt_ignore(s.target.ignore_dirs) == opt_ignore(ignore_dirs),
            r matches Ok(s) ==> exists|now: i64| #[trigger] cron_next(schedule@, now) == Some(s.next_run),
            r matches Err(e) ==> e@ == "CronSchedule expected cron schedule, got "@ + schedule@
                || e@ == "the system clock is out of range"@ || e@
                == "the system clock is set before the epoch"@,
    {
        match unix_now() {
            Some(now) => if now <= i64::MAX as u64 {
                CronSchedule::new_at(schedule, paths, ignore_files, ignore_dirs, now as i64)
            } else {
                Err(String::from_str("the system clock is out of range"))
            },
            None => Err(String::from_str("the system clock is set before the epoch")),
        }
    }

    /// Asked at time `now`: once `now` has reached the due time, the scan is
    /// due and the next run becomes the expression's first occurrence after
    /// `now` (or never, if it has none).
    pub fn interrogate_at(&mut self, now: i64) -> (r: Option<ScanRequest>)
        ensures
            final(self).expression == old(self).expression,
            final(self).target == old(self).target,
            r is Some <==> now >= old(self).next_run,
            r is Some ==> final(self).next_run == (match cron_next(old(self).expression@, now) {
                Some(t) => t,
                None => i64::MAX,
            }),
            r is None ==> final(self).next_run == old(self).next_run,
            r matches Some(q) ==> request_view(q) == target_view(old(self).target),
    {
        if now >= self.next_run {
            self.next_run = match next_occurrence(self.expression.as_str(), now) {
                Some(t) => t,
                None => i64::MAX,
            };
            Some(self.target.request())
        } else {
            None
        }
    }
}

impl ISchedule for CronSchedule {
    fn interrogate(&mut self) -> Option<ScanRequest> {
        match unix_now() {
            Some(now) => if now <= i64::MAX as u64 {
                self.interrogate_at(now as i64)
            } else {
                None
            },
            None => None,
        }
    }
}

} // verus!
