use vstd::prelude::*;

use crate::clock;
use crate::effort::{
    effort_spec, from_hours, from_hours_spec, unit_hours, EffortEstimate, MAX_STORED_MILLI_HOURS,
};
use crate::errors::TwigError;
use crate::id::TaskId;
use crate::strutil::str_eq;
use crate::timefmt::{duration_spec, format_duration_human};

verus! {

/// Timestamps the library works with are whole seconds since the Unix
/// epoch, bounded by the last second of year 9999. The bound keeps every
/// duration sum comfortably inside `i64`.
pub const MAX_TS: i64 = 253402300799;

/// The lifecycle states of a task.
#[derive(Clone, Copy, Debug, PartialEq, Eq, Structural)]
pub enum TaskStatus {
    NotStarted,
    InProgress,
    Completed,
    Cancelled,
}

/// One tracked interval: a start timestamp, an end timestamp that is absent
/// while the interval is open, and the closed interval's duration in whole
/// seconds.
#[derive(Clone, Copy, Debug)]
pub struct TimeEntry {
    pub start: i64,
    pub end: Option<i64>,
    pub duration_seconds: Option<i64>,
}

impl TimeEntry {
    /// A fresh open entry beginning at `start`.
    pub fn new(start: i64) -> (r: TimeEntry)
        ensures
            r == (TimeEntry { start, end: None, duration_seconds: None }),
    {
        TimeEntry { start, end: None, duration_seconds: None }
    }

    /// Closes the entry at `end`, recording the duration `end - start`.
    pub fn end_entry(&mut self, end: i64)
        requires
            old(self).start <= end,
            end - old(self).start <= i64::MAX,
        ensures
            *final(self) == (TimeEntry {
                start: old(self).start,
                end: Some(end),
                duration_seconds: Some((end - old(self).start) as i64),
            }),
    {
        self.end = Some(end);
        self.duration_seconds = Some(end - self.start);
    }

    /// True while the entry has no end.
    pub fn is_active(&self) -> (r: bool)
        ensures
            r == (self.end is None),
    {
        self.end.is_none()
    }
}

/// A closed entry carries an end no earlier than its start and the matching
/// duration; an open entry carries neither. All times lie in `[0, MAX_TS]`.
pub open spec fn entry_wf(e: TimeEntry) -> bool {
    &&& 0 <= e.start <= MAX_TS
    &&& match e.end {
        Some(t) => e.start <= t <= MAX_TS && e.duration_seconds == Some((t - e.start) as i64),
        None => e.duration_seconds is None,
    }
}

/// The time at which an entry stops claiming the timeline: its end when
/// closed, its start while open.
pub open spec fn entry_end_time(e: TimeEntry) -> int {
    match e.end {
        Some(t) => t as int,
        None => e.start as int,
    }
}

/// The duration a closed entry contributes; an open entry contributes
/// nothing yet.
pub open spec fn closed_duration(e: TimeEntry) -> int {
    match e.end {
        Some(t) => t - e.start,
        None => 0,
    }
}

/// Entries form an ordered log: every entry is well formed, only the last
/// may be open, and each entry starts no earlier than its predecessor ends.
pub open spec fn entries_wf(s: Seq<TimeEntry>) -> bool {
    &&& forall|i: int| 0 <= i < s.len() ==> entry_wf(#[trigger] s[i])
    &&& forall|i: int| 0 <= i < s.len() - 1 ==> (#[trigger] s[i]).end is Some
    &&& forall|i: int| 0 < i < s.len() ==> (#[trigger] s[i]).start >= entry_end_time(s[i - 1])
}

/// The sum of the closed entries' durations.
pub open spec fn sum_closed(s: Seq<TimeEntry>) -> int
    decreases s.len(),
{
    if s.len() == 0 {
        0
    } else {
        sum_closed(s.drop_last()) + closed_duration(s.last())
    }
}

/// Whether some entry is still open.
pub open spec fn has_open(s: Seq<TimeEntry>) -> bool {
    exists|i: int| 0 <= i < s.len() && (#[trigger] s[i]).end is None
}

/// In an ordered log the closed durations telescope: their sum is
/// non-negative and never exceeds the span of the log.
pub proof fn lemma_sum_closed_bounds(s: Seq<TimeEntry>)
    requires
        entries_wf(s),
    ensures
        0 <= sum_closed(s),
        s.len() > 0 ==> sum_closed(s) <= entry_end_time(s.last()) - s[0].start,
        sum_closed(s) <= MAX_TS,
    decreases s.len(),
{
    if s.len() > 0 {
        let dl = s.drop_last();
        assert(forall|i: int| 0 <= i < dl.len() ==> dl[i] == s[i]);
        lemma_sum_closed_bounds(dl);
        assert(entry_wf(s.last()));
        if s.len() > 1 {
            assert(s.last().start >= entry_end_time(s[s.len() - 2]));
            assert(dl.last() == s[s.len() - 2]);
        }
        assert(entry_wf(s[0]));
    }
}

/// The record the tracker keeps for one task.
#[derive(Clone, Debug)]
pub struct Task {
    pub id: TaskId,
    pub title: String,
    pub description: String,
    pub status: TaskStatus,
    pub parent_id: Option<TaskId>,
    pub tags: Vec<String>,
    pub created_at: i64,
    pub started_at: Option<i64>,
    pub completed_at: Option<i64>,
    pub cancelled_at: Option<i64>,
    /// The effort estimate, normalized to thousandths of an hour.
    pub estimated_effort_millihours: Option<u64>,
    pub eta: Option<i64>,
    pub time_entries: Vec<TimeEntry>,
    pub total_time_seconds: i64,
    pub notes: String,
    pub assigned_to: Option<String>,
}

/// The fields the lifecycle operations never touch.
pub open spec fn frame_eq(a: Task, b: Task) -> bool {
    &&& a.id == b.id
    &&& a.title == b.title
    &&& a.description == b.description
    &&& a.parent_id == b.parent_id
    &&& a.tags == b.tags
    &&& a.created_at == b.created_at
    &&& a.estimated_effort_millihours == b.estimated_effort_millihours
    &&& a.eta == b.eta
    &&& a.notes == b.notes
    &&& a.assigned_to == b.assigned_to
}

/// Field-for-field agreement between two task records, with the
/// vector-valued fields compared as sequences.
pub open spec fn task_like(a: Task, b: Task) -> bool {
    &&& a.id == b.id
    &&& a.title == b.title
    &&& a.description == b.description
    &&& a.status == b.status
    &&& a.parent_id == b.parent_id
    &&& a.tags@ == b.tags@
    &&& a.created_at == b.created_at
    &&& a.started_at == b.started_at
    &&& a.completed_at == b.completed_at
    &&& a.cancelled_at == b.cancelled_at
    &&& a.estimated_effort_millihours == b.estimated_effort_millihours
    &&& a.eta == b.eta
    &&& a.time_entries@ == b.time_entries@
    &&& a.total_time_seconds == b.total_time_seconds
    &&& a.notes == b.notes
    &&& a.assigned_to == b.assigned_to
}

/// The fields a tag edit never touches.
pub open spec fn frame_eq_except_tags(a: Task, b: Task) -> bool {
    &&& a.id == b.id
    &&& a.title == b.title
    &&& a.description == b.description
    &&& a.parent_id == b.parent_id
    &&& a.created_at == b.created_at
    &&& a.estimated_effort_millihours == b.estimated_effort_millihours
    &&& a.eta == b.eta
    &&& a.notes == b.notes
    &&& a.assigned_to == b.assigned_to
}

/// The fields an estimate edit never touches.
pub open spec fn frame_eq_except_estimate(a: Task, b: Task) -> bool {
    &&& a.id == b.id
    &&& a.title == b.title
    &&& a.description == b.description
    &&& a.parent_id == b.parent_id
    &&& a.tags == b.tags
    &&& a.created_at == b.created_at
    &&& a.eta == b.eta
    &&& a.notes == b.notes
    &&& a.assigned_to == b.assigned_to
}

/// The entry log after closing the open entry, if any, at `now`.
pub open spec fn entries_after_close(s: Seq<TimeEntry>, now: i64) -> Seq<TimeEntry> {
    if has_open(s) {
        s.update(
            s.len() - 1,
            TimeEntry {
                start: s.last().start,
                end: Some(now),
                duration_seconds: Some((now - s.last().start) as i64),
            },
        )
    } else {
        s
    }
}

/// The duration that closing the open entry, if any, at `now` adds to the
/// accumulated total.
pub open spec fn close_gain(s: Seq<TimeEntry>, now: i64) -> int {
    if has_open(s) {
        now - s.last().start
    } else {
        0
    }
}

/// What `start` does: records the first start time, moves the task to
/// `InProgress`, and opens a fresh entry unless one is already open.
pub open spec fn post_start(pre: Task, post: Task, now: i64) -> bool {
    &&& frame_eq(pre, post)
    &&& post.status == TaskStatus::InProgress
    &&& post.started_at == (if pre.status == TaskStatus::NotStarted {
        Some(now)
    } else {
        pre.started_at
    })
    &&& post.completed_at == pre.completed_at
    &&& post.cancelled_at == pre.cancelled_at
    &&& post.time_entries@ == (if has_open(pre.time_entries@) {
        pre.time_entries@
    } else {
        pre.time_entries@.push(TimeEntry { start: now, end: None, duration_seconds: None })
    })
    &&& post.total_time_seconds == pre.total_time_seconds
}

/// What `pause` does: closes the open entry, if any, and accumulates its
/// duration; the status does not change.
pub open spec fn post_pause(pre: Task, post: Task, now: i64) -> bool {
    &&& frame_eq(pre, post)
    &&& post.status == pre.status
    &&& post.started_at == pre.started_at
    &&& post.completed_at == pre.completed_at
    &&& post.cancelled_at == pre.cancelled_at
    &&& post.time_entries@ == entries_after_close(pre.time_entries@, now)
    &&& post.total_time_seconds == pre.total_time_seconds + close_gain(pre.time_entries@, now)
}

/// What `complete` does: `pause`'s bookkeeping plus the move to `Completed`
/// with the completion time recorded.
pub open spec fn post_complete(pre: Task, post: Task, now: i64) -> bool {
    &&& frame_eq(pre, post)
    &&& post.status == TaskStatus::Completed
    &&& post.started_at == pre.started_at
    &&& post.completed_at == Some(now)
    &&& post.cancelled_at == pre.cancelled_at
    &&& post.time_entries@ == entries_after_close(pre.time_entries@, now)
    &&& post.total_time_seconds == pre.total_time_seconds + close_gain(pre.time_entries@, now)
}

/// What `cancel` does: `pause`'s bookkeeping plus the move to `Cancelled`
/// with the cancellation time recorded.
pub open spec fn post_cancel(pre: Task, post: Task, now: i64) -> bool {
    &&& frame_eq(pre, post)
    &&& post.status == TaskStatus::Cancelled
    &&& post.started_at == pre.started_at
    &&& post.completed_at == pre.completed_at
    &&& post.cancelled_at == Some(now)
    &&& post.time_entries@ == entries_after_close(pre.time_entries@, now)
    &&& post.total_time_seconds == pre.total_time_seconds + close_gain(pre.time_entries@, now)
}

impl Task {
    /// The task's internal invariant: its entry log is an ordered log and
    /// the accumulated total is exactly the sum of the closed durations.
    pub open spec fn wf(self) -> bool {
        &&& entries_wf(self.time_entries@)
        &&& self.total_time_seconds == sum_closed(self.time_entries@)
    }

    /// Whether some time entry is still open.
    pub open spec fn has_active_spec(self) -> bool {
        has_open(self.time_entries@)
    }

    /// The earliest timestamp the next lifecycle operation may carry so
    /// that the entry log stays ordered.
    pub open spec fn min_now(self) -> int {
        if self.time_entries@.len() == 0 {
            0
        } else {
            entry_end_time(self.time_entries@.last())
        }
    }

    /// A fresh task: `NotStarted`, empty text and collections, a random
    /// identifier, created now.
    pub fn new(title: String) -> (r: Task)
        ensures
            r.wf(),
            r.title == title,
            r.status == TaskStatus::NotStarted,
            r.description@ == Seq::<char>::empty(),
            r.parent_id is None,
            r.tags@ == Seq::<String>::empty(),
            r.started_at is None,
            r.completed_at is None,
            r.cancelled_at is None,
            r.estimated_effort_millihours is None,
            r.eta is None,
            r.time_entries@ == Seq::<TimeEntry>::empty(),
            r.total_time_seconds == 0,
            r.notes@ == Seq::<char>::empty(),
            r.assigned_to is None,
            !r.has_active_spec(),
    {
        let t = Task {
            id: TaskId::random(),
            title,
            description: String::new(),
            status: TaskStatus::NotStarted,
            parent_id: None,
            tags: Vec::new(),
            created_at: clock::now_seconds(),
            started_at: None,
            completed_at: None,
            cancelled_at: None,
            estimated_effort_millihours: None,
            eta: None,
            time_entries: Vec::new(),
            total_time_seconds: 0,
            notes: String::new(),
            assigned_to: None,
        };
        proof {
            assert(t.time_entries@.len() == 0);
        }
        t
    }

    /// The short display form of the task's identifier.
    pub fn short_id(&self) -> (r: String)
        ensures
            r@ == self.id.short_spec(),
    {
        self.id.short_hex()
    }

    pub fn has_active_time_entry(&self) -> (r: bool)
        ensures
            r == self.has_active_spec(),
    {
        let n = self.time_entries.len();
        let mut i: usize = 0;
        while i < n
            invariant
                n == self.time_entries@.len(),
                0 <= i <= n,
                forall|j: int| 0 <= j < i ==> (#[trigger] self.time_entries@[j]).end is Some,
            decreases n - i,
        {
            if self.time_entries[i].is_active() {
                return true;
            }
            i += 1;
        }
        false
    }

    /// The timestamp below which the next operation may not act.
    fn next_allowed(&self) -> (r: i64)
        requires
            self.wf(),
        ensures
            r == self.min_now(),
            0 <= r <= MAX_TS,
    {
        let n = self.time_entries.len();
        if n == 0 {
            0
        } else {
            let last = self.time_entries[n - 1];
            proof {
                assert(entry_wf(self.time_entries@[n - 1]));
            }
            match last.end {
                Some(e) => e,
                None => last.start,
            }
        }
    }

    /// The current clock reading, clamped into the window the task's entry
    /// log accepts.
    fn sane_now(&self) -> (r: i64)
        requires
            self.wf(),
        ensures
            self.min_now() <= r <= MAX_TS,
    {
        let lo = self.next_allowed();
        let now = clock::now_seconds();
        let mut r = if now < lo {
            lo
        } else {
            now
        };
        if r > MAX_TS {
            r = MAX_TS;
        }
        r
    }

    /// Closes the open entry, if any, at `now`, and adds its duration to
    /// the accumulated total.
    fn close_active_at(&mut self, now: i64)
        requires
            old(self).wf(),
            old(self).min_now() <= now <= MAX_TS,
        ensures
            final(self).wf(),
            frame_eq(*old(self), *final(self)),
            final(self).status == old(self).status,
            final(self).started_at == old(self).started_at,
            final(self).completed_at == old(self).completed_at,
            final(self).cancelled_at == old(self).cancelled_at,
            final(self).time_entries@ == entries_after_close(old(self).time_entries@, now),
            final(self).total_time_seconds == old(self).total_time_seconds + close_gain(
                old(self).time_entries@,
                now,
            ),
            !final(self).has_active_spec(),
    {
        let ghost s0 = self.time_entries@;
        let n = self.time_entries.len();
        if n == 0 {
            proof {
                assert(!has_open(s0));
            }
            return ;
        }
        let last = self.time_entries[n - 1];
        proof {
            assert(entry_wf(s0[n - 1]));
        }
        if last.is_active() {
            proof {
                assert(has_open(s0));
                lemma_sum_closed_bounds(s0);
            }
            let dur = now - last.start;
            let closed = TimeEntry { start: last.start, end: Some(now), duration_seconds: Some(
                dur,
            ) };
            self.time_entries.pop();
            self.time_entries.push(closed);
            self.total_time_seconds = self.total_time_seconds + dur;
            proof {
                let s1 = self.time_entries@;
                assert(s1 =~= entries_after_close(s0, now));
                assert(s1.drop_last() =~= s0.drop_last());
                assert(sum_closed(s1) == sum_closed(s0.drop_last()) + (now - s0.last().start));
                assert(sum_closed(s0) == sum_closed(s0.drop_last()) + closed_duration(s0.last()));
                assert(closed_duration(s0.last()) == 0);
                assert(forall|i: int|
                    0 <= i < s1.len() ==> entry_wf(#[trigger] s1[i]) && (s1[i]).end is Some);
                assert(entries_wf(s1));
            }
        } else {
            proof {
                assert(forall|i: int| 0 <= i < s0.len() ==> (#[trigger] s0[i]).end is Some);
                assert(!has_open(s0));
            }
        }
    }

    /// Moves the task to `InProgress` at `now`, recording the first start
    /// time and opening a fresh time entry unless one is already open.
    pub fn start_at(&mut self, now: i64)
        requires
            old(self).wf(),
            old(self).min_now() <= now <= MAX_TS,
        ensures
            final(self).wf(),
            post_start(*old(self), *final(self), now),
            final(self).has_active_spec(),
    {
        let ghost s0 = self.time_entries@;
        if matches!(self.status, TaskStatus::NotStarted) {
            self.started_at = Some(now);
        }
        self.status = TaskStatus::InProgress;
        if !self.has_active_time_entry() {
            proof {
                assert(forall|i: int| 0 <= i < s0.len() ==> (#[trigger] s0[i]).end is Some);
                if s0.len() > 0 {
                    assert(entry_wf(s0[s0.len() - 1]));
                }
            }
            self.time_entries.push(TimeEntry { start: now, end: None, duration_seconds: None });
            proof {
                let s1 = self.time_entries@;
                assert(s1.drop_last() =~= s0);
                assert(s1[s1.len() - 1].end is None);
                assert(entries_wf(s1));
                assert(sum_closed(s1) == sum_closed(s0));
            }
        }
    }

    /// Moves the task to `Completed` at `now`, closing any open entry.
    pub fn complete_at(&mut self, now: i64)
        requires
            old(self).wf(),
            old(self).min_now() <= now <= MAX_TS,
        ensures
            final(self).wf(),
            post_complete(*old(self), *final(self), now),
            !final(self).has_active_spec(),
    {
        self.status = TaskStatus::Completed;
        self.completed_at = Some(now);
        self.close_active_at(now);
    }

    /// Moves the task to `Cancelled` at `now`, closing any open entry.
    pub fn cancel_at(&mut self, now: i64)
        requires
            old(self).wf(),
            old(self).min_now() <= now <= MAX_TS,
        ensures
            final(self).wf(),
            post_cancel(*old(self), *final(self), now),
            !final(self).has_active_spec(),
    {
        self.status = TaskStatus::Cancelled;
        self.cancelled_at = Some(now);
        self.close_active_at(now);
    }

    /// Closes the open entry, if any, at `now`; the status stays as it is.
    pub fn pause_at(&mut self, now: i64)
        requires
            old(self).wf(),
            old(self).min_now() <= now <= MAX_TS,
        ensures
            final(self).wf(),
            post_pause(*old(self), *final(self), now),
            !final(self).has_active_spec(),
    {
        self.close_active_at(now);
    }

    /// Decides the task's invariant, so that records read from outside
    /// the library can be admitted or rejected.
    pub fn check_wf(&self) -> (r: bool)
        ensures
            r == self.wf(),
    {
        let ghost s = self.time_entries@;
        let n = self.time_entries.len();
        let mut sum: i64 = 0;
        let mut i: usize = 0;
        while i < n
            invariant
                n == s.len(),
                s == self.time_entries@,
                0 <= i <= n,
                forall|j: int| 0 <= j < i ==> entry_wf(#[trigger] s[j]),
                forall|j: int| 0 <= j < i && j < n - 1 ==> (#[trigger] s[j]).end is Some,
                forall|j: int| 0 < j < i ==> (#[trigger] s[j]).start >= entry_end_time(s[j - 1]),
                sum == sum_closed(s.take(i as int)),
                0 <= sum <= MAX_TS,
            decreases n - i,
        {
            let e = self.time_entries[i];
            let ok = match e.end {
                Some(t) => {
                    e.start >= 0 && e.start <= t && t <= MAX_TS && (match e.duration_seconds {
                        Some(d) => d == t - e.start,
                        None => false,
                    })
                },
                None => e.start >= 0 && e.start <= MAX_TS && e.duration_seconds.is_none() && i == n
                    - 1,
            };
            if !ok {
                proof {
                    if entry_wf(s[i as int]) && (i as int == n - 1 || s[i as int].end is Some) {
                        assert(false);
                    }
                }
                return false;
            }
            if i > 0 {
                let prev = self.time_entries[i - 1];
                let prev_end = match prev.end {
                    Some(t) => t,
                    None => prev.start,
                };
                if e.start < prev_end {
                    return false;
                }
            }
            proof {
                assert(s.take(i + 1).drop_last() =~= s.take(i as int));
                assert(s.take(i + 1).last() == s[i as int]);
                let p = s.take(i + 1);
                assert(forall|j: int| 0 <= j < p.len() ==> entry_wf(#[trigger] p[j]));
                assert(forall|j: int| 0 < j < p.len() ==> (#[trigger] p[j]).start >= entry_end_time(
                    p[j - 1],
                ));
                assert(forall|j: int| 0 <= j < p.len() - 1 ==> (#[trigger] p[j]).end is Some);
                lemma_sum_closed_bounds(p);
            }
            let d = match e.end {
                Some(t) => t - e.start,
                None => 0,
            };
            sum = sum + d;
            i += 1;
        }
        proof {
            assert(s.take(n as int) =~= s);
        }
        sum == self.total_time_seconds
    }

    /// Whether some stored tag reads exactly `t`.
    pub open spec fn has_tag_spec(self, t: Seq<char>) -> bool {
        exists|i: int| 0 <= i < self.tags@.len() && (#[trigger] self.tags@[i])@ == t
    }

    pub fn has_tag(&self, tag: &str) -> (r: bool)
        ensures
            r == self.has_tag_spec(tag@),
    {
        let n = self.tags.len();
        let mut i: usize = 0;
        while i < n
            invariant
                n == self.tags@.len(),
                0 <= i <= n,
                forall|j: int| 0 <= j < i ==> (#[trigger] self.tags@[j])@ != tag@,
            decreases n - i,
        {
            if str_eq(self.tags[i].as_str(), tag) {
                return true;
            }
            i += 1;
        }
        false
    }

    /// Adds the tag unless an equal one is already stored; reports whether
    /// it was added.
    pub fn add_tag(&mut self, tag: String) -> (r: bool)
        ensures
            r == !old(self).has_tag_spec(tag@),
            r ==> final(self).tags@ == old(self).tags@.push(tag),
            !r ==> final(self).tags@ == old(self).tags@,
            frame_eq_except_tags(*old(self), *final(self)),
            final(self).status == old(self).status,
            final(self).started_at == old(self).started_at,
            final(self).completed_at == old(self).completed_at,
            final(self).cancelled_at == old(self).cancelled_at,
            final(self).time_entries == old(self).time_entries,
            final(self).total_time_seconds == old(self).total_time_seconds,
    {
        if self.has_tag(tag.as_str()) {
            false
        } else {
            self.tags.push(tag);
            true
        }
    }

    /// Parses the effort string and stores the estimate normalized to
    /// thousandths of an hour; a malformed string leaves the task
    /// unchanged.
    pub fn set_estimate(&mut self, estimate: &str) -> (r: Result<(), TwigError>)
        ensures
            r is Ok <==> effort_spec(estimate@) is Some,
            r is Ok ==> final(self).estimated_effort_millihours == Some(
                (effort_spec(estimate@)->0.value_milli * unit_hours(effort_spec(estimate@)->0.unit))
                    as u64,
            ),
            r is Err ==> *final(self) == *old(self) && r->Err_0 == TwigError::InvalidFormat,
            r is Ok ==> final(self).estimated_effort_millihours->0 <= MAX_STORED_MILLI_HOURS,
            frame_eq_except_estimate(*old(self), *final(self)),
            final(self).status == old(self).status,
            final(self).started_at == old(self).started_at,
            final(self).completed_at == old(self).completed_at,
            final(self).cancelled_at == old(self).cancelled_at,
            final(self).time_entries == old(self).time_entries,
            final(self).total_time_seconds == old(self).total_time_seconds,
    {
        match EffortEstimate::parse(estimate) {
            Ok(e) => {
                self.estimated_effort_millihours = Some(e.to_hours_millis());
                Ok(())
            },
            Err(e) => Err(e),
        }
    }

    /// The stored estimate rendered back to one decimal place with the
    /// largest unit whose threshold it meets, if an estimate is stored.
    pub fn get_formatted_estimate(&self) -> (r: Option<String>)
        ensures
            r is Some <==> self.estimated_effort_millihours is Some,
            r is Some ==> r->0@ == from_hours_spec(self.estimated_effort_millihours->0 as int),
    {
        match &self.estimated_effort_millihours {
            Some(v) => Some(from_hours(*v)),
            None => None,
        }
    }

    /// The accumulated total rendered as the human duration breakdown.
    pub fn get_formatted_total_time(&self) -> (r: String)
        requires
            self.wf(),
        ensures
            r@ == duration_spec(self.total_time_seconds as int),
    {
        proof {
            lemma_sum_closed_bounds(self.time_entries@);
        }
        format_duration_human(self.total_time_seconds)
    }

    /// An exact copy of the task: every field agrees, the vector-valued
    /// ones as sequences.
    pub fn duplicate(&self) -> (r: Task)
        ensures
            task_like(r, *self),
    {
        let mut tags: Vec<String> = Vec::new();
        let n = self.tags.len();
        let mut i: usize = 0;
        while i < n
            invariant
                n == self.tags@.len(),
                0 <= i <= n,
                tags@ =~= self.tags@.take(i as int),
            decreases n - i,
        {
            tags.push(self.tags[i].clone());
            proof {
                assert(tags@ =~= self.tags@.take(i + 1));
            }
            i += 1;
        }
        proof {
            assert(tags@ =~= self.tags@);
        }
        let mut entries: Vec<TimeEntry> = Vec::new();
        let m = self.time_entries.len();
        let mut j: usize = 0;
        while j < m
            invariant
                m == self.time_entries@.len(),
                0 <= j <= m,
                entries@ =~= self.time_entries@.take(j as int),
            decreases m - j,
        {
            entries.push(self.time_entries[j]);
            proof {
                assert(entries@ =~= self.time_entries@.take(j + 1));
            }
            j += 1;
        }
        proof {
            assert(entries@ =~= self.time_entries@);
        }
        let assigned_to = match &self.assigned_to {
            Some(a) => Some(a.clone()),
            None => None,
        };
        Task {
            id: self.id,
            title: self.title.clone(),
            description: self.description.clone(),
            status: self.status,
            parent_id: self.parent_id,
            tags,
            created_at: self.created_at,
            started_at: self.started_at,
            completed_at: self.completed_at,
            cancelled_at: self.cancelled_at,
            estimated_effort_millihours: self.estimated_effort_millihours,
            eta: self.eta,
            time_entries: entries,
            total_time_seconds: self.total_time_seconds,
            notes: self.notes.clone(),
            assigned_to,
        }
    }

    /// `start_at` at the current clock reading.
    pub fn start(&mut self)
        requires
            old(self).wf(),
        ensures
            final(self).wf(),
            final(self).has_active_spec(),
            exists|now: i64|
                old(self).min_now() <= now <= MAX_TS && post_start(
                    *old(self),
                    *final(self),
                    now,
                ),
    {
        let now = self.sane_now();
        self.start_at(now);
    }

    /// `complete_at` at the current clock reading.
    pub fn complete(&mut self)
        requires
            old(self).wf(),
        ensures
            final(self).wf(),
            !final(self).has_active_spec(),
            exists|now: i64|
                old(self).min_now() <= now <= MAX_TS && post_complete(
                    *old(self),
                    *final(self),
                    now,
                ),
    {
        let now = self.sane_now();
        self.complete_at(now);
    }

    /// `cancel_at` at the current clock reading.
    pub fn cancel(&mut self)
        requires
            old(self).wf(),
        ensures
            final(self).wf(),
            !final(self).has_active_spec(),
            exists|now: i64|
                old(self).min_now() <= now <= MAX_TS && post_cancel(
                    *old(self),
                    *final(self),
                    now,
                ),
    {
        let now = self.sane_now();
        self.cancel_at(now);
    }

    /// `pause_at` at the current clock reading.
    pub fn pause(&mut self)
        requires
            old(self).wf(),
        ensures
            final(self).wf(),
            !final(self).has_active_spec(),
            exists|now: i64|
                old(self).min_now() <= now <= MAX_TS && post_pause(
                    *old(self),
                    *final(self),
                    now,
                ),
    {
        let now = self.sane_now();
        self.pause_at(now);
    }
}

/// After `start` and then `complete`, the task is `Completed`, its
/// completion time is recorded, and no time entry remains open.
pub proof fn lemma_start_then_complete(t0: Task, t1: Task, t2: Task, now1: i64, now2: i64)
    requires
        t0.wf(),
        t1.wf(),
        t2.wf(),
        post_start(t0, t1, now1),
        post_complete(t1, t2, now2),
    ensures
        t2.status == TaskStatus::Completed,
        t2.completed_at == Some(now2),
        !t2.has_active_spec(),
{
    let s1 = t1.time_entries@;
    let s2 = t2.time_entries@;
    assert forall|i: int| 0 <= i < s2.len() implies (#[trigger] s2[i]).end is Some by {
        if has_open(s1) {
            if i < s2.len() - 1 {
                assert(s2[i] == s1[i]);
                assert(s1[i].end is Some);
            }
        } else {
            assert(s2[i] == s1[i]);
            if s1[i].end is None {
                assert(has_open(s1));
            }
        }
    }
}

/// `start`'s outcome preserves the task invariant whenever the time it
/// acts at is one the entry log accepts.
pub proof fn lemma_post_start_wf(pre: Task, post: Task, now: i64)
    requires
        pre.wf(),
        pre.min_now() <= now <= MAX_TS,
        post_start(pre, post, now),
    ensures
        post.wf(),
{
    let s0 = pre.time_entries@;
    if !has_open(s0) {
        let s1 = post.time_entries@;
        assert(s1.drop_last() =~= s0);
        assert forall|i: int| 0 <= i < s0.len() implies (#[trigger] s0[i]).end is Some by {
            if s0[i].end is None {
                assert(has_open(s0));
            }
        }
        if s0.len() > 0 {
            assert(entry_wf(s0[s0.len() - 1]));
        }
        assert(entries_wf(s1));
        assert(sum_closed(s1) == sum_closed(s0));
    }
}

/// `pause`'s outcome preserves the task invariant whenever the time it
/// acts at is one the entry log accepts.
pub proof fn lemma_post_pause_wf(pre: Task, post: Task, now: i64)
    requires
        pre.wf(),
        pre.min_now() <= now <= MAX_TS,
        post_pause(pre, post, now),
    ensures
        post.wf(),
{
    let s0 = pre.time_entries@;
    if has_open(s0) {
        let s1 = post.time_entries@;
        assert(entry_wf(s0[s0.len() - 1]));
        assert(s1.drop_last() =~= s0.drop_last());
        assert(sum_closed(s1) == sum_closed(s0.drop_last()) + (now - s0.last().start));
        assert(sum_closed(s0) == sum_closed(s0.drop_last()) + closed_duration(s0.last()));
        assert(closed_duration(s0.last()) == 0);
        assert(forall|i: int| 0 <= i < s1.len() ==> entry_wf(#[trigger] s1[i]) && (
        s1[i]).end is Some);
        assert(entries_wf(s1));
    }
}

/// One lifecycle step: a `start` or a `pause` acting at a time the entry
/// log accepts.
pub open spec fn lifecycle_step(pre: Task, is_start: bool, now: i64, post: Task) -> bool {
    &&& pre.min_now() <= now <= MAX_TS
    &&& if is_start {
        post_start(pre, post, now)
    } else {
        post_pause(pre, post, now)
    }
}

/// The states a sequence of `start`/`pause` steps can reach from `t0`:
/// each step records whether it was a start and the time it acted at.
pub open spec fn lifecycle_reaches(t0: Task, steps: Seq<(bool, i64)>, t: Task) -> bool
    decreases steps.len(),
{
    if steps.len() == 0 {
        t == t0
    } else {
        exists|mid: Task|
            lifecycle_reaches(t0, steps.drop_last(), mid) && #[trigger] lifecycle_step(
                mid,
                steps.last().0,
                steps.last().1,
                t,
            )
    }
}

/// After any sequence of `start`/`pause` steps from a well-formed task,
/// the accumulated total equals the sum of the closed entries' durations,
/// and no two entries are simultaneously open.
pub proof fn lemma_sequence_time_accounting(t0: Task, steps: Seq<(bool, i64)>, t: Task)
    requires
        t0.wf(),
        lifecycle_reaches(t0, steps, t),
    ensures
        t.wf(),
        t.total_time_seconds == sum_closed(t.time_entries@),
        forall|i: int, j: int|
            0 <= i < j < t.time_entries@.len() ==> !((#[trigger] t.time_entries@[i]).end is None
                && (#[trigger] t.time_entries@[j]).end is None),
    decreases steps.len(),
{
    if steps.len() == 0 {
    } else {
        let mid = choose|mid: Task|
            lifecycle_reaches(t0, steps.drop_last(), mid) && #[trigger] lifecycle_step(
                mid,
                steps.last().0,
                steps.last().1,
                t,
            );
        lemma_sequence_time_accounting(t0, steps.drop_last(), mid);
        if steps.last().0 {
            lemma_post_start_wf(mid, t, steps.last().1);
        } else {
            lemma_post_pause_wf(mid, t, steps.last().1);
        }
    }
    lemma_time_accounting(t);
}

/// The time accounting invariant: the accumulated total equals the sum of
/// the closed entries' durations, and no two entries are simultaneously
/// open.
pub proof fn lemma_time_accounting(t: Task)
    requires
        t.wf(),
    ensures
        t.total_time_seconds == sum_closed(t.time_entries@),
        forall|i: int, j: int|
            0 <= i < j < t.time_entries@.len() ==> !((#[trigger] t.time_entries@[i]).end is None
                && (#[trigger] t.time_entries@[j]).end is None),
{
    assert forall|i: int, j: int|
        0 <= i < j < t.time_entries@.len() implies !((#[trigger] t.time_entries@[i]).end is None
        && (#[trigger] t.time_entries@[j]).end is None) by {
        assert(t.time_entries@[i].end is Some);
    }
}

} // verus!
