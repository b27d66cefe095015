//! Workers of a split download: what to do after each range and each chunk.
//!
//! Times are nanoseconds of one monotonic clock.

use vstd::prelude::*;

use crate::conns::{elapsed, elapsed_since};
use crate::errors::HttpError;
use crate::text::joined;

verus! {

/// Failures after which a worker gives the download up.
pub const MAX_FAILURES: u32 = 4;
/// Short reads in a row that count as one failure.
pub const MAX_SHORT_READS: u32 = 8;
/// A body that stays silent for this long is a short read.
pub const READ_IDLE_TIMEOUT: u64 = 3_000_000_000;
/// The first byte may take this long.
pub const FIRST_BYTE_TIMEOUT: u64 = 15_000_000_000;
/// A report is due after this many bytes.
pub const PERF_REPORT_BYTES: u64 = 2_097_152;
/// A report is due after this time.
pub const PERF_REPORT_INTERVAL: u64 = 500_000_000;

/// Wait after the given number of failures, in milliseconds.
pub open spec fn backoff(failures: u32) -> u64 {
    if failures == 1 {
        500
    } else if failures == 2 {
        1000
    } else {
        2000
    }
}

/// Wait after the given number of short reads in a row, in milliseconds.
pub open spec fn short_read_backoff(n: u32) -> u64 {
    if n <= 1 {
        250
    } else if n == 2 {
        500
    } else {
        1000
    }
}

/// Wait after the given number of failures, in milliseconds.
pub fn backoff_ms(failures: u32) -> (r: u64)
    ensures
        r == backoff(failures),
{
    match failures {
        1 => 500,
        2 => 1000,
        _ => 2000,
    }
}

/// Wait after the given number of short reads in a row, in milliseconds.
pub fn short_read_backoff_ms(n: u32) -> (r: u64)
    ensures
        r == short_read_backoff(n),
{
    match n {
        0 | 1 => 250,
        2 => 500,
        _ => 1000,
    }
}

/// What a worker does after a range.
pub enum WorkerStep {
    /// Give the range back and ask for the next one.
    Next,
    /// Give the range back as failed, wait, and ask for the next one.
    Retry { wait_ms: u64 },
    /// Report the error and stop.
    Fatal(HttpError),
}

/// Budget of one worker.
pub struct WorkerState {
    pub failures: u32,
    /// Short reads in a row.
    pub short_reads: u32,
}

impl WorkerState {
    /// Both budgets have something left.
    pub open spec fn wf(&self) -> bool {
        self.failures < MAX_FAILURES && self.short_reads < MAX_SHORT_READS
    }

    /// A worker that has not failed yet.
    pub fn new() -> (r: Self)
        ensures
            r.wf(),
            r.failures == 0,
            r.short_reads == 0,
    {
        WorkerState { failures: 0, short_reads: 0 }
    }

    /// Failures after a range ended in `e`: a short read counts only as every eighth.
    pub open spec fn failures_after(&self, e: HttpError) -> int {
        if e is ShortRead && self.short_reads + 1 < MAX_SHORT_READS {
            self.failures as int
        } else {
            self.failures + 1
        }
    }

    /// Short reads in a row after a range ended in `e`.
    pub open spec fn short_reads_after(&self, e: HttpError) -> int {
        if e is ShortRead {
            if self.short_reads + 1 < MAX_SHORT_READS {
                self.short_reads + 1
            } else {
                0
            }
        } else {
            self.short_reads as int
        }
    }

    /// What the budget and the next step are after a range: a range that is done clears
    /// the budget, a server without ranges ends the download, and so does the last failure
    /// of the budget.
    pub open spec fn goes_on(&self, after: WorkerState, result: Result<(), HttpError>, r: WorkerStep) -> bool {
        match result {
            Ok(_) => {
                &&& r is Next
                &&& after.failures == 0
                &&& after.short_reads == 0
            },
            Err(e) => if e is NotSplittable {
                &&& r == WorkerStep::Fatal(e)
                &&& after == *self
            } else {
                &&& after.failures == self.failures_after(e)
                &&& after.short_reads == self.short_reads_after(e)
                &&& if after.failures >= MAX_FAILURES {
                    r == WorkerStep::Fatal(e)
                } else {
                    r == (WorkerStep::Retry {
                        wait_ms: if e is ShortRead {
                            short_read_backoff(after.short_reads)
                        } else {
                            backoff(after.failures)
                        },
                    })
                }
            },
        }
    }

    /// Books the result of a range and decides how to go on.
    pub fn after_segment(&mut self, result: Result<(), HttpError>) -> (r: WorkerStep)
        requires
            old(self).wf(),
        ensures
            old(self).goes_on(*final(self), result, r),
            !(r is Fatal) ==> final(self).wf(),
    {
        match result {
            Ok(_) => {
                self.failures = 0;
                self.short_reads = 0;
                WorkerStep::Next
            },
            Err(e) => {
                if matches!(e, HttpError::NotSplittable(_)) {
                    return WorkerStep::Fatal(e);
                }
                let short: bool = matches!(e, HttpError::ShortRead);
                if short {
                    self.short_reads = self.short_reads + 1;
                    if self.short_reads >= MAX_SHORT_READS {
                        self.failures = self.failures + 1;
                        self.short_reads = 0;
                    }
                } else {
                    self.failures = self.failures + 1;
                }
                if self.failures >= MAX_FAILURES {
                    return WorkerStep::Fatal(e);
                }
                let wait_ms: u64 = if short {
                    short_read_backoff_ms(self.short_reads)
                } else {
                    backoff_ms(self.failures)
                };
                WorkerStep::Retry { wait_ms }
            },
        }
    }
}

/// The budget of a worker after a number of short reads in a row.
pub open spec fn after_short_reads(s: WorkerState, n: nat) -> WorkerState
    decreases n,
{
    if n == 0 {
        s
    } else {
        let t = after_short_reads(s, (n - 1) as nat);
        WorkerState {
            failures: t.failures_after(HttpError::ShortRead) as u32,
            short_reads: t.short_reads_after(HttpError::ShortRead) as u32,
        }
    }
}

/// A few short reads cost a worker nothing, and a server that only ever sends short reads
/// fails it in the end: every eighth one in a row counts as one failure, so that the
/// thirty-second one uses up the budget.
pub proof fn law_only_endless_short_reads_fail(s: WorkerState, n: nat)
    requires
        s.failures == 0,
        s.short_reads == 0,
        n <= MAX_FAILURES * MAX_SHORT_READS,
    ensures
        after_short_reads(s, n).failures == n / MAX_SHORT_READS as nat,
        after_short_reads(s, n).short_reads == n % MAX_SHORT_READS as nat,
        after_short_reads(s, n).failures >= MAX_FAILURES <==> n == MAX_FAILURES * MAX_SHORT_READS,
    decreases n,
{
    if n > 0 {
        law_only_endless_short_reads_fail(s, (n - 1) as nat);
    }
}

/// What to do with a chunk of the body.
pub struct ChunkPlan {
    /// Where the bytes belong in the file.
    pub offset: u64,
    /// How many bytes of the chunk to hand to the writer.
    pub take: u64,
    /// Stop reading: the range ends here.
    pub stop: bool,
    /// Report the bytes of the last window now.
    pub report: Option<PerfWindow>,
}

/// Bytes and time of one report window.
pub struct PerfWindow {
    pub bytes: u64,
    pub window: u64,
    /// Bytes of the range so far.
    pub bytes_downloaded: u64,
    /// Length of the range as far as it is known.
    pub assigned_range: u64,
}

/// The fetch of one range.
pub struct SegmentRun {
    pub from: u64,
    /// Bytes handed to the writer.
    pub sent: u64,
    /// The end of the range moved below what was read.
    pub truncated: bool,
    /// Silence up to this time is tolerated.
    pub gap_deadline: u64,
    pub since_report: u64,
    pub last_report: u64,
}

/// The HTTP range of a fetch: first and last byte. None if the range is empty.
pub fn request_range(from: u64, end: u64) -> (r: Option<(u64, u64)>)
    ensures
        r == if end <= from { None } else { Some((from, (end - 1) as u64)) },
{
    if end <= from {
        None
    } else {
        Some((from, end - 1))
    }
}

/// Whether a status line is a success.
pub open spec fn is_success(status: u16) -> bool {
    200 <= status < 300
}

/// What is said of a server that ignores ranges. `shown` is its status line.
pub open spec fn ignored_range(shown: Seq<char>) -> Seq<char> {
    "Range 请求被忽略 (HTTP "@ + shown + ")"@
}

/// What is said of the status of an answer to a request from byte `from` on.
pub open spec fn status_judged(status: u16, from: u64, shown: Seq<char>, r: Result<(), HttpError>) -> bool {
    &&& !is_success(status) ==> r == Err::<(), HttpError>(HttpError::Http(status))
    &&& is_success(status) && status != 206 && from != 0 ==> {
        &&& r is Err
        &&& r->Err_0 is NotSplittable
        &&& r->Err_0->NotSplittable_0@ == ignored_range(shown)
    }
    &&& is_success(status) && (status == 206 || from == 0) ==> r is Ok
}

/// Checks the status of the answer to a range request that starts at `from`. An answer
/// that is not partial is only good for a range at the start of the file. `shown` is
/// the status with its name, as it appears in messages.
pub fn check_status(status: u16, shown: &str, from: u64) -> (r: Result<(), HttpError>)
    ensures
        status_judged(status, from, shown@, r),
{
    if !(200 <= status && status < 300) {
        return Err(HttpError::Http(status));
    }
    if status != 206 && from != 0 {
        let head = joined("Range 请求被忽略 (HTTP ", shown);
        return Err(HttpError::NotSplittable(joined(head.as_str(), ")")));
    }
    Ok(())
}

impl SegmentRun {
    /// The fetch stays within the file.
    pub open spec fn wf(&self) -> bool {
        self.from + self.sent <= u64::MAX && self.since_report <= self.sent
    }

    /// Time up to which silence is tolerated, at most the end of time.
    pub open spec fn deadline(now: u64, wait: u64) -> u64 {
        if now + wait > u64::MAX { u64::MAX } else { (now + wait) as u64 }
    }

    /// What the fetch and the plan are after a chunk of `len` bytes of a range that ends at
    /// `end`.
    pub open spec fn takes(&self, after: SegmentRun, len: u64, end: u64, now: u64, r: ChunkPlan) -> bool {
        let bytes = self.since_report + r.take;
        let window = elapsed(now, self.last_report);
        let due = r.take > 0 && (bytes >= PERF_REPORT_BYTES || window >= PERF_REPORT_INTERVAL);
        &&& after.from == self.from
        &&& after.gap_deadline == Self::deadline(now, READ_IDLE_TIMEOUT)
        &&& r.offset == self.from + self.sent
        &&& r.take == if r.offset >= end {
            0
        } else if end - r.offset < len {
            end - r.offset
        } else {
            len as int
        }
        &&& r.stop == (r.take < len)
        &&& after.truncated == (self.truncated || r.stop)
        &&& after.sent == self.sent + r.take
        &&& r.report is Some <==> due
        &&& due ==> {
            &&& r.report->0.bytes == bytes
            &&& r.report->0.window == window
            &&& r.report->0.bytes_downloaded == after.sent
            &&& r.report->0.assigned_range == end - self.from
            &&& after.since_report == 0
            &&& after.last_report == now
        }
        &&& !due ==> after.since_report == bytes && after.last_report == self.last_report
    }

    /// What is said of a body that has ended.
    pub open spec fn ends(&self, end: u64) -> Result<(), HttpError> {
        if !self.truncated && self.from + self.sent < end {
            Err::<(), HttpError>(HttpError::ShortRead)
        } else {
            Ok::<(), HttpError>(())
        }
    }

    fn deadline_at(now: u64, wait: u64) -> (r: u64)
        ensures
            r == Self::deadline(now, wait),
    {
        if now > u64::MAX - wait { u64::MAX } else { now + wait }
    }

    /// Starts to read a body for the range at `from`.
    pub fn new(from: u64, now: u64) -> (r: Self)
        ensures
            r.wf(),
            r.from == from,
            r.sent == 0,
            !r.truncated,
            r.gap_deadline == Self::deadline(now, FIRST_BYTE_TIMEOUT),
            r.since_report == 0,
            r.last_report == now,
    {
        SegmentRun {
            from,
            sent: 0,
            truncated: false,
            gap_deadline: Self::deadline_at(now, FIRST_BYTE_TIMEOUT),
            since_report: 0,
            last_report: now,
        }
    }

    /// Whether the body has been silent for too long.
    pub fn is_silent(&self, now: u64) -> (r: bool)
        ensures
            r == (now >= self.gap_deadline),
    {
        now >= self.gap_deadline
    }

    /// Decides what to do with a chunk of `len` bytes when the range ends at `end`.
    /// No byte past the end is taken, and reading stops where the end cuts a chunk.
    pub fn on_chunk(&mut self, len: u64, end: u64, now: u64) -> (r: ChunkPlan)
        requires
            old(self).wf(),
            len > 0,
        ensures
            final(self).wf(),
            old(self).takes(*final(self), len, end, now, r),
    {
        self.gap_deadline = Self::deadline_at(now, READ_IDLE_TIMEOUT);
        let offset: u64 = self.from + self.sent;
        if offset >= end {
            self.truncated = true;
            return ChunkPlan { offset, take: 0, stop: true, report: None };
        }
        let room: u64 = end - offset;
        let take: u64 = if room < len { room } else { len };
        self.sent = self.sent + take;
        self.since_report = self.since_report + take;
        let window: u64 = elapsed_since(now, self.last_report);
        let report: Option<PerfWindow> = if self.since_report >= PERF_REPORT_BYTES || window
            >= PERF_REPORT_INTERVAL {
            let w = PerfWindow {
                bytes: self.since_report,
                window,
                bytes_downloaded: self.sent,
                assigned_range: end - self.from,
            };
            self.since_report = 0;
            self.last_report = now;
            Some(w)
        } else {
            None
        };
        let stop: bool = take < len;
        if stop {
            self.truncated = true;
        }
        ChunkPlan { offset, take, stop, report }
    }

    /// The result of the fetch once the body ended and the range ends at `end`: short
    /// if bytes are missing, unless the range was cut while it was read.
    pub fn finish(&self, end: u64) -> (r: Result<(), HttpError>)
        requires
            self.wf(),
        ensures
            r == self.ends(end),
    {
        if !self.truncated && self.from + self.sent < end {
            Err(HttpError::ShortRead)
        } else {
            Ok(())
        }
    }
}

/// A worker gives up at its fourth failure in a row, waits longer after each one before,
/// and starts to count anew once a range is done.
pub proof fn law_worker_gives_up_at_the_fourth_failure(
    s: WorkerState,
    after: WorkerState,
    e: HttpError,
    r: WorkerStep,
)
    requires
        s.wf(),
        !(e is NotSplittable) && !(e is ShortRead),
        s.goes_on(after, Err(e), r),
    ensures
        s.failures == 0 ==> r == (WorkerStep::Retry { wait_ms: 500 }),
        s.failures == 1 ==> r == (WorkerStep::Retry { wait_ms: 1000 }),
        s.failures == 2 ==> r == (WorkerStep::Retry { wait_ms: 2000 }),
        s.failures == 3 ==> r == WorkerStep::Fatal(e),
        r is Retry ==> after.wf() && after.failures == s.failures + 1 && after.short_reads
            == s.short_reads,
{
}

/// A body that ended too early is tried again, after a quarter, half or whole second; only
/// the eighth such end in a row counts as a failure.
pub proof fn law_short_read_is_tried_again(s: WorkerState, after: WorkerState, r: WorkerStep)
    requires
        s.wf(),
        s.goes_on(after, Err(HttpError::ShortRead), r),
    ensures
        s.short_reads < 7 ==> after.failures == s.failures && after.short_reads == s.short_reads + 1,
        s.short_reads == 7 ==> after.failures == s.failures + 1 && after.short_reads == 0,
        s.short_reads == 0 ==> r == (WorkerStep::Retry { wait_ms: 250 }),
        s.short_reads == 1 ==> r == (WorkerStep::Retry { wait_ms: 500 }),
        2 <= s.short_reads < 7 ==> r == (WorkerStep::Retry { wait_ms: 1000 }),
        r is Fatal <==> s.short_reads == 7 && s.failures == 3,
{
}

/// A range that is done clears what failed before it; a server without ranges ends the
/// download at once.
pub proof fn law_done_range_clears_the_budget(
    s: WorkerState,
    after: WorkerState,
    result: Result<(), HttpError>,
    r: WorkerStep,
)
    requires
        s.goes_on(after, result, r),
    ensures
        result is Ok ==> r is Next && after.failures == 0 && after.short_reads == 0,
        result is Err && result->Err_0 is NotSplittable ==> r == WorkerStep::Fatal(result->Err_0),
        r is Next ==> result is Ok,
{
}

/// The chunks of a body are laid one behind the other from the start of the range, and
/// nothing is laid behind its end; what is left over ends the reading.
pub proof fn law_chunks_follow_each_other(
    a: SegmentRun,
    b: SegmentRun,
    c: SegmentRun,
    len1: u64,
    len2: u64,
    end: u64,
    t1: u64,
    t2: u64,
    p1: ChunkPlan,
    p2: ChunkPlan,
)
    requires
        a.takes(b, len1, end, t1, p1),
        b.takes(c, len2, end, t2, p2),
    ensures
        a.sent == 0 ==> p1.offset == a.from,
        p2.offset == p1.offset + p1.take,
        p1.take <= len1 && p2.take <= len2,
        p2.take > 0 ==> p2.offset + p2.take <= end,
        p1.stop <==> p1.take < len1,
        p1.offset + len1 <= end ==> p1.take == len1,
        p1.offset <= end < p1.offset + len1 ==> p1.take == end - p1.offset,
        c.sent == a.sent + p1.take + p2.take,
{
}

/// A body is whole if it reached the end of its range or was cut there; only one that
/// ended before is a short read.
pub proof fn law_body_is_whole_or_short(
    a: SegmentRun,
    b: SegmentRun,
    len: u64,
    end: u64,
    now: u64,
    p: ChunkPlan,
)
    requires
        a.takes(b, len, end, now, p),
        !a.truncated,
    ensures
        b.from + b.sent >= end ==> b.ends(end) is Ok,
        p.stop ==> b.ends(end) is Ok,
        !p.stop && b.from + b.sent < end ==> b.ends(end) == Err::<(), HttpError>(HttpError::ShortRead),
{
}

/// Silence is tolerated for fifteen seconds before the first byte and for three seconds
/// after each chunk.
pub proof fn law_silence_is_tolerated(
    a: SegmentRun,
    b: SegmentRun,
    len: u64,
    end: u64,
    now: u64,
    p: ChunkPlan,
)
    requires
        a.takes(b, len, end, now, p),
        now < 0x8000_0000_0000_0000,
    ensures
        b.gap_deadline == now + 3_000_000_000,
        SegmentRun::deadline(now, FIRST_BYTE_TIMEOUT) == now + 15_000_000_000,
{
}

/// What arrives is reported every two mebibytes or every half second, and nothing is
/// reported twice.
pub proof fn law_reports_add_up(a: SegmentRun, b: SegmentRun, len: u64, end: u64, now: u64, p: ChunkPlan)
    requires
        a.takes(b, len, end, now, p),
        a.last_report <= now,
    ensures
        (if p.report is Some { p.report->0.bytes as int } else { 0 }) + b.since_report == a.since_report
            + p.take,
        p.take > 0 && a.since_report + p.take >= 2_097_152 ==> p.report is Some,
        p.take > 0 && now - a.last_report >= 500_000_000 ==> p.report is Some,
        p.report is Some ==> p.report->0.window == now - a.last_report && p.report->0.bytes_downloaded
            == b.sent,
{
}

/// Only a complete answer to a whole file, or a part, is taken; any other success means
/// that ranges are ignored.
pub proof fn law_success_is_two_hundred(status: u16)
    ensures
        is_success(status) <==> status / 100 == 2,
{
}

/// An answer is used if its status is one of success and it answers what was asked for:
/// a part, or the whole where the whole was asked for. A whole where a part was asked for
/// shows that the file cannot be split. Any other status is the failure.
pub proof fn law_answer_fits_the_request(status: u16, from: u64, shown: Seq<char>, r: Result<(), HttpError>)
    requires
        status_judged(status, from, shown, r),
    ensures
        status == 206 ==> r is Ok,
        status == 200 && from == 0 ==> r is Ok,
        status == 200 && from > 0 ==> r is Err && r->Err_0 is NotSplittable,
        status < 200 || status >= 300 ==> r == Err::<(), HttpError>(HttpError::Http(status)),
{
}

} // verus!
