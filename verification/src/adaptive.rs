//! Adaptive scheduling of the connections of a split download.
//!
//! The scheduler counts samples, progress and stalls of every connection, and turns
//! the pace of each one into a decision. Smoothing of the measured speeds is left to
//! the caller, who says how each connection compares to the others. Times are
//! nanoseconds of one monotonic clock.

use vstd::prelude::*;

use crate::conns::{elapsed, elapsed_since};
use crate::pieces::wrap_add;

verus! {

/// Shortest time that a speed is computed over, in nanoseconds.
pub const MIN_EVAL_TIME: u64 = 100_000_000;

/// Settings of the scheduler.
#[derive(Clone, Copy)]
pub struct AdaptiveConfig {
    /// Whether adaptive scheduling is on.
    pub enabled: bool,
    /// Connections to start with.
    pub initial_connections: usize,
    /// Most connections at a time.
    pub max_connections: usize,
    /// Fewest connections at a time.
    pub min_connections: usize,
    /// Time between two evaluations, in milliseconds.
    pub eval_interval_ms: u64,
    /// Evaluations in a row without a byte after which a connection counts as stalled.
    pub stall_eval_limit: u32,
}

impl Default for AdaptiveConfig {
    fn default() -> (r: Self)
        ensures
            r.enabled,
            r.initial_connections == 4,
            r.max_connections == 64,
            r.min_connections == 1,
            r.eval_interval_ms == 1500,
            r.stall_eval_limit == 3,
    {
        AdaptiveConfig {
            enabled: true,
            initial_connections: 4,
            max_connections: 64,
            min_connections: 1,
            eval_interval_ms: 1500,
            stall_eval_limit: 3,
        }
    }
}

/// A decision about one connection, or about their number.
#[derive(Clone, Copy)]
pub enum ScheduleAction {
    /// Leave the connection as it is.
    Maintain,
    /// The connection is fast and may take more.
    Grow { extra_bytes: u64 },
    /// The connection is slow: take bytes off the range it reads.
    Shrink { conn_id: usize, reclaim_bytes: u64 },
    /// The connection stalled: hand its range to another one.
    Retire { conn_id: usize },
    /// Open one more connection.
    Spawn,
}

/// What is known of one connection.
#[derive(Clone, Copy)]
pub struct ConnPerf {
    pub conn_id: usize,
    pub bytes_downloaded: u64,
    /// Time of the last report.
    pub last_report: u64,
    /// Length of the range it reads.
    pub assigned_range: u64,
    /// Evaluations in a row without a byte.
    pub stall_count: u32,
    /// Evaluations it took part in.
    pub seen: u32,
    /// Bytes at the last evaluation.
    pub last_bytes: Option<u64>,
}

/// One connection at one evaluation.
#[derive(Clone, Copy)]
pub struct Sample {
    pub conn_id: usize,
    /// Bytes since the last evaluation.
    pub delta: u64,
    pub seen: u32,
    pub stall_count: u32,
    pub assigned_range: u64,
}

/// How a connection compares to the mean of all.
#[derive(Clone, Copy)]
pub enum Pace {
    /// Clearly slower; this many bytes of its range may go elsewhere.
    Slow { bytes: u64 },
    /// Clearly faster; this many bytes more would suit it.
    Fast { bytes: u64 },
    Even,
}

/// State of the scheduler.
pub struct AdaptiveScheduler {
    pub config: AdaptiveConfig,
    pub perf: Vec<ConnPerf>,
    pub last_eval: u64,
    /// Connections at the highest total speed so far.
    pub best_conn_count: usize,
    pub eval_count: u64,
}

/// Whether a connection is still reported on.
pub open spec fn is_recent(p: ConnPerf, keep: int, now: u64) -> bool {
    elapsed(now, p.last_report) < keep
}

/// The connections that are still reported on.
pub open spec fn recent(perf: Seq<ConnPerf>, keep: int, now: u64) -> Seq<ConnPerf>
    decreases perf.len(),
{
    if perf.len() == 0 {
        perf
    } else {
        let rest = recent(perf.drop_last(), keep, now);
        if is_recent(perf.last(), keep, now) { rest.push(perf.last()) } else { rest }
    }
}

/// One more, up to the largest number.
pub open spec fn next_count(n: u32) -> u32 {
    if n == u32::MAX { n } else { (n + 1) as u32 }
}

/// Bytes since the last evaluation; none at the first one.
pub open spec fn gained(p: ConnPerf) -> u64 {
    match p.last_bytes {
        None => 0,
        Some(b) => if p.bytes_downloaded > b {
            (p.bytes_downloaded - b) as u64
        } else {
            0
        },
    }
}

/// Stalls after an evaluation: the first evaluation of a connection never counts.
pub open spec fn stalls(p: ConnPerf) -> u32 {
    if next_count(p.seen) < 2 || gained(p) > 0 {
        0
    } else {
        next_count(p.stall_count)
    }
}

/// A connection after an evaluation.
pub open spec fn evaluated(p: ConnPerf) -> ConnPerf {
    ConnPerf {
        seen: next_count(p.seen),
        stall_count: stalls(p),
        last_bytes: Some(p.bytes_downloaded),
        ..p
    }
}

/// What an evaluation sees of a connection.
pub open spec fn sample_of(p: ConnPerf) -> Sample {
    Sample {
        conn_id: p.conn_id,
        delta: gained(p),
        seen: next_count(p.seen),
        stall_count: stalls(p),
        assigned_range: p.assigned_range,
    }
}

/// The decision about one connection.
pub open spec fn decision(config: AdaptiveConfig, active: int, s: Sample, pace: Pace) -> ScheduleAction {
    if s.stall_count >= config.stall_eval_limit && active > 1 {
        ScheduleAction::Retire { conn_id: s.conn_id }
    } else if s.seen < 2 {
        ScheduleAction::Maintain
    } else {
        match pace {
            Pace::Slow { bytes } => ScheduleAction::Shrink { conn_id: s.conn_id, reclaim_bytes: bytes },
            Pace::Fast { bytes } => ScheduleAction::Grow { extra_bytes: bytes },
            Pace::Even => ScheduleAction::Maintain,
        }
    }
}

/// The number of connections of an evaluation, at least one.
pub open spec fn active_count(n: int) -> int {
    if n < 1 { 1 } else { n }
}

impl AdaptiveScheduler {
    /// No connection is listed twice.
    pub open spec fn wf(&self) -> bool {
        forall|i: int, j: int|
            0 <= i < j < self.perf@.len() ==> (#[trigger] self.perf@[i]).conn_id != (
            #[trigger] self.perf@[j]).conn_id
    }

    /// Time after which a silent connection is forgotten.
    pub open spec fn keep_time(&self) -> int {
        self.config.eval_interval_ms * 4_000_000
    }

    /// A scheduler that knows no connection yet.
    pub fn new(config: AdaptiveConfig, now: u64) -> (r: Self)
        ensures
            r.wf(),
            r.config == config,
            r.perf@.len() == 0,
            r.last_eval == now,
            r.best_conn_count == config.initial_connections,
            r.eval_count == 0,
    {
        AdaptiveScheduler {
            config,
            perf: Vec::new(),
            last_eval: now,
            best_conn_count: config.initial_connections,
            eval_count: 0,
        }
    }

    /// Time between two evaluations, in milliseconds.
    pub fn eval_interval(&self) -> (r: u64)
        ensures
            r == self.config.eval_interval_ms,
    {
        self.config.eval_interval_ms
    }

    /// What is known after a report: counts that the scheduler keeps itself stay.
    pub open spec fn reported(
        before: Seq<ConnPerf>,
        after: Seq<ConnPerf>,
        conn_id: usize,
        bytes_downloaded: u64,
        assigned_range: u64,
        now: u64,
    ) -> bool {
        if exists|k: int| 0 <= k < before.len() && (#[trigger] before[k]).conn_id == conn_id {
            exists|k: int|
                0 <= k < before.len() && (#[trigger] before[k]).conn_id == conn_id && after
                    == before.update(
                    k,
                    ConnPerf { bytes_downloaded, assigned_range, last_report: now, ..before[k] },
                )
        } else {
            after == before.push(
                ConnPerf {
                    conn_id,
                    bytes_downloaded,
                    last_report: now,
                    assigned_range,
                    stall_count: 0,
                    seen: 0,
                    last_bytes: None,
                },
            )
        }
    }

    /// Books a report of a connection.
    pub fn report(&mut self, conn_id: usize, bytes_downloaded: u64, assigned_range: u64, now: u64)
        requires
            old(self).wf(),
        ensures
            final(self).wf(),
            final(self).config == old(self).config,
            final(self).last_eval == old(self).last_eval,
            final(self).best_conn_count == old(self).best_conn_count,
            final(self).eval_count == old(self).eval_count,
            Self::reported(
                old(self).perf@,
                final(self).perf@,
                conn_id,
                bytes_downloaded,
                assigned_range,
                now,
            ),
    {
        let ghost before = self.perf@;
        let mut i: usize = 0;
        while i < self.perf.len()
            invariant
                i <= self.perf@.len(),
                self.perf@ == before,
                before == old(self).perf@,
                *self == *old(self),
                self.wf(),
                forall|j: int| 0 <= j < i ==> (#[trigger] before[j]).conn_id != conn_id,
            decreases self.perf@.len() - i,
        {
            let mut p = self.perf[i];
            if p.conn_id == conn_id {
                p.bytes_downloaded = bytes_downloaded;
                p.assigned_range = assigned_range;
                p.last_report = now;
                self.perf.set(i, p);
                proof {
                    assert(before[i as int].conn_id == conn_id);
                    assert(self.perf@ =~= before.update(
                        i as int,
                        ConnPerf {
                            bytes_downloaded,
                            assigned_range,
                            last_report: now,
                            ..before[i as int]
                        },
                    ));
                    assert forall|a: int, b: int| 0 <= a < b < self.perf@.len() implies (
                    #[trigger] self.perf@[a]).conn_id != (#[trigger] self.perf@[b]).conn_id by {
                        assert(before[a].conn_id != before[b].conn_id);
                    }
                }
                return;
            }
            i = i + 1;
        }
        self.perf.push(
            ConnPerf {
                conn_id,
                bytes_downloaded,
                last_report: now,
                assigned_range,
                stall_count: 0,
                seen: 0,
                last_bytes: None,
            },
        );
        proof {
            assert forall|a: int, b: int| 0 <= a < b < self.perf@.len() implies (
            #[trigger] self.perf@[a]).conn_id != (#[trigger] self.perf@[b]).conn_id by {
                if b < before.len() {
                    assert(before[a].conn_id != before[b].conn_id);
                } else {
                    assert(before[a].conn_id != conn_id);
                }
            }
        }
    }

    /// The time that an evaluation looks back on.
    pub open spec fn eval_time(&self, now: u64) -> int {
        if elapsed(now, self.last_eval) < MIN_EVAL_TIME {
            MIN_EVAL_TIME as int
        } else {
            elapsed(now, self.last_eval)
        }
    }

    /// Begins an evaluation: forgets silent connections, books progress and stalls, and
    /// returns what was seen together with the time since the last evaluation.
    pub fn begin_eval(&mut self, now: u64) -> (r: (Vec<Sample>, u64))
        requires
            old(self).wf(),
        ensures
            final(self).wf(),
            final(self).config == old(self).config,
            final(self).best_conn_count == old(self).best_conn_count,
            final(self).last_eval == now,
            final(self).eval_count == wrap_add(old(self).eval_count as int, 1),
            ({
                let seen = recent(old(self).perf@, old(self).keep_time(), now);
                &&& final(self).perf@ == Seq::new(seen.len(), |i: int| evaluated(seen[i]))
                &&& r.0@ == Seq::new(seen.len(), |i: int| sample_of(seen[i]))
            }),
            r.1 == old(self).eval_time(now),
    {
        let ghost all = self.perf@;
        let ghost keep_int = self.keep_time();
        let keep: u128 = self.config.eval_interval_ms as u128 * 4_000_000;
        let mut kept: Vec<ConnPerf> = Vec::new();
        let mut samples: Vec<Sample> = Vec::new();
        let mut i: usize = 0;
        assert(all.take(0) =~= Seq::<ConnPerf>::empty());
        while i < self.perf.len()
            invariant
                i <= self.perf@.len(),
                self.perf@ == all,
                *self == *old(self),
                all == old(self).perf@,
                keep == keep_int,
                keep_int == old(self).keep_time(),
                kept@.len() == recent(all.take(i as int), keep_int, now).len(),
                samples@.len() == kept@.len(),
                forall|k: int|
                    0 <= k < kept@.len() ==> #[trigger] kept@[k] == evaluated(
                        recent(all.take(i as int), keep_int, now)[k],
                    ),
                forall|k: int|
                    0 <= k < samples@.len() ==> #[trigger] samples@[k] == sample_of(
                        recent(all.take(i as int), keep_int, now)[k],
                    ),
            decreases self.perf@.len() - i,
        {
            let p = self.perf[i];
            proof {
                assert(all.take(i + 1).drop_last() =~= all.take(i as int));
                assert(all.take(i + 1).last() == p);
            }
            if (elapsed_since(now, p.last_report) as u128) < keep {
                let delta: u64 = match p.last_bytes {
                    None => 0,
                    Some(b) => if p.bytes_downloaded > b {
                        p.bytes_downloaded - b
                    } else {
                        0
                    },
                };
                let seen: u32 = if p.seen == u32::MAX { p.seen } else { p.seen + 1 };
                let stall: u32 = if seen < 2 || delta > 0 {
                    0
                } else if p.stall_count == u32::MAX {
                    p.stall_count
                } else {
                    p.stall_count + 1
                };
                samples.push(
                    Sample {
                        conn_id: p.conn_id,
                        delta,
                        seen,
                        stall_count: stall,
                        assigned_range: p.assigned_range,
                    },
                );
                kept.push(
                    ConnPerf {
                        conn_id: p.conn_id,
                        bytes_downloaded: p.bytes_downloaded,
                        last_report: p.last_report,
                        assigned_range: p.assigned_range,
                        stall_count: stall,
                        seen,
                        last_bytes: Some(p.bytes_downloaded),
                    },
                );
            }
            i = i + 1;
        }
        let ghost seen = recent(all, keep_int, now);
        proof {
            assert(all.take(i as int) =~= all);
            assert(kept@ =~= Seq::new(seen.len(), |k: int| evaluated(seen[k])));
            assert(samples@ =~= Seq::new(seen.len(), |k: int| sample_of(seen[k])));
            lemma_recent_distinct(all, keep_int, now);
            assert forall|a: int, b: int| 0 <= a < b < kept@.len() implies (
            #[trigger] kept@[a]).conn_id != (#[trigger] kept@[b]).conn_id by {
                assert(seen[a].conn_id != seen[b].conn_id);
            }
        }
        let dt: u64 = elapsed_since(now, self.last_eval);
        let time: u64 = if dt < MIN_EVAL_TIME { MIN_EVAL_TIME } else { dt };
        self.perf = kept;
        self.last_eval = now;
        self.eval_count = self.eval_count.wrapping_add(1);
        (samples, time)
    }

    /// All decisions of an evaluation.
    pub open spec fn decisions(
        &self,
        samples: Seq<Sample>,
        paces: Seq<Pace>,
        rising: bool,
        best: int,
    ) -> Seq<ScheduleAction> {
        let active = active_count(samples.len() as int);
        let each = Seq::new(
            samples.len(),
            |i: int| decision(self.config, active, samples[i], paces[i]),
        );
        if active < self.config.max_connections && rising && (active <= best || best == 0) {
            each.push(ScheduleAction::Spawn)
        } else {
            each
        }
    }

    /// Ends an evaluation: turns the paces into decisions. `rising` tells that the total
    /// speed is above zero and above that of the last evaluation, `record` that it is
    /// the highest so far.
    pub fn decide(&mut self, samples: &Vec<Sample>, paces: &Vec<Pace>, rising: bool, record: bool) -> (r:
        Vec<ScheduleAction>)
        requires
            old(self).wf(),
            samples@.len() == paces@.len(),
        ensures
            final(self).wf(),
            final(self).config == old(self).config,
            final(self).perf == old(self).perf,
            final(self).last_eval == old(self).last_eval,
            final(self).eval_count == old(self).eval_count,
            final(self).best_conn_count == if record {
                active_count(samples@.len() as int)
            } else {
                old(self).best_conn_count as int
            },
            r@ == old(self).decisions(
                samples@,
                paces@,
                rising,
                final(self).best_conn_count as int,
            ),
    {
        let n: usize = samples.len();
        let active: usize = if n < 1 { 1 } else { n };
        if record {
            self.best_conn_count = active;
        }
        let mut out: Vec<ScheduleAction> = Vec::new();
        let mut i: usize = 0;
        while i < n
            invariant
                n == samples@.len(),
                n == paces@.len(),
                active == active_count(n as int),
                self.config == old(self).config,
                i <= n,
                out@.len() == i,
                forall|k: int|
                    0 <= k < i ==> #[trigger] out@[k] == decision(
                        self.config,
                        active as int,
                        samples@[k],
                        paces@[k],
                    ),
            decreases n - i,
        {
            let s = samples[i];
            let a: ScheduleAction = if s.stall_count >= self.config.stall_eval_limit && active > 1 {
                ScheduleAction::Retire { conn_id: s.conn_id }
            } else if s.seen < 2 {
                ScheduleAction::Maintain
            } else {
                match paces[i] {
                    Pace::Slow { bytes } => ScheduleAction::Shrink {
                        conn_id: s.conn_id,
                        reclaim_bytes: bytes,
                    },
                    Pace::Fast { bytes } => ScheduleAction::Grow { extra_bytes: bytes },
                    Pace::Even => ScheduleAction::Maintain,
                }
            };
            out.push(a);
            i = i + 1;
        }
        let ghost each = Seq::new(
            samples@.len(),
            |k: int| decision(self.config, active as int, samples@[k], paces@[k]),
        );
        assert(out@ =~= each);
        if active < self.config.max_connections && rising && (active <= self.best_conn_count
            || self.best_conn_count == 0) {
            out.push(ScheduleAction::Spawn);
        }
        out
    }
}

proof fn lemma_recent_distinct(perf: Seq<ConnPerf>, keep: int, now: u64)
    requires
        forall|i: int, j: int|
            0 <= i < j < perf.len() ==> (#[trigger] perf[i]).conn_id != (#[trigger] perf[j]).conn_id,
    ensures
        forall|i: int, j: int|
            0 <= i < j < recent(perf, keep, now).len() ==> (#[trigger] recent(perf, keep, now)[i]).conn_id
                != (#[trigger] recent(perf, keep, now)[j]).conn_id,
        forall|i: int|
            0 <= i < recent(perf, keep, now).len() ==> exists|k: int|
                0 <= k < perf.len() && #[trigger] perf[k] == #[trigger] recent(perf, keep, now)[i],
    decreases perf.len(),
{
    if perf.len() > 0 {
        let front = perf.drop_last();
        assert forall|i: int, j: int| 0 <= i < j < front.len() implies (#[trigger] front[i]).conn_id != (
        #[trigger] front[j]).conn_id by {
            assert(perf[i].conn_id != perf[j].conn_id);
        }
        lemma_recent_distinct(front, keep, now);
        let rest = recent(front, keep, now);
        let all = recent(perf, keep, now);
        assert forall|i: int| 0 <= i < all.len() implies exists|k: int|
            0 <= k < perf.len() && #[trigger] perf[k] == #[trigger] all[i] by {
            if i < rest.len() {
                let k = choose|k: int| 0 <= k < front.len() && #[trigger] front[k] == rest[i];
                assert(perf[k] == all[i]);
            } else {
                assert(perf[perf.len() - 1] == all[i]);
            }
        }
        assert forall|i: int, j: int| 0 <= i < j < all.len() implies (#[trigger] all[i]).conn_id != (
        #[trigger] all[j]).conn_id by {
            assert(all[i] == rest[i]);
            if j < rest.len() {
                assert(all[j] == rest[j]);
            } else {
                let k = choose|k: int| 0 <= k < front.len() && #[trigger] front[k] == rest[i];
                assert(perf[k].conn_id != perf[perf.len() - 1].conn_id);
            }
        }
    }
}

/// A connection that takes part in its first evaluation is left alone, however it
/// compares to the others.
pub proof fn law_cold_start_is_protected(config: AdaptiveConfig, active: int, p: ConnPerf, pace: Pace)
    requires
        p.seen == 0,
        config.stall_eval_limit > 0,
    ensures
        decision(config, active, sample_of(p), pace) is Maintain,
{
}

/// A connection that gained a byte is never handed over as stalled.
pub proof fn law_progress_clears_stalls(config: AdaptiveConfig, active: int, p: ConnPerf, pace: Pace)
    requires
        gained(p) > 0,
        config.stall_eval_limit > 0,
    ensures
        !(decision(config, active, sample_of(p), pace) is Retire),
{
}

/// A connection is retired if and only if it stalled too often and is not the last one. One
/// that was seen less than twice is left alone; a slow one gives bytes back and a fast one
/// gets more.
pub proof fn law_decision_fits_the_pace(config: AdaptiveConfig, active: int, s: Sample, pace: Pace)
    ensures
        ({
            let d = decision(config, active, s, pace);
            let stalled = s.stall_count >= config.stall_eval_limit && active > 1;
            &&& (d is Retire <==> stalled)
            &&& (d is Retire ==> d->Retire_conn_id == s.conn_id)
            &&& (!stalled && s.seen < 2 ==> d is Maintain)
            &&& (!stalled && s.seen >= 2 ==> match pace {
                Pace::Slow { bytes } => d == (ScheduleAction::Shrink {
                    conn_id: s.conn_id,
                    reclaim_bytes: bytes,
                }),
                Pace::Fast { bytes } => d == (ScheduleAction::Grow { extra_bytes: bytes }),
                Pace::Even => d is Maintain,
            })
        }),
{
}

/// A stall is an evaluation without a new byte, from the second one of a connection on; a
/// new byte clears them all.
pub proof fn law_stalls_are_evaluations_without_a_byte(p: ConnPerf)
    requires
        p.seen < u32::MAX,
        p.stall_count < u32::MAX,
    ensures
        ({
            let e = evaluated(p);
            let s = sample_of(p);
            &&& e.seen == p.seen + 1
            &&& e.last_bytes == Some(p.bytes_downloaded)
            &&& (p.last_bytes is Some && p.bytes_downloaded >= p.last_bytes->0 ==> s.delta
                == p.bytes_downloaded - p.last_bytes->0)
            &&& (p.last_bytes is None ==> s.delta == 0)
            &&& (p.seen >= 1 && s.delta == 0 ==> e.stall_count == p.stall_count + 1)
            &&& (s.delta > 0 || p.seen == 0 ==> e.stall_count == 0)
            &&& s.stall_count == e.stall_count && s.seen == e.seen && s.conn_id == p.conn_id
            &&& s.assigned_range == p.assigned_range
            &&& e.conn_id == p.conn_id && e.bytes_downloaded == p.bytes_downloaded
        }),
{
}

/// Another connection is started only while the speed rises, there is room for one, and
/// no fewer connections were better; every connection gets its own decision.
pub proof fn law_connection_is_added_while_it_pays(
    a: AdaptiveScheduler,
    samples: Seq<Sample>,
    paces: Seq<Pace>,
    rising: bool,
    best: int,
)
    requires
        samples.len() == paces.len(),
    ensures
        ({
            let d = a.decisions(samples, paces, rising, best);
            let n = if samples.len() == 0 { 1 } else { samples.len() as int };
            let more = n < a.config.max_connections && rising && (n <= best || best == 0);
            &&& d.len() == samples.len() + if more { 1int } else { 0 }
            &&& (more ==> d.last() is Spawn)
            &&& forall|i: int|
                0 <= i < samples.len() ==> !((#[trigger] d[i]) is Spawn) && d[i] == decision(
                    a.config,
                    n,
                    samples[i],
                    paces[i],
                )
        }),
{
}

/// A connection is forgotten once it was silent for four evaluations.
pub proof fn law_silent_connection_is_forgotten(a: AdaptiveScheduler, p: ConnPerf, now: u64)
    requires
        p.last_report <= now,
    ensures
        is_recent(p, a.keep_time(), now) <==> now - p.last_report < 4 * a.config.eval_interval_ms
            * 1_000_000,
{
}

/// An evaluation looks back on the time since the last one, and on a tenth of a second
/// where that is less.
pub proof fn law_evaluation_looks_back(a: AdaptiveScheduler, now: u64)
    ensures
        a.eval_time(now) >= 100_000_000,
        now >= a.last_eval + 100_000_000 ==> a.eval_time(now) == now - a.last_eval,
        now < a.last_eval + 100_000_000 ==> a.eval_time(now) == 100_000_000,
{
}

/// A report is remembered with its connection, and what was counted of that stays. Every
/// other connection is left as it was.
pub proof fn law_report_is_remembered(
    before: Seq<ConnPerf>,
    after: Seq<ConnPerf>,
    id: usize,
    bytes: u64,
    range: u64,
    now: u64,
    j: int,
)
    requires
        AdaptiveScheduler::reported(before, after, id, bytes, range, now),
    ensures
        exists|k: int|
            0 <= k < after.len() && (#[trigger] after[k]).conn_id == id && after[k].bytes_downloaded == bytes
                && after[k].assigned_range == range && after[k].last_report == now,
        before.len() <= after.len() <= before.len() + 1,
        0 <= j < before.len() && before[j].conn_id != id ==> after[j] == before[j],
        0 <= j < before.len() && before[j].conn_id == id ==> after.len() == before.len()
            && after[j].stall_count == before[j].stall_count && after[j].seen == before[j].seen
            && after[j].last_bytes == before[j].last_bytes,
{
    if exists|k: int| 0 <= k < before.len() && (#[trigger] before[k]).conn_id == id {
        let k = choose|k: int|
            0 <= k < before.len() && (#[trigger] before[k]).conn_id == id && after == before.update(
                k,
                ConnPerf { bytes_downloaded: bytes, assigned_range: range, last_report: now, ..before[k] },
            );
        assert(after[k].conn_id == id);
    } else {
        assert(after[before.len() as int].conn_id == id);
    }
}

/// Connections are watched as long as they were reported on of late, in their order.
pub proof fn law_recent_connections_are_watched(
    a: Seq<ConnPerf>,
    b: Seq<ConnPerf>,
    p: ConnPerf,
    keep: int,
    now: u64,
)
    ensures
        recent(a + b, keep, now) == recent(a, keep, now) + recent(b, keep, now),
        recent(seq![p], keep, now) == if elapsed(now, p.last_report) < keep {
            seq![p]
        } else {
            Seq::empty()
        },
    decreases b.len(),
{
    reveal_with_fuel(recent, 2);
    assert(seq![p].drop_last() =~= Seq::<ConnPerf>::empty());
    assert(recent(seq![p], keep, now) =~= if elapsed(now, p.last_report) < keep {
        seq![p]
    } else {
        Seq::empty()
    });
    if b.len() == 0 {
        assert(a + b =~= a);
        assert(recent(a, keep, now) + recent(b, keep, now) =~= recent(a, keep, now));
    } else {
        law_recent_connections_are_watched(a, b.drop_last(), p, keep, now);
        assert((a + b).drop_last() =~= a + b.drop_last());
        assert((a + b).last() == b.last());
        assert(recent(a + b, keep, now) =~= recent(a, keep, now) + recent(b, keep, now));
    }
}

} // verus!
