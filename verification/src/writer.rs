//! The writer of a split download: owner of the range table.

use std::collections::VecDeque;

use vstd::prelude::*;

use crate::adaptive::{AdaptiveConfig, ScheduleAction};
use crate::conns::{elapsed, elapsed_since, SplitStats};
use crate::ctrl::{
    arrange, arranged, is_chained, least, lemma_chain_tiles, lemma_loaded_chain, loaded_seg,
    loaded_segs, marks_fit, saved_segs, seg_chain, usable, CtrlFile, CtrlSeg, CTRL_VERSION,
};
use crate::errors::HttpError;
use crate::headers::copy_headers;
use crate::manifest::pair_texts;
use crate::pieces::{lemma_added_records, lemma_new_records, lemma_records_same, PieceTrack};
use crate::segments::{
    holds_byte, law_assign_strands_nothing, law_carve_keeps_bytes, law_hand_off_keeps_bytes,
    law_release_strands_nothing, law_write_books_its_bytes, lemma_assign_any, lemma_reclaimed,
    lemma_rescued, lemma_spent_queue, lemma_sum_bounds, pos, rem, rem_sum, seg_ok, wrote_byte, Seg,
    Table, CTRL_SAVE_INTERVAL, ENDGAME_MIN_SPLIT, ENDGAME_THRESHOLD, HANDOFF_MIN,
    HANDOFF_WHOLE_MAX, PARK_MS, SEG_LEASE, STALL_TIMEOUT,
};

verus! {

/// Options of a split download.
pub struct SplitOptions {
    /// Connections to start with.
    pub connections: usize,
    /// Smallest range that is worth a request of its own.
    pub min_split_size: u64,
    /// Adaptive scheduling, if it is on.
    pub adaptive: Option<AdaptiveConfig>,
    /// Headers that every request carries.
    pub headers: Vec<(String, String)>,
}

impl SplitOptions {
    /// Options that say the same.
    pub open spec fn alike(&self, o: &SplitOptions) -> bool {
        &&& o.connections == self.connections
        &&& o.min_split_size == self.min_split_size
        &&& o.adaptive == self.adaptive
        &&& pair_texts(o.headers@) == pair_texts(self.headers@)
    }

    fn copy(&self) -> (r: SplitOptions)
        ensures
            self.alike(&r),
    {
        SplitOptions {
            connections: self.connections,
            min_split_size: self.min_split_size,
            adaptive: self.adaptive,
            headers: copy_headers(&self.headers),
        }
    }
}

/// Answer to a worker that asks for work.
pub enum Assignment {
    /// Fetch range `seg` from byte `from` up to `end`, which may move down later.
    Work { seg: usize, from: u64, end: u64 },
    /// Nothing to do now: ask again after `ms` milliseconds.
    Park { ms: u64 },
    /// Leave: enough workers remain.
    Retire,
    /// Everything is fetched, or the download failed.
    Done,
}

/// How a download ends.
#[derive(Clone, Copy, PartialEq, Eq, Structural)]
pub enum FinishMode {
    /// The file is complete.
    Success,
    /// Keep what there is for a later resume.
    Preserve,
    /// Keep the contiguous prefix only.
    Discard,
}

/// What has to happen on disk when a download ends.
pub struct FinishPlan {
    /// Cut or extend the file to this length.
    pub set_len: Option<u64>,
    /// Remove the control file.
    pub remove_ctrl: bool,
    /// Write this control file.
    pub save: Option<CtrlFile>,
}

/// Result of a finished split download.
#[derive(Clone, Copy)]
pub struct SplitDone {
    pub total_len: u64,
}

/// Owner of the range table and of the progress of one download.
pub struct Writer {
    pub url: String,
    pub total: u64,
    /// Everything before this byte was on disk from the start.
    pub base: u64,
    pub segs: Vec<Seg>,
    pub queue: VecDeque<usize>,
    /// Bytes that are not on disk.
    pub todo: u64,
    /// Workers that run.
    pub alive: usize,
    pub fatal: Option<HttpError>,
    pub finished: bool,
    pub stats: SplitStats,
    /// Time of the last save of the control file.
    pub last_save: Option<u64>,
    pub opts: SplitOptions,
    /// Workers that should run.
    pub desired_workers: usize,
    /// Time of the last byte.
    pub last_progress: u64,
}

// ---------------------------------------------------------------------------
// A fresh table
// ---------------------------------------------------------------------------

/// Number of ranges that `remain` bytes are cut into at first: one per smallest
/// range, at most two per connection.
pub open spec fn fresh_count(remain: int, min_split: int, connections: int) -> int {
    let by_min = (remain + min_split - 1) / min_split;
    let most = 2 * if connections < 1 { 1 } else { connections };
    if by_min < most { by_min } else { most }
}

/// End of range `i - 1` and start of range `i` out of `n` equal ones.
pub open spec fn fresh_cut(base: int, remain: int, n: int, i: int) -> int {
    base + remain * i / n
}

/// The ranges of a download that starts at `base`: as many as it takes with `least_size`
/// each, but at most two per connection.
pub open spec fn fresh_segs(base: u64, total: u64, least_size: u64, connections: usize, now: u64) -> Seq<Seg> {
    let remain = total - base;
    let n = fresh_count(remain, least_size as int, connections as int);
    if remain == 0 {
        Seq::empty()
    } else {
        Seq::new(
            n as nat,
            |i: int| Seg {
                start: fresh_cut(base as int, remain, n, i) as u64,
                end: fresh_cut(base as int, remain, n, i + 1) as u64,
                written: 0,
                done: false,
                queued: true,
                holders: 0,
                last_progress: now,
            },
        )
    }
}

proof fn lemma_fresh_count(remain: int, min_split: int, connections: int)
    requires
        remain > 0,
        min_split > 0,
        connections >= 0,
    ensures
        1 <= fresh_count(remain, min_split, connections) <= remain,
{
    let by_min = (remain + min_split - 1) / min_split;
    assert(1 <= by_min <= remain) by (nonlinear_arith)
        requires
            remain > 0,
            min_split > 0,
            by_min == (remain + min_split - 1) / min_split,
    ;
}

proof fn lemma_fresh_cut(base: int, remain: int, n: int, i: int)
    requires
        1 <= n <= remain,
        0 <= i < n,
    ensures
        fresh_cut(base, remain, n, 0) == base,
        fresh_cut(base, remain, n, n) == base + remain,
        fresh_cut(base, remain, n, i) < fresh_cut(base, remain, n, i + 1),
        base <= fresh_cut(base, remain, n, i),
        fresh_cut(base, remain, n, i + 1) <= base + remain,
        0 <= remain * i,
        0 <= remain * (i + 1),
{
    let a = remain * i;
    let b = remain * (i + 1);
    assert(remain * 0 == 0) by (nonlinear_arith);
    assert(0int / n == 0) by (nonlinear_arith)
        requires
            n >= 1,
    ;
    assert((remain * n) / n == remain) by (nonlinear_arith)
        requires
            n >= 1,
    ;
    assert(b == a + remain && 0 <= a) by (nonlinear_arith)
        requires
            a == remain * i,
            b == remain * (i + 1),
            remain >= 1,
            i >= 0,
    ;
    assert(a / n < b / n && 0 <= a / n) by (nonlinear_arith)
        requires
            b == a + remain,
            remain >= n,
            n >= 1,
            a >= 0,
    ;
    assert(b <= remain * n) by (nonlinear_arith)
        requires
            b == remain * (i + 1),
            i + 1 <= n,
            remain >= 1,
    ;
    assert(b / n <= remain) by (nonlinear_arith)
        requires
            b <= remain * n,
            n >= 1,
            b >= 0,
    ;
}

proof fn lemma_fresh_chain(base: u64, total: u64, opts: SplitOptions, now: u64)
    requires
        base < total,
        opts.min_split_size > 0,
    ensures
        seg_chain(fresh_segs(base, total, opts.min_split_size, opts.connections, now), base as int, total as int),
{
    let remain = total - base;
    let n = fresh_count(remain, opts.min_split_size as int, opts.connections as int);
    let s = fresh_segs(base, total, opts.min_split_size, opts.connections, now);
    lemma_fresh_count(remain, opts.min_split_size as int, opts.connections as int);
    lemma_fresh_cut(base as int, remain, n, 0);
    lemma_fresh_cut(base as int, remain, n, n - 1);
    assert forall|i: int| 0 <= i < s.len() implies (#[trigger] s[i]).start < s[i].end by {
        lemma_fresh_cut(base as int, remain, n, i);
    }
    assert forall|i: int, j: int|
        0 <= i && j == i + 1 && j < s.len() implies #[trigger] s[i].end == #[trigger] s[j].start by {}
}

// ---------------------------------------------------------------------------
// The queue of a fresh table
// ---------------------------------------------------------------------------

/// The ranges that wait to be handed out, in order.
pub open spec fn open_ids(segs: Seq<Seg>) -> Seq<usize>
    decreases segs.len(),
{
    if segs.len() == 0 {
        Seq::empty()
    } else {
        let rest = open_ids(segs.drop_last());
        if segs.last().queued && !segs.last().done {
            rest.push((segs.len() - 1) as usize)
        } else {
            rest
        }
    }
}

proof fn lemma_open_ids(segs: Seq<Seg>)
    requires
        segs.len() <= usize::MAX,
    ensures
        forall|k: int| 0 <= k < open_ids(segs).len() ==> #[trigger] open_ids(segs)[k] < segs.len(),
        forall|i: int|
            0 <= i < segs.len() && (#[trigger] segs[i]).queued && !segs[i].done ==> open_ids(
                segs,
            ).contains(i as usize),
    decreases segs.len(),
{
    if segs.len() > 0 {
        let front = segs.drop_last();
        lemma_open_ids(front);
        let rest = open_ids(front);
        let all = open_ids(segs);
        assert forall|k: int| 0 <= k < all.len() implies #[trigger] all[k] < segs.len() by {
            if k < rest.len() {
                assert(all[k] == rest[k]);
            }
        }
        assert forall|i: int|
            0 <= i < segs.len() && (#[trigger] segs[i]).queued && !segs[i].done implies all.contains(
            i as usize,
        ) by {
            if i < front.len() {
                assert(front[i] == segs[i]);
                assert(rest.contains(i as usize));
                let k = choose|k: int| 0 <= k < rest.len() && rest[k] == i as usize;
                assert(all[k] == i as usize);
            } else {
                assert(all[rest.len() as int] == i as usize);
            }
        }
    }
}

impl Writer {
    /// The range table as a value.
    pub open spec fn table(&self) -> Table {
        Table { segs: self.segs@, queue: self.queue@ }
    }

    /// Which bytes are on disk.
    pub open spec fn disk(&self) -> spec_fn(int) -> bool {
        |p: int| self.table().on_disk(self.base as int, p)
    }

    /// The ranges tile the file, nothing is stranded, and the counters agree with them.
    pub open spec fn wf(&self) -> bool {
        self.sane() && self.table().served()
    }

    /// The ranges tile the file, and the counters agree with them; a range may be stranded.
    pub open spec fn sane(&self) -> bool {
        &&& 0 < self.opts.min_split_size
        &&& self.base <= self.total
        &&& self.table().laid_out(self.base as int, self.total as int)
        &&& self.todo == rem_sum(self.segs@)
        &&& self.finished <==> self.todo == 0
        &&& self.stats.completed + self.todo == self.total
        &&& self.stats.pieces is Some ==> self.stats.pieces->0.wf()
    }

    /// The piece map, if there is one, shows exactly what is on disk.
    pub open spec fn exact_pieces(&self) -> bool {
        self.stats.pieces is Some ==> {
            &&& self.stats.pieces->0.total == self.total
            &&& self.stats.pieces->0.records(self.disk())
        }
    }

    /// Counters and table have room for one more round of work.
    pub open spec fn roomy(&self) -> bool {
        &&& self.segs@.len() + self.segs@.len() + 1 < usize::MAX
        &&& self.alive < usize::MAX
        &&& forall|i: int| 0 <= i < self.segs@.len() ==> (#[trigger] self.segs@[i]).holders < usize::MAX
    }

    /// Everything but the table, the number of workers and the stall clock is the same.
    pub open spec fn same_run(&self, o: &Writer) -> bool {
        &&& o.url == self.url
        &&& o.total == self.total
        &&& o.base == self.base
        &&& o.todo == self.todo
        &&& o.fatal == self.fatal
        &&& o.finished == self.finished
        &&& o.stats == self.stats
        &&& o.last_save == self.last_save
        &&& o.opts == self.opts
    }

    /// The number of workers to start with: one per connection, at most one per range.
    pub open spec fn first_workers(&self) -> int {
        least(
            if self.opts.connections < 1 { 1 } else { self.opts.connections as int },
            if self.segs@.len() < 1 { 1 } else { self.segs@.len() as int },
        )
    }

    /// Whether the control file is to be saved again.
    pub open spec fn wants_save(&self, now: u64) -> bool {
        self.last_save is None || elapsed(now, self.last_save->0) >= CTRL_SAVE_INTERVAL
    }

    /// What has to happen on disk when the download ends in a way.
    pub open spec fn ends_with(&self, mode: FinishMode, r: FinishPlan) -> bool {
        match mode {
            FinishMode::Success => {
                &&& r.set_len == Some(self.total)
                &&& r.remove_ctrl
                &&& r.save is None
            },
            FinishMode::Preserve => {
                &&& r.set_len is None
                &&& !r.remove_ctrl
                &&& r.save is Some
                &&& r.save->0.v == CTRL_VERSION
                &&& r.save->0.total == self.total
                &&& r.save->0.base == self.base
                &&& r.save->0.url@ == self.url@
                &&& r.save->0.segs@ == saved_segs(self.segs@)
            },
            FinishMode::Discard => {
                &&& r.set_len is Some
                &&& self.is_prefix_end(r.set_len->0 as int)
                &&& r.remove_ctrl
                &&& r.save is None
            },
        }
    }

    /// What a look at the stall clock does: nothing before the time is over, else every
    /// range that is neither done nor queued is handed over whole.
    pub open spec fn watched(&self, after: &Writer, now: u64) -> bool {
        let t = self.table();
        let n = t.segs.len() as int;
        if self.at_rest() || elapsed(now, self.last_progress) < STALL_TIMEOUT {
            &&& after.table() == t
            &&& after.desired_workers == self.desired_workers
            &&& after.last_progress == self.last_progress
        } else {
            &&& after.wf()
            &&& after.table() == t.rescued(n, now)
            &&& after.desired_workers == if t.rescue_count(n, now) > 0 {
                self.spare_target()
            } else {
                self.desired_workers as int
            }
            &&& after.last_progress == now
        }
    }

    /// The smallest cut: smaller in the end game.
    pub open spec fn min_cut(&self) -> int {
        if self.todo <= ENDGAME_THRESHOLD && ENDGAME_MIN_SPLIT < self.opts.min_split_size {
            ENDGAME_MIN_SPLIT as int
        } else {
            self.opts.min_split_size as int
        }
    }

    /// The number of workers that should run so that one is free for cut-off work.
    pub open spec fn spare_target(&self) -> int {
        let cap = if self.opts.connections < 1 { 1 } else { self.opts.connections as int };
        let want = least(self.alive + 1, cap);
        if want > self.desired_workers { want } else { self.desired_workers as int }
    }

    proof fn lemma_exact_kept(&self, after: &Writer)
        requires
            self.sane(),
            after.base == self.base,
            after.total == self.total,
            after.stats.pieces == self.stats.pieces,
            forall|p: int| #[trigger]
                after.table().on_disk(self.base as int, p) == self.table().on_disk(self.base as int, p),
        ensures
            self.exact_pieces() ==> after.exact_pieces(),
    {
        if self.exact_pieces() && self.stats.pieces is Some {
            let t = self.stats.pieces->0;
            assert forall|p: int| 0 <= p < t.total implies #[trigger] self.disk()(p) == after.disk()(p) by {
                assert(after.table().on_disk(self.base as int, p) == self.table().on_disk(
                    self.base as int,
                    p,
                ));
            }
            lemma_records_same(&t, self.disk(), after.disk());
        }
    }

    /// The number of workers to start: one per connection, at most one per range.
    pub fn spawn_count(&self) -> (r: usize)
        ensures
            r == self.first_workers(),
    {
        let c: usize = if self.opts.connections < 1 { 1 } else { self.opts.connections };
        let n: usize = if self.segs.len() < 1 { 1 } else { self.segs.len() };
        if c < n { c } else { n }
    }

    /// Whether every byte is on disk.
    pub fn finished(&self) -> (r: bool)
        ensures
            r == self.finished,
    {
        self.finished
    }

    /// Keeps the first fatal error; later ones change nothing.
    pub fn set_fatal(&mut self, err: HttpError)
        ensures
            final(self).fatal == if old(self).fatal is None { Some(err) } else { old(self).fatal },
            final(self).table() == old(self).table(),
            final(self).url == old(self).url,
            final(self).total == old(self).total,
            final(self).base == old(self).base,
            final(self).todo == old(self).todo,
            final(self).alive == old(self).alive,
            final(self).finished == old(self).finished,
            final(self).stats == old(self).stats,
            final(self).last_save == old(self).last_save,
            final(self).opts == old(self).opts,
            final(self).desired_workers == old(self).desired_workers,
            final(self).last_progress == old(self).last_progress,
            old(self).wf() ==> final(self).wf(),
            old(self).exact_pieces() ==> final(self).exact_pieces(),
    {
        if self.fatal.is_none() {
            self.fatal = Some(err);
        }
    }

    /// How many of `len` bytes at `offset` are taken for range `sid`: none unless they
    /// begin exactly at its watermark, and none past its end.
    pub open spec fn accepted(&self, sid: int, offset: int, len: int) -> int {
        if self.fatal is Some || sid >= self.segs@.len() {
            0
        } else {
            let s = self.segs@[sid];
            if offset < s.start || offset >= s.end || offset - s.start != s.written {
                0
            } else {
                least(s.end - offset, len)
            }
        }
    }

    /// How many of `len` bytes at `offset` are to be written for range `sid`.
    pub fn plan_write(&self, sid: usize, offset: u64, len: u64) -> (n: u64)
        ensures
            n == self.accepted(sid as int, offset as int, len as int),
    {
        if self.fatal.is_some() || sid >= self.segs.len() {
            return 0;
        }
        let s = self.segs[sid];
        if offset < s.start || offset >= s.end || offset - s.start != s.written {
            return 0;
        }
        let room: u64 = s.end - offset;
        if room < len { room } else { len }
    }

    /// What comes of bytes that were written for a range.
    pub open spec fn writes(
        &self,
        after: &Writer,
        sid: int,
        offset: int,
        len: int,
        stored: Result<(), String>,
        now: u64,
    ) -> bool {
        let n = self.accepted(sid, offset, len);
        if n == 0 {
            *after == *self
        } else {
            match stored {
                Ok(_) => {
                    &&& after.table() == self.table().wrote(sid, n, now)
                    &&& after.todo == self.todo - n
                    &&& after.stats.completed == self.stats.completed + n
                    &&& after.last_progress == now
                    &&& after.fatal is None
                    &&& self.stats.pieces is None ==> after.stats.pieces is None
                    &&& self.stats.pieces is Some ==> after.stats.pieces is Some && self.stats.pieces->0.added(
                        &after.stats.pieces->0,
                        offset,
                        n,
                    )
                },
                Err(m) => {
                    &&& after.fatal == Some(HttpError::Io(m))
                    &&& after.table() == self.table()
                    &&& after.todo == self.todo
                    &&& after.stats == self.stats
                    &&& after.last_progress == self.last_progress
                },
            }
        }
    }

    /// Books the write that `plan_write` allowed, or the error that it ended in.
    pub fn on_write(&mut self, sid: usize, offset: u64, len: u64, stored: Result<(), String>, now: u64)
        requires
            old(self).wf(),
        ensures
            final(self).wf(),
            old(self).exact_pieces() ==> final(self).exact_pieces(),
            final(self).url == old(self).url,
            final(self).total == old(self).total,
            final(self).base == old(self).base,
            final(self).opts == old(self).opts,
            final(self).alive == old(self).alive,
            final(self).desired_workers == old(self).desired_workers,
            final(self).last_save == old(self).last_save,
            final(self).stats.conns == old(self).stats.conns,
            final(self).stats.connections == old(self).stats.connections,
            final(self).stats.next_conn_id == old(self).stats.next_conn_id,
            old(self).writes(final(self), sid as int, offset as int, len as int, stored, now),
    {
        let n: u64 = self.plan_write(sid, offset, len);
        if n == 0 {
            return;
        }
        match stored {
            Err(m) => {
                self.set_fatal(HttpError::Io(m));
            },
            Ok(_) => {
                let ghost before = *self;
                let ghost t = self.table();
                proof {
                    assert(seg_ok(t.segs[sid as int], self.base as int, self.total as int));
                    law_write_books_its_bytes(
                        t,
                        self.base as int,
                        self.total as int,
                        sid as int,
                        n as int,
                        now,
                    );
                    assert forall|i: int| 0 <= i < t.segs.len() implies rem(#[trigger] t.segs[i]) >= 0 by {
                        assert(seg_ok(t.segs[i], self.base as int, self.total as int));
                    }
                    lemma_sum_bounds(t.segs);
                    assert(n <= rem(t.segs[sid as int]));
                }
                let mut s = self.segs[sid];
                s.written = s.written + n;
                s.last_progress = now;
                if s.written == s.end - s.start {
                    s.done = true;
                }
                self.segs.set(sid, s);
                assert(self.table() =~= t.wrote(sid as int, n as int, now));
                self.stats.completed = self.stats.completed + n;
                match &mut self.stats.pieces {
                    Some(p) => {
                        p.add_range(offset, n);
                    },
                    None => {},
                }
                self.todo = self.todo - n;
                self.last_progress = now;
                if self.todo == 0 {
                    self.finished = true;
                }
                proof {
                    if before.exact_pieces() && before.stats.pieces is Some {
                        let p0 = before.stats.pieces->0;
                        let p1 = self.stats.pieces->0;
                        assert(p0.added(&p1, offset as int, n as int));
                        assert forall|p: int| offset <= p < offset + n implies !#[trigger] before.disk()(p) by {
                            assert(!t.on_disk(before.base as int, p));
                        }
                        assert forall|p: int| 0 <= p < p0.total implies #[trigger] self.disk()(p) == (
                        before.disk()(p) || offset <= p < offset + n) by {
                            assert(t.wrote(sid as int, n as int, now).on_disk(before.base as int, p) == (
                            t.on_disk(before.base as int, p) || offset <= p < offset + n));
                        }
                        lemma_added_records(
                            &p0,
                            &p1,
                            offset as int,
                            n as int,
                            before.disk(),
                            self.disk(),
                        );
                    }
                }
            },
        }
    }

    /// The smallest cut: smaller in the end game.
    pub fn effective_min_split(&self) -> (r: u64)
        ensures
            r == self.min_cut(),
    {
        if self.todo <= ENDGAME_THRESHOLD && ENDGAME_MIN_SPLIT < self.opts.min_split_size {
            ENDGAME_MIN_SPLIT
        } else {
            self.opts.min_split_size
        }
    }

    /// Cuts `[cut, end)` off range `sid`, queues it and returns its number.
    fn split_off(&mut self, sid: usize, cut: u64, now: u64) -> (nsid: usize)
        requires
            sid < old(self).segs@.len(),
        ensures
            nsid == old(self).segs@.len(),
            final(self).table() == old(self).table().carve(sid as int, cut, false, now),
            old(self).same_run(final(self)),
            final(self).alive == old(self).alive,
            final(self).desired_workers == old(self).desired_workers,
            final(self).last_progress == old(self).last_progress,
    {
        let ghost t = self.table();
        let mut s = self.segs[sid];
        let old_end: u64 = s.end;
        s.end = cut;
        self.segs.set(sid, s);
        let nsid: usize = self.segs.len();
        self.segs.push(
            Seg {
                start: cut,
                end: old_end,
                written: 0,
                done: false,
                queued: true,
                holders: 0,
                last_progress: now,
            },
        );
        self.queue.push_back(nsid);
        assert(self.table() =~= t.carve(sid as int, cut, false, now));
        nsid
    }

    /// Cuts the second half off the range with the most bytes left, if it has enough.
    pub fn try_steal(&mut self, now: u64) -> (r: Option<usize>)
        requires
            old(self).wf(),
            old(self).segs@.len() < usize::MAX,
        ensures
            final(self).wf(),
            old(self).exact_pieces() ==> final(self).exact_pieces(),
            old(self).same_run(final(self)),
            final(self).alive == old(self).alive,
            final(self).desired_workers == old(self).desired_workers,
            final(self).last_progress == old(self).last_progress,
            old(self).steals(r, final(self).table(), now),
    {
        let cut_floor: u64 = self.effective_min_split();
        let ghost floor = 2 * self.min_cut();
        let mut best: Option<usize> = None;
        let mut most: u64 = 0;
        let mut i: usize = 0;
        let ghost t = self.table();
        while i < self.segs.len()
            invariant
                self.wf(),
                t == self.table(),
                floor == 2 * self.min_cut(),
                cut_floor == self.min_cut(),
                i <= self.segs@.len(),
                match best {
                    Some(b) => {
                        &&& b < i
                        &&& most == rem(t.segs[b as int])
                        &&& t.can_steal(b as int, floor)
                        &&& forall|j: int|
                            j < i && #[trigger] t.can_steal(j, floor) ==> rem(t.segs[j]) < most || (
                            rem(t.segs[j]) == most && b <= j)
                    },
                    None => forall|j: int| j < i ==> !#[trigger] t.can_steal(j, floor),
                },
            decreases self.segs@.len() - i,
        {
            let s = self.segs[i];
            assert(seg_ok(t.segs[i as int], self.base as int, self.total as int));
            if !s.done && !s.queued {
                let remaining: u64 = s.end - s.start - s.written;
                if remaining / 2 >= cut_floor && (best.is_none() || remaining > most) {
                    best = Some(i);
                    most = remaining;
                }
            }
            i = i + 1;
        }
        match best {
            None => {
                let ghost cut = 2 * self.min_cut();
                assert forall|j: int| !#[trigger] t.can_steal(j, cut) by {
                    assert(!t.can_steal(j, floor));
                }
                None
            },
            Some(sid) => {
                let s = self.segs[sid];
                assert(seg_ok(t.segs[sid as int], self.base as int, self.total as int));
                let at: u64 = s.start + s.written;
                let mid: u64 = at + (s.end - at) / 2;
                assert(t.is_steal_target(sid as int, floor));
                let ghost before = *self;
                proof {
                    law_carve_keeps_bytes(
                        t,
                        self.base as int,
                        self.total as int,
                        sid as int,
                        mid,
                        false,
                        now,
                    );
                }
                let nsid: usize = self.split_off(sid, mid, now);
                proof {
                    before.lemma_exact_kept(self);
                    assert(t.steal_cut(sid as int) == mid);
                }
                Some(nsid)
            },
        }
    }

    /// What stealing does: nothing if no range may be cut, else it halves the target.
    pub open spec fn steals(&self, r: Option<usize>, after: Table, now: u64) -> bool {
        let t = self.table();
        let floor = 2 * self.min_cut();
        match r {
            None => {
                &&& after == t
                &&& forall|i: int| !#[trigger] t.can_steal(i, floor)
            },
            Some(nsid) => {
                &&& nsid == t.segs.len()
                &&& exists|i: int| #[trigger]
                    t.is_steal_target(i, floor) && after == t.carve(i, t.steal_cut(i) as u64, false, now)
            },
        }
    }

    /// Hands what is left of range `sid` to another worker: all of it, or half if much
    /// is left and `whole` is not asked for. A small rest stays unless `force` is set.
    pub fn handoff(&mut self, sid: usize, whole: bool, force: bool, now: u64) -> (r: bool)
        requires
            old(self).sane(),
            old(self).segs@.len() < usize::MAX,
        ensures
            final(self).sane(),
            old(self).wf() ==> final(self).wf(),
            old(self).exact_pieces() ==> final(self).exact_pieces(),
            old(self).same_run(final(self)),
            final(self).alive == old(self).alive,
            final(self).desired_workers == old(self).desired_workers,
            final(self).last_progress == old(self).last_progress,
            r == old(self).table().can_hand_off(sid as int, force),
            final(self).table() == old(self).table().handed_off(sid as int, whole, force, now),
    {
        if sid >= self.segs.len() {
            return false;
        }
        let ghost t = self.table();
        let ghost before = *self;
        let s = self.segs[sid];
        assert(seg_ok(t.segs[sid as int], self.base as int, self.total as int));
        let at: u64 = s.start + s.written;
        if at >= s.end {
            return false;
        }
        let remaining: u64 = s.end - at;
        if remaining < HANDOFF_MIN && !force {
            return false;
        }
        let cut: u64 = if whole || remaining <= HANDOFF_WHOLE_MAX {
            at
        } else {
            at + remaining / 2
        };
        proof {
            law_hand_off_keeps_bytes(
                t,
                self.base as int,
                self.total as int,
                sid as int,
                whole,
                force,
                now,
            );
            assert(cut == t.hand_off_cut(sid as int, whole));
        }
        let _ = self.split_off(sid, cut, now);
        let mut head = self.segs[sid];
        if cut == at {
            head.done = true;
        }
        head.last_progress = now;
        self.segs.set(sid, head);
        assert(self.table() =~= t.carve(sid as int, cut, true, now));
        proof {
            before.lemma_exact_kept(self);
        }
        true
    }

    /// Asks for one more worker than runs, up to the number of connections.
    pub fn ensure_spare(&mut self)
        requires
            old(self).alive < usize::MAX,
        ensures
            final(self).desired_workers == old(self).spare_target(),
            old(self).same_run(final(self)),
            final(self).table() == old(self).table(),
            final(self).alive == old(self).alive,
            final(self).last_progress == old(self).last_progress,
            old(self).sane() ==> final(self).sane(),
            old(self).wf() ==> final(self).wf(),
            old(self).exact_pieces() ==> final(self).exact_pieces(),
    {
        let cap: usize = if self.opts.connections < 1 { 1 } else { self.opts.connections };
        let want: usize = if self.alive + 1 < cap { self.alive + 1 } else { cap };
        if want > self.desired_workers {
            self.desired_workers = want;
        }
    }

    /// Nothing is handed over any more: complete, failed, or nothing left.
    pub open spec fn at_rest(&self) -> bool {
        self.finished || self.fatal is Some || self.todo == 0
    }

    /// Hands over every held range whose lease ran out.
    pub fn reclaim_stalled(&mut self, now: u64)
        requires
            old(self).wf(),
            old(self).segs@.len() + old(self).segs@.len() < usize::MAX,
            old(self).alive < usize::MAX,
        ensures
            final(self).wf(),
            old(self).exact_pieces() ==> final(self).exact_pieces(),
            old(self).same_run(final(self)),
            final(self).alive == old(self).alive,
            final(self).last_progress == old(self).last_progress,
            ({
                let t = old(self).table();
                let n = t.segs.len() as int;
                if old(self).at_rest() {
                    &&& final(self).table() == t
                    &&& final(self).desired_workers == old(self).desired_workers
                } else {
                    &&& final(self).table() == t.reclaimed(n, now)
                    &&& final(self).desired_workers == if t.reclaim_count(n, now) > 0 {
                        old(self).spare_target()
                    } else {
                        old(self).desired_workers as int
                    }
                }
            }),
    {
        if self.finished || self.fatal.is_some() || self.todo == 0 {
            return;
        }
        let ghost before = *self;
        let ghost t = self.table();
        let n: usize = self.segs.len();
        let mut reclaimed: usize = 0;
        let mut i: usize = 0;
        while i < n
            invariant
                before.wf(),
                self.wf(),
                t == before.table(),
                n == t.segs.len(),
                t.segs.len() + t.segs.len() < usize::MAX,
                i <= n,
                reclaimed == t.reclaim_count(i as int, now),
                self.table() == t.reclaimed(i as int, now),
                before.same_run(self),
                self.alive == before.alive,
                self.desired_workers == before.desired_workers,
                self.last_progress == before.last_progress,
            decreases n - i,
        {
            proof {
                lemma_reclaimed(t, before.base as int, before.total as int, i as int, now);
            }
            let s = self.segs[i];
            let stalled: bool = !s.done && !s.queued && s.holders > 0 && elapsed_since(
                now,
                s.last_progress,
            ) >= SEG_LEASE;
            if stalled && self.handoff(i, false, false, now) {
                reclaimed = reclaimed + 1;
            }
            i = i + 1;
        }
        proof {
            lemma_reclaimed(t, before.base as int, before.total as int, n as int, now);
            before.lemma_exact_kept(self);
        }
        if reclaimed > 0 {
            self.ensure_spare();
        }
    }

    /// Without any byte for long, hands over whole every range that is neither done nor
    /// queued. A range that nobody holds any more is served again with that.
    pub fn watchdog_requeue_stalled(&mut self, now: u64)
        requires
            old(self).sane(),
            old(self).segs@.len() + old(self).segs@.len() < usize::MAX,
            old(self).alive < usize::MAX,
        ensures
            final(self).sane(),
            old(self).wf() ==> final(self).wf(),
            old(self).exact_pieces() ==> final(self).exact_pieces(),
            old(self).same_run(final(self)),
            final(self).alive == old(self).alive,
            old(self).watched(final(self), now),
    {
        if self.finished || self.fatal.is_some() || self.todo == 0 {
            return;
        }
        if elapsed_since(now, self.last_progress) < STALL_TIMEOUT {
            return;
        }
        let ghost before = *self;
        let ghost t = self.table();
        let n: usize = self.segs.len();
        let mut requeued: usize = 0;
        let mut i: usize = 0;
        while i < n
            invariant
                before.sane(),
                self.sane(),
                t == before.table(),
                n == t.segs.len(),
                t.segs.len() + t.segs.len() < usize::MAX,
                i <= n,
                requeued == t.rescue_count(i as int, now),
                self.table() == t.rescued(i as int, now),
                before.same_run(self),
                self.alive == before.alive,
                self.desired_workers == before.desired_workers,
                self.last_progress == before.last_progress,
            decreases n - i,
        {
            proof {
                lemma_rescued(t, before.base as int, before.total as int, i as int, now);
            }
            let s = self.segs[i];
            if !s.done && !s.queued && self.handoff(i, true, true, now) {
                requeued = requeued + 1;
            }
            i = i + 1;
        }
        proof {
            lemma_rescued(t, before.base as int, before.total as int, n as int, now);
            before.lemma_exact_kept(self);
        }
        if requeued > 0 {
            self.ensure_spare();
        }
        self.last_progress = now;
    }

    fn release_seg(&mut self, sid: usize)
        requires
            old(self).wf(),
        ensures
            final(self).wf(),
            old(self).exact_pieces() ==> final(self).exact_pieces(),
            old(self).same_run(final(self)),
            final(self).alive == old(self).alive,
            final(self).desired_workers == old(self).desired_workers,
            final(self).last_progress == old(self).last_progress,
            final(self).table() == old(self).table().released(sid as int),
    {
        if sid >= self.segs.len() {
            return;
        }
        let ghost before = *self;
        let ghost t = self.table();
        let mut s = self.segs[sid];
        s.holders = if s.holders > 0 { s.holders - 1 } else { 0 };
        let requeue: bool = !s.done && !s.queued && s.holders == 0;
        if requeue {
            s.queued = true;
        }
        self.segs.set(sid, s);
        if requeue {
            self.queue.push_back(sid);
        }
        assert(self.table() =~= t.released(sid as int));
        proof {
            law_release_strands_nothing(t, self.base as int, self.total as int, sid as int);
            before.lemma_exact_kept(self);
        }
    }

    /// Takes the first range that is not done off the queue.
    fn pop_open(&mut self) -> (r: Option<usize>)
        requires
            old(self).wf(),
        ensures
            old(self).same_run(final(self)),
            final(self).alive == old(self).alive,
            final(self).desired_workers == old(self).desired_workers,
            final(self).last_progress == old(self).last_progress,
            ({
                let t = old(self).table();
                match r {
                    Some(sid) => exists|k: int| #[trigger]
                        t.is_queue_head(k) && sid == t.queue[k] && final(self).table() == t.dequeued(k + 1),
                    None => t.queue_spent() && final(self).table() == t.dequeued(t.queue.len() as int),
                }
            }),
    {
        let ghost before = *self;
        let ghost t = self.table();
        let ghost mut k: int = 0;
        assert(t.queue.skip(0) =~= t.queue);
        loop
            invariant
                before == *old(self),
                before.wf(),
                t == before.table(),
                0 <= k <= t.queue.len(),
                self.segs@ == t.segs,
                self.queue@ == t.queue.skip(k),
                forall|j: int| 0 <= j < k ==> (#[trigger] t.segs[t.queue[j] as int]).done,
                before.same_run(self),
                self.alive == before.alive,
                self.desired_workers == before.desired_workers,
                self.last_progress == before.last_progress,
            decreases t.queue.len() - k,
        {
            let head = self.queue.pop_front();
            match head {
                None => {
                    assert(self.table() =~= t.dequeued(t.queue.len() as int));
                    return None;
                },
                Some(sid) => {
                    assert(sid == t.queue[k]);
                    assert(t.queue[k] < t.segs.len());
                    assert(self.queue@ =~= t.queue.skip(k + 1));
                    if !self.segs[sid].done {
                        assert(self.table() =~= t.dequeued(k + 1));
                        assert(t.is_queue_head(k));
                        return Some(sid);
                    }
                    proof {
                        k = k + 1;
                    }
                },
            }
        }
    }

    /// Marks range `sid` as held by one more worker.
    fn assign(&mut self, sid: usize, now: u64)
        requires
            sid < old(self).segs@.len(),
            old(self).segs@[sid as int].holders < usize::MAX,
        ensures
            final(self).table() == old(self).table().assigned(sid as int, now),
            old(self).same_run(final(self)),
            final(self).alive == old(self).alive,
            final(self).desired_workers == old(self).desired_workers,
            final(self).last_progress == old(self).last_progress,
    {
        let ghost t = self.table();
        let mut s = self.segs[sid];
        s.queued = false;
        s.holders = s.holders + 1;
        s.last_progress = now;
        self.segs.set(sid, s);
        assert(self.table() =~= t.assigned(sid as int, now));
    }

    /// The table after the worker's range was given back.
    pub open spec fn after_release(&self, release: Option<(usize, bool)>) -> Table {
        match release {
            Some(p) => self.table().released(p.0 as int),
            None => self.table(),
        }
    }

    /// What a worker gets that gives `release` back and asks for work: the head of the
    /// queue, else half of the largest range in work, else rest or leave.
    pub open spec fn next_is(
        &self,
        release: Option<(usize, bool)>,
        failures: u32,
        now: u64,
        after: &Writer,
        r: Assignment,
    ) -> bool {
        let t1 = self.after_release(release);
        if self.fatal is Some || self.finished {
            &&& r is Done
            &&& after.table() == t1
            &&& after.alive == self.alive
            &&& after.desired_workers == 0
        } else {
            let n1 = t1.segs.len() as int;
            let t2 = t1.reclaimed(n1, now);
            let wanted = if t1.reclaim_count(n1, now) > 0 {
                self.spare_target()
            } else {
                self.desired_workers as int
            };
            if !t2.queue_spent() {
                &&& after.alive == self.alive
                &&& after.desired_workers == wanted
                &&& exists|k: int| #[trigger]
                    t2.is_queue_head(k) && {
                        let sid = t2.queue[k] as int;
                        &&& after.table() == t2.dequeued(k + 1).assigned(sid, now)
                        &&& r == (Assignment::Work {
                            seg: t2.queue[k],
                            from: pos(t2.segs[sid]) as u64,
                            end: t2.segs[sid].end,
                        })
                    }
            } else {
                let t3 = t2.dequeued(t2.queue.len() as int);
                let floor = 2 * self.min_cut();
                if exists|i: int| t3.is_steal_target(i, floor) {
                    &&& after.alive == self.alive
                    &&& after.desired_workers == wanted
                    &&& exists|i: int| #[trigger]
                        t3.is_steal_target(i, floor) && {
                            let cut = t3.steal_cut(i) as u64;
                            &&& after.table() == t3.carve(i, cut, false, now).assigned(
                                t3.segs.len() as int,
                                now,
                            )
                            &&& r == (Assignment::Work {
                                seg: t3.segs.len() as usize,
                                from: cut,
                                end: t3.segs[i].end,
                            })
                        }
                } else if failures >= 2 && self.alive > 1 {
                    &&& r is Retire
                    &&& after.table() == t3
                    &&& after.alive == self.alive - 1
                    &&& after.desired_workers == self.alive - 1
                } else {
                    &&& r == (Assignment::Park { ms: PARK_MS })
                    &&& after.table() == t3
                    &&& after.alive == self.alive
                    &&& after.desired_workers == wanted
                }
            }
        }
    }

    /// Takes a range back from a worker and hands it the next one.
    pub fn next_work(&mut self, release: Option<(usize, bool)>, failures: u32, now: u64) -> (r: Assignment)
        requires
            old(self).wf(),
            old(self).roomy(),
        ensures
            final(self).wf(),
            old(self).exact_pieces() ==> final(self).exact_pieces(),
            old(self).same_run(final(self)),
            final(self).last_progress == old(self).last_progress,
            old(self).next_is(release, failures, now, final(self), r),
    {
        let ghost before = *self;
        if let Some(given) = release {
            self.release_seg(given.0);
        }
        let ghost t1 = self.table();
        assert(t1 == before.after_release(release));
        if self.fatal.is_some() || self.finished {
            self.desired_workers = 0;
            return Assignment::Done;
        }
        self.reclaim_stalled(now);
        let ghost t2 = self.table();
        let ghost n1 = t1.segs.len() as int;
        proof {
            lemma_reclaimed(t1, before.base as int, before.total as int, n1, now);
            lemma_reclaim_holders(t1, n1, now);
            assert(t2 == t1.reclaimed(n1, now));
        }
        let ghost mid = *self;
        let popped = self.pop_open();
        if let Some(sid) = popped {
            let ghost k = choose|k: int| #[trigger]
                t2.is_queue_head(k) && sid == t2.queue[k] && self.table() == t2.dequeued(k + 1);
            proof {
                assert(t2.is_queue_head(k));
                assert(t2.queue[k] < t2.segs.len());
                law_assign_strands_nothing(t2, before.base as int, before.total as int, k, now);
                assert(seg_ok(t2.segs[sid as int], before.base as int, before.total as int));
            }
            self.assign(sid, now);
            let s = self.segs[sid];
            proof {
                mid.lemma_exact_kept(self);
                assert(!t2.queue_spent()) by {
                    assert(!t2.segs[t2.queue[k] as int].done);
                }
                assert(s.start == t2.segs[sid as int].start);
                assert(s.written == t2.segs[sid as int].written);
                assert(s.end == t2.segs[sid as int].end);
            }
            return Assignment::Work { seg: sid, from: s.start + s.written, end: s.end };
        }
        let ghost t3 = self.table();
        proof {
            lemma_spent_queue(t2, before.base as int, before.total as int);
            assert(t3 == t2.dequeued(t2.queue.len() as int));
            assert forall|p: int| #[trigger] t3.on_disk(before.base as int, p) == t2.on_disk(
                before.base as int,
                p,
            ) by {
                assert(t3.segs == t2.segs);
            }
            mid.lemma_exact_kept(self);
        }
        let ghost calm = *self;
        let stolen = self.try_steal(now);
        if let Some(nsid) = stolen {
            let ghost floor = 2 * before.min_cut();
            let ghost i = choose|i: int| #[trigger]
                t3.is_steal_target(i, floor) && self.table() == t3.carve(
                    i,
                    t3.steal_cut(i) as u64,
                    false,
                    now,
                );
            let ghost t4 = self.table();
            let ghost robbed = *self;
            proof {
                assert(t3.is_steal_target(i, floor));
                assert(seg_ok(t3.segs[i], before.base as int, before.total as int));
                lemma_assign_any(t4, before.base as int, before.total as int, nsid as int, now);
            }
            let s = self.segs[nsid];
            self.assign(nsid, now);
            proof {
                robbed.lemma_exact_kept(self);
            }
            return Assignment::Work { seg: nsid, from: s.start, end: s.end };
        }
        proof {
            let floor = 2 * before.min_cut();
            assert(calm.steals(stolen, self.table(), now));
            assert forall|i: int| !#[trigger] t3.is_steal_target(i, floor) by {
                assert(calm.min_cut() == before.min_cut());
                assert(!calm.table().can_steal(i, 2 * calm.min_cut()));
            }
        }
        if failures >= 2 && self.alive > 1 {
            self.retire_one();
            return Assignment::Retire;
        }
        Assignment::Park { ms: PARK_MS }
    }

    /// One worker less.
    pub fn retire_one(&mut self)
        ensures
            final(self).alive == if old(self).alive > 0 { old(self).alive - 1 } else { 0 },
            final(self).desired_workers == final(self).alive,
            old(self).same_run(final(self)),
            final(self).table() == old(self).table(),
            final(self).last_progress == old(self).last_progress,
            old(self).wf() ==> final(self).wf(),
            old(self).exact_pieces() ==> final(self).exact_pieces(),
    {
        self.alive = if self.alive > 0 { self.alive - 1 } else { 0 };
        self.desired_workers = self.alive;
    }

    /// One worker more.
    pub fn worker_joined(&mut self)
        requires
            old(self).alive < usize::MAX,
        ensures
            final(self).alive == old(self).alive + 1,
            final(self).desired_workers == old(self).desired_workers,
            old(self).same_run(final(self)),
            final(self).table() == old(self).table(),
            final(self).last_progress == old(self).last_progress,
            old(self).wf() ==> final(self).wf(),
            old(self).exact_pieces() ==> final(self).exact_pieces(),
    {
        self.alive = self.alive + 1;
    }
}

impl Writer {
    /// The range that is not done with the most bytes left.
    pub fn find_largest_active_seg(&self) -> (r: Option<usize>)
        requires
            self.wf(),
        ensures
            match r {
                Some(i) => self.table().is_largest(i as int),
                None => forall|i: int| !#[trigger] self.table().is_largest(i),
            },
    {
        let ghost t = self.table();
        let mut best: Option<usize> = None;
        let mut most: u64 = 0;
        let mut i: usize = 0;
        while i < self.segs.len()
            invariant
                self.wf(),
                t == self.table(),
                i <= self.segs@.len(),
                match best {
                    Some(b) => {
                        &&& b < i
                        &&& most == rem(t.segs[b as int])
                        &&& !t.segs[b as int].done
                        &&& most > 0
                        &&& forall|j: int|
                            0 <= j < i && !(#[trigger] t.segs[j]).done ==> rem(t.segs[j]) < most || (rem(
                                t.segs[j],
                            ) == most && b <= j)
                    },
                    None => forall|j: int| 0 <= j < i ==> (#[trigger] t.segs[j]).done,
                },
            decreases self.segs@.len() - i,
        {
            let s = self.segs[i];
            assert(seg_ok(t.segs[i as int], self.base as int, self.total as int));
            if !s.done {
                let remaining: u64 = s.end - s.start - s.written;
                if best.is_none() || remaining > most {
                    best = Some(i);
                    most = remaining;
                }
            }
            i = i + 1;
        }
        best
    }

    /// What shrinking does: nothing if no range has enough left, else it cuts the target.
    pub open spec fn shrinks(&self, preferred: int, reclaim: int, after: Table, now: u64) -> bool {
        let t = self.table();
        let floor = self.min_cut();
        if exists|i: int| t.is_shrink_target(i, preferred, floor) {
            exists|i: int| #[trigger]
                t.is_shrink_target(i, preferred, floor) && after == t.carve(
                    i,
                    t.shrink_cut(i, floor, reclaim) as u64,
                    false,
                    now,
                )
        } else {
            after == t
        }
    }

    /// Cuts the tail off a slow range and queues it: off the preferred one, or off the
    /// largest if that one has too little left.
    pub fn shrink_seg(&mut self, preferred: usize, reclaim_bytes: u64, now: u64)
        requires
            old(self).wf(),
            old(self).segs@.len() < usize::MAX,
        ensures
            final(self).wf(),
            old(self).exact_pieces() ==> final(self).exact_pieces(),
            old(self).same_run(final(self)),
            final(self).alive == old(self).alive,
            final(self).desired_workers == old(self).desired_workers,
            final(self).last_progress == old(self).last_progress,
            old(self).shrinks(preferred as int, reclaim_bytes as int, final(self).table(), now),
    {
        let floor: u64 = self.effective_min_split();
        let ghost t = self.table();
        let ghost before = *self;
        let target: Option<usize> = if self.eligible(preferred, floor) {
            Some(preferred)
        } else {
            match self.find_largest_active_seg() {
                Some(i) => if self.eligible(i, floor) {
                    Some(i)
                } else {
                    None
                },
                None => None,
            }
        };
        match target {
            None => {
                proof {
                    assert forall|i: int| !#[trigger] t.is_shrink_target(
                        i,
                        preferred as int,
                        floor as int,
                    ) by {
                        if t.is_largest(i) {
                            let b = choose|b: int| #[trigger] t.is_largest(b) && !t.can_shrink(b, floor as int);
                            assert(t.is_largest(b));
                            assert(b == i);
                        }
                    }
                }
            },
            Some(sid) => {
                let s = self.segs[sid];
                assert(seg_ok(t.segs[sid as int], self.base as int, self.total as int));
                let remaining: u64 = s.end - (s.start + s.written);
                let most: u64 = remaining - floor;
                let reclaim: u64 = if reclaim_bytes < floor {
                    floor
                } else if reclaim_bytes > most {
                    most
                } else {
                    reclaim_bytes
                };
                let cut: u64 = s.end - reclaim;
                proof {
                    assert(t.is_shrink_target(sid as int, preferred as int, floor as int));
                    assert(cut == t.shrink_cut(sid as int, floor as int, reclaim_bytes as int));
                    law_carve_keeps_bytes(
                        t,
                        self.base as int,
                        self.total as int,
                        sid as int,
                        cut,
                        false,
                        now,
                    );
                }
                let _ = self.split_off(sid, cut, now);
                proof {
                    before.lemma_exact_kept(self);
                }
            },
        }
    }

    fn eligible(&self, i: usize, floor: u64) -> (r: bool)
        requires
            self.wf(),
        ensures
            r == self.table().can_shrink(i as int, floor as int),
    {
        if i >= self.segs.len() {
            return false;
        }
        let s = self.segs[i];
        assert(seg_ok(self.table().segs[i as int], self.base as int, self.total as int));
        !s.done && (s.end - s.start - s.written) / 2 >= floor
    }

    /// How many workers a decision to grow aims at: twice as many, within the limits
    /// of the configuration and of the work there is.
    pub open spec fn spawn_target(&self, max_connections: int) -> int {
        let most = if max_connections < 1 { 1 } else { max_connections };
        let work = if self.segs@.len() < 1 { 1 } else { 2 * self.segs@.len() };
        let cap = least(most, work as int);
        let twice = if 2 * self.alive < self.alive + 1 { self.alive + 1 } else { 2 * self.alive };
        let target = least(cap, twice);
        if target < self.alive { self.alive as int } else { target }
    }

    /// What a decision of the scheduler does to the table and the number of workers.
    pub open spec fn follows(&self, action: ScheduleAction, after: &Writer, now: u64) -> bool {
        let t = self.table();
        if self.opts.adaptive is None {
            after.table() == t && after.desired_workers == self.desired_workers
        } else {
            match action {
                ScheduleAction::Maintain => after.table() == t && after.desired_workers
                    == self.desired_workers,
                ScheduleAction::Grow { extra_bytes } => after.table() == t && after.desired_workers
                    == self.desired_workers,
                ScheduleAction::Shrink { conn_id, reclaim_bytes } => {
                    &&& self.shrinks(conn_id as int, reclaim_bytes as int, after.table(), now)
                    &&& after.desired_workers == self.desired_workers
                },
                ScheduleAction::Retire { conn_id } => {
                    &&& after.table() == t.handed_off(conn_id as int, false, false, now)
                    &&& after.desired_workers == if t.can_hand_off(conn_id as int, false) {
                        self.spare_target()
                    } else {
                        self.desired_workers as int
                    }
                },
                ScheduleAction::Spawn => {
                    let target = self.spawn_target(self.opts.adaptive->0.max_connections as int);
                    &&& after.table() == t
                    &&& after.desired_workers == if target > self.alive {
                        target
                    } else {
                        self.desired_workers as int
                    }
                },
            }
        }
    }

    /// Carries out a decision of the scheduler.
    pub fn apply_adaptive_action(&mut self, action: ScheduleAction, now: u64)
        requires
            old(self).wf(),
            old(self).segs@.len() < usize::MAX,
            old(self).alive < usize::MAX,
        ensures
            final(self).wf(),
            old(self).exact_pieces() ==> final(self).exact_pieces(),
            old(self).same_run(final(self)),
            final(self).alive == old(self).alive,
            final(self).last_progress == old(self).last_progress,
            old(self).follows(action, final(self), now),
    {
        match self.opts.adaptive {
            None => {},
            Some(config) => match action {
                ScheduleAction::Maintain => {},
                ScheduleAction::Grow { extra_bytes: _ } => {},
                ScheduleAction::Shrink { conn_id, reclaim_bytes } => {
                    self.shrink_seg(conn_id, reclaim_bytes, now);
                },
                ScheduleAction::Retire { conn_id } => {
                    if self.handoff(conn_id, false, false, now) {
                        self.ensure_spare();
                    }
                },
                ScheduleAction::Spawn => {
                    let most: usize = if config.max_connections < 1 { 1 } else { config.max_connections };
                    let n: usize = self.segs.len();
                    let work: usize = if n < 1 {
                        1
                    } else if n > usize::MAX / 2 {
                        usize::MAX
                    } else {
                        n * 2
                    };
                    let cap: usize = if most < work { most } else { work };
                    let double: usize = if self.alive > usize::MAX / 2 {
                        usize::MAX
                    } else {
                        self.alive * 2
                    };
                    let twice: usize = if double < self.alive + 1 { self.alive + 1 } else { double };
                    let least: usize = if cap < twice { cap } else { twice };
                    let target: usize = if least < self.alive { self.alive } else { least };
                    if target > self.alive {
                        self.desired_workers = target;
                    }
                },
            },
        }
    }

    /// The control file of the present state.
    pub fn serialize_ctrl(&self) -> (r: CtrlFile)
        ensures
            r.v == CTRL_VERSION,
            r.total == self.total,
            r.base == self.base,
            r.url@ == self.url@,
            r.segs@ == saved_segs(self.segs@),
    {
        let mut segs: Vec<CtrlSeg> = Vec::new();
        let mut i: usize = 0;
        assert(self.segs@.take(0) =~= Seq::<Seg>::empty());
        while i < self.segs.len()
            invariant
                i <= self.segs@.len(),
                segs@ == saved_segs(self.segs@.take(i as int)),
            decreases self.segs@.len() - i,
        {
            let s = self.segs[i];
            proof {
                assert(self.segs@.take(i + 1).drop_last() =~= self.segs@.take(i as int));
                assert(self.segs@.take(i + 1).last() == s);
            }
            if s.end > s.start {
                segs.push(CtrlSeg { s: s.start, w: s.written, e: s.end });
            }
            i = i + 1;
        }
        assert(self.segs@.take(i as int) =~= self.segs@);
        CtrlFile { v: CTRL_VERSION, total: self.total, base: self.base, url: self.url.clone(), segs }
    }

    /// Whether a periodic save of the control file is due.
    pub fn save_due(&self, now: u64) -> (r: bool)
        ensures
            r == self.wants_save(now),
    {
        match self.last_save {
            None => true,
            Some(at) => elapsed_since(now, at) >= CTRL_SAVE_INTERVAL,
        }
    }

    /// Notes that the control file was handed over for saving.
    pub fn mark_saved(&mut self, now: u64)
        ensures
            final(self).last_save == Some(now),
            final(self).table() == old(self).table(),
            final(self).url == old(self).url,
            final(self).total == old(self).total,
            final(self).base == old(self).base,
            final(self).todo == old(self).todo,
            final(self).alive == old(self).alive,
            final(self).fatal == old(self).fatal,
            final(self).finished == old(self).finished,
            final(self).stats == old(self).stats,
            final(self).opts == old(self).opts,
            final(self).desired_workers == old(self).desired_workers,
            final(self).last_progress == old(self).last_progress,
            old(self).wf() ==> final(self).wf(),
            old(self).exact_pieces() ==> final(self).exact_pieces(),
    {
        self.last_save = Some(now);
    }

    /// `r` is where the bytes on disk first leave a gap.
    pub open spec fn is_prefix_end(&self, r: int) -> bool {
        &&& self.base <= r <= self.total
        &&& forall|p: int| 0 <= p < r ==> #[trigger] self.table().on_disk(self.base as int, p)
        &&& r < self.total ==> !self.table().on_disk(self.base as int, r)
    }

    /// The length of the prefix that is on disk without a gap.
    pub fn contiguous_prefix(&self) -> (r: u64)
        requires
            self.wf(),
        ensures
            self.is_prefix_end(r as int),
    {
        let ghost t = self.table();
        let ghost base = self.base as int;
        let mut cur: u64 = self.base;
        while cur < self.total
            invariant
                self.wf(),
                t == self.table(),
                base == self.base,
                self.base <= cur <= self.total,
                forall|p: int| 0 <= p < cur ==> #[trigger] t.on_disk(base, p),
            decreases self.total - cur,
        {
            let mut i: usize = 0;
            while i < self.segs.len() && !(self.segs[i].start <= cur && cur < self.segs[i].end)
                invariant
                    i <= self.segs@.len(),
                    t == self.table(),
                    forall|j: int| 0 <= j < i ==> !holds_byte(#[trigger] t.segs[j], cur as int),
                decreases self.segs@.len() - i,
            {
                i = i + 1;
            }
            proof {
                assert(t.covers(cur as int));
                let j = choose|j: int| 0 <= j < t.segs.len() && holds_byte(#[trigger] t.segs[j], cur as int);
                assert(i < t.segs.len());
            }
            let s = self.segs[i];
            assert(seg_ok(t.segs[i as int], base, self.total as int));
            let reach: u64 = s.start + s.written;
            if reach <= cur {
                proof {
                    assert(!t.on_disk(base, cur as int)) by {
                        if exists|j: int| 0 <= j < t.segs.len() && wrote_byte(#[trigger] t.segs[j], cur as int) {
                            let j = choose|j: int|
                                0 <= j < t.segs.len() && wrote_byte(#[trigger] t.segs[j], cur as int);
                            assert(seg_ok(t.segs[j], base, self.total as int));
                            if j < i {
                                assert(crate::segments::apart(t.segs[j], t.segs[i as int]));
                            } else if j > i {
                                assert(crate::segments::apart(t.segs[i as int], t.segs[j]));
                            }
                        }
                    }
                }
                return cur;
            }
            proof {
                assert forall|p: int| 0 <= p < reach implies #[trigger] t.on_disk(base, p) by {
                    if p >= cur {
                        assert(wrote_byte(t.segs[i as int], p));
                    }
                }
            }
            cur = reach;
        }
        cur
    }

    /// What has to happen on disk when the download ends this way.
    pub fn finish(&self, mode: FinishMode) -> (r: FinishPlan)
        requires
            self.wf(),
        ensures
            self.ends_with(mode, r),
    {
        match mode {
            FinishMode::Success => FinishPlan { set_len: Some(self.total), remove_ctrl: true, save: None },
            FinishMode::Preserve => FinishPlan {
                set_len: None,
                remove_ctrl: false,
                save: Some(self.serialize_ctrl()),
            },
            FinishMode::Discard => FinishPlan {
                set_len: Some(self.contiguous_prefix()),
                remove_ctrl: true,
                save: None,
            },
        }
    }
}

// ---------------------------------------------------------------------------
// Start
// ---------------------------------------------------------------------------

/// Tests whether every watermark lies within a file of this length.
fn marks_within(segs: &Vec<CtrlSeg>, file_len: u64) -> (r: bool)
    ensures
        r == marks_fit(segs@, file_len as int),
{
    let mut i: usize = 0;
    while i < segs.len()
        invariant
            i <= segs@.len(),
            forall|j: int| 0 <= j < i ==> (#[trigger] segs@[j]).w == 0 || segs@[j].s + segs@[j].w <= file_len,
        decreases segs@.len() - i,
    {
        let c = segs[i];
        if c.w != 0 && (c.s > file_len || c.w > file_len - c.s) {
            assert(!(segs@[i as int].w == 0 || segs@[i as int].s + segs@[i as int].w <= file_len));
            return false;
        }
        i = i + 1;
    }
    true
}

/// The ranges of a control file in order, if it describes this download.
fn adopt(c: &CtrlFile, total: u64, file_len: u64) -> (r: Option<Vec<CtrlSeg>>)
    ensures
        match r {
            Some(s) => usable(*c, total, file_len) && s@ == arranged(c.segs@),
            None => !usable(*c, total, file_len),
        },
{
    if c.total != total || !marks_within(&c.segs, file_len) {
        return None;
    }
    let sorted = arrange(&c.segs);
    let from: u64 = if c.base < total { c.base } else { total };
    if is_chained(&sorted, from, total) {
        Some(sorted)
    } else {
        None
    }
}

/// The ranges of the table as they come out of the control file.
fn load_segs(sorted: &Vec<CtrlSeg>, now: u64) -> (r: Vec<Seg>)
    requires
        forall|i: int| 0 <= i < sorted@.len() ==> (#[trigger] sorted@[i]).s < sorted@[i].e,
    ensures
        r@ == loaded_segs(sorted@, now),
{
    let mut out: Vec<Seg> = Vec::new();
    let mut i: usize = 0;
    while i < sorted.len()
        invariant
            i <= sorted@.len(),
            out@.len() == i,
            forall|j: int| 0 <= j < sorted@.len() ==> (#[trigger] sorted@[j]).s < sorted@[j].e,
            forall|j: int| 0 <= j < i ==> #[trigger] out@[j] == loaded_seg(sorted@[j], now),
        decreases sorted@.len() - i,
    {
        let c = sorted[i];
        assert(sorted@[i as int].s < sorted@[i as int].e);
        let len: u64 = c.e - c.s;
        let written: u64 = if c.w < len { c.w } else { len };
        let done: bool = written >= len;
        out.push(
            Seg {
                start: c.s,
                end: c.e,
                written,
                done,
                queued: !done,
                holders: 0,
                last_progress: now,
            },
        );
        i = i + 1;
    }
    assert(out@ =~= loaded_segs(sorted@, now));
    out
}

/// Cuts the rest of the file into ranges of equal size.
fn cut_fresh(base: u64, total: u64, opts: &SplitOptions, now: u64) -> (r: Vec<Seg>)
    requires
        base <= total,
        opts.min_split_size > 0,
    ensures
        r@ == fresh_segs(base, total, opts.min_split_size, opts.connections, now),
{
    let mut out: Vec<Seg> = Vec::new();
    let remain: u64 = total - base;
    if remain == 0 {
        assert(out@ =~= fresh_segs(base, total, opts.min_split_size, opts.connections, now));
        return out;
    }
    let workers: u64 = if opts.connections < 1 { 1 } else { opts.connections as u64 };
    let most: u64 = if workers > u64::MAX / 2 { u64::MAX } else { workers * 2 };
    let ghost m = opts.min_split_size as int;
    proof {
        assert((remain % opts.min_split_size != 0) ==> remain / opts.min_split_size < u64::MAX)
            by (nonlinear_arith)
            requires
                opts.min_split_size >= 1,
        ;
    }
    let by_min: u64 = remain / opts.min_split_size + if remain % opts.min_split_size == 0 { 0 } else { 1 };
    proof {
        assert(by_min == (remain + m - 1) / m) by (nonlinear_arith)
            requires
                m >= 1,
                m == opts.min_split_size,
                by_min == remain / opts.min_split_size + (if remain % opts.min_split_size == 0 {
                    0int
                } else {
                    1int
                }),
        ;
    }
    let n: u64 = if by_min < most { by_min } else { most };
    proof {
        assert(n == fresh_count(remain as int, m, opts.connections as int));
        lemma_fresh_count(remain as int, m, opts.connections as int);
        lemma_fresh_cut(base as int, remain as int, n as int, 0);
    }
    let mut prev: u64 = base;
    let mut i: u64 = 0;
    while i < n
        invariant
            i <= n,
            1 <= n <= remain,
            remain == total - base,
            base < total,
            out@.len() == i,
            prev == fresh_cut(base as int, remain as int, n as int, i as int),
            forall|j: int|
                0 <= j < i ==> #[trigger] out@[j] == (Seg {
                    start: fresh_cut(base as int, remain as int, n as int, j) as u64,
                    end: fresh_cut(base as int, remain as int, n as int, j + 1) as u64,
                    written: 0,
                    done: false,
                    queued: true,
                    holders: 0,
                    last_progress: now,
                }),
        decreases n - i,
    {
        proof {
            lemma_fresh_cut(base as int, remain as int, n as int, i as int);
            assert(remain * (i + 1) <= u64::MAX * u64::MAX) by (nonlinear_arith)
                requires
                    0 <= remain <= u64::MAX,
                    0 <= i + 1 <= u64::MAX,
            ;
        }
        let share: u128 = remain as u128 * (i as u128 + 1) / n as u128;
        assert(share == fresh_cut(base as int, remain as int, n as int, i + 1) - base);
        let end: u64 = base + share as u64;
        out.push(
            Seg {
                start: prev,
                end,
                written: 0,
                done: false,
                queued: true,
                holders: 0,
                last_progress: now,
            },
        );
        prev = end;
        i = i + 1;
    }
    assert(out@ =~= fresh_segs(base, total, opts.min_split_size, opts.connections, now));
    out
}

/// Sums up what is left of the ranges.
fn sum_todo(segs: &Vec<Seg>) -> (r: u64)
    requires
        forall|i: int|
            0 <= i < segs@.len() ==> (#[trigger] segs@[i]).start <= segs@[i].end && segs@[i].written
                <= segs@[i].end - segs@[i].start,
        rem_sum(segs@) <= u64::MAX,
    ensures
        r == rem_sum(segs@),
{
    let mut sum: u64 = 0;
    let mut i: usize = 0;
    assert(segs@.take(0) =~= Seq::<Seg>::empty());
    while i < segs.len()
        invariant
            i <= segs@.len(),
            forall|j: int|
                0 <= j < segs@.len() ==> (#[trigger] segs@[j]).start <= segs@[j].end && segs@[j].written
                    <= segs@[j].end - segs@[j].start,
            rem_sum(segs@) <= u64::MAX,
            sum == rem_sum(segs@.take(i as int)),
        decreases segs@.len() - i,
    {
        let s = segs[i];
        proof {
            assert(segs@[i as int].start <= segs@[i as int].end);
            assert(segs@.take(i + 1).drop_last() =~= segs@.take(i as int));
            assert(segs@.take(i + 1).last() == s);
            lemma_sum_take(segs@, i + 1);
        }
        sum = sum + (s.end - s.start - s.written);
        i = i + 1;
    }
    assert(segs@.take(i as int) =~= segs@);
    sum
}

proof fn lemma_sum_take(segs: Seq<Seg>, k: int)
    requires
        0 <= k <= segs.len(),
        forall|i: int| 0 <= i < segs.len() ==> rem(#[trigger] segs[i]) >= 0,
    ensures
        rem_sum(segs.take(k)) <= rem_sum(segs),
    decreases segs.len() - k,
{
    if k < segs.len() {
        lemma_sum_take(segs, k + 1);
        assert(segs.take(k + 1).drop_last() =~= segs.take(k));
        assert(segs.take(k + 1).last() == segs[k]);
        assert(rem(segs[k]) >= 0);
    } else {
        assert(segs.take(k) =~= segs);
    }
}

/// The queue of the ranges that wait to be handed out.
fn rebuild_queue(segs: &Vec<Seg>) -> (r: VecDeque<usize>)
    ensures
        r@ == open_ids(segs@),
{
    let mut q: VecDeque<usize> = VecDeque::new();
    let mut i: usize = 0;
    assert(segs@.take(0) =~= Seq::<Seg>::empty());
    while i < segs.len()
        invariant
            i <= segs@.len(),
            q@ == open_ids(segs@.take(i as int)),
        decreases segs@.len() - i,
    {
        let s = segs[i];
        proof {
            assert(segs@.take(i + 1).drop_last() =~= segs@.take(i as int));
            assert(segs@.take(i + 1).last() == s);
        }
        if s.queued && !s.done {
            q.push_back(i);
        }
        i = i + 1;
    }
    assert(segs@.take(i as int) =~= segs@);
    q
}

/// The map of a file of `total` bytes shows nothing on disk.
pub open spec fn blank_pieces(t: &PieceTrack, total: u64) -> bool {
    &&& t.total == total
    &&& forall|i: int| 0 <= i < t.done@.len() ==> t.done@[i] == 0
    &&& forall|i: int| !crate::bits::bit_at(t.bf@, i)
}

/// The bytes on disk by the first `k` ranges.
pub open spec fn disk_upto(segs: Seq<Seg>, k: int, base: int) -> spec_fn(int) -> bool {
    |p: int| 0 <= p < base || exists|i: int| 0 <= i < k && wrote_byte(#[trigger] segs[i], p)
}

/// A range of `len` bytes was entered into a map; an empty one leaves it as it is.
pub open spec fn entered(before: PieceTrack, after: PieceTrack, offset: int, len: int) -> bool {
    if len > 0 {
        before.added(&after, offset, len)
    } else {
        after == before
    }
}

/// The maps on the way from `p` to the one that shows the prefix and what is written of
/// each range: the first has the prefix, each further one the next range as well.
pub open spec fn fills(maps: Seq<PieceTrack>, p: PieceTrack, base: int, segs: Seq<Seg>) -> bool {
    &&& maps.len() == segs.len() + 1
    &&& entered(p, maps[0], 0, base)
    &&& forall|k: int|
        0 <= k < segs.len() ==> entered(
            #[trigger] maps[k],
            maps[k + 1],
            segs[k].start as int,
            segs[k].written as int,
        )
}

/// Enters what is on disk already into the piece map.
fn fill_pieces(p: &mut PieceTrack, base: u64, segs: &Vec<Seg>, Ghost(total): Ghost<u64>)
    requires
        old(p).wf(),
        base <= total,
        (Table { segs: segs@, queue: Seq::empty() }).tiles(base as int, total as int),
    ensures
        final(p).wf(),
        final(p).total == old(p).total,
        final(p).piece_len == old(p).piece_len,
        blank_pieces(old(p), total) ==> final(p).records(
            disk_upto(segs@, segs@.len() as int, base as int),
        ),
        exists|maps: Seq<PieceTrack>| #[trigger]
            fills(maps, *old(p), base as int, segs@) && *final(p) == maps.last(),
{
    let ghost blank = blank_pieces(p, total);
    let ghost b = base as int;
    let ghost t = Table { segs: segs@, queue: Seq::<usize>::empty() };
    let ghost none = |x: int| false;
    proof {
        if blank {
            lemma_new_records(p, none);
        }
    }
    if base > 0 {
        let ghost p0 = *p;
        p.add_range(0, base);
        proof {
            if blank {
                lemma_added_records(&p0, p, 0, b, none, disk_upto(segs@, 0, b));
            }
        }
    } else {
        proof {
            if blank {
                lemma_records_same(p, none, disk_upto(segs@, 0, b));
            }
        }
    }
    let ghost mut maps: Seq<PieceTrack> = seq![*p];
    assert(segs@.take(0) =~= Seq::<Seg>::empty());
    let mut i: usize = 0;
    while i < segs.len()
        invariant
            i <= segs@.len(),
            fills(maps, *old(p), b, segs@.take(i as int)),
            *p == maps.last(),
            t == (Table { segs: segs@, queue: Seq::<usize>::empty() }),
            t.tiles(b, total as int),
            b == base,
            p.wf(),
            p.total == old(p).total,
            p.piece_len == old(p).piece_len,
            blank ==> p.total == total,
            blank ==> p.records(disk_upto(segs@, i as int, b)),
            blank == blank_pieces(old(p), total),
        decreases segs@.len() - i,
    {
        let s = segs[i];
        let ghost before = disk_upto(segs@, i as int, b);
        let ghost after = disk_upto(segs@, i + 1, b);
        assert(seg_ok(t.segs[i as int], b, total as int));
        proof {
            assert forall|x: int| #[trigger] after(x) == (before(x) || s.start <= x < s.start + s.written) by {
                if after(x) && !(0 <= x < b) {
                    let j = choose|j: int| 0 <= j < i + 1 && wrote_byte(#[trigger] segs@[j], x);
                    if j < i {
                        assert(wrote_byte(segs@[j], x));
                    }
                }
                if before(x) && !(0 <= x < b) {
                    let j = choose|j: int| 0 <= j < i && wrote_byte(#[trigger] segs@[j], x);
                    assert(wrote_byte(segs@[j], x));
                }
                if s.start <= x < s.start + s.written {
                    assert(wrote_byte(segs@[i as int], x));
                }
            }
            assert forall|x: int| s.start <= x < s.start + s.written implies !#[trigger] before(x) by {
                if before(x) {
                    let j = choose|j: int| 0 <= j < i && wrote_byte(#[trigger] segs@[j], x);
                    assert(seg_ok(t.segs[j], b, total as int));
                    assert(crate::segments::apart(t.segs[j], t.segs[i as int]));
                }
            }
        }
        if s.written > 0 {
            let ghost p0 = *p;
            p.add_range(s.start, s.written);
            proof {
                if blank {
                    lemma_added_records(&p0, p, s.start as int, s.written as int, before, after);
                }
            }
        } else {
            proof {
                if blank {
                    lemma_records_same(p, before, after);
                }
            }
        }
        proof {
            let longer = maps.push(*p);
            let part = segs@.take(i + 1);
            assert forall|k: int| 0 <= k < part.len() implies entered(
                #[trigger] longer[k],
                longer[k + 1],
                part[k].start as int,
                part[k].written as int,
            ) by {
                if k < i {
                    assert(segs@.take(i as int)[k] == part[k]);
                    assert(longer[k] == maps[k] && longer[k + 1] == maps[k + 1]);
                }
            }
            maps = longer;
        }
        i = i + 1;
    }
    assert(segs@.take(i as int) =~= segs@);
}

impl Writer {
    /// The state that a download of `total` bytes starts in: the ranges of a usable
    /// control file, else fresh ranges behind what the file holds already.
    pub open spec fn starts(&self, file_len: u64, loaded: Option<CtrlFile>, now: u64) -> bool {
        if loaded is Some && usable(loaded->0, self.total, file_len) {
            &&& self.base == least(loaded->0.base as int, self.total as int)
            &&& self.segs@ == loaded_segs(arranged(loaded->0.segs@), now)
        } else {
            &&& self.base == least(file_len as int, self.total as int)
            &&& self.segs@ == fresh_segs(
                self.base,
                self.total,
                self.opts.min_split_size,
                self.opts.connections,
                now,
            )
        }
    }

    /// Begins or resumes a download. The flag in the result tells that the file is
    /// longer than the download and must be cut to its length.
    #[verifier::rlimit(60)]
    #[verifier::spinoff_prover]
    pub fn bootstrap(
        file_len: u64,
        loaded: Option<CtrlFile>,
        url: &str,
        total: u64,
        opts: &SplitOptions,
        stats: SplitStats,
        desired_workers: usize,
        now: u64,
    ) -> (r: (Writer, bool))
        requires
            0 < opts.min_split_size,
            stats.pieces is Some ==> stats.pieces->0.wf(),
        ensures
            r.0.wf(),
            r.0.starts(file_len, loaded, now),
            r.0.queue@ == open_ids(r.0.segs@),
            r.0.url@ == url@,
            r.0.total == total,
            opts.alike(&r.0.opts),
            r.0.alive == 0,
            r.0.fatal is None,
            r.0.last_save is None,
            r.0.desired_workers == desired_workers,
            r.0.last_progress == now,
            r.0.stats.conns == stats.conns,
            r.0.stats.connections == stats.connections,
            r.0.stats.next_conn_id == stats.next_conn_id,
            r.0.stats.pieces is Some <==> stats.pieces is Some,
            stats.pieces is Some ==> exists|maps: Seq<PieceTrack>| #[trigger]
                fills(maps, stats.pieces->0, r.0.base as int, r.0.segs@) && r.0.stats.pieces->0
                    == maps.last(),
            stats.pieces is None || blank_pieces(&stats.pieces->0, total) ==> r.0.exact_pieces(),
            r.1 == (!(loaded is Some && usable(loaded->0, total, file_len)) && file_len > total),
    {
        let adopted: Option<(u64, Vec<CtrlSeg>)> = match &loaded {
            None => None,
            Some(c) => match adopt(c, total, file_len) {
                None => None,
                Some(sorted) => Some((if c.base < total { c.base } else { total }, sorted)),
            },
        };
        let base: u64;
        let segs: Vec<Seg>;
        let truncate: bool;
        match adopted {
            Some(found) => {
                base = found.0;
                proof {
                    lemma_loaded_chain(found.1@, base as int, total as int, now);
                }
                segs = load_segs(&found.1, now);
                truncate = false;
                proof {
                    lemma_chain_tiles(
                        Table { segs: segs@, queue: Seq::empty() },
                        base as int,
                        total as int,
                    );
                }
            },
            None => {
                base = if file_len < total { file_len } else { total };
                segs = cut_fresh(base, total, opts, now);
                truncate = file_len > total;
                proof {
                    if base < total {
                        lemma_fresh_chain(base, total, *opts, now);
                        assert forall|i: int| 0 <= i < segs@.len() implies ({
                            &&& (#[trigger] segs@[i]).written <= segs@[i].end - segs@[i].start
                            &&& segs@[i].done <==> segs@[i].written == segs@[i].end - segs@[i].start
                        }) by {
                            assert(segs@[i].start < segs@[i].end);
                        }
                        lemma_chain_tiles(
                            Table { segs: segs@, queue: Seq::empty() },
                            base as int,
                            total as int,
                        );
                    }
                }
            },
        }
        let ghost flat = Table { segs: segs@, queue: Seq::<usize>::empty() };
        assert(flat.tiles(base as int, total as int));
        let count: usize = segs.len();
        proof {
            assert forall|i: int| 0 <= i < segs@.len() implies (#[trigger] segs@[i]).start <= segs@[i].end
                && segs@[i].written <= segs@[i].end - segs@[i].start by {
                assert(seg_ok(flat.segs[i], base as int, total as int));
            }
            lemma_open_ids(segs@);
        }
        let todo: u64 = sum_todo(&segs);
        let mut stats = stats;
        match &mut stats.pieces {
            Some(p) => {
                fill_pieces(p, base, &segs, Ghost(total));
            },
            None => {},
        }
        stats.completed = base + (total - base - todo);
        let queue = rebuild_queue(&segs);
        let ghost t = Table { segs: segs@, queue: queue@ };
        proof {
            crate::segments::lemma_same_ranges(flat, t, base as int, total as int);
            assert forall|i: int| 0 <= i < t.segs.len() implies ({
                ||| (#[trigger] t.segs[i]).done
                ||| t.segs[i].queued
                ||| t.segs[i].holders > 0
            }) by {}
        }
        let w = Writer {
            url: url.to_owned(),
            total,
            base,
            segs,
            queue,
            todo,
            alive: 0,
            fatal: None,
            finished: todo == 0,
            stats,
            last_save: None,
            opts: opts.copy(),
            desired_workers,
            last_progress: now,
        };
        proof {
            assert(w.table() =~= t);
            if w.stats.pieces is Some {
                let p = w.stats.pieces->0;
                let pred = disk_upto(t.segs, t.segs.len() as int, base as int);
                if p.total == total && p.records(pred) {
                    lemma_records_same(&p, pred, w.disk());
                }
            }
        }
        (w, truncate)
    }
}

/// How a download ends.
pub open spec fn mode_of(fatal: Option<HttpError>, cancelled: bool) -> FinishMode {
    if fatal is None && !cancelled {
        FinishMode::Success
    } else if fatal is Some && fatal->0 is NotSplittable {
        FinishMode::Discard
    } else {
        FinishMode::Preserve
    }
}

/// How a download ends: well, unless it was cancelled or failed; a server that does
/// not serve ranges leaves the prefix only.
pub fn finish_mode(fatal: &Option<HttpError>, cancelled: bool) -> (r: FinishMode)
    ensures
        r == mode_of(*fatal, cancelled),
{
    match fatal {
        None => if cancelled {
            FinishMode::Preserve
        } else {
            FinishMode::Success
        },
        Some(e) => match e {
            HttpError::NotSplittable(_) => FinishMode::Discard,
            _ => FinishMode::Preserve,
        },
    }
}

/// The result of a download.
pub open spec fn outcome_of(
    cancelled: bool,
    fatal: Option<HttpError>,
    stored: Result<(), String>,
    total: u64,
) -> Result<SplitDone, HttpError> {
    if cancelled {
        Err::<SplitDone, HttpError>(HttpError::Cancelled)
    } else if fatal is Some {
        Err(fatal->0)
    } else {
        match stored {
            Err(m) => Err(HttpError::Io(m)),
            Ok(_) => Ok(SplitDone { total_len: total }),
        }
    }
}

/// The result of a download: cancelled first, then its fatal error, then the error of
/// the last step on disk.
pub fn split_outcome(
    cancelled: bool,
    fatal: Option<HttpError>,
    stored: Result<(), String>,
    total: u64,
) -> (r: Result<SplitDone, HttpError>)
    ensures
        r == outcome_of(cancelled, fatal, stored, total),
{
    if cancelled {
        return Err(HttpError::Cancelled);
    }
    if let Some(e) = fatal {
        return Err(e);
    }
    match stored {
        Err(m) => Err(HttpError::Io(m)),
        Ok(_) => Ok(SplitDone { total_len: total }),
    }
}

/// Piece length for display: fine enough for small files, no coarser than a range.
pub open spec fn shown_piece_len(min_split_size: u64, total: u64) -> u64 {
    let fine = if total / 2048 < 65_536 { 65_536 } else { total / 2048 };
    let len = if min_split_size < fine { min_split_size } else { fine };
    if len < 1 { 1 } else { len }
}

/// Piece length for display.
pub fn display_piece_len(min_split_size: u64, total: u64) -> (r: u64)
    ensures
        r == shown_piece_len(min_split_size, total),
{
    let fine: u64 = if total / 2048 < 65_536 { 65_536 } else { total / 2048 };
    let len: u64 = if min_split_size < fine { min_split_size } else { fine };
    if len < 1 { 1 } else { len }
}

/// Handing ranges over leaves every count of holders as it was; new ranges have none.
proof fn lemma_reclaim_holders(t: Table, k: int, now: u64)
    requires
        0 <= k <= t.segs.len(),
    ensures
        t.reclaimed(k, now).segs.len() >= t.segs.len(),
        forall|i: int|
            0 <= i < t.reclaimed(k, now).segs.len() ==> {
                ||| (#[trigger] t.reclaimed(k, now).segs[i]).holders == 0
                ||| i < t.segs.len() && t.reclaimed(k, now).segs[i].holders == t.segs[i].holders
            },
    decreases k,
{
    if k > 0 {
        lemma_reclaim_holders(t, k - 1, now);
        let mid = t.reclaimed(k - 1, now);
        let after = t.reclaimed(k, now);
        assert forall|i: int| 0 <= i < after.segs.len() implies ({
            ||| (#[trigger] after.segs[i]).holders == 0
            ||| i < t.segs.len() && after.segs[i].holders == t.segs[i].holders
        }) by {
            if i < mid.segs.len() {
                assert(after.segs[i].holders == mid.segs[i].holders);
            }
        }
    }
}

} // verus!
