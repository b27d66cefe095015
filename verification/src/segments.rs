//! Table of the byte ranges of a split download.
//!
//! One writer owns the table. It hands ranges to workers, cuts ranges off slow or
//! stalled ones, books every byte that reaches the disk and knows when the file is
//! complete. Times are nanoseconds of one monotonic clock.

use vstd::prelude::*;

use crate::conns::elapsed;

verus! {

/// Time a worker is parked for when there is nothing to hand out, in milliseconds.
pub const PARK_MS: u64 = 250;
/// At or below this many bytes left the end game begins.
pub const ENDGAME_THRESHOLD: u64 = 67_108_864;
/// Smallest cut in the end game.
pub const ENDGAME_MIN_SPLIT: u64 = 65_536;
/// A held range that got no byte for this long is handed on.
pub const SEG_LEASE: u64 = 4_000_000_000;
/// Up to this many bytes a stalled rest is handed on whole.
pub const HANDOFF_WHOLE_MAX: u64 = 4_194_304;
/// A smaller rest stays with its holder.
pub const HANDOFF_MIN: u64 = 32_768;
/// Without any byte for this long every range that is not queued is handed on.
pub const STALL_TIMEOUT: u64 = 15_000_000_000;
/// Least time between two periodic saves of the control file.
pub const CTRL_SAVE_INTERVAL: u64 = 1_000_000_000;

/// One byte range of the file.
#[derive(Clone, Copy)]
pub struct Seg {
    pub start: u64,
    /// End of the range; cutting moves it down.
    pub end: u64,
    /// Bytes on disk, counted from `start`.
    pub written: u64,
    pub done: bool,
    pub queued: bool,
    /// Workers that read this range.
    pub holders: usize,
    /// Time of the last byte.
    pub last_progress: u64,
}

/// The table as a value: the ranges and the queue of ranges to hand out.
#[verifier::ext_equal]
pub struct Table {
    pub segs: Seq<Seg>,
    pub queue: Seq<usize>,
}

/// Bytes of a range that are not on disk.
pub open spec fn rem(s: Seg) -> int {
    s.end - s.start - s.written
}

/// Where the next byte of a range belongs.
pub open spec fn pos(s: Seg) -> int {
    s.start + s.written
}

/// Bytes of all ranges that are not on disk.
pub open spec fn rem_sum(segs: Seq<Seg>) -> int
    decreases segs.len(),
{
    if segs.len() == 0 {
        0
    } else {
        rem_sum(segs.drop_last()) + rem(segs.last())
    }
}

/// A single range is consistent and lies within the file.
pub open spec fn seg_ok(s: Seg, base: int, total: int) -> bool {
    &&& base <= s.start <= s.end <= total
    &&& s.written <= s.end - s.start
    &&& s.done <==> s.written == s.end - s.start
}

/// Neither range begins before the other ends.
pub open spec fn apart(a: Seg, b: Seg) -> bool {
    a.end <= b.start || b.end <= a.start
}

/// Whether byte `p` belongs to the range.
pub open spec fn holds_byte(s: Seg, p: int) -> bool {
    s.start <= p < s.end
}

/// Whether byte `p` of the range is on disk.
pub open spec fn wrote_byte(s: Seg, p: int) -> bool {
    s.start <= p < s.start + s.written
}

impl Table {
    /// The ranges tile `[base, total)`: they are apart, and every byte belongs to one.
    pub open spec fn tiles(&self, base: int, total: int) -> bool {
        &&& forall|i: int| 0 <= i < self.segs.len() ==> seg_ok(#[trigger] self.segs[i], base, total)
        &&& forall|i: int, j: int|
            0 <= i < j < self.segs.len() ==> apart(#[trigger] self.segs[i], #[trigger] self.segs[j])
        &&& forall|p: int| base <= p < total ==> #[trigger] self.covers(p)
    }

    /// Some range holds byte `p`.
    pub open spec fn covers(&self, p: int) -> bool {
        exists|i: int| 0 <= i < self.segs.len() && holds_byte(#[trigger] self.segs[i], p)
    }

    /// Byte `p` is on disk: it lies before `base` or in the written part of a range.
    pub open spec fn on_disk(&self, base: int, p: int) -> bool {
        ||| 0 <= p < base
        ||| exists|i: int| 0 <= i < self.segs.len() && wrote_byte(#[trigger] self.segs[i], p)
    }

    /// The queue names ranges, and every queued range that is not done is in it.
    pub open spec fn queue_ok(&self) -> bool {
        &&& forall|k: int| 0 <= k < self.queue.len() ==> #[trigger] self.queue[k] < self.segs.len()
        &&& forall|i: int|
            0 <= i < self.segs.len() && (#[trigger] self.segs[i]).queued && !self.segs[i].done
                ==> self.queue.contains(i as usize)
    }

    /// No range is stranded: each one is done, queued or held.
    pub open spec fn served(&self) -> bool {
        forall|i: int|
            0 <= i < self.segs.len() ==> {
                ||| (#[trigger] self.segs[i]).done
                ||| self.segs[i].queued
                ||| self.segs[i].holders > 0
            }
    }

    /// The ranges tile the file and the queue is consistent; a range may be stranded.
    pub open spec fn laid_out(&self, base: int, total: int) -> bool {
        &&& self.segs.len() <= usize::MAX
        &&& self.tiles(base, total)
        &&& self.queue_ok()
    }

    pub open spec fn wf(&self, base: int, total: int) -> bool {
        &&& self.laid_out(base, total)
        &&& self.served()
    }

    /// The table after `[cut, end)` was cut off range `sid` and queued as a range of
    /// its own. With `renew` the lease of `sid` starts anew, and `sid` is done where
    /// nothing of it is left.
    pub open spec fn carve(&self, sid: int, cut: u64, renew: bool, now: u64) -> Table {
        let s = self.segs[sid];
        let head = Seg {
            end: cut,
            done: s.done || (renew && cut == pos(s)),
            last_progress: if renew { now } else { s.last_progress },
            ..s
        };
        let tail = Seg {
            start: cut,
            end: s.end,
            written: 0,
            done: false,
            queued: true,
            holders: 0,
            last_progress: now,
        };
        Table {
            segs: self.segs.update(sid, head).push(tail),
            queue: self.queue.push(self.segs.len() as usize),
        }
    }

    /// Whether a hand-over of range `sid` cuts anything off.
    pub open spec fn can_hand_off(&self, sid: int, force: bool) -> bool {
        &&& 0 <= sid < self.segs.len()
        &&& rem(self.segs[sid]) > 0
        &&& (rem(self.segs[sid]) >= HANDOFF_MIN || force)
    }

    /// Where a hand-over of range `sid` cuts: at the next byte, or half way if much is left.
    pub open spec fn hand_off_cut(&self, sid: int, whole: bool) -> int {
        let s = self.segs[sid];
        if whole || rem(s) <= HANDOFF_WHOLE_MAX {
            pos(s)
        } else {
            pos(s) + rem(s) / 2
        }
    }

    /// The table after a hand-over of range `sid`.
    pub open spec fn handed_off(&self, sid: int, whole: bool, force: bool, now: u64) -> Table {
        if self.can_hand_off(sid, force) {
            self.carve(sid, self.hand_off_cut(sid, whole) as u64, true, now)
        } else {
            *self
        }
    }

    /// Range `i` is held, not done, and its lease ran out.
    pub open spec fn lease_ran_out(&self, i: int, now: u64) -> bool {
        let s = self.segs[i];
        &&& !s.done
        &&& !s.queued
        &&& s.holders > 0
        &&& elapsed(now, s.last_progress) >= SEG_LEASE
    }

    /// The table after the first `k` ranges whose lease ran out were handed over.
    pub open spec fn reclaimed(&self, k: int, now: u64) -> Table
        decreases k,
    {
        if k <= 0 {
            *self
        } else {
            let t = self.reclaimed(k - 1, now);
            if t.lease_ran_out(k - 1, now) {
                t.handed_off(k - 1, false, false, now)
            } else {
                t
            }
        }
    }

    /// How many hand-overs `reclaimed` makes.
    pub open spec fn reclaim_count(&self, k: int, now: u64) -> nat
        decreases k,
    {
        if k <= 0 {
            0
        } else {
            let t = self.reclaimed(k - 1, now);
            self.reclaim_count(k - 1, now) + if t.lease_ran_out(k - 1, now) && t.can_hand_off(
                k - 1,
                false,
            ) {
                1nat
            } else {
                0nat
            }
        }
    }

    /// The table after the first `k` ranges that are neither done nor queued were
    /// handed over whole.
    pub open spec fn rescued(&self, k: int, now: u64) -> Table
        decreases k,
    {
        if k <= 0 {
            *self
        } else {
            let t = self.rescued(k - 1, now);
            if !t.segs[k - 1].done && !t.segs[k - 1].queued {
                t.handed_off(k - 1, true, true, now)
            } else {
                t
            }
        }
    }

    /// How many hand-overs `rescued` makes.
    pub open spec fn rescue_count(&self, k: int, now: u64) -> nat
        decreases k,
    {
        if k <= 0 {
            0
        } else {
            let t = self.rescued(k - 1, now);
            self.rescue_count(k - 1, now) + if !t.segs[k - 1].done && !t.segs[k - 1].queued
                && t.can_hand_off(k - 1, true) {
                1nat
            } else {
                0nat
            }
        }
    }

    /// Range `i` may lose its second half to an idle worker.
    pub open spec fn can_steal(&self, i: int, floor: int) -> bool {
        &&& 0 <= i < self.segs.len()
        &&& !self.segs[i].done
        &&& !self.segs[i].queued
        &&& rem(self.segs[i]) >= floor
    }

    /// Range `i` is the first of those that may be cut with the most bytes left.
    pub open spec fn is_steal_target(&self, i: int, floor: int) -> bool {
        &&& self.can_steal(i, floor)
        &&& forall|j: int| #[trigger]
            self.can_steal(j, floor) ==> rem(self.segs[j]) < rem(self.segs[i]) || (rem(self.segs[j])
                == rem(self.segs[i]) && i <= j)
    }

    /// Where stealing from range `i` cuts: half way through what is left.
    pub open spec fn steal_cut(&self, i: int) -> int {
        pos(self.segs[i]) + rem(self.segs[i]) / 2
    }

    /// Range `i` is the first of those that are not done with the most bytes left.
    pub open spec fn is_largest(&self, i: int) -> bool {
        &&& 0 <= i < self.segs.len()
        &&& !self.segs[i].done
        &&& rem(self.segs[i]) > 0
        &&& forall|j: int|
            0 <= j < self.segs.len() && !(#[trigger] self.segs[j]).done ==> rem(self.segs[j]) < rem(
                self.segs[i],
            ) || (rem(self.segs[j]) == rem(self.segs[i]) && i <= j)
    }

    /// Range `i` has enough left to lose a part and keep one.
    pub open spec fn can_shrink(&self, i: int, floor: int) -> bool {
        &&& 0 <= i < self.segs.len()
        &&& !self.segs[i].done
        &&& rem(self.segs[i]) >= 2 * floor
    }

    /// The range that shrinking cuts: the preferred one, else the largest.
    pub open spec fn is_shrink_target(&self, i: int, preferred: int, floor: int) -> bool {
        if self.can_shrink(preferred, floor) {
            i == preferred
        } else {
            self.is_largest(i) && self.can_shrink(i, floor)
        }
    }

    /// Where shrinking range `i` cuts: `reclaim` bytes before its end, with at least
    /// `floor` bytes on both sides.
    pub open spec fn shrink_cut(&self, i: int, floor: int, reclaim: int) -> int {
        let s = self.segs[i];
        let most = rem(s) - floor;
        s.end - if reclaim < floor {
            floor
        } else if reclaim > most {
            most
        } else {
            reclaim
        }
    }

    /// The table after `n` bytes of range `sid` reached the disk.
    pub open spec fn wrote(&self, sid: int, n: int, now: u64) -> Table {
        let s = self.segs[sid];
        Table {
            segs: self.segs.update(
                sid,
                Seg {
                    written: (s.written + n) as u64,
                    done: s.done || s.written + n == s.end - s.start,
                    last_progress: now,
                    ..s
                },
            ),
            queue: self.queue,
        }
    }

    /// The table after a worker gave range `sid` back.
    pub open spec fn released(&self, sid: int) -> Table {
        if 0 <= sid < self.segs.len() {
            let s = self.segs[sid];
            let left = if s.holders > 0 { (s.holders - 1) as usize } else { 0 };
            if !s.done && !s.queued && left == 0 {
                Table {
                    segs: self.segs.update(sid, Seg { holders: left, queued: true, ..s }),
                    queue: self.queue.push(sid as usize),
                }
            } else {
                Table { segs: self.segs.update(sid, Seg { holders: left, ..s }), queue: self.queue }
            }
        } else {
            *self
        }
    }

    /// The first range of the queue that is not done stands at `k`.
    pub open spec fn is_queue_head(&self, k: int) -> bool {
        &&& 0 <= k < self.queue.len()
        &&& !self.segs[self.queue[k] as int].done
        &&& forall|j: int| 0 <= j < k ==> (#[trigger] self.segs[self.queue[j] as int]).done
    }

    /// Every range in the queue is done.
    pub open spec fn queue_spent(&self) -> bool {
        forall|j: int| 0 <= j < self.queue.len() ==> (#[trigger] self.segs[self.queue[j] as int]).done
    }

    /// The table after range `sid` was handed to a worker.
    pub open spec fn assigned(&self, sid: int, now: u64) -> Table {
        let s = self.segs[sid];
        Table {
            segs: self.segs.update(
                sid,
                Seg { queued: false, holders: (s.holders + 1) as usize, last_progress: now, ..s },
            ),
            queue: self.queue,
        }
    }

    /// The table without the first `k` entries of its queue.
    pub open spec fn dequeued(&self, k: int) -> Table {
        Table { segs: self.segs, queue: self.queue.skip(k) }
    }
}

// ---------------------------------------------------------------------------
// Facts about the table
// ---------------------------------------------------------------------------

proof fn lemma_sum_push(segs: Seq<Seg>, s: Seg)
    ensures
        rem_sum(segs.push(s)) == rem_sum(segs) + rem(s),
{
    assert(segs.push(s).drop_last() =~= segs);
}

proof fn lemma_sum_update(segs: Seq<Seg>, i: int, s: Seg)
    requires
        0 <= i < segs.len(),
    ensures
        rem_sum(segs.update(i, s)) == rem_sum(segs) - rem(segs[i]) + rem(s),
    decreases segs.len(),
{
    let after = segs.update(i, s);
    if i == segs.len() - 1 {
        assert(after.drop_last() =~= segs.drop_last());
    } else {
        assert(after.drop_last() =~= segs.drop_last().update(i, s));
        lemma_sum_update(segs.drop_last(), i, s);
    }
}

pub proof fn lemma_sum_bounds(segs: Seq<Seg>)
    requires
        forall|i: int| 0 <= i < segs.len() ==> rem(#[trigger] segs[i]) >= 0,
    ensures
        rem_sum(segs) >= 0,
        forall|i: int| 0 <= i < segs.len() ==> rem(#[trigger] segs[i]) <= rem_sum(segs),
        rem_sum(segs) == 0 <==> forall|i: int| 0 <= i < segs.len() ==> rem(#[trigger] segs[i]) == 0,
    decreases segs.len(),
{
    if segs.len() > 0 {
        let front = segs.drop_last();
        assert forall|i: int| 0 <= i < front.len() implies rem(#[trigger] front[i]) >= 0 by {
            assert(front[i] == segs[i]);
        }
        lemma_sum_bounds(front);
        assert(rem(segs[segs.len() - 1]) >= 0);
        assert forall|i: int| 0 <= i < segs.len() implies rem(#[trigger] segs[i]) <= rem_sum(segs) by {
            if i < front.len() {
                assert(rem(front[i]) <= rem_sum(front));
            }
        }
        if forall|i: int| 0 <= i < segs.len() ==> rem(#[trigger] segs[i]) == 0 {
            assert forall|i: int| 0 <= i < front.len() implies rem(#[trigger] front[i]) == 0 by {
                assert(front[i] == segs[i]);
            }
        }
        if rem_sum(segs) == 0 {
            assert forall|i: int| 0 <= i < segs.len() implies rem(#[trigger] segs[i]) == 0 by {
                if i < front.len() {
                    assert(rem(front[i]) == 0);
                }
            }
        }
    }
}

/// Cutting a range keeps the table consistent, moves no byte and loses none.
pub proof fn law_carve_keeps_bytes(t: Table, base: int, total: int, sid: int, cut: u64, renew: bool, now: u64)
    requires
        t.laid_out(base, total),
        t.segs.len() < usize::MAX,
        0 <= sid < t.segs.len(),
        pos(t.segs[sid]) <= cut < t.segs[sid].end,
        renew || pos(t.segs[sid]) < cut,
    ensures
        t.carve(sid, cut, renew, now).laid_out(base, total),
        t.served() ==> t.carve(sid, cut, renew, now).served(),
        rem_sum(t.carve(sid, cut, renew, now).segs) == rem_sum(t.segs),
        forall|p: int|
            #[trigger] t.carve(sid, cut, renew, now).on_disk(base, p) == t.on_disk(base, p),
{
    let after = t.carve(sid, cut, renew, now);
    let n = t.segs.len() as int;
    let s = t.segs[sid];
    let head = after.segs[sid];
    let tail = after.segs[n];
    lemma_sum_update(t.segs, sid, head);
    lemma_sum_push(t.segs.update(sid, head), tail);
    assert(seg_ok(s, base, total));
    assert forall|i: int| 0 <= i < after.segs.len() implies seg_ok(
        #[trigger] after.segs[i],
        base,
        total,
    ) by {
        if i < n && i != sid {
            assert(after.segs[i] == t.segs[i]);
        }
    }
    assert forall|i: int, j: int| 0 <= i < j < after.segs.len() implies apart(
        #[trigger] after.segs[i],
        #[trigger] after.segs[j],
    ) by {
        if i != sid && i < n {
            assert(after.segs[i] == t.segs[i]);
            assert(apart(t.segs[i], s) || apart(s, t.segs[i])) by {
                if i < sid {
                    assert(apart(t.segs[i], t.segs[sid]));
                } else {
                    assert(apart(t.segs[sid], t.segs[i]));
                }
            }
            assert(seg_ok(t.segs[i], base, total));
        }
        if j != sid && j < n {
            assert(after.segs[j] == t.segs[j]);
            assert(apart(t.segs[j], s) || apart(s, t.segs[j])) by {
                if j < sid {
                    assert(apart(t.segs[j], t.segs[sid]));
                } else {
                    assert(apart(t.segs[sid], t.segs[j]));
                }
            }
            assert(seg_ok(t.segs[j], base, total));
        }
        if i != sid && j < n && j != sid {
            assert(apart(t.segs[i], t.segs[j]));
        }
    }
    assert forall|p: int| base <= p < total implies #[trigger] after.covers(p) by {
        assert(t.covers(p));
        let i = choose|i: int| 0 <= i < t.segs.len() && holds_byte(#[trigger] t.segs[i], p);
        if i != sid {
            assert(after.segs[i] == t.segs[i]);
            assert(holds_byte(after.segs[i], p));
        } else if p < cut {
            assert(holds_byte(after.segs[sid], p));
        } else {
            assert(holds_byte(after.segs[n], p));
        }
    }
    assert forall|k: int| 0 <= k < after.queue.len() implies #[trigger] after.queue[k]
        < after.segs.len() by {
        if k < t.queue.len() {
            assert(after.queue[k] == t.queue[k]);
        }
    }
    assert forall|i: int|
        0 <= i < after.segs.len() && (#[trigger] after.segs[i]).queued
            && !after.segs[i].done implies after.queue.contains(i as usize) by {
        if i < n {
            assert(t.segs[i].queued && !t.segs[i].done);
            assert(t.queue.contains(i as usize));
            let k = choose|k: int| 0 <= k < t.queue.len() && t.queue[k] == i as usize;
            assert(after.queue[k] == i as usize);
        } else {
            assert(after.queue[t.queue.len() as int] == i as usize);
        }
    }
    assert(t.served() ==> after.served()) by {
        assert forall|i: int| t.served() && 0 <= i < after.segs.len() implies ({
            ||| (#[trigger] after.segs[i]).done
            ||| after.segs[i].queued
            ||| after.segs[i].holders > 0
        }) by {
            if i < n {
                assert(t.segs[i].done || t.segs[i].queued || t.segs[i].holders > 0);
            }
        }
    }
    assert forall|p: int| #[trigger] after.on_disk(base, p) == t.on_disk(base, p) by {
        if exists|i: int| 0 <= i < t.segs.len() && wrote_byte(#[trigger] t.segs[i], p) {
            let i = choose|i: int| 0 <= i < t.segs.len() && wrote_byte(#[trigger] t.segs[i], p);
            assert(wrote_byte(after.segs[i], p));
        }
        if exists|i: int| 0 <= i < after.segs.len() && wrote_byte(#[trigger] after.segs[i], p) {
            let i = choose|i: int| 0 <= i < after.segs.len() && wrote_byte(#[trigger] after.segs[i], p);
            assert(i < n);
            assert(wrote_byte(t.segs[i], p));
        }
    }
}

/// A hand-over keeps the table consistent, moves no byte and loses none.
pub proof fn law_hand_off_keeps_bytes(
    t: Table,
    base: int,
    total: int,
    sid: int,
    whole: bool,
    force: bool,
    now: u64,
)
    requires
        t.laid_out(base, total),
        t.segs.len() < usize::MAX,
    ensures
        t.handed_off(sid, whole, force, now).laid_out(base, total),
        t.served() ==> t.handed_off(sid, whole, force, now).served(),
        rem_sum(t.handed_off(sid, whole, force, now).segs) == rem_sum(t.segs),
        forall|p: int|
            #[trigger] t.handed_off(sid, whole, force, now).on_disk(base, p) == t.on_disk(base, p),
        t.handed_off(sid, whole, force, now).segs.len() <= t.segs.len() + 1,
        forall|i: int|
            0 <= i < t.segs.len() && i != sid ==> #[trigger] t.handed_off(
                sid,
                whole,
                force,
                now,
            ).segs[i] == t.segs[i],
{
    if t.can_hand_off(sid, force) {
        assert(seg_ok(t.segs[sid], base, total));
        law_carve_keeps_bytes(t, base, total, sid, t.hand_off_cut(sid, whole) as u64, true, now);
    }
}

pub proof fn lemma_reclaimed(t: Table, base: int, total: int, k: int, now: u64)
    requires
        t.wf(base, total),
        0 <= k <= t.segs.len(),
        t.segs.len() + t.segs.len() < usize::MAX,
    ensures
        t.reclaimed(k, now).wf(base, total),
        rem_sum(t.reclaimed(k, now).segs) == rem_sum(t.segs),
        t.segs.len() <= t.reclaimed(k, now).segs.len() <= t.segs.len() + k,
        forall|p: int| #[trigger] t.reclaimed(k, now).on_disk(base, p) == t.on_disk(base, p),
        t.reclaim_count(k, now) <= k,
    decreases k,
{
    if k > 0 {
        lemma_reclaimed(t, base, total, k - 1, now);
        let mid = t.reclaimed(k - 1, now);
        if mid.lease_ran_out(k - 1, now) {
            law_hand_off_keeps_bytes(mid, base, total, k - 1, false, false, now);
        }
    }
}

/// Once the ranges that are neither done nor queued were handed over, none is stranded,
/// whether or not one was before.
pub proof fn law_rescue_strands_nothing(t: Table, base: int, total: int, now: u64)
    requires
        t.laid_out(base, total),
        t.segs.len() + t.segs.len() < usize::MAX,
    ensures
        t.rescued(t.segs.len() as int, now).wf(base, total),
{
    lemma_rescued(t, base, total, t.segs.len() as int, now);
}

pub proof fn lemma_rescued(t: Table, base: int, total: int, k: int, now: u64)
    requires
        t.laid_out(base, total),
        0 <= k <= t.segs.len(),
        t.segs.len() + t.segs.len() < usize::MAX,
    ensures
        t.rescued(k, now).laid_out(base, total),
        rem_sum(t.rescued(k, now).segs) == rem_sum(t.segs),
        t.segs.len() <= t.rescued(k, now).segs.len() <= t.segs.len() + k,
        forall|p: int| #[trigger] t.rescued(k, now).on_disk(base, p) == t.on_disk(base, p),
        t.rescue_count(k, now) <= k,
        forall|i: int|
            #![trigger t.rescued(k, now).segs[i]]
            0 <= i < t.rescued(k, now).segs.len() && (i < k || t.segs.len() <= i) ==> {
                ||| t.rescued(k, now).segs[i].done
                ||| t.rescued(k, now).segs[i].queued
            },
    decreases k,
{
    if k > 0 {
        lemma_rescued(t, base, total, k - 1, now);
        let mid = t.rescued(k - 1, now);
        if !mid.segs[k - 1].done && !mid.segs[k - 1].queued {
            assert(seg_ok(mid.segs[k - 1], base, total));
            law_hand_off_keeps_bytes(mid, base, total, k - 1, true, true, now);
        }
    }
}

/// A write at the next byte of a range keeps the table consistent, lowers what is
/// left by its length, and puts exactly its own bytes on disk, none of which was
/// there before.
pub proof fn law_write_books_its_bytes(t: Table, base: int, total: int, sid: int, n: int, now: u64)
    requires
        t.wf(base, total),
        0 <= base,
        0 <= sid < t.segs.len(),
        0 < n <= rem(t.segs[sid]),
    ensures
        t.wrote(sid, n, now).wf(base, total),
        rem_sum(t.wrote(sid, n, now).segs) == rem_sum(t.segs) - n,
        forall|p: int|
            #[trigger] t.wrote(sid, n, now).on_disk(base, p) == (t.on_disk(base, p) || pos(t.segs[sid])
                <= p < pos(t.segs[sid]) + n),
        forall|p: int| pos(t.segs[sid]) <= p < pos(t.segs[sid]) + n ==> !#[trigger] t.on_disk(base, p),
{
    let after = t.wrote(sid, n, now);
    let s = t.segs[sid];
    lemma_sum_update(t.segs, sid, after.segs[sid]);
    assert(seg_ok(s, base, total));
    assert forall|i: int| 0 <= i < after.segs.len() implies seg_ok(
        #[trigger] after.segs[i],
        base,
        total,
    ) by {
        assert(seg_ok(t.segs[i], base, total));
    }
    assert forall|i: int, j: int| 0 <= i < j < after.segs.len() implies apart(
        #[trigger] after.segs[i],
        #[trigger] after.segs[j],
    ) by {
        assert(apart(t.segs[i], t.segs[j]));
    }
    assert forall|p: int| base <= p < total implies #[trigger] after.covers(p) by {
        assert(t.covers(p));
        let i = choose|i: int| 0 <= i < t.segs.len() && holds_byte(#[trigger] t.segs[i], p);
        assert(holds_byte(after.segs[i], p));
    }
    assert forall|i: int|
        0 <= i < after.segs.len() && (#[trigger] after.segs[i]).queued
            && !after.segs[i].done implies after.queue.contains(i as usize) by {
        assert(t.segs[i].queued && !t.segs[i].done);
    }
    assert forall|i: int| 0 <= i < after.segs.len() implies ({
        ||| (#[trigger] after.segs[i]).done
        ||| after.segs[i].queued
        ||| after.segs[i].holders > 0
    }) by {
        assert(t.segs[i].done || t.segs[i].queued || t.segs[i].holders > 0);
    }
    assert forall|p: int| #[trigger] after.on_disk(base, p) == (t.on_disk(base, p) || pos(s) <= p < pos(
        s,
    ) + n) by {
        if exists|i: int| 0 <= i < t.segs.len() && wrote_byte(#[trigger] t.segs[i], p) {
            let i = choose|i: int| 0 <= i < t.segs.len() && wrote_byte(#[trigger] t.segs[i], p);
            assert(wrote_byte(after.segs[i], p));
        }
        if exists|i: int| 0 <= i < after.segs.len() && wrote_byte(#[trigger] after.segs[i], p) {
            let i = choose|i: int| 0 <= i < after.segs.len() && wrote_byte(#[trigger] after.segs[i], p);
            if i != sid {
                assert(wrote_byte(t.segs[i], p));
            } else if p < pos(s) {
                assert(wrote_byte(t.segs[sid], p));
            }
        }
        if pos(s) <= p < pos(s) + n {
            assert(wrote_byte(after.segs[sid], p));
        }
    }
    assert forall|p: int| pos(s) <= p < pos(s) + n implies !#[trigger] t.on_disk(base, p) by {
        if exists|i: int| 0 <= i < t.segs.len() && wrote_byte(#[trigger] t.segs[i], p) {
            let i = choose|i: int| 0 <= i < t.segs.len() && wrote_byte(#[trigger] t.segs[i], p);
            assert(seg_ok(t.segs[i], base, total));
            if i < sid {
                assert(apart(t.segs[i], t.segs[sid]));
            } else if i > sid {
                assert(apart(t.segs[sid], t.segs[i]));
            }
        }
    }
}

/// When nothing is left, every byte of the file is on disk.
pub proof fn law_complete_means_every_byte(t: Table, base: int, total: int)
    requires
        t.wf(base, total),
        rem_sum(t.segs) == 0,
    ensures
        forall|p: int| 0 <= p < total ==> #[trigger] t.on_disk(base, p),
{
    assert forall|i: int| 0 <= i < t.segs.len() implies rem(#[trigger] t.segs[i]) >= 0 by {
        assert(seg_ok(t.segs[i], base, total));
    }
    lemma_sum_bounds(t.segs);
    assert forall|p: int| 0 <= p < total implies #[trigger] t.on_disk(base, p) by {
        if p >= base {
            assert(t.covers(p));
            let i = choose|i: int| 0 <= i < t.segs.len() && holds_byte(#[trigger] t.segs[i], p);
            assert(rem(t.segs[i]) == 0);
            assert(wrote_byte(t.segs[i], p));
        }
    }
}

/// As long as something is left, some byte of the file is not on disk.
pub proof fn law_incomplete_means_missing_byte(t: Table, base: int, total: int)
    requires
        t.wf(base, total),
        0 <= base,
        rem_sum(t.segs) > 0,
    ensures
        exists|p: int| base <= p < total && !#[trigger] t.on_disk(base, p),
{
    assert forall|i: int| 0 <= i < t.segs.len() implies rem(#[trigger] t.segs[i]) >= 0 by {
        assert(seg_ok(t.segs[i], base, total));
    }
    lemma_sum_bounds(t.segs);
    let i = choose|i: int| 0 <= i < t.segs.len() && rem(#[trigger] t.segs[i]) != 0;
    assert(seg_ok(t.segs[i], base, total));
    let p = pos(t.segs[i]);
    assert(!t.on_disk(base, p)) by {
        if exists|j: int| 0 <= j < t.segs.len() && wrote_byte(#[trigger] t.segs[j], p) {
            let j = choose|j: int| 0 <= j < t.segs.len() && wrote_byte(#[trigger] t.segs[j], p);
            assert(seg_ok(t.segs[j], base, total));
            if j < i {
                assert(apart(t.segs[j], t.segs[i]));
            } else if i < j {
                assert(apart(t.segs[i], t.segs[j]));
            }
        }
    }
}

/// Giving a range back keeps the table consistent and touches no byte.
pub proof fn law_release_strands_nothing(t: Table, base: int, total: int, sid: int)
    requires
        t.wf(base, total),
    ensures
        t.released(sid).wf(base, total),
        t.released(sid).segs.len() == t.segs.len(),
        rem_sum(t.released(sid).segs) == rem_sum(t.segs),
        forall|p: int| #[trigger] t.released(sid).on_disk(base, p) == t.on_disk(base, p),
{
    let after = t.released(sid);
    if 0 <= sid < t.segs.len() {
        lemma_sum_update(t.segs, sid, after.segs[sid]);
        lemma_same_ranges(t, after, base, total);
        assert forall|k: int| 0 <= k < after.queue.len() implies #[trigger] after.queue[k]
            < after.segs.len() by {
            if k < t.queue.len() {
                assert(after.queue[k] == t.queue[k]);
            }
        }
        assert forall|i: int|
            0 <= i < after.segs.len() && (#[trigger] after.segs[i]).queued
                && !after.segs[i].done implies after.queue.contains(i as usize) by {
            if t.segs[i].queued {
                assert(t.queue.contains(i as usize));
                let k = choose|k: int| 0 <= k < t.queue.len() && t.queue[k] == i as usize;
                assert(after.queue[k] == i as usize);
            } else {
                assert(i == sid);
                assert(after.queue[t.queue.len() as int] == i as usize);
            }
        }
        assert forall|i: int| 0 <= i < after.segs.len() implies ({
            ||| (#[trigger] after.segs[i]).done
            ||| after.segs[i].queued
            ||| after.segs[i].holders > 0
        }) by {
            assert(t.segs[i].done || t.segs[i].queued || t.segs[i].holders > 0);
        }
    }
}

/// Tables whose ranges have the same bounds and watermarks tile alike.
pub proof fn lemma_same_ranges(t: Table, after: Table, base: int, total: int)
    requires
        t.tiles(base, total),
        after.segs.len() == t.segs.len(),
        forall|i: int|
            0 <= i < t.segs.len() ==> {
                &&& (#[trigger] after.segs[i]).start == t.segs[i].start
                &&& after.segs[i].end == t.segs[i].end
                &&& after.segs[i].written == t.segs[i].written
                &&& after.segs[i].done == t.segs[i].done
            },
    ensures
        after.tiles(base, total),
        forall|p: int| #[trigger] after.on_disk(base, p) == t.on_disk(base, p),
{
    assert forall|i: int| 0 <= i < after.segs.len() implies seg_ok(
        #[trigger] after.segs[i],
        base,
        total,
    ) by {
        assert(seg_ok(t.segs[i], base, total));
    }
    assert forall|i: int, j: int| 0 <= i < j < after.segs.len() implies apart(
        #[trigger] after.segs[i],
        #[trigger] after.segs[j],
    ) by {
        assert(apart(t.segs[i], t.segs[j]));
    }
    assert forall|p: int| base <= p < total implies #[trigger] after.covers(p) by {
        assert(t.covers(p));
        let i = choose|i: int| 0 <= i < t.segs.len() && holds_byte(#[trigger] t.segs[i], p);
        assert(holds_byte(after.segs[i], p));
    }
    assert forall|p: int| #[trigger] after.on_disk(base, p) == t.on_disk(base, p) by {
        if exists|i: int| 0 <= i < t.segs.len() && wrote_byte(#[trigger] t.segs[i], p) {
            let i = choose|i: int| 0 <= i < t.segs.len() && wrote_byte(#[trigger] t.segs[i], p);
            assert(wrote_byte(after.segs[i], p));
        }
        if exists|i: int| 0 <= i < after.segs.len() && wrote_byte(#[trigger] after.segs[i], p) {
            let i = choose|i: int| 0 <= i < after.segs.len() && wrote_byte(#[trigger] after.segs[i], p);
            assert(wrote_byte(t.segs[i], p));
        }
    }
}

/// Handing out the head of the queue keeps the table consistent and touches no byte.
pub proof fn law_assign_strands_nothing(t: Table, base: int, total: int, k: int, now: u64)
    requires
        t.wf(base, total),
        t.is_queue_head(k),
        t.segs[t.queue[k] as int].holders < usize::MAX,
    ensures
        t.dequeued(k + 1).assigned(t.queue[k] as int, now).wf(base, total),
        rem_sum(t.dequeued(k + 1).assigned(t.queue[k] as int, now).segs) == rem_sum(t.segs),
        forall|p: int|
            #[trigger] t.dequeued(k + 1).assigned(t.queue[k] as int, now).on_disk(base, p) == t.on_disk(
                base,
                p,
            ),
{
    let sid = t.queue[k] as int;
    let after = t.dequeued(k + 1).assigned(sid, now);
    assert(t.queue[k] < t.segs.len());
    lemma_sum_update(t.segs, sid, after.segs[sid]);
    lemma_same_ranges(t, after, base, total);
    assert forall|j: int| 0 <= j < after.queue.len() implies #[trigger] after.queue[j]
        < after.segs.len() by {
        assert(after.queue[j] == t.queue[j + k + 1]);
    }
    assert forall|i: int|
        0 <= i < after.segs.len() && (#[trigger] after.segs[i]).queued
            && !after.segs[i].done implies after.queue.contains(i as usize) by {
        assert(i != sid);
        assert(t.segs[i].queued && !t.segs[i].done);
        let j = choose|j: int| 0 <= j < t.queue.len() && t.queue[j] == i as usize;
        if j < k {
            assert(t.segs[t.queue[j] as int].done);
        }
        assert(j > k);
        assert(after.queue[j - k - 1] == i as usize);
    }
    assert forall|i: int| 0 <= i < after.segs.len() implies ({
        ||| (#[trigger] after.segs[i]).done
        ||| after.segs[i].queued
        ||| after.segs[i].holders > 0
    }) by {
        assert(t.segs[i].done || t.segs[i].queued || t.segs[i].holders > 0);
    }
}

pub proof fn lemma_spent_queue(t: Table, base: int, total: int)
    requires
        t.wf(base, total),
        t.queue_spent(),
    ensures
        t.dequeued(t.queue.len() as int).wf(base, total),
        t.dequeued(t.queue.len() as int).segs == t.segs,
{
    let after = t.dequeued(t.queue.len() as int);
    assert forall|i: int|
        0 <= i < after.segs.len() && (#[trigger] after.segs[i]).queued
            && !after.segs[i].done implies after.queue.contains(i as usize) by {
        assert(t.queue.contains(i as usize));
        let j = choose|j: int| 0 <= j < t.queue.len() && t.queue[j] == i as usize;
        assert(t.segs[t.queue[j] as int].done);
    }
    lemma_same_ranges(t, after, base, total);
}

/// Handing out a freshly cut range keeps the table consistent and touches no byte.
pub proof fn lemma_assign_any(t: Table, base: int, total: int, sid: int, now: u64)
    requires
        t.wf(base, total),
        0 <= sid < t.segs.len(),
        t.segs[sid].holders < usize::MAX,
    ensures
        t.assigned(sid, now).wf(base, total),
        rem_sum(t.assigned(sid, now).segs) == rem_sum(t.segs),
        forall|p: int| #[trigger] t.assigned(sid, now).on_disk(base, p) == t.on_disk(base, p),
{
    let after = t.assigned(sid, now);
    lemma_sum_update(t.segs, sid, after.segs[sid]);
    lemma_same_ranges(t, after, base, total);
    assert forall|i: int|
        0 <= i < after.segs.len() && (#[trigger] after.segs[i]).queued
            && !after.segs[i].done implies after.queue.contains(i as usize) by {
        assert(t.segs[i].queued && !t.segs[i].done);
    }
    assert forall|i: int| 0 <= i < after.segs.len() implies ({
        ||| (#[trigger] after.segs[i]).done
        ||| after.segs[i].queued
        ||| after.segs[i].holders > 0
    }) by {
        assert(t.segs[i].done || t.segs[i].queued || t.segs[i].holders > 0);
    }
}

/// Stealing leaves at least the smallest cut on both sides.
pub proof fn law_steal_leaves_no_fragment(t: Table, base: int, total: int, i: int, least_cut: int, now: u64)
    requires
        t.wf(base, total),
        least_cut > 0,
        t.is_steal_target(i, 2 * least_cut),
    ensures
        ({
            let after = t.carve(i, t.steal_cut(i) as u64, false, now);
            &&& rem(after.segs[i]) >= least_cut
            &&& rem(after.segs[t.segs.len() as int]) >= least_cut
        }),
{
    assert(seg_ok(t.segs[i], base, total));
}

/// Shrinking leaves at least the smallest cut on both sides, whatever was asked for.
pub proof fn law_shrink_leaves_no_fragment(
    t: Table,
    base: int,
    total: int,
    i: int,
    preferred: int,
    least_cut: int,
    reclaim: int,
    now: u64,
)
    requires
        t.wf(base, total),
        least_cut > 0,
        t.is_shrink_target(i, preferred, least_cut),
    ensures
        ({
            let after = t.carve(i, t.shrink_cut(i, least_cut, reclaim) as u64, false, now);
            &&& rem(after.segs[i]) >= least_cut
            &&& rem(after.segs[t.segs.len() as int]) >= least_cut
        }),
{
    assert(seg_ok(t.segs[i], base, total));
}

} // verus!
