//! What a split download owes its workers and its file.
//!
//! The writer's table says which range goes to whom. The laws here say what that comes
//! to: which byte a worker is sent to, when it has to wait, how ranges are cut, when a
//! slow one is given to another, and what the file is when the download ends.

use vstd::prelude::*;

use crate::ctrl::{law_control_file_is_believed, law_ctrl_round_trip, marks_byte, usable, CtrlFile};
use crate::errors::HttpError;
use crate::segments::{
    apart, law_release_strands_nothing, lemma_reclaimed, lemma_rescued, lemma_spent_queue, pos, rem,
    seg_ok, wrote_byte, Table,
};
use crate::writer::{
    fresh_count, fresh_segs, mode_of, outcome_of, shown_piece_len, Assignment, FinishMode, FinishPlan, Writer,
};

verus! {

/// The smallest part that a range is cut into: what the options say, but 65536 bytes
/// where that is less and no more than 64 MiB are left.
pub open spec fn smallest_part(w: Writer) -> int {
    let asked = w.opts.min_split_size as int;
    if asked > 65_536 && w.todo <= 67_108_864 { 65_536 } else { asked }
}

/// The table stays consistent while work is looked for.
proof fn lemma_steps(w: Writer, release: Option<(usize, bool)>, now: u64)
    requires
        w.wf(),
        w.roomy(),
    ensures
        ({
            let t1 = w.after_release(release);
            let t2 = t1.reclaimed(t1.segs.len() as int, now);
            &&& t1.wf(w.base as int, w.total as int)
            &&& t1.segs.len() == w.segs@.len()
            &&& t2.wf(w.base as int, w.total as int)
            &&& t2.segs.len() <= t1.segs.len() + t1.segs.len()
            &&& t2.queue_spent() ==> t2.dequeued(t2.queue.len() as int).wf(w.base as int, w.total as int)
        }),
{
    let t1 = w.after_release(release);
    if release is Some {
        law_release_strands_nothing(w.table(), w.base as int, w.total as int, (release->0).0 as int);
    }
    lemma_reclaimed(t1, w.base as int, w.total as int, t1.segs.len() as int, now);
    let t2 = t1.reclaimed(t1.segs.len() as int, now);
    if t2.queue_spent() {
        lemma_spent_queue(t2, w.base as int, w.total as int);
    }
}

/// A worker that gets work is sent to the first byte of a range that is not on disk. It
/// holds that range, which is no longer queued, and the download is neither complete
/// nor failed.
pub proof fn law_work_begins_at_a_missing_byte(
    w: Writer,
    release: Option<(usize, bool)>,
    failures: u32,
    now: u64,
    after: Writer,
    seg: usize,
    from: u64,
    end: u64,
)
    requires
        w.wf(),
        w.roomy(),
        after.wf(),
        after.base == w.base,
        after.total == w.total,
        w.next_is(release, failures, now, &after, Assignment::Work { seg, from, end }),
    ensures
        !w.finished,
        w.fatal is None,
        seg < after.segs@.len(),
        ({
            let s = after.segs@[seg as int];
            &&& from == s.start + s.written
            &&& end == s.end
            &&& s.holders > 0
            &&& !s.queued
            &&& !s.done
            &&& s.last_progress == now
        }),
        w.base <= from < end <= w.total,
        !after.table().on_disk(w.base as int, from as int),
{
    let t1 = w.after_release(release);
    let n1 = t1.segs.len() as int;
    lemma_steps(w, release, now);
    let t2 = t1.reclaimed(n1, now);
    if !t2.queue_spent() {
        let k = choose|k: int| #[trigger]
            t2.is_queue_head(k) && after.table() == t2.dequeued(k + 1).assigned(t2.queue[k] as int, now)
                && seg == t2.queue[k] && from == pos(t2.segs[t2.queue[k] as int]) as u64 && end
                == t2.segs[t2.queue[k] as int].end;
        let sid = t2.queue[k] as int;
        assert(sid < t2.segs.len());
        assert(seg_ok(t2.segs[sid], w.base as int, w.total as int));
        assert(after.table().segs.len() == t2.segs.len());
        assert(after.table().segs[sid].written == t2.segs[sid].written);
    } else {
        let t3 = t2.dequeued(t2.queue.len() as int);
        let floor = 2 * w.min_cut();
        assert(exists|i: int| t3.is_steal_target(i, floor));
        let i = choose|i: int| #[trigger]
            t3.is_steal_target(i, floor) && after.table() == t3.carve(
                i,
                t3.steal_cut(i) as u64,
                false,
                now,
            ).assigned(t3.segs.len() as int, now) && seg == t3.segs.len() as usize && from
                == t3.steal_cut(i) as u64 && end == t3.segs[i].end;
        let m = t3.segs.len() as int;
        assert(seg_ok(t3.segs[i], w.base as int, w.total as int));
        assert(after.table().segs.len() == m + 1);
        assert(after.segs@.len() == m + 1);
        assert(after.segs@[m].start == from);
        assert(seg_ok(after.table().segs[m], w.base as int, w.total as int));
        assert(seg_ok(after.table().segs[i], w.base as int, w.total as int));
    }
    let s = after.segs@[seg as int];
    assert(seg_ok(after.table().segs[seg as int], w.base as int, w.total as int));
    if after.table().on_disk(w.base as int, from as int) {
        let j = choose|j: int|
            0 <= j < after.table().segs.len() && wrote_byte(#[trigger] after.table().segs[j], from as int);
        assert(seg_ok(after.table().segs[j], w.base as int, w.total as int));
        if j < seg {
            assert(apart(after.table().segs[j], after.table().segs[seg as int]));
        } else if j > seg {
            assert(apart(after.table().segs[seg as int], after.table().segs[j]));
        }
    }
}

/// A worker gets no work only where there is none: then no range is left that nobody
/// works at, and none of those in work is large enough to be shared. It waits a quarter
/// of a second, or leaves after two failures if another worker is there.
pub proof fn law_nobody_rests_while_there_is_work(
    w: Writer,
    release: Option<(usize, bool)>,
    failures: u32,
    now: u64,
    after: Writer,
    r: Assignment,
    i: int,
)
    requires
        w.wf(),
        w.roomy(),
        after.wf(),
        w.next_is(release, failures, now, &after, r),
    ensures
        r is Done <==> w.finished || w.fatal is Some,
        r is Park ==> r == (Assignment::Park { ms: 250 }) && (failures < 2 || w.alive <= 1),
        r is Retire ==> failures >= 2 && w.alive >= 2 && after.alive == w.alive - 1,
        !(r is Retire) ==> after.alive == w.alive,
        (r is Park || r is Retire) && 0 <= i < after.segs@.len() && !after.segs@[i].done ==> {
            let s = after.segs@[i];
            s.holders > 0 && !s.queued && s.end - s.start - s.written < 2 * smallest_part(w)
        },
{
    let t1 = w.after_release(release);
    let n1 = t1.segs.len() as int;
    lemma_steps(w, release, now);
    let t2 = t1.reclaimed(n1, now);
    let t3 = t2.dequeued(t2.queue.len() as int);
    let floor = 2 * w.min_cut();
    if (r is Park || r is Retire) && 0 <= i < after.segs@.len() && !after.segs@[i].done {
        assert(t2.queue_spent());
        assert(after.table() == t3);
        assert(t3.queue.len() == 0);
        assert(after.table().segs[i] == after.segs@[i]);
        if t3.segs[i].queued {
            assert(t3.queue.contains(i as usize));
        }
        assert(t3.segs[i].done || t3.segs[i].queued || t3.segs[i].holders > 0);
        if rem(t3.segs[i]) >= floor {
            assert(t3.can_steal(i, floor));
            let k = lemma_someone_has_most(t3, floor, t3.segs.len() as int);
            assert(t3.is_steal_target(k, floor));
        }
    }
}

/// Among some ranges that may be cut one has the most left.
proof fn lemma_someone_has_most(t: Table, floor: int, n: int) -> (k: int)
    requires
        0 <= n <= t.segs.len(),
        exists|i: int| 0 <= i < n && t.can_steal(i, floor),
    ensures
        0 <= k < n,
        t.can_steal(k, floor),
        forall|j: int|
            0 <= j < n && #[trigger] t.can_steal(j, floor) ==> rem(t.segs[j]) < rem(t.segs[k]) || (rem(
                t.segs[j],
            ) == rem(t.segs[k]) && k <= j),
    decreases n,
{
    if exists|i: int| 0 <= i < n - 1 && t.can_steal(i, floor) {
        let k = lemma_someone_has_most(t, floor, n - 1);
        if t.can_steal(n - 1, floor) && rem(t.segs[n - 1]) > rem(t.segs[k]) {
            n - 1
        } else {
            k
        }
    } else {
        assert(t.can_steal(n - 1, floor));
        n - 1
    }
}

/// Bytes are taken only where a range goes on: they begin at its first missing byte,
/// and all of them are taken up to its end. A failed download takes none.
pub proof fn law_bytes_are_taken_where_a_range_goes_on(w: Writer, sid: int, offset: int, len: int)
    requires
        w.wf(),
        0 <= sid < w.segs@.len(),
        0 <= len,
    ensures
        ({
            let n = w.accepted(sid, offset, len);
            let s = w.segs@[sid];
            &&& 0 <= n <= len
            &&& n > 0 ==> offset == s.start + s.written && offset + n <= s.end && w.fatal is None
            &&& w.fatal is None && offset == s.start + s.written && offset < s.end ==> n == len
                || offset + n == s.end
            &&& offset >= s.end ==> n == 0
        }),
{
    assert(seg_ok(w.table().segs[sid], w.base as int, w.total as int));
}

/// What is left of a file is cut into ranges that follow each other and differ by no
/// more than a byte: as few as it takes for the least size, or two per connection where
/// that is less.
pub proof fn law_file_is_cut_evenly(base: u64, total: u64, size: u64, connections: usize, now: u64, i: int)
    requires
        base < total,
        size > 0,
    ensures
        ({
            let s = fresh_segs(base, total, size, connections, now);
            let n = s.len() as int;
            let most = if connections < 1 { 2 } else { 2 * connections };
            let all = total - base;
            &&& 1 <= n <= most
            &&& (n - 1) * size < all
            &&& n < most ==> all <= n * size
            &&& s[0].start == base
            &&& s[n - 1].end == total
            &&& 0 <= i < n ==> {
                &&& s[i].written == 0
                &&& s[i].queued
                &&& s[i].holders == 0
                &&& s[i].end - s[i].start == all / n || s[i].end - s[i].start == all / n + 1
            }
            &&& 0 <= i && i + 1 < n ==> s[i].end == s[i + 1].start
        }),
{
    let all = total - base;
    let m = size as int;
    let most = if connections < 1 { 2int } else { 2 * connections as int };
    let by = (all + m - 1) / m;
    let n = fresh_count(all, m, connections as int);
    assert(by >= 1 && (by - 1) * m < all && all <= by * m) by (nonlinear_arith)
        requires
            by == (all + m - 1) / m,
            m > 0,
            all > 0,
    ;
    assert((n - 1) * m < all) by (nonlinear_arith)
        requires
            n <= by,
            (by - 1) * m < all,
            m > 0,
    ;
    assert(1 <= n <= most);
    assert(all * 0 / n == 0 && all * n / n == all) by (nonlinear_arith)
        requires
            n >= 1,
            all > 0,
    ;
    let s = fresh_segs(base, total, size, connections, now);
    assert(s.len() == n);
    assert forall|k: int| 0 <= k <= n implies 0 <= #[trigger] (all * k / n) <= all by {
        assert(0 <= all * k / n <= all) by (nonlinear_arith)
            requires
                0 <= k <= n,
                n >= 1,
                all > 0,
        ;
    }
    assert(0 <= all * 0 / n <= all && 0 <= all * n / n <= all);
    if 0 <= i < n {
        assert(0 <= all * i / n <= all && 0 <= all * (i + 1) / n <= all);
        lemma_even_parts(all, n, i);
    }
    if 0 <= i && i + 1 < n {
        assert(0 <= all * (i + 1) / n <= all);
    }
}

/// Equal parts of a number differ by one at most.
proof fn lemma_even_parts(all: int, n: int, i: int)
    requires
        all > 0,
        n >= 1,
        0 <= i,
    ensures
        all * (i + 1) / n - all * i / n == all / n || all * (i + 1) / n - all * i / n == all / n + 1,
{
    let q = all / n;
    let r = all % n;
    let a = all * i / n;
    let c = all * i % n;
    let d = all * (i + 1) / n;
    let e = all * (i + 1) % n;
    assert(all == n * q + r && 0 <= r < n) by (nonlinear_arith)
        requires
            q == all / n,
            r == all % n,
            n >= 1,
    ;
    assert(all * i == n * a + c && 0 <= c < n) by (nonlinear_arith)
        requires
            a == all * i / n,
            c == all * i % n,
            n >= 1,
    ;
    assert(all * (i + 1) == n * d + e && 0 <= e < n) by (nonlinear_arith)
        requires
            d == all * (i + 1) / n,
            e == all * (i + 1) % n,
            n >= 1,
    ;
    assert(all * (i + 1) == all * i + all) by (nonlinear_arith);
    assert(n * (d - a - q) == r + c - e) by (nonlinear_arith)
        requires
            all == n * q + r,
            all * i == n * a + c,
            all * (i + 1) == n * d + e,
            all * (i + 1) == all * i + all,
    ;
    assert(d - a - q == 0 || d - a - q == 1) by (nonlinear_arith)
        requires
            n * (d - a - q) == r + c - e,
            0 <= r < n,
            0 <= c < n,
            0 <= e < n,
            n >= 1,
    ;
}

/// A download starts with as many workers as connections were asked for, but no more
/// than it has ranges, and with one at least.
pub proof fn law_workers_to_start_with(w: Writer)
    ensures
        w.first_workers() >= 1,
        w.first_workers() <= w.opts.connections || w.first_workers() == 1,
        w.first_workers() <= w.segs@.len() || w.first_workers() == 1,
        w.opts.connections >= 1 && w.segs@.len() >= 1 ==> w.first_workers() == w.opts.connections
            || w.first_workers() == w.segs@.len(),
{
}

/// A decision to grow asks for more workers where the configuration and the ranges
/// leave room for one: no more than twice as many, none over the limit, and at most two
/// per range.
pub proof fn law_growth_is_bounded(w: Writer, max: int)
    ensures
        w.spawn_target(max) >= w.alive,
        w.spawn_target(max) > w.alive ==> w.spawn_target(max) <= max || w.spawn_target(max) == 1,
        w.spawn_target(max) > w.alive ==> w.spawn_target(max) <= 2 * w.segs@.len() || w.spawn_target(
            max,
        ) == 1,
        w.alive >= 1 ==> w.spawn_target(max) <= 2 * w.alive,
        w.alive < max && w.alive < 2 * w.segs@.len() ==> w.spawn_target(max) > w.alive,
        w.alive >= 1 && 2 * w.alive <= max && w.alive <= w.segs@.len() ==> w.spawn_target(max) == 2
            * w.alive,
{
}

/// Where work was cut off, one worker more than run is wanted to take it, as far as the
/// number of connections allows. No wish for workers is taken back.
pub proof fn law_cut_off_work_finds_a_worker(w: Writer)
    ensures
        w.spare_target() >= w.desired_workers,
        w.alive < w.opts.connections ==> w.spare_target() > w.alive,
        w.spare_target() > w.desired_workers ==> w.spare_target() <= w.alive + 1 && (w.spare_target()
            <= w.opts.connections || w.spare_target() == 1),
{
}

/// A range is handed over if at least 32 KiB of it are left, or anything at all where
/// that is forced. What is handed over lies behind what is on disk: all of it up to
/// 4 MiB or where the whole is asked for, else the second half.
pub proof fn law_hand_over_cuts_what_is_left(
    t: Table,
    base: int,
    total: int,
    sid: int,
    whole: bool,
    force: bool,
    now: u64,
)
    requires
        t.wf(base, total),
        0 <= sid < t.segs.len(),
        total <= u64::MAX,
        base >= 0,
    ensures
        ({
            let s = t.segs[sid];
            let left = s.end - s.start - s.written;
            let after = t.handed_off(sid, whole, force, now);
            if left >= 32_768 || (force && left > 0) {
                let kept = after.segs[sid];
                let new = after.segs[t.segs.len() as int];
                &&& after.segs.len() == t.segs.len() + 1
                &&& kept.start == s.start && kept.written == s.written
                &&& kept.end == new.start && new.end == s.end
                &&& new.written == 0 && new.queued && new.holders == 0 && !new.done
                &&& kept.last_progress == now
                &&& whole || left <= 4_194_304 ==> new.end - new.start == left && kept.done
                &&& !whole && left > 4_194_304 ==> {
                    let first = kept.end - kept.start - kept.written;
                    let second = new.end - new.start;
                    first + second == left && first <= second <= first + 1
                }
            } else {
                after == t
            }
        }),
{
    assert(seg_ok(t.segs[sid], base, total));
}

/// The lease of a range that someone holds runs out when it got no byte for four
/// seconds, and not before.
pub proof fn law_lease_is_four_seconds(t: Table, i: int, now: u64)
    requires
        0 <= i < t.segs.len(),
    ensures
        t.lease_ran_out(i, now) <==> {
            let s = t.segs[i];
            !s.done && !s.queued && s.holders > 0 && now >= s.last_progress + 4_000_000_000
        },
{
}

/// When no byte came for fifteen seconds, every range that is not done waits for a
/// worker. Before that, and once all is fetched or the download failed, nothing is
/// touched.
pub proof fn law_standstill_is_broken(w: Writer, after: Writer, now: u64, i: int)
    requires
        w.sane(),
        w.segs@.len() + w.segs@.len() < usize::MAX,
        w.watched(&after, now),
    ensures
        ({
            let over = !w.finished && w.fatal is None && w.todo > 0 && now >= w.last_progress
                + 15_000_000_000;
            &&& !over ==> after.table() == w.table() && after.last_progress == w.last_progress
            &&& over ==> after.last_progress == now
            &&& over && 0 <= i < after.segs@.len() ==> after.segs@[i].done || after.segs@[i].queued
        }),
{
    let t = w.table();
    lemma_rescued(t, w.base as int, w.total as int, t.segs.len() as int, now);
    if 0 <= i < after.segs@.len() {
        assert(after.table().segs[i] == after.segs@[i]);
    }
}

/// The control file is saved at once, and again a second after it was saved last.
pub proof fn law_state_is_saved_every_second(w: Writer, now: u64)
    ensures
        w.last_save is None ==> w.wants_save(now),
        w.last_save is Some ==> (w.wants_save(now) <==> now >= w.last_save->0 + 1_000_000_000),
{
}

/// A complete download leaves a file of its length and no control file. One that is to
/// be resumed leaves the file and a control file that can be used for it. One that is
/// given up leaves the bytes up to the first gap, and no control file.
pub proof fn law_end_leaves_what_is_there(w: Writer, mode: FinishMode, r: FinishPlan, p: int)
    requires
        w.wf(),
        w.ends_with(mode, r),
    ensures
        mode is Success ==> r.set_len == Some(w.total) && r.remove_ctrl && r.save is None,
        mode is Preserve ==> r.set_len is None && !r.remove_ctrl && r.save is Some,
        mode is Discard ==> r.set_len is Some && r.remove_ctrl && r.save is None,
        mode is Discard && 0 <= p < r.set_len->0 ==> w.table().on_disk(w.base as int, p),
        mode is Discard && r.set_len->0 < w.total ==> !w.table().on_disk(
            w.base as int,
            r.set_len->0 as int,
        ),
        mode is Preserve ==> r.save->0.v == 1 && r.save->0.total == w.total && r.save->0.base == w.base
            && r.save->0.url@ == w.url@,
        mode is Preserve && w.base < w.total ==> usable(r.save->0, w.total, w.total),
{
    if mode is Preserve && w.base < w.total {
        let t = w.table();
        assert forall|i: int| 0 <= i < t.segs.len() implies (#[trigger] t.segs[i]).written == 0 || pos(
            t.segs[i],
        ) <= w.total by {
            assert(seg_ok(t.segs[i], w.base as int, w.total as int));
        }
        law_ctrl_round_trip(t, w.base, w.total, r.save->0, w.total, 0);
    }
}

/// Pieces are shown no larger than a range, and otherwise in at most 2048 and a rest, of
/// no less than 64 KiB.
pub proof fn law_pieces_are_fine_enough(size: u64, total: u64)
    ensures
        ({
            let len = shown_piece_len(size, total);
            &&& len >= 1
            &&& size >= 1 ==> len <= size
            &&& size >= 65_536 ==> len >= 65_536
            &&& len < size && len > 65_536 ==> len * 2048 <= total < (len + 1) * 2048
            &&& len < size && len == 65_536 ==> total < 65_537 * 2048
            &&& len == size && size > 65_536 ==> total >= size * 2048
        }),
{
}

/// Bytes that reached the disk are booked once: as many fewer are missing as were taken,
/// and as many more are there. An error on disk ends the download with it and books
/// nothing. Bytes that are not taken change nothing.
pub proof fn law_written_bytes_are_booked(
    w: Writer,
    after: Writer,
    sid: int,
    offset: int,
    len: int,
    stored: Result<(), String>,
    now: u64,
)
    requires
        w.wf(),
        0 <= sid < w.segs@.len(),
        0 <= len,
        w.writes(&after, sid, offset, len, stored, now),
    ensures
        ({
            let n = w.accepted(sid, offset, len);
            &&& n == 0 ==> after == w
            &&& n > 0 && stored is Ok ==> {
                &&& after.todo == w.todo - n
                &&& after.stats.completed == w.stats.completed + n
                &&& after.last_progress == now
                &&& after.segs@[sid].written == w.segs@[sid].written + n
                &&& after.segs@[sid].start == w.segs@[sid].start && after.segs@[sid].end == w.segs@[sid].end
            }
            &&& n > 0 && stored is Err ==> {
                &&& after.fatal == Some(HttpError::Io(stored->Err_0))
                &&& after.todo == w.todo
                &&& after.table() == w.table()
            }
        }),
{
    law_bytes_are_taken_where_a_range_goes_on(w, sid, offset, len);
    let n = w.accepted(sid, offset, len);
    assert(seg_ok(w.table().segs[sid], w.base as int, w.total as int));
    if n > 0 && stored is Ok {
        assert(after.table().segs[sid].written == w.segs@[sid].written + n);
        assert(after.segs@[sid] == after.table().segs[sid]);
    }
}

/// A download succeeded if and only if it was not cancelled, nothing failed and the last
/// step on disk went well. A cancelled one counts as such whatever else happened, and the
/// first failure counts before that of the last step.
pub proof fn law_split_download_ends(
    cancelled: bool,
    fatal: Option<HttpError>,
    stored: Result<(), String>,
    total: u64,
)
    ensures
        ({
            let r = outcome_of(cancelled, fatal, stored, total);
            &&& r is Ok <==> !cancelled && fatal is None && stored is Ok
            &&& r is Ok ==> r->Ok_0.total_len == total
            &&& cancelled ==> r->Err_0 == HttpError::Cancelled
            &&& !cancelled && fatal is Some ==> r->Err_0 == fatal->0
            &&& !cancelled && fatal is None && stored is Err ==> r->Err_0 == HttpError::Io(stored->Err_0)
        }),
{
}

/// A download goes on where it stopped: with a control file that fits, the bytes that it
/// claims are there and no others; without one, those that the file has.
pub proof fn law_download_goes_on_where_it_stopped(
    w: Writer,
    file_len: u64,
    loaded: Option<CtrlFile>,
    now: u64,
    p: int,
)
    requires
        w.starts(file_len, loaded, now),
        0 < w.opts.min_split_size,
        0 <= p < w.total,
    ensures
        loaded is Some && usable(loaded->0, w.total, file_len) && loaded->0.base <= w.total ==> (
        w.table().on_disk(w.base as int, p) <==> p < loaded->0.base || exists|i: int|
            0 <= i < loaded->0.segs@.len() && marks_byte(#[trigger] loaded->0.segs@[i], p)),
        loaded is None ==> (w.table().on_disk(w.base as int, p) <==> p < file_len),
        loaded is Some && !usable(loaded->0, w.total, file_len) ==> (w.table().on_disk(w.base as int, p)
            <==> p < file_len),
{
    if loaded is Some && usable(loaded->0, w.total, file_len) {
        if loaded->0.base <= w.total {
            law_control_file_is_believed(loaded->0, w.total, file_len, now, p);
            let t = Table { segs: w.segs@, queue: Seq::empty() };
            assert(t.segs == w.table().segs);
            assert forall|i: int| 0 <= i < t.segs.len() implies t.segs[i] == #[trigger] w.table().segs[i] by {}
            if t.on_disk(w.base as int, p) && !(p < w.base) {
                let i = choose|i: int| 0 <= i < t.segs.len() && wrote_byte(#[trigger] t.segs[i], p);
                assert(wrote_byte(w.table().segs[i], p));
            }
            if w.table().on_disk(w.base as int, p) && !(p < w.base) {
                let i = choose|i: int|
                    0 <= i < w.table().segs.len() && wrote_byte(#[trigger] w.table().segs[i], p);
                assert(wrote_byte(t.segs[i], p));
            }
        }
    } else {
        assert forall|i: int| 0 <= i < w.table().segs.len() implies !wrote_byte(
            #[trigger] w.table().segs[i],
            p,
        ) by {
            assert(w.segs@[i].written == 0);
        }
    }
}

/// A download that neither failed nor was cancelled is complete. One that cannot be split
/// keeps only what is whole. Any other one can be resumed.
pub proof fn law_failed_download_can_be_resumed(fatal: Option<HttpError>, cancelled: bool)
    ensures
        mode_of(fatal, cancelled) is Success <==> fatal is None && !cancelled,
        mode_of(fatal, cancelled) is Discard <==> fatal is Some && fatal->0 is NotSplittable,
        cancelled && fatal is None ==> mode_of(fatal, cancelled) is Preserve,
        fatal is Some && !(fatal->0 is NotSplittable) ==> mode_of(fatal, cancelled) is Preserve,
{
}

} // verus!
