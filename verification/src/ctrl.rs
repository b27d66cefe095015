//! Control file of a split download: the ranges and their watermarks on disk.

use vstd::prelude::*;

use crate::segments::{apart, holds_byte, pos, rem, rem_sum, seg_ok, wrote_byte, Seg, Table};

verus! {

/// Version of the control file.
pub const CTRL_VERSION: u32 = 1;

/// One range in the control file: `[s, e)` with `w` bytes on disk.
#[derive(Clone, Copy)]
pub struct CtrlSeg {
    pub s: u64,
    pub w: u64,
    pub e: u64,
}

/// The control file.
pub struct CtrlFile {
    pub v: u32,
    /// Length of the file.
    pub total: u64,
    /// Everything before this byte is on disk.
    pub base: u64,
    pub url: String,
    pub segs: Vec<CtrlSeg>,
}

/// What is taken of a control file: one of another version counts as none.
pub open spec fn taken(parsed: Option<CtrlFile>) -> Option<CtrlFile> {
    match parsed {
        Some(c) => if c.v == CTRL_VERSION { Some(c) } else { None },
        None => None,
    }
}

/// A control file of another version counts as none.
pub fn load_ctrl(parsed: Option<CtrlFile>) -> (r: Option<CtrlFile>)
    ensures
        r == taken(parsed),
{
    match parsed {
        Some(c) => if c.v == CTRL_VERSION {
            Some(c)
        } else {
            None
        },
        None => None,
    }
}

/// `x` put into `s`, which is in order of the starts, behind its equals.
pub open spec fn insert_sorted(s: Seq<CtrlSeg>, x: CtrlSeg) -> Seq<CtrlSeg>
    decreases s.len(),
{
    if s.len() == 0 || s.last().s <= x.s {
        s.push(x)
    } else {
        insert_sorted(s.drop_last(), x).push(s.last())
    }
}

/// The ranges that are not empty, in order of their starts.
pub open spec fn arranged(s: Seq<CtrlSeg>) -> Seq<CtrlSeg>
    decreases s.len(),
{
    if s.len() == 0 {
        s
    } else {
        let rest = arranged(s.drop_last());
        if s.last().e > s.last().s { insert_sorted(rest, s.last()) } else { rest }
    }
}

/// The ranges follow each other without gap or overlap from `from` to `to`.
pub open spec fn chained(s: Seq<CtrlSeg>, from: int, to: int) -> bool {
    &&& s.len() > 0
    &&& s[0].s == from
    &&& s.last().e == to
    &&& forall|i: int| 0 <= i < s.len() ==> (#[trigger] s[i]).s < s[i].e
    &&& forall|i: int, j: int| 0 <= i && j == i + 1 && j < s.len() ==> #[trigger] s[i].e == #[trigger] s[j].s
}

/// The smaller of two numbers.
pub open spec fn least(a: int, b: int) -> int {
    if a < b { a } else { b }
}

/// Every watermark lies within a file of this length.
pub open spec fn marks_fit(s: Seq<CtrlSeg>, file_len: int) -> bool {
    forall|i: int| 0 <= i < s.len() ==> (#[trigger] s[i]).w == 0 || s[i].s + s[i].w <= file_len
}

/// Whether the control file describes this download of `total` bytes, whose file is
/// `file_len` bytes long: its watermarks are within the file, and its ranges tile it.
pub open spec fn usable(c: CtrlFile, total: u64, file_len: u64) -> bool {
    &&& c.total == total
    &&& marks_fit(c.segs@, file_len as int)
    &&& chained(arranged(c.segs@), least(c.base as int, total as int), total as int)
}

/// A range of the table as it comes out of the control file.
pub open spec fn loaded_seg(c: CtrlSeg, now: u64) -> Seg {
    let len = c.e - c.s;
    let written = least(c.w as int, len);
    Seg {
        start: c.s,
        end: c.e,
        written: written as u64,
        done: written >= len,
        queued: written < len,
        holders: 0,
        last_progress: now,
    }
}

/// The ranges of the table as they come out of the control file.
pub open spec fn loaded_segs(s: Seq<CtrlSeg>, now: u64) -> Seq<Seg> {
    Seq::new(s.len(), |i: int| loaded_seg(s[i], now))
}

/// What the control file keeps of a range.
pub open spec fn saved_seg(s: Seg) -> CtrlSeg {
    CtrlSeg { s: s.start, w: s.written, e: s.end }
}

/// What the control file keeps of the ranges: those that are not empty.
pub open spec fn saved_segs(segs: Seq<Seg>) -> Seq<CtrlSeg>
    decreases segs.len(),
{
    if segs.len() == 0 {
        Seq::empty()
    } else {
        let rest = saved_segs(segs.drop_last());
        if segs.last().end > segs.last().start { rest.push(saved_seg(segs.last())) } else { rest }
    }
}

/// Ranges of the table that follow each other from `from` to `to`.
pub open spec fn seg_chain(s: Seq<Seg>, from: int, to: int) -> bool {
    &&& s.len() > 0
    &&& s[0].start == from
    &&& s.last().end == to
    &&& forall|i: int| 0 <= i < s.len() ==> (#[trigger] s[i]).start < s[i].end
    &&& forall|i: int, j: int|
        0 <= i && j == i + 1 && j < s.len() ==> #[trigger] s[i].end == #[trigger] s[j].start
}

proof fn lemma_chain_order(s: Seq<Seg>, from: int, to: int, i: int, j: int)
    requires
        seg_chain(s, from, to),
        0 <= i <= j < s.len(),
    ensures
        from <= s[i].start <= s[j].start,
        i < j ==> s[i].end <= s[j].start,
        s[j].end <= to,
    decreases s.len() - i, j,
{
    assert(s[i].start < s[i].end);
    assert(s[j].start < s[j].end);
    lemma_chain_bounds(s, from, to, i);
    if i < j {
        assert(s[i].end == s[i + 1].start);
        lemma_chain_order(s, from, to, i + 1, j);
    }
}

proof fn lemma_chain_bounds(s: Seq<Seg>, from: int, to: int, i: int)
    requires
        seg_chain(s, from, to),
        0 <= i < s.len(),
    ensures
        from <= s[i].start,
        s[i].end <= to,
{
    lemma_chain_from(s, from, to, i);
    lemma_chain_to(s, from, to, i);
}

proof fn lemma_chain_from(s: Seq<Seg>, from: int, to: int, i: int)
    requires
        seg_chain(s, from, to),
        0 <= i < s.len(),
    ensures
        from <= s[i].start,
    decreases i,
{
    if i > 0 {
        lemma_chain_from(s, from, to, i - 1);
        assert(s[i - 1].start < s[i - 1].end);
        assert(s[i - 1].end == s[i].start);
    }
}

proof fn lemma_chain_to(s: Seq<Seg>, from: int, to: int, i: int)
    requires
        seg_chain(s, from, to),
        0 <= i < s.len(),
    ensures
        s[i].end <= to,
    decreases s.len() - i,
{
    if i < s.len() - 1 {
        lemma_chain_to(s, from, to, i + 1);
        assert(s[i + 1].start < s[i + 1].end);
        assert(s[i].end == s[i + 1].start);
    }
}

/// A byte at or after `s[i]`'s start and before `to` lies in one of the ranges from `i` on.
proof fn lemma_chain_finds(s: Seq<Seg>, from: int, to: int, i: int, p: int) -> (k: int)
    requires
        seg_chain(s, from, to),
        0 <= i < s.len(),
        s[i].start <= p < to,
    ensures
        0 <= k < s.len(),
        holds_byte(s[k], p),
    decreases s.len() - i,
{
    if p < s[i].end {
        i
    } else {
        assert(i < s.len() - 1);
        assert(s[i].end == s[i + 1].start);
        lemma_chain_finds(s, from, to, i + 1, p)
    }
}

proof fn lemma_chain_sum(s: Seq<Seg>, from: int, to: int, k: int)
    requires
        seg_chain(s, from, to),
        forall|i: int| 0 <= i < s.len() ==> (#[trigger] s[i]).written <= s[i].end - s[i].start,
        0 < k <= s.len(),
    ensures
        0 <= rem_sum(s.take(k)) <= s[k - 1].end - from,
    decreases k,
{
    let t = s.take(k);
    assert(t.drop_last() =~= s.take(k - 1));
    assert(t.last() == s[k - 1]);
    assert(s[k - 1].written <= s[k - 1].end - s[k - 1].start);
    assert(rem_sum(t) == rem_sum(s.take(k - 1)) + rem(s[k - 1]));
    if k > 1 {
        lemma_chain_sum(s, from, to, k - 1);
        assert(s[k - 2].end == s[k - 1].start);
    } else {
        assert(rem_sum(s.take(0)) == 0);
        assert(s[0].start == from);
    }
}

/// A chain of consistent ranges tiles the file.
pub proof fn lemma_chain_tiles(t: Table, from: int, to: int)
    requires
        seg_chain(t.segs, from, to),
        forall|i: int|
            0 <= i < t.segs.len() ==> {
                &&& (#[trigger] t.segs[i]).written <= t.segs[i].end - t.segs[i].start
                &&& t.segs[i].done <==> t.segs[i].written == t.segs[i].end - t.segs[i].start
            },
    ensures
        t.tiles(from, to),
        0 <= rem_sum(t.segs) <= to - from,
{
    let s = t.segs;
    assert forall|i: int| 0 <= i < s.len() implies seg_ok(#[trigger] s[i], from, to) by {
        lemma_chain_bounds(s, from, to, i);
        assert(s[i].start < s[i].end);
    }
    assert forall|i: int, j: int| 0 <= i < j < s.len() implies apart(
        #[trigger] s[i],
        #[trigger] s[j],
    ) by {
        lemma_chain_order(s, from, to, i, j);
    }
    assert forall|p: int| from <= p < to implies #[trigger] t.covers(p) by {
        let k = lemma_chain_finds(s, from, to, 0, p);
        assert(holds_byte(t.segs[k], p));
    }
    lemma_chain_sum(s, from, to, s.len() as int);
    assert(s.take(s.len() as int) =~= s);
}

/// A usable control file gives a chain of ranges.
pub proof fn lemma_loaded_chain(s: Seq<CtrlSeg>, from: int, to: int, now: u64)
    requires
        chained(s, from, to),
    ensures
        seg_chain(loaded_segs(s, now), from, to),
        forall|i: int|
            0 <= i < s.len() ==> {
                &&& (#[trigger] loaded_segs(s, now)[i]).written <= loaded_segs(s, now)[i].end
                    - loaded_segs(s, now)[i].start
                &&& loaded_segs(s, now)[i].done <==> loaded_segs(s, now)[i].written == loaded_segs(
                    s,
                    now,
                )[i].end - loaded_segs(s, now)[i].start
            },
{
    let g = loaded_segs(s, now);
    assert forall|i: int| 0 <= i < g.len() implies (#[trigger] g[i]).start < g[i].end by {
        assert(s[i].s < s[i].e);
    }
    assert forall|i: int, j: int|
        0 <= i && j == i + 1 && j < g.len() implies #[trigger] g[i].end == #[trigger] g[j].start by {
        assert(s[i].e == s[j].s);
    }
    assert forall|i: int| 0 <= i < s.len() implies ({
        &&& (#[trigger] g[i]).written <= g[i].end - g[i].start
        &&& g[i].done <==> g[i].written == g[i].end - g[i].start
    }) by {
        assert(s[i].s < s[i].e);
    }
}

// ---------------------------------------------------------------------------
// Arranging
// ---------------------------------------------------------------------------

/// The place of `x` in `s`: behind every range that starts no later.
pub open spec fn is_place(s: Seq<CtrlSeg>, x: CtrlSeg, k: int) -> bool {
    &&& 0 <= k <= s.len()
    &&& k > 0 ==> s[k - 1].s <= x.s
    &&& forall|j: int| k <= j < s.len() ==> (#[trigger] s[j]).s > x.s
}

proof fn lemma_insert_place(s: Seq<CtrlSeg>, x: CtrlSeg, k: int)
    requires
        is_place(s, x, k),
    ensures
        insert_sorted(s, x) == s.insert(k, x),
    decreases s.len(),
{
    if k == s.len() {
        assert(s.insert(k, x) =~= s.push(x));
    } else {
        assert(s[s.len() - 1].s > x.s);
        let front = s.drop_last();
        assert forall|j: int| k <= j < front.len() implies (#[trigger] front[j]).s > x.s by {
            assert(front[j] == s[j]);
        }
        if k > 0 {
            assert(front[k - 1] == s[k - 1]);
        }
        lemma_insert_place(front, x, k);
        assert(s.insert(k, x) =~= front.insert(k, x).push(s.last()));
    }
}

proof fn lemma_find_place(s: Seq<CtrlSeg>, x: CtrlSeg) -> (k: int)
    ensures
        is_place(s, x, k),
    decreases s.len(),
{
    if s.len() == 0 || s.last().s <= x.s {
        s.len() as int
    } else {
        let front = s.drop_last();
        let k = lemma_find_place(front, x);
        if k > 0 {
            assert(front[k - 1] == s[k - 1]);
        }
        assert forall|j: int| k <= j < s.len() implies (#[trigger] s[j]).s > x.s by {
            if j < front.len() {
                assert(front[j] == s[j]);
            }
        }
        k
    }
}

/// Arranges the ranges by their starts and leaves out the empty ones.
pub fn arrange(s: &Vec<CtrlSeg>) -> (r: Vec<CtrlSeg>)
    ensures
        r@ == arranged(s@),
{
    let mut out: Vec<CtrlSeg> = Vec::new();
    let mut i: usize = 0;
    assert(s@.take(0) =~= Seq::<CtrlSeg>::empty());
    while i < s.len()
        invariant
            i <= s@.len(),
            out@ == arranged(s@.take(i as int)),
        decreases s@.len() - i,
    {
        let x = s[i];
        proof {
            assert(s@.take(i + 1).drop_last() =~= s@.take(i as int));
            assert(s@.take(i + 1).last() == x);
        }
        if x.e > x.s {
            let mut k: usize = out.len();
            while k > 0 && out[k - 1].s > x.s
                invariant
                    k <= out@.len(),
                    forall|j: int| k <= j < out@.len() ==> (#[trigger] out@[j]).s > x.s,
                decreases k,
            {
                k = k - 1;
            }
            proof {
                lemma_insert_place(out@, x, k as int);
            }
            out.insert(k, x);
        }
        i = i + 1;
    }
    assert(s@.take(i as int) =~= s@);
    out
}

/// Tests whether the ranges follow each other from `from` to `to`.
pub fn is_chained(s: &Vec<CtrlSeg>, from: u64, to: u64) -> (r: bool)
    ensures
        r == chained(s@, from as int, to as int),
{
    if s.len() == 0 {
        return false;
    }
    let mut cursor: u64 = from;
    let mut i: usize = 0;
    while i < s.len()
        invariant
            0 < s@.len(),
            i <= s@.len(),
            i == 0 ==> cursor == from,
            i > 0 ==> s@[0].s == from && cursor == s@[i - 1].e,
            forall|k: int| 0 <= k < i ==> (#[trigger] s@[k]).s < s@[k].e,
            forall|k: int, j: int| 0 <= k && j == k + 1 && j < i ==> #[trigger] s@[k].e == #[trigger] s@[j].s,
        decreases s@.len() - i,
    {
        if s[i].s != cursor || s[i].e <= s[i].s {
            proof {
                if i > 0 {
                    assert(s@[i - 1].e == cursor);
                }
                if chained(s@, from as int, to as int) {
                    assert(s@[i as int].s < s@[i as int].e);
                    if i > 0 {
                        assert(s@[i - 1].e == s@[i as int].s);
                    }
                }
            }
            return false;
        }
        cursor = s[i].e;
        i = i + 1;
    }
    cursor == to
}

// ---------------------------------------------------------------------------
// Saving and loading
// ---------------------------------------------------------------------------

proof fn lemma_insert_facts(s: Seq<CtrlSeg>, x: CtrlSeg)
    requires
        forall|i: int, j: int| 0 <= i < j < s.len() ==> (#[trigger] s[i]).s <= (#[trigger] s[j]).s,
    ensures
        insert_sorted(s, x).len() == s.len() + 1,
        forall|i: int, j: int|
            0 <= i < j < s.len() + 1 ==> (#[trigger] insert_sorted(s, x)[i]).s <= (
            #[trigger] insert_sorted(s, x)[j]).s,
        forall|y: CtrlSeg| #[trigger]
            insert_sorted(s, x).contains(y) <==> s.contains(y) || y == x,
{
    let k = lemma_find_place(s, x);
    lemma_insert_place(s, x, k);
    let r = s.insert(k, x);
    assert forall|i: int, j: int| 0 <= i < j < r.len() implies (#[trigger] r[i]).s <= (#[trigger] r[j]).s by {
        let a = if i < k { i } else { i - 1 };
        let b = if j < k { j } else { j - 1 };
        if i == k {
            assert(r[j] == s[b]);
        } else if j == k {
            assert(r[i] == s[i]);
            if i < k - 1 {
                assert(s[i].s <= s[k - 1].s);
            }
        } else {
            assert(r[i] == s[a]);
            assert(r[j] == s[b]);
        }
    }
    assert forall|y: CtrlSeg| #[trigger] r.contains(y) <==> s.contains(y) || y == x by {
        if r.contains(y) {
            let i = choose|i: int| 0 <= i < r.len() && r[i] == y;
            if i < k {
                assert(s[i] == y);
            } else if i > k {
                assert(s[i - 1] == y);
            }
        }
        if s.contains(y) {
            let i = choose|i: int| 0 <= i < s.len() && s[i] == y;
            if i < k {
                assert(r[i] == y);
            } else {
                assert(r[i + 1] == y);
            }
        }
        if y == x {
            assert(r[k] == x);
        }
    }
}

/// Two ranges of a control file do not overlap.
pub open spec fn ctrl_apart(a: CtrlSeg, b: CtrlSeg) -> bool {
    a.e <= b.s || b.e <= a.s
}

proof fn lemma_arranged(s: Seq<CtrlSeg>)
    ensures
        forall|i: int, j: int|
            0 <= i < j < arranged(s).len() ==> (#[trigger] arranged(s)[i]).s <= (
            #[trigger] arranged(s)[j]).s,
        forall|y: CtrlSeg| #[trigger] arranged(s).contains(y) <==> s.contains(y) && y.e > y.s,
    decreases s.len(),
{
    if s.len() > 0 {
        let front = s.drop_last();
        lemma_arranged(front);
        let rest = arranged(front);
        if s.last().e > s.last().s {
            lemma_insert_facts(rest, s.last());
        }
        assert forall|y: CtrlSeg| s.contains(y) <==> front.contains(y) || y == s.last() by {
            if s.contains(y) {
                let k = choose|k: int| 0 <= k < s.len() && s[k] == y;
                if k < front.len() {
                    assert(front[k] == y);
                }
            }
            if front.contains(y) {
                let k = choose|k: int| 0 <= k < front.len() && front[k] == y;
                assert(s[k] == y);
            }
            if y == s.last() {
                assert(s[s.len() - 1] == y);
            }
        }
    }
}

proof fn lemma_arranged_apart(s: Seq<CtrlSeg>)
    requires
        forall|i: int, j: int| 0 <= i < j < s.len() ==> ctrl_apart(#[trigger] s[i], #[trigger] s[j]),
    ensures
        forall|i: int, j: int|
            0 <= i < j < arranged(s).len() ==> ctrl_apart(
                #[trigger] arranged(s)[i],
                #[trigger] arranged(s)[j],
            ),
    decreases s.len(),
{
    if s.len() > 0 {
        let front = s.drop_last();
        let x = s.last();
        assert forall|i: int, j: int| 0 <= i < j < front.len() implies ctrl_apart(
            #[trigger] front[i],
            #[trigger] front[j],
        ) by {
            assert(ctrl_apart(s[i], s[j]));
        }
        lemma_arranged_apart(front);
        lemma_arranged(front);
        let rest = arranged(front);
        if x.e > x.s {
            let k = lemma_find_place(rest, x);
            lemma_insert_place(rest, x, k);
            let r = rest.insert(k, x);
            assert forall|i: int| 0 <= i < rest.len() implies ctrl_apart(#[trigger] rest[i], x) by {
                assert(rest.contains(rest[i]));
                assert(front.contains(rest[i]));
                let m = choose|m: int| 0 <= m < front.len() && front[m] == rest[i];
                assert(ctrl_apart(s[m], s[s.len() - 1]));
            }
            assert forall|i: int, j: int| 0 <= i < j < r.len() implies ctrl_apart(
                #[trigger] r[i],
                #[trigger] r[j],
            ) by {
                let a = if i < k { i } else { i - 1 };
                let b = if j < k { j } else { j - 1 };
                if i == k {
                    assert(r[j] == rest[b]);
                } else if j == k {
                    assert(r[i] == rest[a]);
                } else {
                    assert(r[i] == rest[a]);
                    assert(r[j] == rest[b]);
                }
            }
        }
    }
}

proof fn lemma_saved(segs: Seq<Seg>)
    ensures
        forall|y: CtrlSeg| #[trigger]
            saved_segs(segs).contains(y) <==> exists|i: int|
                0 <= i < segs.len() && segs[i].end > segs[i].start && saved_seg(#[trigger] segs[i]) == y,
    decreases segs.len(),
{
    if segs.len() > 0 {
        let front = segs.drop_last();
        lemma_saved(front);
        let rest = saved_segs(front);
        let all = saved_segs(segs);
        let x = segs.last();
        assert forall|y: CtrlSeg| #[trigger]
            all.contains(y) <==> exists|i: int|
                0 <= i < segs.len() && segs[i].end > segs[i].start && saved_seg(#[trigger] segs[i]) == y by {
            if all.contains(y) {
                let k = choose|k: int| 0 <= k < all.len() && all[k] == y;
                if k < rest.len() {
                    assert(rest[k] == y);
                    assert(rest.contains(y));
                    let i = choose|i: int|
                        0 <= i < front.len() && front[i].end > front[i].start && saved_seg(
                            #[trigger] front[i],
                        ) == y;
                    assert(saved_seg(segs[i]) == y);
                } else {
                    assert(saved_seg(segs[segs.len() - 1]) == y);
                }
            }
            if exists|i: int|
                0 <= i < segs.len() && segs[i].end > segs[i].start && saved_seg(#[trigger] segs[i]) == y {
                let i = choose|i: int|
                    0 <= i < segs.len() && segs[i].end > segs[i].start && saved_seg(
                        #[trigger] segs[i],
                    ) == y;
                if i < front.len() {
                    assert(saved_seg(front[i]) == y);
                    assert(rest.contains(y));
                    let k = choose|k: int| 0 <= k < rest.len() && rest[k] == y;
                    assert(all[k] == y);
                } else {
                    assert(all[rest.len() as int] == y);
                }
            }
        }
    }
}

proof fn lemma_saved_apart(segs: Seq<Seg>)
    requires
        forall|i: int, j: int| 0 <= i < j < segs.len() ==> apart(#[trigger] segs[i], #[trigger] segs[j]),
    ensures
        forall|i: int, j: int|
            0 <= i < j < saved_segs(segs).len() ==> ctrl_apart(
                #[trigger] saved_segs(segs)[i],
                #[trigger] saved_segs(segs)[j],
            ),
    decreases segs.len(),
{
    if segs.len() > 0 {
        let front = segs.drop_last();
        assert forall|i: int, j: int| 0 <= i < j < front.len() implies apart(
            #[trigger] front[i],
            #[trigger] front[j],
        ) by {
            assert(apart(segs[i], segs[j]));
        }
        lemma_saved_apart(front);
        lemma_saved(front);
        let rest = saved_segs(front);
        let all = saved_segs(segs);
        assert forall|i: int, j: int| 0 <= i < j < all.len() implies ctrl_apart(
            #[trigger] all[i],
            #[trigger] all[j],
        ) by {
            assert(all[i] == rest[i]);
            if j < rest.len() {
                assert(all[j] == rest[j]);
            } else {
                assert(rest.contains(rest[i]));
                let m = choose|m: int|
                    0 <= m < front.len() && front[m].end > front[m].start && saved_seg(
                        #[trigger] front[m],
                    ) == rest[i];
                assert(apart(segs[m], segs[segs.len() - 1]));
            }
        }
    }
}

/// Bytes that a range of the control file leaves to fetch.
pub open spec fn ctrl_rem(c: CtrlSeg) -> int {
    if c.e > c.s {
        c.e - c.s - least(c.w as int, c.e - c.s)
    } else {
        0
    }
}

/// Bytes that the ranges of the control file leave to fetch.
pub open spec fn ctrl_rem_sum(s: Seq<CtrlSeg>) -> int
    decreases s.len(),
{
    if s.len() == 0 {
        0
    } else {
        ctrl_rem_sum(s.drop_last()) + ctrl_rem(s.last())
    }
}

proof fn lemma_ctrl_sum_insert(s: Seq<CtrlSeg>, x: CtrlSeg)
    ensures
        ctrl_rem_sum(insert_sorted(s, x)) == ctrl_rem_sum(s) + ctrl_rem(x),
    decreases s.len(),
{
    if s.len() == 0 || s.last().s <= x.s {
        assert(s.push(x).drop_last() =~= s);
    } else {
        let r = insert_sorted(s.drop_last(), x);
        lemma_ctrl_sum_insert(s.drop_last(), x);
        assert(r.push(s.last()).drop_last() =~= r);
    }
}

proof fn lemma_ctrl_sum_arranged(s: Seq<CtrlSeg>)
    ensures
        ctrl_rem_sum(arranged(s)) == ctrl_rem_sum(s),
    decreases s.len(),
{
    if s.len() > 0 {
        lemma_ctrl_sum_arranged(s.drop_last());
        if s.last().e > s.last().s {
            lemma_ctrl_sum_insert(arranged(s.drop_last()), s.last());
        }
    }
}

proof fn lemma_ctrl_sum_saved(segs: Seq<Seg>)
    requires
        forall|i: int|
            0 <= i < segs.len() ==> (#[trigger] segs[i]).start <= segs[i].end && segs[i].written
                <= segs[i].end - segs[i].start,
    ensures
        ctrl_rem_sum(saved_segs(segs)) == rem_sum(segs),
    decreases segs.len(),
{
    if segs.len() > 0 {
        let front = segs.drop_last();
        assert forall|i: int| 0 <= i < front.len() implies (#[trigger] front[i]).start <= front[i].end
            && front[i].written <= front[i].end - front[i].start by {
            assert(front[i] == segs[i]);
        }
        lemma_ctrl_sum_saved(front);
        let last = segs[segs.len() - 1];
        assert(last.start <= last.end && last.written <= last.end - last.start);
        let rest = saved_segs(front);
        if last.end > last.start {
            assert(rest.push(saved_seg(last)).drop_last() =~= rest);
        }
    }
}

proof fn lemma_ctrl_sum_loaded(s: Seq<CtrlSeg>, now: u64)
    requires
        forall|i: int| 0 <= i < s.len() ==> (#[trigger] s[i]).e > s[i].s,
    ensures
        rem_sum(loaded_segs(s, now)) == ctrl_rem_sum(s),
    decreases s.len(),
{
    if s.len() > 0 {
        let front = s.drop_last();
        assert forall|i: int| 0 <= i < front.len() implies (#[trigger] front[i]).e > front[i].s by {
            assert(front[i] == s[i]);
        }
        lemma_ctrl_sum_loaded(front, now);
        assert(loaded_segs(s, now).drop_last() =~= loaded_segs(front, now));
        assert(s[s.len() - 1].e > s[s.len() - 1].s);
    }
}

/// Some range of the control file holds byte `p`.
pub open spec fn ctrl_covers(s: Seq<CtrlSeg>, p: int) -> bool {
    exists|i: int| 0 <= i < s.len() && (#[trigger] s[i]).s <= p < s[i].e
}

/// The saved ranges of a table that tiles the file are in order a chain.
proof fn lemma_saved_chain(t: Table, base: int, total: int)
    requires
        t.tiles(base, total),
        0 <= base < total,
    ensures
        chained(arranged(saved_segs(t.segs)), base, total),
{
    let segs = t.segs;
    let cs = saved_segs(segs);
    let a = arranged(cs);
    lemma_saved(segs);
    lemma_saved_apart(segs);
    lemma_arranged(cs);
    lemma_arranged_apart(cs);
    // Each range of the chain stands for one of the table.
    assert forall|i: int| 0 <= i < a.len() implies (#[trigger] a[i]).s < a[i].e && base <= a[i].s
        && a[i].e <= total by {
        assert(a.contains(a[i]));
        assert(cs.contains(a[i]));
        let m = choose|m: int|
            0 <= m < segs.len() && segs[m].end > segs[m].start && saved_seg(#[trigger] segs[m]) == a[i];
        assert(seg_ok(segs[m], base, total));
    }
    // Every byte of the file lies in one of them.
    assert forall|p: int| base <= p < total implies #[trigger] ctrl_covers(a, p) by {
        assert(t.covers(p));
        let m = choose|m: int| 0 <= m < segs.len() && holds_byte(#[trigger] segs[m], p);
        let y = saved_seg(segs[m]);
        assert(cs.contains(y));
        assert(a.contains(y));
        let i = choose|i: int| 0 <= i < a.len() && a[i] == y;
        assert(a[i].s <= p < a[i].e);
    }
    assert(ctrl_covers(a, base));
    let first = choose|i: int| 0 <= i < a.len() && (#[trigger] a[i]).s <= base < a[i].e;
    assert(a.len() > 0);
    if first > 0 {
        assert(a[0].s <= a[first].s);
    }
    assert(a[0].s < a[0].e && base <= a[0].s);
    assert(a[0].s == base);
    assert forall|i: int, j: int|
        0 <= i && j == i + 1 && j < a.len() implies #[trigger] a[i].e == #[trigger] a[j].s by {
        assert(ctrl_apart(a[i], a[j]));
        assert(a[i].s <= a[j].s);
        assert(a[i].s < a[i].e && a[j].s < a[j].e && a[j].e <= total);
        let p = a[i].e as int;
        assert(ctrl_covers(a, p));
        let m = choose|m: int| 0 <= m < a.len() && (#[trigger] a[m]).s <= p < a[m].e;
        if m < i {
            assert(ctrl_apart(a[m], a[i]));
            assert(a[m].s <= a[i].s);
        } else if m > j {
            assert(a[j].s <= a[m].s);
        }
    }
    let l = a.len() - 1;
    assert(a[l].s < a[l].e && a[l].e <= total);
    if a[l].e < total {
        let p = a[l].e as int;
        assert(ctrl_covers(a, p));
        let m = choose|m: int| 0 <= m < a.len() && (#[trigger] a[m]).s <= p < a[m].e;
        assert(m < l);
        assert(ctrl_apart(a[m], a[l]));
        assert(a[m].s <= a[l].s);
    }
}

/// Saving a table and loading it again gives a usable control file, the same bytes
/// on disk and the same bytes to fetch, as long as the file holds what was written.
pub proof fn law_ctrl_round_trip(t: Table, base: u64, total: u64, c: CtrlFile, file_len: u64, now: u64)
    requires
        t.wf(base as int, total as int),
        base < total,
        c.total == total,
        c.base == base,
        c.segs@ == saved_segs(t.segs),
        forall|i: int|
            0 <= i < t.segs.len() ==> (#[trigger] t.segs[i]).written == 0 || pos(t.segs[i]) <= file_len,
    ensures
        usable(c, total, file_len),
        ({
            let again = loaded_segs(arranged(c.segs@), now);
            &&& rem_sum(again) == rem_sum(t.segs)
            &&& forall|p: int| #[trigger]
                t.on_disk(base as int, p) == (Table { segs: again, queue: t.queue }).on_disk(
                    base as int,
                    p,
                )
        }),
{
    let cs = c.segs@;
    let a = arranged(cs);
    let again = Table { segs: loaded_segs(a, now), queue: t.queue };
    lemma_saved(t.segs);
    lemma_saved_chain(t, base as int, total as int);
    lemma_arranged(cs);
    assert forall|i: int| 0 <= i < cs.len() implies (#[trigger] cs[i]).w == 0 || cs[i].s + cs[i].w
        <= file_len by {
        assert(cs.contains(cs[i]));
        let m = choose|m: int|
            0 <= m < t.segs.len() && t.segs[m].end > t.segs[m].start && saved_seg(#[trigger] t.segs[m])
                == cs[i];
        assert(t.segs[m].written == 0 || pos(t.segs[m]) <= file_len);
    }
    assert forall|i: int| 0 <= i < t.segs.len() implies (#[trigger] t.segs[i]).start <= t.segs[i].end
        && t.segs[i].written <= t.segs[i].end - t.segs[i].start by {
        assert(seg_ok(t.segs[i], base as int, total as int));
    }
    lemma_ctrl_sum_saved(t.segs);
    lemma_ctrl_sum_arranged(cs);
    lemma_ctrl_sum_loaded(a, now);
    assert forall|p: int| #[trigger] t.on_disk(base as int, p) == again.on_disk(base as int, p) by {
        if exists|i: int| 0 <= i < t.segs.len() && wrote_byte(#[trigger] t.segs[i], p) {
            let i = choose|i: int| 0 <= i < t.segs.len() && wrote_byte(#[trigger] t.segs[i], p);
            let y = saved_seg(t.segs[i]);
            assert(t.segs[i].start <= t.segs[i].end);
            assert(cs.contains(y));
            assert(a.contains(y));
            let k = choose|k: int| 0 <= k < a.len() && a[k] == y;
            assert(wrote_byte(again.segs[k], p));
        }
        if exists|k: int| 0 <= k < again.segs.len() && wrote_byte(#[trigger] again.segs[k], p) {
            let k = choose|k: int| 0 <= k < again.segs.len() && wrote_byte(#[trigger] again.segs[k], p);
            assert(a.contains(a[k]));
            assert(cs.contains(a[k]));
            let m = choose|m: int|
                0 <= m < t.segs.len() && t.segs[m].end > t.segs[m].start && saved_seg(
                    #[trigger] t.segs[m],
                ) == a[k];
            assert(wrote_byte(t.segs[m], p));
        }
    }
}

/// Whether a range of a control file says that byte `p` is on disk.
pub open spec fn marks_byte(x: CtrlSeg, p: int) -> bool {
    x.s <= p < x.e && p < x.s + x.w
}

/// A control file is used only if it is for a file of this length, says of every byte
/// behind its base where it belongs, reaches over neither end, and claims no byte that
/// the file on disk is too short for.
pub proof fn law_control_file_fits_the_download(c: CtrlFile, total: u64, file_len: u64, p: int, i: int)
    requires
        usable(c, total, file_len),
    ensures
        c.total == total,
        c.base <= p < total ==> ctrl_covers(c.segs@, p),
        0 <= i < c.segs@.len() && c.segs@[i].s < c.segs@[i].e ==> c.segs@[i].e <= total && (c.segs@[i].s
            >= c.base || c.segs@[i].s >= total),
        0 <= i < c.segs@.len() && c.segs@[i].w > 0 ==> c.segs@[i].s + c.segs@[i].w <= file_len,
{
    let a = arranged(c.segs@);
    let from = least(c.base as int, total as int);
    lemma_arranged(c.segs@);
    lemma_loaded_chain(a, from, total as int, 0);
    let t = Table { segs: loaded_segs(a, 0), queue: Seq::empty() };
    lemma_chain_tiles(t, from, total as int);
    if c.base <= p < total {
        assert(t.covers(p));
        let k = choose|k: int| 0 <= k < t.segs.len() && holds_byte(#[trigger] t.segs[k], p);
        assert(a.contains(a[k]));
        let m = choose|m: int| 0 <= m < c.segs@.len() && c.segs@[m] == a[k];
        assert(c.segs@[m].s <= p < c.segs@[m].e);
    }
    if 0 <= i < c.segs@.len() && c.segs@[i].s < c.segs@[i].e {
        assert(c.segs@.contains(c.segs@[i]));
        assert(a.contains(c.segs@[i]));
        let k = choose|k: int| 0 <= k < a.len() && a[k] == c.segs@[i];
        assert(seg_ok(t.segs[k], from, total as int));
    }
}

/// A download that goes on with a control file takes as fetched exactly the bytes that
/// the file claims.
pub proof fn law_control_file_is_believed(c: CtrlFile, total: u64, file_len: u64, now: u64, p: int)
    requires
        usable(c, total, file_len),
        c.base <= total,
    ensures
        (Table { segs: loaded_segs(arranged(c.segs@), now), queue: Seq::empty() }).on_disk(c.base as int, p)
            <==> 0 <= p < c.base || exists|i: int| 0 <= i < c.segs@.len() && marks_byte(#[trigger] c.segs@[i], p),
{
    let a = arranged(c.segs@);
    lemma_arranged(c.segs@);
    let t = Table { segs: loaded_segs(a, now), queue: Seq::empty() };
    if exists|i: int| 0 <= i < c.segs@.len() && marks_byte(#[trigger] c.segs@[i], p) {
        let i = choose|i: int| 0 <= i < c.segs@.len() && marks_byte(#[trigger] c.segs@[i], p);
        assert(c.segs@.contains(c.segs@[i]));
        assert(a.contains(c.segs@[i]));
        let k = choose|k: int| 0 <= k < a.len() && a[k] == c.segs@[i];
        assert(t.segs[k] == loaded_seg(a[k], now));
        assert(wrote_byte(t.segs[k], p));
    }
    if exists|k: int| 0 <= k < t.segs.len() && wrote_byte(#[trigger] t.segs[k], p) {
        let k = choose|k: int| 0 <= k < t.segs.len() && wrote_byte(#[trigger] t.segs[k], p);
        assert(t.segs[k] == loaded_seg(a[k], now));
        assert(a.contains(a[k]));
        let m = choose|m: int| 0 <= m < c.segs@.len() && c.segs@[m] == a[k];
        assert(a[k].s < a[k].e);
        assert(marks_byte(c.segs@[m], p));
    }
}

/// A control file is taken as it is if it is of the version that is written, and not at
/// all if it is of another.
pub proof fn law_other_versions_are_not_read(c: CtrlFile)
    ensures
        c.v == 1 ==> taken(Some(c)) == Some(c),
        c.v != 1 ==> taken(Some(c)) is None,
        taken(None) is None,
{
}

} // verus!
