//! Live piece map of a download: how many bytes of each piece are on disk.

use vstd::prelude::*;

use crate::bits::{bit_at, byte_count, clear_bits, is_field, lemma_field_unique, set_bit};
use crate::status::partial_bits;

verus! {

/// Length of `[a, b)` cut down to `[lo, hi)`.
pub open spec fn overlap(a: int, b: int, lo: int, hi: int) -> int {
    let l = if a > lo { a } else { lo };
    let h = if b < hi { b } else { hi };
    if l < h { h - l } else { 0 }
}

/// How many positions of `[lo, hi)` satisfy `pred`.
pub open spec fn count_where(lo: int, hi: int, pred: spec_fn(int) -> bool) -> int
    decreases hi - lo,
{
    if lo >= hi {
        0
    } else {
        count_where(lo, hi - 1, pred) + if pred(hi - 1) { 1int } else { 0int }
    }
}

/// A count lies between zero and the length, and is full exactly when every
/// position counts.
pub proof fn lemma_count_bounds(lo: int, hi: int, pred: spec_fn(int) -> bool)
    requires
        lo <= hi,
    ensures
        0 <= count_where(lo, hi, pred) <= hi - lo,
        count_where(lo, hi, pred) == hi - lo <==> (forall|p: int| lo <= p < hi ==> #[trigger] pred(p)),
        count_where(lo, hi, pred) == 0 <==> (forall|p: int| lo <= p < hi ==> !#[trigger] pred(p)),
    decreases hi - lo,
{
    if lo < hi {
        lemma_count_bounds(lo, hi - 1, pred);
        if count_where(lo, hi, pred) == hi - lo {
            assert forall|p: int| lo <= p < hi implies #[trigger] pred(p) by {
                if p == hi - 1 {
                } else {
                    assert(lo <= p < hi - 1);
                }
            }
        }
        if count_where(lo, hi, pred) == 0 {
            assert forall|p: int| lo <= p < hi implies !#[trigger] pred(p) by {
                if p == hi - 1 {
                } else {
                    assert(lo <= p < hi - 1);
                }
            }
        }
        if forall|p: int| lo <= p < hi ==> #[trigger] pred(p) {
            assert(pred(hi - 1));
            assert forall|p: int| lo <= p < hi - 1 implies #[trigger] pred(p) by {}
        }
        if forall|p: int| lo <= p < hi ==> !#[trigger] pred(p) {
            assert(!pred(hi - 1));
            assert forall|p: int| lo <= p < hi - 1 implies !#[trigger] pred(p) by {}
        }
    }
}

/// Two predicates that agree on a range count the same there.
pub proof fn lemma_count_same(lo: int, hi: int, p1: spec_fn(int) -> bool, p2: spec_fn(int) -> bool)
    requires
        forall|p: int| lo <= p < hi ==> #[trigger] p1(p) == p2(p),
    ensures
        count_where(lo, hi, p1) == count_where(lo, hi, p2),
    decreases hi - lo,
{
    if lo < hi {
        lemma_count_same(lo, hi - 1, p1, p2);
    }
}

/// Adding a fresh range raises the count by the part of it that lies inside.
pub proof fn lemma_count_add(
    lo: int,
    hi: int,
    old_pred: spec_fn(int) -> bool,
    new_pred: spec_fn(int) -> bool,
    a: int,
    b: int,
)
    requires
        forall|p: int| lo <= p < hi && a <= p < b ==> !#[trigger] old_pred(p),
        forall|p: int| lo <= p < hi ==> #[trigger] new_pred(p) == (old_pred(p) || a <= p < b),
    ensures
        count_where(lo, hi, new_pred) == count_where(lo, hi, old_pred) + overlap(a, b, lo, hi),
    decreases hi - lo,
{
    if lo < hi {
        lemma_count_add(lo, hi - 1, old_pred, new_pred, a, b);
    }
}

/// Number of pieces of `piece_len` bytes in `total` bytes.
pub open spec fn piece_count(total: int, piece_len: int) -> int {
    (total + piece_len - 1) / piece_len
}

/// First byte of piece `i`.
pub open spec fn piece_start(piece_len: int, i: int) -> int {
    i * piece_len
}

/// End of piece `i`; the last piece ends with the file.
pub open spec fn piece_end(total: int, piece_len: int, i: int) -> int {
    if (i + 1) * piece_len < total { (i + 1) * piece_len } else { total }
}

/// Sum of two counters, wrapped to 64 bits.
pub open spec fn wrap_add(x: int, y: int) -> int {
    if x + y > u64::MAX { x + y - u64::MAX - 1 } else { x + y }
}

proof fn lemma_piece_bounds(total: int, piece_len: int, i: int)
    requires
        piece_len >= 1,
        total >= 0,
        0 <= i,
    ensures
        i < piece_count(total, piece_len) <==> i * piece_len < total,
        (i + 1) * piece_len == i * piece_len + piece_len,
        0 <= i * piece_len,
{
    let n = piece_count(total, piece_len);
    assert((i + 1) * piece_len == i * piece_len + piece_len) by (nonlinear_arith);
    assert(0 <= i * piece_len) by (nonlinear_arith)
        requires
            0 <= i,
            piece_len >= 1,
    ;
    assert(i < n <==> i * piece_len < total) by (nonlinear_arith)
        requires
            piece_len >= 1,
            total >= 0,
            0 <= i,
            n == (total + piece_len - 1) / piece_len,
    ;
}

proof fn lemma_piece_order(piece_len: int, i: int, j: int)
    requires
        piece_len >= 1,
        i < j,
    ensures
        (i + 1) * piece_len <= j * piece_len,
{
    assert((i + 1) * piece_len <= j * piece_len) by (nonlinear_arith)
        requires
            piece_len >= 1,
            i < j,
    ;
}

/// A consistent view of a piece map.
pub struct PieceSnapshot {
    /// Piece length in bytes; the last piece may be shorter.
    pub piece_len: u64,
    /// Number of pieces.
    pub num_pieces: u32,
    /// One bit per piece in wire order, set when the piece is complete.
    pub bitfield: Vec<u8>,
}

/// Bytes on disk per piece, with the bit field of complete pieces.
pub struct PieceTrack {
    /// Length of the file.
    pub total: u64,
    /// Length of a piece, at least one byte.
    pub piece_len: u64,
    /// Bytes on disk of each piece.
    pub done: Vec<u64>,
    /// Complete pieces in wire order.
    pub bf: Vec<u8>,
}

impl PieceTrack {
    /// The map has one counter per piece and room for one bit per piece.
    pub open spec fn wf(&self) -> bool {
        &&& self.piece_len >= 1
        &&& self.done@.len() == piece_count(self.total as int, self.piece_len as int)
        &&& self.bf@.len() == byte_count(self.done@.len() as int)
        &&& forall|i: int| i >= self.done@.len() ==> !#[trigger] bit_at(self.bf@, i)
    }

    /// First byte of piece `i`.
    pub open spec fn lo(&self, i: int) -> int {
        piece_start(self.piece_len as int, i)
    }

    /// End of piece `i`.
    pub open spec fn hi(&self, i: int) -> int {
        piece_end(self.total as int, self.piece_len as int, i)
    }

    /// Every counter holds the number of bytes of its piece that satisfy `pred`,
    /// and the complete pieces are the ones with their bit set.
    pub open spec fn records(&self, pred: spec_fn(int) -> bool) -> bool {
        &&& forall|i: int|
            0 <= i < self.done@.len() ==> #[trigger] self.done@[i] == count_where(
                self.lo(i),
                self.hi(i),
                pred,
            )
        &&& forall|i: int|
            0 <= i < self.done@.len() ==> (#[trigger] bit_at(self.bf@, i) <==> self.done@[i]
                >= self.hi(i) - self.lo(i))
    }

    /// The map after `[offset, offset + len)` was added: each counter grows by the
    /// part of the range inside its piece and the file, and a bit is set where the
    /// grown counter reaches the length of its piece.
    pub open spec fn added(&self, after: &PieceTrack, offset: int, len: int) -> bool {
        let stop = if offset + len < self.total { offset + len } else { self.total as int };
        &&& after.total == self.total
        &&& after.piece_len == self.piece_len
        &&& after.done@.len() == self.done@.len()
        &&& after.bf@.len() == self.bf@.len()
        &&& forall|i: int|
            0 <= i < self.done@.len() ==> #[trigger] after.done@[i] == wrap_add(
                self.done@[i] as int,
                overlap(offset, stop, self.lo(i), self.hi(i)),
            )
        &&& forall|i: int|
            #[trigger] bit_at(after.bf@, i) == (bit_at(self.bf@, i) || (0 <= i < self.done@.len()
                && overlap(offset, stop, self.lo(i), self.hi(i)) > 0 && after.done@[i] >= self.hi(i)
                - self.lo(i)))
    }

    /// An empty map for `total` bytes; a piece length of zero counts as one.
    pub fn new(total: u64, piece_len: u64) -> (r: Self)
        ensures
            r.wf(),
            r.total == total,
            r.piece_len == if piece_len == 0 { 1 } else { piece_len },
            forall|i: int| 0 <= i < r.done@.len() ==> r.done@[i] == 0,
            forall|i: int| !bit_at(r.bf@, i),
    {
        let pl: u64 = if piece_len == 0 { 1 } else { piece_len };
        proof {
            assert(total % pl != 0 ==> total / pl < u64::MAX) by (nonlinear_arith)
                requires
                    pl >= 1,
            ;
        }
        let n: u64 = total / pl + if total % pl == 0 { 0 } else { 1 };
        proof {
            assert(n == piece_count(total as int, pl as int)) by (nonlinear_arith)
                requires
                    pl >= 1,
                    n == total / pl + (if total % pl == 0 { 0int } else { 1int }),
            ;
        }
        let mut done: Vec<u64> = Vec::new();
        let mut k: u64 = 0;
        while k < n
            invariant
                k <= n,
                done@.len() == k,
                forall|i: int| 0 <= i < done@.len() ==> done@[i] == 0,
            decreases n - k,
        {
            done.push(0);
            k = k + 1;
        }
        let bf = clear_bits(done.len());
        PieceTrack { total, piece_len: pl, done, bf }
    }

    /// Piece length in bytes.
    pub fn piece_len(&self) -> (r: u64)
        ensures
            r == self.piece_len,
    {
        self.piece_len
    }

    /// Number of pieces, as a 32-bit value.
    pub fn num_pieces(&self) -> (r: u32)
        ensures
            r == self.done@.len() as u32,
    {
        #[verifier::truncate]
        (self.done.len() as u32)
    }

    /// Length of piece `i`.
    fn len_at(&self, i: usize) -> (r: u64)
        requires
            self.wf(),
            i < self.done@.len(),
        ensures
            r == self.hi(i as int) - self.lo(i as int),
            r >= 1,
            self.lo(i as int) + r <= self.total,
    {
        proof {
            lemma_piece_bounds(self.total as int, self.piece_len as int, i as int);
        }
        assert(self.lo(i as int) == i * self.piece_len);
        let start: u64 = i as u64 * self.piece_len;
        let rest: u64 = self.total - start;
        if self.piece_len < rest {
            self.piece_len
        } else {
            rest
        }
    }

    /// Records that `[offset, offset + len)` is on disk.
    pub fn add_range(&mut self, offset: u64, len: u64)
        requires
            old(self).wf(),
        ensures
            final(self).wf(),
            old(self).added(final(self), offset as int, len as int),
    {
        let sum: u64 = if offset > u64::MAX - len { u64::MAX } else { offset + len };
        let end: u64 = if sum < self.total { sum } else { self.total };
        let ghost before = *self;
        let ghost stop = if offset + len < before.total { offset + len } else { before.total as int };
        assert(end == stop);
        if offset >= end {
            return;
        }
        let mut cur: u64 = offset;
        let pieces: usize = self.done.len();
        proof {
            let pl = before.piece_len as int;
            let q = cur as int / pl;
            assert(q * pl <= cur && cur < (q + 1) * pl && 0 <= q) by (nonlinear_arith)
                requires
                    q == cur as int / pl,
                    pl >= 1,
                    cur >= 0,
            ;
            lemma_piece_bounds(before.total as int, pl, q);
            assert(q < before.done@.len());
        }
        let mut i: usize = (cur / self.piece_len) as usize;
        assert(i as int == cur as int / before.piece_len as int);
        let ghost first = i as int;
        proof {
            assert forall|j: int| 0 <= j < i implies overlap(
                offset as int,
                end as int,
                before.lo(j),
                before.hi(j),
            ) == 0 by {
                lemma_piece_order(before.piece_len as int, j, i as int);
            }
        }
        while cur < end
            invariant
                before.wf(),
                self.wf(),
                pieces == before.done@.len(),
                self.total == before.total,
                self.piece_len == before.piece_len,
                self.done@.len() == before.done@.len(),
                self.bf@.len() == before.bf@.len(),
                offset < end <= before.total,
                cur <= end,
                offset <= cur,
                first <= i <= before.done@.len(),
                cur < end ==> {
                    &&& i < before.done@.len()
                    &&& i * before.piece_len <= cur < (i + 1) * before.piece_len
                    &&& (cur == offset && i == first || cur == i * before.piece_len)
                },
                cur == end ==> end <= i * before.piece_len,
                first * before.piece_len <= offset,
                forall|j: int|
                    0 <= j < i ==> #[trigger] self.done@[j] == wrap_add(
                        before.done@[j] as int,
                        overlap(offset as int, end as int, before.lo(j), before.hi(j)),
                    ),
                forall|j: int|
                    i <= j < before.done@.len() ==> #[trigger] self.done@[j] == before.done@[j],
                forall|j: int|
                    #[trigger] bit_at(self.bf@, j) == (bit_at(before.bf@, j) || (0 <= j < i && overlap(
                        offset as int,
                        end as int,
                        before.lo(j),
                        before.hi(j),
                    ) > 0 && self.done@[j] >= before.hi(j) - before.lo(j))),
            decreases end - cur,
        {
            let size: u64 = self.len_at(i);
            proof {
                lemma_piece_bounds(before.total as int, before.piece_len as int, i as int);
                lemma_piece_bounds(before.total as int, before.piece_len as int, i + 1);
            }
            let ps: u64 = i as u64 * self.piece_len;
            let pe: u64 = ps + size;
            let hi: u64 = if end < pe { end } else { pe };
            let ghost loop_done = self.done@;
            let ghost loop_bf = self.bf@;
            let d: u64 = self.done[i].wrapping_add(hi - cur);
            assert(hi - cur == overlap(offset as int, end as int, before.lo(i as int), before.hi(i as int)));
            self.done.set(i, d);
            if d >= size {
                set_bit(&mut self.bf, i);
            }
            cur = hi;
            i = i + 1;
            proof {
                assert(d == wrap_add(before.done@[i - 1] as int, overlap(
                    offset as int,
                    end as int,
                    before.lo(i - 1),
                    before.hi(i - 1),
                )));
                assert(pe == before.hi(i - 1));
            }
        }
        proof {
            assert forall|j: int| i <= j < before.done@.len() implies overlap(
                offset as int,
                stop,
                before.lo(j),
                before.hi(j),
            ) == 0 by {
                if j > i {
                    lemma_piece_order(before.piece_len as int, i as int, j);
                    lemma_piece_bounds(before.total as int, before.piece_len as int, i as int);
                }
            }
        }
    }

    /// A consistent view of the map.
    pub fn snapshot(&self) -> (r: PieceSnapshot)
        ensures
            r.piece_len == self.piece_len,
            r.num_pieces == self.done@.len() as u32,
            r.bitfield@ == self.bf@,
    {
        PieceSnapshot {
            piece_len: self.piece_len,
            num_pieces: self.num_pieces(),
            bitfield: self.bitfield(),
        }
    }

    /// Copy of the bit field of complete pieces.
    pub fn bitfield(&self) -> (r: Vec<u8>)
        ensures
            r@ == self.bf@,
    {
        let r = self.bf.clone();
        assert(r@ =~= self.bf@);
        r
    }

    /// Bit field of the pieces that are begun but not complete.
    pub fn partial_bitfield(&self) -> (r: Vec<u8>)
        requires
            self.wf(),
        ensures
            r@.len() == byte_count(self.done@.len() as int),
            forall|i: int|
                #[trigger] bit_at(r@, i) == (0 <= i < self.done@.len() && 0 < self.done@[i] < self.hi(i)
                    - self.lo(i)),
    {
        let n: usize = self.done.len();
        let mut bf = clear_bits(n);
        let mut i: usize = 0;
        while i < n
            invariant
                self.wf(),
                n == self.done@.len(),
                i <= n,
                bf@.len() == byte_count(n as int),
                forall|j: int|
                    #[trigger] bit_at(bf@, j) == (0 <= j < i && 0 < self.done@[j] < self.hi(j) - self.lo(j)),
            decreases n - i,
        {
            let d: u64 = self.done[i];
            if d > 0 && d < self.len_at(i) {
                set_bit(&mut bf, i);
            }
            i = i + 1;
        }
        bf
    }
}

/// An empty map records the predicate that holds nowhere.
pub proof fn lemma_new_records(t: &PieceTrack, pred: spec_fn(int) -> bool)
    requires
        t.wf(),
        forall|i: int| 0 <= i < t.done@.len() ==> t.done@[i] == 0,
        forall|i: int| !bit_at(t.bf@, i),
        forall|p: int| 0 <= p < t.total ==> !#[trigger] pred(p),
    ensures
        t.records(pred),
{
    assert forall|i: int| 0 <= i < t.done@.len() implies {
        &&& #[trigger] t.done@[i] == count_where(t.lo(i), t.hi(i), pred)
        &&& t.hi(i) - t.lo(i) >= 1
    } by {
        lemma_piece_bounds(t.total as int, t.piece_len as int, i);
        lemma_piece_bounds(t.total as int, t.piece_len as int, i + 1);
        lemma_count_bounds(t.lo(i), t.hi(i), pred);
    }
}

/// A map records every predicate that agrees with one it records.
pub proof fn lemma_records_same(t: &PieceTrack, p1: spec_fn(int) -> bool, p2: spec_fn(int) -> bool)
    requires
        t.wf(),
        t.records(p1),
        forall|p: int| 0 <= p < t.total ==> #[trigger] p1(p) == p2(p),
    ensures
        t.records(p2),
{
    assert forall|i: int| 0 <= i < t.done@.len() implies #[trigger] t.done@[i] == count_where(
        t.lo(i),
        t.hi(i),
        p2,
    ) by {
        lemma_piece_bounds(t.total as int, t.piece_len as int, i);
        lemma_count_same(t.lo(i), t.hi(i), p1, p2);
    }
}

/// Adding a range that was not on disk yet keeps the map exact.
pub proof fn lemma_added_records(
    before: &PieceTrack,
    after: &PieceTrack,
    offset: int,
    len: int,
    old_pred: spec_fn(int) -> bool,
    new_pred: spec_fn(int) -> bool,
)
    requires
        before.wf(),
        before.records(old_pred),
        before.added(after, offset, len),
        0 <= offset,
        0 <= len,
        forall|p: int| offset <= p < offset + len ==> !#[trigger] old_pred(p),
        forall|p: int| 0 <= p < before.total ==> #[trigger] new_pred(p) == (old_pred(p) || offset <= p < offset + len),
    ensures
        after.wf(),
        after.records(new_pred),
{
    let stop = if offset + len < before.total { offset + len } else { before.total as int };
    assert forall|i: int| 0 <= i < after.done@.len() implies {
        &&& #[trigger] after.done@[i] == count_where(after.lo(i), after.hi(i), new_pred)
        &&& bit_at(after.bf@, i) <==> after.done@[i] >= after.hi(i) - after.lo(i)
    } by {
        lemma_piece_bounds(before.total as int, before.piece_len as int, i);
        lemma_piece_bounds(before.total as int, before.piece_len as int, i + 1);
        let lo = before.lo(i);
        let hi = before.hi(i);
        lemma_count_add(lo, hi, old_pred, new_pred, offset, stop);
        lemma_count_bounds(lo, hi, new_pred);
        lemma_count_bounds(lo, hi, old_pred);
        assert(before.done@[i] == count_where(lo, hi, old_pred));
        assert(after.lo(i) == lo && after.hi(i) == hi);
        assert(bit_at(before.bf@, i) <==> before.done@[i] >= hi - lo);
        assert(bit_at(after.bf@, i) == (bit_at(before.bf@, i) || (overlap(offset, stop, lo, hi) > 0
            && after.done@[i] >= hi - lo)));
    }
    assert forall|i: int| i >= after.done@.len() implies !#[trigger] bit_at(after.bf@, i) by {}
}

/// In an exact map the bit of a piece is set if and only if every byte of the
/// piece is on disk.
pub proof fn law_bit_means_complete(t: &PieceTrack, pred: spec_fn(int) -> bool, i: int)
    requires
        t.wf(),
        t.records(pred),
        0 <= i < t.done@.len(),
    ensures
        bit_at(t.bf@, i) <==> (forall|p: int| t.lo(i) <= p < t.hi(i) ==> #[trigger] pred(p)),
{
    lemma_piece_bounds(t.total as int, t.piece_len as int, i);
    lemma_piece_bounds(t.total as int, t.piece_len as int, i + 1);
    lemma_count_bounds(t.lo(i), t.hi(i), pred);
    assert(t.done@[i] == count_where(t.lo(i), t.hi(i), pred));
}

/// Where a range that begins at `offset` ends within the file.
pub open spec fn range_stop(t: &PieceTrack, offset: int, len: int) -> int {
    if offset + len < t.total { offset + len } else { t.total as int }
}

/// Two maps that show the same: length, pieces, counters, and with them the finished and
/// the begun pieces.
pub open spec fn shows_same(a: &PieceTrack, b: &PieceTrack) -> bool {
    &&& a.total == b.total
    &&& a.piece_len == b.piece_len
    &&& a.done@ == b.done@
    &&& a.bf@ == b.bf@
    &&& partial_bits(*a) == partial_bits(*b)
}

/// Bit fields of one length with the same bits are the same.
proof fn lemma_same_field(a: &PieceTrack, b: &PieceTrack)
    requires
        a.wf(),
        b.bf@.len() == a.bf@.len(),
        forall|i: int| #[trigger] bit_at(b.bf@, i) == bit_at(a.bf@, i),
    ensures
        b.bf@ == a.bf@,
{
    let n = a.done@.len() as int;
    let pred = |i: int| bit_at(a.bf@, i);
    assert(is_field(a.bf@, n, pred));
    assert(is_field(b.bf@, n, pred));
    lemma_field_unique(a.bf@, n, pred);
    lemma_field_unique(b.bf@, n, pred);
}

/// Maps with the same counters show the same pieces as begun.
proof fn lemma_same_begun(a: &PieceTrack, b: &PieceTrack)
    requires
        a.total == b.total,
        a.piece_len == b.piece_len,
        a.done@ == b.done@,
    ensures
        partial_bits(*a) == partial_bits(*b),
{
    let p = |i: int| 0 < a.done@[i] < a.hi(i) - a.lo(i);
    let q = |i: int| 0 < b.done@[i] < b.hi(i) - b.lo(i);
    assert(p =~= q);
}

/// Adding a range in two parts shows the same as adding it at once, as long as no counter
/// overflows.
pub proof fn law_ranges_add_up(
    t: &PieceTrack,
    first: &PieceTrack,
    both: &PieceTrack,
    once: &PieceTrack,
    o: u64,
    a: u64,
    b: u64,
)
    requires
        t.wf(),
        o + a + b <= u64::MAX,
        forall|i: int|
            0 <= i < t.done@.len() ==> #[trigger] t.done@[i] + overlap(
                o as int,
                range_stop(t, o as int, a + b),
                t.lo(i),
                t.hi(i),
            ) <= u64::MAX,
        t.added(first, o as int, a as int),
        first.added(both, o + a, b as int),
        t.added(once, o as int, a + b),
    ensures
        shows_same(both, once),
{
    assert forall|i: int| 0 <= i < t.done@.len() implies #[trigger] both.done@[i] == once.done@[i] by {
        lemma_piece_bounds(t.total as int, t.piece_len as int, i);
        assert(t.done@[i] <= u64::MAX);
        assert(first.done@[i] == wrap_add(
            t.done@[i] as int,
            overlap(o as int, range_stop(t, o as int, a as int), t.lo(i), t.hi(i)),
        ));
    }
    assert(both.done@ =~= once.done@);
    assert forall|i: int| #[trigger] bit_at(both.bf@, i) == bit_at(once.bf@, i) by {
        assert(bit_at(first.bf@, i) == bit_at(first.bf@, i));
        if 0 <= i < t.done@.len() {
            lemma_piece_bounds(t.total as int, t.piece_len as int, i);
            assert(t.done@[i] <= u64::MAX);
            assert(first.done@[i] <= u64::MAX);
            assert(both.done@[i] == once.done@[i]);
        }
    }
    lemma_same_field(once, both);
    lemma_same_begun(both, once);
}

/// An empty range, and one that begins behind the file, change nothing.
pub proof fn law_empty_range_changes_nothing(t: &PieceTrack, after: &PieceTrack, o: u64, len: u64)
    requires
        t.wf(),
        t.added(after, o as int, len as int),
        len == 0 || o >= t.total,
    ensures
        shows_same(after, t),
{
    assert forall|i: int| 0 <= i < t.done@.len() implies #[trigger] after.done@[i] == t.done@[i] by {
        lemma_piece_bounds(t.total as int, t.piece_len as int, i);
    }
    assert(after.done@ =~= t.done@);
    assert forall|i: int| #[trigger] bit_at(after.bf@, i) == bit_at(t.bf@, i) by {
        if 0 <= i < t.done@.len() {
            lemma_piece_bounds(t.total as int, t.piece_len as int, i);
        }
    }
    lemma_same_field(t, after);
    lemma_same_begun(after, t);
}

} // verus!
