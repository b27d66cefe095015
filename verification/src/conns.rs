//! Table of the requests in flight, with their live speeds.
//!
//! Times are nanoseconds of one monotonic clock.

use vstd::prelude::*;

use crate::outside::{host_of, url_host};
use crate::pieces::{PieceSnapshot, PieceTrack};

verus! {

/// A speed window is settled after this time.
pub const CONN_SPEED_SETTLE: u64 = 100_000_000;
/// A speed window is settled once it holds this many bytes.
pub const CONN_SPEED_SETTLE_BYTES: u64 = 262_144;
/// A request in flight that got no byte for this long shows speed zero.
pub const CONN_SPEED_STALE: u64 = 700_000_000;
/// A meter hands its bytes on once it holds this many.
pub const CONN_FLUSH_BYTES: u64 = 65_536;
/// A meter hands its bytes on after this time.
pub const CONN_FLUSH_INTERVAL: u64 = 100_000_000;
/// An ended request leaves the table after this time.
pub const CONN_IDLE_TTL: u64 = 2_000_000_000;
/// A silent request in flight leaves the table after this time.
pub const CONN_ACTIVE_TTL: u64 = 6_000_000_000;
/// The shortest window that a speed is computed over.
pub const CONN_MIN_WINDOW: u64 = 1_000_000;
/// Nanoseconds in a second.
pub const NANOS_PER_SEC: u64 = 1_000_000_000;

/// Time that passed from `earlier` to `now`; zero if the clock stepped back.
pub open spec fn elapsed(now: u64, earlier: u64) -> int {
    if now > earlier { now - earlier } else { 0 }
}

/// Time that passed from `earlier` to `now`; zero if the clock stepped back.
pub fn elapsed_since(now: u64, earlier: u64) -> (r: u64)
    ensures
        r == elapsed(now, earlier),
{
    if now > earlier { now - earlier } else { 0 }
}

/// One request in flight or lately ended.
pub struct ConnSlot {
    pub id: u64,
    pub host: String,
    /// Bytes received by this request.
    pub downloaded: u64,
    /// Bytes in the current speed window.
    pub window_bytes: u64,
    pub window_start: u64,
    /// Smoothed speed in bytes per second.
    pub speed: u64,
    pub active: bool,
    /// Time of the last byte or state change.
    pub updated: u64,
}

/// View of one request for display.
pub struct ConnSnapshot {
    pub id: u64,
    pub host: String,
    pub downloaded: u64,
    pub speed: u64,
    pub active: bool,
}

/// Progress of a split download.
pub struct SplitStats {
    /// Bytes on disk, the resumed part included.
    pub completed: u64,
    /// Requests in flight.
    pub connections: usize,
    /// The piece map, once attached.
    pub pieces: Option<PieceTrack>,
    pub conns: Vec<ConnSlot>,
    pub next_conn_id: u64,
}

/// Whether a slot is still shown at `now`.
pub open spec fn is_fresh(s: ConnSlot, now: u64) -> bool {
    elapsed(now, s.updated) < if s.active { CONN_ACTIVE_TTL } else { CONN_IDLE_TTL }
}

/// The slots that are still shown at `now`, in their order.
pub open spec fn pruned(t: Seq<ConnSlot>, now: u64) -> Seq<ConnSlot>
    decreases t.len(),
{
    if t.len() == 0 {
        t
    } else {
        let rest = pruned(t.drop_last(), now);
        if is_fresh(t.last(), now) { rest.push(t.last()) } else { rest }
    }
}

/// Bytes per second of `bytes` in `window`, at least the shortest window.
pub open spec fn window_speed(bytes: int, window: int) -> int {
    bytes * NANOS_PER_SEC / if window < CONN_MIN_WINDOW { CONN_MIN_WINDOW as int } else { window }
}

/// The smoothed speed after a window: the window's own speed at first, then the
/// mean of the last value and the window's.
pub open spec fn next_speed(speed: int, bytes: int, window: int) -> int {
    let inst = window_speed(bytes, window);
    let next = if speed == 0 { inst } else { (speed + inst) / 2 };
    if next > u64::MAX { u64::MAX as int } else { next }
}

/// A slot after `n` more bytes arrived at `now`.
pub open spec fn received(s: ConnSlot, n: u64, now: u64) -> ConnSlot {
    let dt = elapsed(now, s.window_start);
    let bytes = s.window_bytes + n;
    let grown = ConnSlot {
        downloaded: (s.downloaded + n) as u64,
        window_bytes: bytes as u64,
        updated: now,
        ..s
    };
    if dt >= CONN_SPEED_SETTLE || bytes >= CONN_SPEED_SETTLE_BYTES {
        ConnSlot {
            speed: next_speed(s.speed as int, bytes, dt) as u64,
            window_bytes: 0,
            window_start: now,
            ..grown
        }
    } else {
        grown
    }
}

/// Whether `k` is the first slot with this id.
pub open spec fn is_slot_of(t: Seq<ConnSlot>, id: u64, k: int) -> bool {
    &&& 0 <= k < t.len()
    &&& t[k].id == id
    &&& forall|j: int| 0 <= j < k ==> t[j].id != id
}

/// Whether some slot has this id.
pub open spec fn has_slot(t: Seq<ConnSlot>, id: u64) -> bool {
    exists|k: int| 0 <= k < t.len() && t[k].id == id
}

fn find_slot(t: &Vec<ConnSlot>, id: u64) -> (r: Option<usize>)
    ensures
        match r {
            Some(k) => is_slot_of(t@, id, k as int) && has_slot(t@, id),
            None => !has_slot(t@, id),
        },
{
    let mut i: usize = 0;
    while i < t.len()
        invariant
            i <= t@.len(),
            forall|j: int| 0 <= j < i ==> t@[j].id != id,
        decreases t@.len() - i,
    {
        if t[i].id == id {
            assert(t@[i as int].id == id);
            return Some(i);
        }
        i = i + 1;
    }
    None
}

/// Drops the slots that are no longer shown.
fn prune_conns(t: &mut Vec<ConnSlot>, now: u64)
    ensures
        final(t)@ == pruned(old(t)@, now),
{
    let ghost all = t@;
    let ghost mut seen: int = 0;
    let mut i: usize = 0;
    assert(all.take(0) =~= Seq::<ConnSlot>::empty());
    assert(t@ =~= pruned(all.take(0), now) + all.skip(0));
    while i < t.len()
        invariant
            0 <= seen <= all.len(),
            t@ == pruned(all.take(seen), now) + all.skip(seen),
            i == pruned(all.take(seen), now).len(),
        decreases all.len() - seen,
    {
        let ttl: u64 = if t[i].active { CONN_ACTIVE_TTL } else { CONN_IDLE_TTL };
        let fresh: bool = elapsed_since(now, t[i].updated) < ttl;
        let ghost head = pruned(all.take(seen), now);
        proof {
            assert(t@[i as int] == all[seen]);
            assert(all.take(seen + 1).drop_last() =~= all.take(seen));
            assert(all.take(seen + 1).last() == all[seen]);
        }
        if fresh {
            i = i + 1;
            proof {
                assert(head.push(all[seen]) + all.skip(seen + 1) =~= t@);
            }
        } else {
            let ghost before = t@;
            t.remove(i);
            proof {
                assert(t@ =~= head + all.skip(seen + 1));
            }
        }
        proof {
            seen = seen + 1;
        }
    }
    proof {
        assert(all.skip(seen).len() == 0);
        assert(all.take(seen) =~= all);
        assert(t@ =~= pruned(all, now));
    }
}

impl SplitStats {
    /// The parts that the connection table does not touch are as before.
    pub open spec fn same_progress(&self, after: &SplitStats) -> bool {
        &&& after.completed == self.completed
        &&& after.connections == self.connections
        &&& after.pieces == self.pieces
    }

    /// `n` more bytes of request `id` fit the counters.
    pub open spec fn fits(&self, id: u64, n: u64) -> bool {
        forall|k: int|
            0 <= k < self.conns@.len() && #[trigger] self.conns@[k].id == id ==> {
                &&& self.conns@[k].downloaded + n <= u64::MAX
                &&& self.conns@[k].window_bytes + n <= u64::MAX
            }
    }

    /// Tests whether `n` more bytes of request `id` fit the counters.
    pub fn has_room(&self, id: u64, n: u64) -> (r: bool)
        ensures
            r == self.fits(id, n),
    {
        let mut i: usize = 0;
        while i < self.conns.len()
            invariant
                i <= self.conns@.len(),
                forall|k: int|
                    0 <= k < i && #[trigger] self.conns@[k].id == id ==> {
                        &&& self.conns@[k].downloaded + n <= u64::MAX
                        &&& self.conns@[k].window_bytes + n <= u64::MAX
                    },
            decreases self.conns@.len() - i,
        {
            let c = &self.conns[i];
            if c.id == id && (c.downloaded > u64::MAX - n || c.window_bytes > u64::MAX - n) {
                assert(self.conns@[i as int].id == id);
                return false;
            }
            i = i + 1;
        }
        true
    }

    /// Fresh progress that starts at `baseline` bytes.
    pub fn new(baseline: u64) -> (r: Self)
        ensures
            r.completed == baseline,
            r.connections == 0,
            r.pieces is None,
            r.conns@.len() == 0,
            r.next_conn_id == 0,
    {
        SplitStats {
            completed: baseline,
            connections: 0,
            pieces: None,
            conns: Vec::new(),
            next_conn_id: 0,
        }
    }

    /// The table after request `id` was entered at `now`.
    pub open spec fn entered(&self, after: &SplitStats, id: u64, host: Seq<char>, now: u64) -> bool {
        &&& after.next_conn_id == id
        &&& after.conns@.len() == pruned(self.conns@, now).len() + 1
        &&& after.conns@.drop_last() == pruned(self.conns@, now)
        &&& after.conns@.last().host@ == host
        &&& after.conns@.last() == (ConnSlot {
            id,
            host: after.conns@.last().host,
            downloaded: 0,
            window_bytes: 0,
            window_start: now,
            speed: 0,
            active: true,
            updated: now,
        })
    }

    /// The table after request `id` ended at `now`.
    pub open spec fn ended(&self, after: &SplitStats, id: u64, now: u64) -> bool {
        &&& after.next_conn_id == self.next_conn_id
        &&& !has_slot(self.conns@, id) ==> after.conns@ == self.conns@
        &&& forall|k: int|
            #[trigger] is_slot_of(self.conns@, id, k) ==> after.conns@ == self.conns@.update(
                k,
                ConnSlot { active: false, speed: 0, updated: now, ..self.conns@[k] },
            )
    }

    /// Begins a request: it is entered and counted. None means that there are no numbers
    /// left.
    pub fn begin_request(&mut self, host: &str, now: u64) -> (r: Option<ConnMeter>)
        ensures
            match r {
                Some(m) => {
                    &&& m.id == old(self).next_conn_id + 1
                    &&& m.pending == 0
                    &&& m.since == now
                    &&& old(self).entered(final(self), m.id, host@, now)
                    &&& final(self).connections == old(self).connections + 1
                    &&& final(self).completed == old(self).completed
                    &&& final(self).pieces == old(self).pieces
                },
                None => {
                    &&& old(self).next_conn_id == u64::MAX || old(self).connections == usize::MAX
                    &&& *final(self) == *old(self)
                },
            },
    {
        if self.next_conn_id == u64::MAX || self.connections == usize::MAX {
            return None;
        }
        let id: u64 = self.conn_open(host, now);
        self.connections = self.connections + 1;
        Some(ConnMeter { id, pending: 0, since: now })
    }

    /// The statistics after the request of a meter ended: what it still held is booked if
    /// there is room, the request is marked as ended, and one less is in flight.
    pub open spec fn request_ended(&self, after: &SplitStats, m: ConnMeter, now: u64) -> bool {
        &&& after.connections == self.connections - 1
        &&& after.completed == self.completed
        &&& after.pieces == self.pieces
        &&& exists|mid: SplitStats|
            ({
                if self.fits(m.id, m.pending) {
                    ConnMeter::booked(self, &mid, m.id, m.pending, now)
                } else {
                    mid == *self
                }
            }) && #[trigger] mid.ended(after, m.id, now)
    }

    /// Ends the request of a meter.
    pub fn end_request(&mut self, meter: &ConnMeter, now: u64)
        requires
            old(self).connections > 0,
        ensures
            old(self).request_ended(final(self), *meter, now),
    {
        if meter.pending > 0 && self.has_room(meter.id, meter.pending) {
            self.conn_bytes(meter.id, meter.pending, now);
        }
        let ghost mid = *self;
        self.conn_close(meter.id, now);
        self.connections = self.connections - 1;
        assert(mid.ended(self, meter.id, now));
    }

    /// Enters a new request and returns its number.
    pub fn conn_open(&mut self, host: &str, now: u64) -> (id: u64)
        requires
            old(self).next_conn_id < u64::MAX,
        ensures
            id == old(self).next_conn_id + 1,
            old(self).same_progress(final(self)),
            old(self).entered(final(self), id, host@, now),
    {
        let id: u64 = self.next_conn_id + 1;
        self.next_conn_id = id;
        prune_conns(&mut self.conns, now);
        let ghost kept = self.conns@;
        self.conns.push(
            ConnSlot {
                id,
                host: host.to_owned(),
                downloaded: 0,
                window_bytes: 0,
                window_start: now,
                speed: 0,
                active: true,
                updated: now,
            },
        );
        assert(self.conns@.drop_last() =~= kept);
        id
    }

    /// Books `n` bytes that request `id` received.
    pub fn conn_bytes(&mut self, id: u64, n: u64, now: u64)
        requires
            old(self).fits(id, n),
        ensures
            old(self).same_progress(final(self)),
            final(self).next_conn_id == old(self).next_conn_id,
            !has_slot(old(self).conns@, id) ==> final(self).conns@ == old(self).conns@,
            forall|k: int|
                #[trigger] is_slot_of(old(self).conns@, id, k) ==> final(self).conns@ == old(
                    self,
                ).conns@.update(k, received(old(self).conns@[k], n, now)),
    {
        let found = find_slot(&self.conns, id);
        if let Some(k) = found {
            let ghost before = self.conns@;
            let ghost slot = before[k as int];
            assert(slot.id == id);
            let dt: u64 = elapsed_since(now, self.conns[k].window_start);
            let bytes: u64 = self.conns[k].window_bytes + n;
            let total: u64 = self.conns[k].downloaded + n;
            let last: u64 = self.conns[k].speed;
            let settle: bool = dt >= CONN_SPEED_SETTLE || bytes >= CONN_SPEED_SETTLE_BYTES;
            let speed: u64 = if settle { Self::settled_speed(last, bytes, dt) } else { last };
            let s = &mut self.conns[k];
            s.downloaded = total;
            s.updated = now;
            if settle {
                s.speed = speed;
                s.window_bytes = 0;
                s.window_start = now;
            } else {
                s.window_bytes = bytes;
            }
            assert(self.conns@ =~= before.update(k as int, received(slot, n, now)));
            assert forall|j: int| #[trigger] is_slot_of(before, id, j) implies j == k by {
                if j < k {
                    assert(before[j].id == id);
                }
            }
        } else {
            assert forall|j: int| !is_slot_of(self.conns@, id, j) by {}
        }
    }

    fn settled_speed(last: u64, bytes: u64, dt: u64) -> (r: u64)
        ensures
            r == next_speed(last as int, bytes as int, dt as int),
    {
        let window: u64 = if dt < CONN_MIN_WINDOW { CONN_MIN_WINDOW } else { dt };
        assert(bytes * NANOS_PER_SEC <= u128::MAX);
        let scaled: u128 = bytes as u128 * NANOS_PER_SEC as u128;
        let inst: u128 = scaled / window as u128;
        proof {
            assert(inst <= scaled) by (nonlinear_arith)
                requires
                    inst == scaled / (window as u128),
                    window >= 1,
            ;
        }
        let next: u128 = if last == 0 { inst } else { (last as u128 + inst) / 2 };
        if next > u64::MAX as u128 { u64::MAX } else { next as u64 }
    }

    /// Marks request `id` as ended.
    pub fn conn_close(&mut self, id: u64, now: u64)
        ensures
            old(self).same_progress(final(self)),
            old(self).ended(final(self), id, now),
    {
        let found = find_slot(&self.conns, id);
        if let Some(k) = found {
            let ghost before = self.conns@;
            let s = &mut self.conns[k];
            s.active = false;
            s.speed = 0;
            s.updated = now;
            assert(self.conns@ =~= before.update(
                k as int,
                ConnSlot { active: false, speed: 0, updated: now, ..before[k as int] },
            ));
            assert forall|j: int| #[trigger] is_slot_of(before, id, j) implies j == k by {
                if j < k {
                    assert(before[j].id == id);
                }
            }
        } else {
            assert forall|j: int| !is_slot_of(self.conns@, id, j) by {}
        }
    }

    /// What is shown of a slot at `now`.
    pub open spec fn shows(s: ConnSlot, now: u64, v: ConnSnapshot) -> bool {
        &&& v.id == s.id
        &&& v.host@ == s.host@
        &&& v.downloaded == s.downloaded
        &&& v.active == s.active
        &&& v.speed == if s.active && elapsed(now, s.updated) < CONN_SPEED_STALE { s.speed } else { 0 }
    }

    /// The requests that are shown at `now`; the others leave the table.
    pub fn conn_snapshot(&mut self, now: u64) -> (r: Vec<ConnSnapshot>)
        ensures
            old(self).same_progress(final(self)),
            final(self).next_conn_id == old(self).next_conn_id,
            final(self).conns@ == pruned(old(self).conns@, now),
            r@.len() == final(self).conns@.len(),
            forall|i: int|
                0 <= i < r@.len() ==> Self::shows(final(self).conns@[i], now, #[trigger] r@[i]),
    {
        prune_conns(&mut self.conns, now);
        let mut out: Vec<ConnSnapshot> = Vec::new();
        let mut i: usize = 0;
        while i < self.conns.len()
            invariant
                i <= self.conns@.len(),
                out@.len() == i,
                forall|k: int| 0 <= k < i ==> Self::shows(self.conns@[k], now, #[trigger] out@[k]),
            decreases self.conns@.len() - i,
        {
            let s = &self.conns[i];
            let live: bool = s.active && elapsed_since(now, s.updated) < CONN_SPEED_STALE;
            out.push(
                ConnSnapshot {
                    id: s.id,
                    host: s.host.clone(),
                    downloaded: s.downloaded,
                    speed: if live { s.speed } else { 0 },
                    active: s.active,
                },
            );
            i = i + 1;
        }
        out
    }

    /// Attaches the piece map; a map that is already there stays.
    pub fn attach_pieces(&mut self, track: PieceTrack)
        ensures
            final(self).pieces == if old(self).pieces is None { Some(track) } else { old(self).pieces },
            final(self).completed == old(self).completed,
            final(self).connections == old(self).connections,
            final(self).conns == old(self).conns,
            final(self).next_conn_id == old(self).next_conn_id,
    {
        if self.pieces.is_none() {
            self.pieces = Some(track);
        }
    }

    /// The attached piece map.
    pub fn piece_track(&self) -> (r: Option<&PieceTrack>)
        ensures
            match r {
                Some(t) => self.pieces == Some(*t),
                None => self.pieces is None,
            },
    {
        match &self.pieces {
            Some(t) => Some(t),
            None => None,
        }
    }

    /// A view of the attached piece map.
    pub fn piece_snapshot(&self) -> (r: Option<PieceSnapshot>)
        ensures
            r is Some <==> self.pieces is Some,
            r is Some ==> {
                &&& r->0.piece_len == self.pieces->0.piece_len
                &&& r->0.num_pieces == self.pieces->0.done@.len() as u32
                &&& r->0.bitfield@ == self.pieces->0.bf@
            },
    {
        match &self.pieces {
            Some(t) => Some(t.snapshot()),
            None => None,
        }
    }
}

/// Collects the bytes of one request and books them in batches.
pub struct ConnMeter {
    pub id: u64,
    pub pending: u64,
    pub since: u64,
}

impl ConnMeter {
    /// What becomes of `n` more bytes: booked with what is pending once enough bytes or
    /// time came together, else pending too.
    pub open spec fn takes(
        &self,
        after: &ConnMeter,
        before_stats: &SplitStats,
        after_stats: &SplitStats,
        n: u64,
        now: u64,
    ) -> bool {
        let held = (self.pending + n) as u64;
        if held >= CONN_FLUSH_BYTES || elapsed(now, self.since) >= CONN_FLUSH_INTERVAL {
            &&& after.pending == 0
            &&& after.since == now
            &&& Self::booked(before_stats, after_stats, self.id, held, now)
        } else {
            &&& after.pending == held
            &&& after.since == self.since
            &&& *after_stats == *before_stats
        }
    }

    /// Adds `n` bytes, and books what is pending once enough bytes or time came together.
    pub fn add(&mut self, stats: &mut SplitStats, n: u64, now: u64)
        requires
            old(self).pending + n <= u64::MAX,
            old(stats).fits(old(self).id, (old(self).pending + n) as u64),
        ensures
            final(self).id == old(self).id,
            old(self).takes(final(self), old(stats), final(stats), n, now),
    {
        self.pending = self.pending + n;
        if self.pending >= CONN_FLUSH_BYTES || elapsed_since(now, self.since) >= CONN_FLUSH_INTERVAL {
            self.flush(stats, now);
        }
    }

    /// Books what is pending.
    pub fn flush(&mut self, stats: &mut SplitStats, now: u64)
        requires
            old(stats).fits(old(self).id, old(self).pending),
        ensures
            final(self).id == old(self).id,
            final(self).pending == 0,
            final(self).since == now,
            Self::booked(old(stats), final(stats), old(self).id, old(self).pending, now),
    {
        if self.pending > 0 {
            stats.conn_bytes(self.id, self.pending, now);
            self.pending = 0;
        }
        self.since = now;
    }

    /// The statistics after `n` bytes of request `id` were booked; no bytes change nothing.
    pub open spec fn booked(before: &SplitStats, after: &SplitStats, id: u64, n: u64, now: u64) -> bool {
        if n == 0 {
            *after == *before
        } else {
            &&& before.same_progress(after)
            &&& after.next_conn_id == before.next_conn_id
            &&& !has_slot(before.conns@, id) ==> after.conns@ == before.conns@
            &&& forall|k: int|
                #[trigger] is_slot_of(before.conns@, id, k) ==> after.conns@ == before.conns@.update(
                    k,
                    received(before.conns@[k], n, now),
                )
        }
    }
}

/// The name that requests are shown under: the host, or nothing.
pub fn host_label(host: Option<String>) -> (r: String)
    ensures
        r@ == match host {
            Some(h) => h@,
            None => Seq::empty(),
        },
{
    match host {
        Some(h) => h,
        None => String::new(),
    }
}

/// The name that requests to an address are shown under.
pub fn conn_host(url: &str) -> (r: String)
    ensures
        r@ == match url_host(url@) {
            Some(h) => h,
            None => Seq::empty(),
        },
{
    host_label(host_of(url))
}

/// Every request is shown with speed zero unless it is in flight and got a byte lately.
pub proof fn law_silent_requests_show_no_speed(s: ConnSlot, now: u64, v: ConnSnapshot)
    requires
        SplitStats::shows(s, now, v),
        !s.active || elapsed(now, s.updated) >= CONN_SPEED_STALE,
    ensures
        v.speed == 0,
{
}

/// Pruning keeps exactly the fresh slots, and a second pruning at the same time
/// changes nothing.
pub proof fn law_prune_keeps_fresh(t: Seq<ConnSlot>, now: u64)
    ensures
        forall|s: ConnSlot| pruned(t, now).contains(s) <==> t.contains(s) && is_fresh(s, now),
        pruned(pruned(t, now), now) == pruned(t, now),
    decreases t.len(),
{
    if t.len() > 0 {
        let front = t.drop_last();
        law_prune_keeps_fresh(front, now);
        let rest = pruned(front, now);
        assert forall|s: ConnSlot| t.contains(s) <==> front.contains(s) || s == t.last() by {
            if t.contains(s) {
                let k = choose|k: int| 0 <= k < t.len() && t[k] == s;
                if k < front.len() {
                    assert(front[k] == s);
                }
            }
            if front.contains(s) {
                let k = choose|k: int| 0 <= k < front.len() && front[k] == s;
                assert(t[k] == s);
            }
            if s == t.last() {
                assert(t[t.len() - 1] == s);
            }
        }
        if is_fresh(t.last(), now) {
            let kept = rest.push(t.last());
            assert forall|s: ConnSlot| kept.contains(s) <==> rest.contains(s) || s == t.last() by {
                if kept.contains(s) {
                    let k = choose|k: int| 0 <= k < kept.len() && kept[k] == s;
                    if k < rest.len() {
                        assert(rest[k] == s);
                    }
                }
                if rest.contains(s) {
                    let k = choose|k: int| 0 <= k < rest.len() && rest[k] == s;
                    assert(kept[k] == s);
                }
                if s == t.last() {
                    assert(kept[rest.len() as int] == s);
                }
            }
            assert(kept.drop_last() =~= rest);
        }
    }
}

/// The end of a request undoes its beginning: however it went, as many are in flight as
/// before, if what came between left their number alone.
pub proof fn law_ended_request_is_not_counted(
    before: SplitStats,
    begun: SplitStats,
    between: SplitStats,
    after: SplitStats,
    m: ConnMeter,
    now: u64,
)
    requires
        begun.connections == before.connections + 1,
        between.connections == begun.connections,
        between.request_ended(&after, m, now),
    ensures
        after.connections == before.connections,
{
}

/// The speed of a window is its bytes per second, rounded down; a window shorter than a
/// millisecond counts as one.
pub proof fn law_window_speed_is_bytes_per_second(bytes: int, window: int)
    requires
        0 <= bytes,
        0 <= window,
    ensures
        ({
            let v = window_speed(bytes, window);
            let w = if window < 1_000_000 { 1_000_000 } else { window };
            v * w <= bytes * 1_000_000_000 < (v + 1) * w
        }),
{
    let w = if window < 1_000_000 { 1_000_000 } else { window };
    let b = bytes * 1_000_000_000;
    let v = b / w;
    assert(v * w <= b < (v + 1) * w) by (nonlinear_arith)
        requires
            v == b / w,
            w > 0,
    ;
}

/// A speed settles half way between what it was and what the last window shows; the first
/// window is taken as it is.
pub proof fn law_speed_settles_half_way(speed: int, bytes: int, window: int)
    requires
        0 <= speed <= u64::MAX,
        0 <= bytes,
        0 <= window,
        window_speed(bytes, window) <= u64::MAX,
    ensures
        ({
            let v = window_speed(bytes, window);
            let next = next_speed(speed, bytes, window);
            &&& (speed == 0 ==> next == v)
            &&& (speed > 0 ==> 2 * next <= speed + v <= 2 * next + 1)
            &&& (speed > 0 && speed <= v ==> speed <= next <= v)
            &&& (speed > 0 && v <= speed ==> v <= next <= speed)
        }),
{
}

/// Every byte of a request is counted once. A speed is settled after a tenth of a second
/// or a quarter of a mebibyte, and the window then starts anew.
pub proof fn law_received_bytes_are_counted(s: ConnSlot, n: u64, now: u64)
    requires
        s.downloaded + n <= u64::MAX,
        s.window_bytes + n <= u64::MAX,
        s.window_start <= now,
    ensures
        ({
            let a = received(s, n, now);
            let due = now - s.window_start >= 100_000_000 || s.window_bytes + n >= 262_144;
            &&& a.downloaded == s.downloaded + n
            &&& a.updated == now && a.id == s.id && a.active == s.active && a.host == s.host
            &&& (due ==> a.window_bytes == 0 && a.window_start == now)
            &&& (!due ==> a.window_bytes == s.window_bytes + n && a.window_start == s.window_start
                && a.speed == s.speed)
        }),
{
}

/// A request is shown for six seconds after its last byte, and for two seconds once it has
/// ended; its speed for less than a second.
pub proof fn law_requests_are_shown_for_a_while(s: ConnSlot, now: u64, v: ConnSnapshot)
    requires
        s.updated <= now,
    ensures
        s.active ==> (is_fresh(s, now) <==> now - s.updated < 6_000_000_000),
        !s.active ==> (is_fresh(s, now) <==> now - s.updated < 2_000_000_000),
        SplitStats::shows(s, now, v) ==> v.downloaded == s.downloaded && v.id == s.id && v.active
            == s.active && v.host@ == s.host@,
        SplitStats::shows(s, now, v) && s.active && now - s.updated < 700_000_000 ==> v.speed
            == s.speed,
        SplitStats::shows(s, now, v) && now - s.updated >= 700_000_000 ==> v.speed == 0,
{
}

/// A request that begins is shown at the end of the list, with nothing received, and the
/// others are as they were but for those that are shown no longer.
pub proof fn law_new_request_comes_last(
    before: SplitStats,
    after: SplitStats,
    id: u64,
    host: Seq<char>,
    now: u64,
)
    requires
        before.entered(&after, id, host, now),
    ensures
        after.conns@.len() > 0,
        after.conns@.last().id == id,
        after.conns@.last().host@ == host,
        after.conns@.last().active,
        after.conns@.last().downloaded == 0 && after.conns@.last().speed == 0,
        forall|s: ConnSlot|
            before.conns@.contains(s) && is_fresh(s, now) ==> #[trigger] after.conns@.contains(s),
{
    law_prune_keeps_fresh(before.conns@, now);
    assert forall|s: ConnSlot| before.conns@.contains(s) && is_fresh(s, now) implies #[trigger] after.conns@.contains(
        s,
    ) by {
        let front = after.conns@.drop_last();
        assert(front.contains(s));
        let k = choose|k: int| 0 <= k < front.len() && front[k] == s;
        assert(after.conns@[k] == s);
    }
}

/// A request that has ended shows no speed and is no longer active, but keeps what it
/// received.
pub proof fn law_ended_request_keeps_its_bytes(
    before: SplitStats,
    after: SplitStats,
    id: u64,
    k: int,
    now: u64,
)
    requires
        before.ended(&after, id, now),
        is_slot_of(before.conns@, id, k),
    ensures
        after.conns@.len() == before.conns@.len(),
        !after.conns@[k].active,
        after.conns@[k].speed == 0,
        after.conns@[k].downloaded == before.conns@[k].downloaded,
        after.conns@[k].updated == now,
        forall|j: int|
            0 <= j < before.conns@.len() && j != k ==> #[trigger] after.conns@[j] == before.conns@[j],
{
}

/// Bytes of a request wait until 64 KiB came together or a tenth of a second passed.
/// Then all of them are booked at once; until then none is, and none is forgotten.
pub proof fn law_bytes_are_booked_in_batches(
    m: ConnMeter,
    after: ConnMeter,
    stats: SplitStats,
    after_stats: SplitStats,
    n: u64,
    now: u64,
)
    requires
        m.pending + n <= u64::MAX,
        m.takes(&after, &stats, &after_stats, n, now),
    ensures
        ({
            let full = m.pending + n >= 65_536 || now >= m.since + 100_000_000;
            &&& full ==> after.pending == 0 && after.since == now && ConnMeter::booked(
                &stats,
                &after_stats,
                m.id,
                (m.pending + n) as u64,
                now,
            )
            &&& !full ==> after.pending == m.pending + n && after.since == m.since && after_stats == stats
        }),
{
}

} // verus!
