//! What clients ask of the tasks and of the settings.

use vstd::prelude::*;

use crate::json::{filter_keys, filtered, json_views, opt_texts, Json, JsonView, ObjectBuilder};
use crate::lists::holds;
use crate::manager::{fails, has_task, task_at, task_fine, unknown_gid, TaskManager};
use crate::manifest::string_texts;
use crate::pieces::wrap_add;
use crate::status::{
    files_view, native_view, peers_view, show_files, show_peers, status_json, status_json_native,
    status_view, total_or_zero, uris_view,
};
use crate::task::{Status, Task};
use crate::text::{dec_string, same_str};

verus! {

/// The numbers of a list of places.
pub open spec fn ints(v: Seq<usize>) -> Seq<int> {
    Seq::new(v.len(), |i: int| v[i] as int)
}

/// Places of the tasks that a list names, in the order of the list.
pub open spec fn places(tasks: Seq<Task>, list: Seq<Seq<char>>) -> Seq<int>
    decreases list.len(),
{
    if list.len() == 0 {
        Seq::empty()
    } else {
        let rest = places(tasks, list.drop_last());
        if has_task(tasks, list.last()) { rest.push(task_at(tasks, list.last())) } else { rest }
    }
}

/// Places of those of the first `n` tasks that a list names, in the order of creation.
pub open spec fn places_of(tasks: Seq<Task>, n: int, list: Seq<Seq<char>>) -> Seq<int>
    decreases n,
{
    if n <= 0 {
        Seq::empty()
    } else {
        let rest = places_of(tasks, n - 1, list);
        if list.contains(tasks[n - 1].gid@) { rest.push(n - 1) } else { rest }
    }
}

/// Places of the paused ones of the first `n` tasks, in the order of creation.
pub open spec fn paused_places(tasks: Seq<Task>, n: int) -> Seq<int>
    decreases n,
{
    if n <= 0 {
        Seq::empty()
    } else {
        let rest = paused_places(tasks, n - 1);
        if tasks[n - 1].shared.status is Paused { rest.push(n - 1) } else { rest }
    }
}

/// The part of a list from `offset` on, at most `num` entries; all if `num` is negative.
pub open spec fn slice_of(s: Seq<int>, offset: int, num: int) -> Seq<int> {
    let start = if offset > 0 { offset } else { 0 };
    if start >= s.len() {
        Seq::empty()
    } else {
        let end = if num < 0 || start + num > s.len() { s.len() as int } else { start + num };
        s.subrange(start, end)
    }
}

/// Some tasks as they are shown.
pub open spec fn rows(
    tasks: Seq<Task>,
    ids: Seq<int>,
    now: u64,
    native: bool,
    keys: Option<Seq<Seq<char>>>,
) -> Seq<JsonView> {
    Seq::new(
        ids.len(),
        |i: int|
            filtered(
                if native {
                    native_view(tasks[ids[i]], now)
                } else {
                    status_view(tasks[ids[i]], now)
                },
                keys,
            ),
    )
}

/// Sum of the speeds of some tasks, wrapped to 64 bits.
pub open spec fn speed_sum(tasks: Seq<Task>, ids: Seq<int>, upload: bool) -> int
    decreases ids.len(),
{
    if ids.len() == 0 {
        0
    } else {
        let t = tasks[ids.last()];
        wrap_add(
            speed_sum(tasks, ids.drop_last(), upload),
            if upload { t.upload_speed_now() as int } else { t.speed_now() as int },
        )
    }
}

/// Figures over all tasks.
pub struct GlobalStat {
    pub speed: u64,
    pub upload: u64,
    pub active: usize,
    pub waiting: usize,
    pub stopped: usize,
    pub stopped_total: u64,
}

/// Figures over all tasks as they are shown.
pub open spec fn stat_view(s: GlobalStat, native: bool) -> JsonView {
    let num = |n: int| crate::status::num_view(n, native);
    JsonView::Obj(
        seq![
            ("downloadSpeed"@, num(s.speed as int)),
            ("uploadSpeed"@, num(s.upload as int)),
            ("numActive"@, num(s.active as int)),
            ("numWaiting"@, num(s.waiting as int)),
            ("numStopped"@, num(s.stopped as int)),
            ("numStoppedTotal"@, num(s.stopped_total as int)),
        ],
    )
}

fn stat_num(n: u64, native: bool) -> (r: Json)
    ensures
        r@ == crate::status::num_view(n as int, native),
{
    if native {
        Json::Unsigned(n)
    } else {
        Json::Str(dec_string(n))
    }
}

fn show_stat(s: &GlobalStat, native: bool) -> (r: Json)
    ensures
        r@ == stat_view(*s, native),
{
    let mut b = ObjectBuilder::new();
    b.put("downloadSpeed", stat_num(s.speed, native));
    b.put("uploadSpeed", stat_num(s.upload, native));
    b.put("numActive", stat_num(s.active as u64, native));
    b.put("numWaiting", stat_num(s.waiting as u64, native));
    b.put("numStopped", stat_num(s.stopped as u64, native));
    b.put("numStoppedTotal", stat_num(s.stopped_total, native));
    assert(b@ =~= stat_view(*s, native)->Obj_0);
    b.done()
}

/// Tasks that a list query speaks of.
#[derive(Clone, Copy, PartialEq, Eq, Structural)]
pub enum Scope {
    Active,
    Waiting,
    Stopped,
    All,
    /// No scope of that name.
    Nothing,
}

/// The scope that a text names.
pub open spec fn scope_of(s: Seq<char>) -> Scope {
    if s == "active"@ {
        Scope::Active
    } else if s == "waiting"@ {
        Scope::Waiting
    } else if s == "stopped"@ {
        Scope::Stopped
    } else if s == "all"@ {
        Scope::All
    } else {
        Scope::Nothing
    }
}

/// The scope that a text names.
pub fn parse_scope(s: &str) -> (r: Scope)
    ensures
        r == scope_of(s@),
{
    if same_str(s, "active") {
        Scope::Active
    } else if same_str(s, "waiting") {
        Scope::Waiting
    } else if same_str(s, "stopped") {
        Scope::Stopped
    } else if same_str(s, "all") {
        Scope::All
    } else {
        Scope::Nothing
    }
}

fn append(v: &mut Vec<usize>, w: &Vec<usize>)
    ensures
        ints(final(v)@) == ints(old(v)@) + ints(w@),
{
    let ghost start = v@;
    let mut i: usize = 0;
    assert(ints(start) + ints(w@).take(0) =~= ints(start));
    while i < w.len()
        invariant
            i <= w@.len(),
            ints(v@) == ints(start) + ints(w@).take(i as int),
        decreases w@.len() - i,
    {
        let ghost before = v@;
        v.push(w[i]);
        proof {
            assert(ints(v@) =~= ints(before).push(w@[i as int] as int));
            assert((ints(start) + ints(w@).take(i as int)).push(ints(w@)[i as int]) =~= ints(start)
                + ints(w@).take(i + 1));
        }
        i = i + 1;
    }
    assert(ints(w@).take(i as int) =~= ints(w@));
}

impl TaskManager {
    /// Running tasks in the order of creation.
    pub open spec fn active_places(&self) -> Seq<int> {
        places_of(self.tasks@, self.tasks@.len() as int, string_texts(self.active@))
    }

    /// Waiting tasks in the order of the queue.
    pub open spec fn waiting_places(&self) -> Seq<int> {
        places(self.tasks@, string_texts(self.queue@))
    }

    /// Stopped tasks, the latest first.
    pub open spec fn stopped_places(&self) -> Seq<int> {
        places(self.tasks@, string_texts(self.stopped_order@).reverse())
    }

    /// The tasks of a scope in the order in which they are shown. Paused tasks count as
    /// stopped.
    pub open spec fn scope_places(&self, scope: Scope) -> Seq<int> {
        let a = if scope is Active || scope is All {
            self.active_places()
        } else {
            Seq::empty()
        };
        let w = if scope is Waiting || scope is All {
            self.waiting_places()
        } else {
            Seq::empty()
        };
        let s = if scope is Stopped || scope is All {
            paused_places(self.tasks@, self.tasks@.len() as int) + self.stopped_places()
        } else {
            Seq::empty()
        };
        a + w + s
    }

    fn list_active(&self) -> (r: Vec<usize>)
        ensures
            ints(r@) == self.active_places(),
            forall|i: int| 0 <= i < r@.len() ==> (#[trigger] r@[i]) < self.tasks@.len(),
    {
        let mut out: Vec<usize> = Vec::new();
        let mut i: usize = 0;
        assert(ints(out@) =~= Seq::<int>::empty());
        while i < self.tasks.len()
            invariant
                i <= self.tasks@.len(),
                ints(out@) == places_of(self.tasks@, i as int, string_texts(self.active@)),
                forall|k: int| 0 <= k < out@.len() ==> (#[trigger] out@[k]) < self.tasks@.len(),
            decreases self.tasks@.len() - i,
        {
            let ghost before = out@;
            if holds(&self.active, self.tasks[i].gid.as_str()) {
                out.push(i);
                assert(ints(out@) =~= ints(before).push(i as int));
            }
            i = i + 1;
        }
        out
    }

    fn list_paused(&self) -> (r: Vec<usize>)
        ensures
            ints(r@) == paused_places(self.tasks@, self.tasks@.len() as int),
            forall|i: int| 0 <= i < r@.len() ==> (#[trigger] r@[i]) < self.tasks@.len(),
    {
        let mut out: Vec<usize> = Vec::new();
        let mut i: usize = 0;
        assert(ints(out@) =~= Seq::<int>::empty());
        while i < self.tasks.len()
            invariant
                i <= self.tasks@.len(),
                ints(out@) == paused_places(self.tasks@, i as int),
                forall|k: int| 0 <= k < out@.len() ==> (#[trigger] out@[k]) < self.tasks@.len(),
            decreases self.tasks@.len() - i,
        {
            let ghost before = out@;
            if self.tasks[i].status() == Status::Paused {
                out.push(i);
                assert(ints(out@) =~= ints(before).push(i as int));
            }
            i = i + 1;
        }
        out
    }

    fn list_named(&self, list: &Vec<String>, reversed: bool) -> (r: Vec<usize>)
        ensures
            ints(r@) == places(
                self.tasks@,
                if reversed { string_texts(list@).reverse() } else { string_texts(list@) },
            ),
            forall|i: int| 0 <= i < r@.len() ==> (#[trigger] r@[i]) < self.tasks@.len(),
    {
        let ghost all = if reversed { string_texts(list@).reverse() } else { string_texts(list@) };
        let n: usize = list.len();
        let mut out: Vec<usize> = Vec::new();
        let mut i: usize = 0;
        assert(ints(out@) =~= Seq::<int>::empty());
        assert(all.take(0) =~= Seq::<Seq<char>>::empty());
        while i < n
            invariant
                i <= n,
                n == list@.len(),
                all == if reversed { string_texts(list@).reverse() } else { string_texts(list@) },
                ints(out@) == places(self.tasks@, all.take(i as int)),
                forall|k: int| 0 <= k < out@.len() ==> (#[trigger] out@[k]) < self.tasks@.len(),
            decreases n - i,
        {
            let ghost before = out@;
            let at: usize = if reversed { n - 1 - i } else { i };
            proof {
                assert(all.take(i + 1).drop_last() =~= all.take(i as int));
                assert(all.take(i + 1).last() == list@[at as int]@);
            }
            match self.find(list[at].as_str()) {
                Some(k) => {
                    out.push(k);
                    assert(ints(out@) =~= ints(before).push(k as int));
                },
                None => {},
            }
            i = i + 1;
        }
        assert(all.take(i as int) =~= all);
        out
    }

    fn show_rows(
        &self,
        ids: &Vec<usize>,
        offset: i64,
        num: i64,
        keys: Option<&Vec<String>>,
        now: u64,
        native: bool,
    ) -> (r: Json)
        requires
            self.wf(),
            forall|i: int| 0 <= i < ids@.len() ==> (#[trigger] ids@[i]) < self.tasks@.len(),
        ensures
            r@ == JsonView::Arr(
                rows(
                    self.tasks@,
                    slice_of(ints(ids@), offset as int, num as int),
                    now,
                    native,
                    opt_texts(keys),
                ),
            ),
    {
        let ghost part = slice_of(ints(ids@), offset as int, num as int);
        let n: usize = ids.len();
        let start: u64 = if offset > 0 { offset as u64 } else { 0 };
        let mut out: Vec<Json> = Vec::new();
        if start >= n as u64 {
            assert(json_views(out@) =~= rows(self.tasks@, part, now, native, opt_texts(keys)));
            return Json::array(out);
        }
        let left: u64 = n as u64 - start;
        let end: usize = if num < 0 || num as u64 > left { n } else { (start + num as u64) as usize };
        let first: usize = start as usize;
        let mut i: usize = first;
        while i < end
            invariant
                first <= i <= end,
                end <= n,
                n == ids@.len(),
                self.wf(),
                part == ints(ids@).subrange(first as int, end as int),
                forall|k: int| 0 <= k < ids@.len() ==> (#[trigger] ids@[k]) < self.tasks@.len(),
                out@.len() == i - first,
                forall|k: int|
                    0 <= k < i - first ==> (#[trigger] out@[k])@ == filtered(
                        if native {
                            native_view(self.tasks@[part[k]], now)
                        } else {
                            status_view(self.tasks@[part[k]], now)
                        },
                        opt_texts(keys),
                    ),
            decreases end - i,
        {
            let at: usize = ids[i];
            assert(part[i - first] == at);
            assert(task_fine(self.tasks@[at as int]));
            let t = &self.tasks[at];
            let v = if native { status_json_native(t, now) } else { status_json(t, now) };
            out.push(filter_keys(v, keys));
            i = i + 1;
        }
        assert(json_views(out@) =~= rows(self.tasks@, part, now, native, opt_texts(keys)));
        Json::array(out)
    }

    /// One task, with every number as text.
    pub fn tell_status(&self, gid: &str, keys: Option<&Vec<String>>, now: u64) -> (r: Result<Json, String>)
        requires
            self.wf(),
        ensures
            if has_task(self.tasks@, gid@) {
                r is Ok && r->Ok_0@ == filtered(
                    status_view(self.tasks@[task_at(self.tasks@, gid@)], now),
                    opt_texts(keys),
                )
            } else {
                fails(r, unknown_gid(gid@))
            },
    {
        match self.task_of(gid) {
            Ok(k) => {
                assert(task_fine(self.tasks@[k as int]));
                Ok(filter_keys(status_json(&self.tasks[k], now), keys))
            },
            Err(e) => Err(e),
        }
    }

    /// One task, with numbers as numbers.
    pub fn tell_status_native(&self, gid: &str, keys: Option<&Vec<String>>, now: u64) -> (r: Result<
        Json,
        String,
    >)
        requires
            self.wf(),
        ensures
            if has_task(self.tasks@, gid@) {
                r is Ok && r->Ok_0@ == filtered(
                    native_view(self.tasks@[task_at(self.tasks@, gid@)], now),
                    opt_texts(keys),
                )
            } else {
                fails(r, unknown_gid(gid@))
            },
    {
        match self.task_of(gid) {
            Ok(k) => {
                assert(task_fine(self.tasks@[k as int]));
                Ok(filter_keys(status_json_native(&self.tasks[k], now), keys))
            },
            Err(e) => Err(e),
        }
    }

    /// State, finished bytes, length and speed of a task.
    pub fn progress_snapshot(&self, gid: &str) -> (r: Option<(Status, u64, u64, u64)>)
        ensures
            r == if has_task(self.tasks@, gid@) {
                let t = self.tasks@[task_at(self.tasks@, gid@)];
                Some((t.shared.status, t.completed_now(), total_or_zero(t), t.speed_now()))
            } else {
                None
            },
    {
        match self.find(gid) {
            Some(k) => {
                let t = &self.tasks[k];
                let total: u64 = match t.shared.total_len {
                    Some(n) => n,
                    None => 0,
                };
                Some((t.status(), t.completed_live(), total, t.speed_live()))
            },
            None => None,
        }
    }

    /// The running tasks.
    pub fn tell_active(&self, keys: Option<&Vec<String>>, now: u64) -> (r: Json)
        requires
            self.wf(),
        ensures
            r@ == JsonView::Arr(
                rows(
                    self.tasks@,
                    slice_of(self.active_places(), 0, -1),
                    now,
                    false,
                    opt_texts(keys),
                ),
            ),
    {
        let ids = self.list_active();
        self.show_rows(&ids, 0, -1, keys, now, false)
    }

    /// Waiting tasks, the next one first.
    pub fn tell_waiting(&self, offset: i64, num: i64, keys: Option<&Vec<String>>, now: u64) -> (r: Json)
        requires
            self.wf(),
        ensures
            r@ == JsonView::Arr(
                rows(
                    self.tasks@,
                    slice_of(self.waiting_places(), offset as int, num as int),
                    now,
                    false,
                    opt_texts(keys),
                ),
            ),
    {
        let ids = self.list_named(&self.queue, false);
        self.show_rows(&ids, offset, num, keys, now, false)
    }

    /// Stopped tasks, the latest first.
    pub fn tell_stopped(&self, offset: i64, num: i64, keys: Option<&Vec<String>>, now: u64) -> (r: Json)
        requires
            self.wf(),
        ensures
            r@ == JsonView::Arr(
                rows(
                    self.tasks@,
                    slice_of(self.stopped_places(), offset as int, num as int),
                    now,
                    false,
                    opt_texts(keys),
                ),
            ),
    {
        let ids = self.list_named(&self.stopped_order, true);
        self.show_rows(&ids, offset, num, keys, now, false)
    }

    /// The tasks of a scope.
    pub fn list_native(
        &self,
        scope: &str,
        offset: i64,
        num: i64,
        keys: Option<&Vec<String>>,
        now: u64,
    ) -> (r: Json)
        requires
            self.wf(),
        ensures
            r@ == JsonView::Arr(
                rows(
                    self.tasks@,
                    slice_of(self.scope_places(scope_of(scope@)), offset as int, num as int),
                    now,
                    true,
                    opt_texts(keys),
                ),
            ),
    {
        let sc = parse_scope(scope);
        let mut ids: Vec<usize> = Vec::new();
        assert(ints(ids@) =~= Seq::<int>::empty());
        if sc == Scope::Active || sc == Scope::All {
            ids = self.list_active();
        }
        let ghost a = ints(ids@);
        let ghost mut w = Seq::<int>::empty();
        let ghost mut s = Seq::<int>::empty();
        if sc == Scope::Waiting || sc == Scope::All {
            let q = self.list_named(&self.queue, false);
            let ghost before = ids@;
            append(&mut ids, &q);
            proof {
                w = ints(q@);
                lemma_places_in(before, q@, ids@, self.tasks@.len() as int);
            }
        }
        assert(ints(ids@) =~= a + w);
        if sc == Scope::Stopped || sc == Scope::All {
            let p = self.list_paused();
            let st = self.list_named(&self.stopped_order, true);
            let ghost before = ids@;
            append(&mut ids, &p);
            proof {
                lemma_places_in(before, p@, ids@, self.tasks@.len() as int);
            }
            let ghost mid = ids@;
            append(&mut ids, &st);
            proof {
                lemma_places_in(mid, st@, ids@, self.tasks@.len() as int);
                s = ints(p@) + ints(st@);
            }
        }
        assert(ints(ids@) =~= a + w + s);
        assert(ints(ids@) =~= self.scope_places(sc));
        self.show_rows(&ids, offset, num, keys, now, true)
    }

    /// The figures over all tasks.
    pub open spec fn stat(&self) -> GlobalStat {
        GlobalStat {
            speed: speed_sum(self.tasks@, self.active_places(), false) as u64,
            upload: speed_sum(self.tasks@, self.active_places(), true) as u64,
            active: self.active@.len() as usize,
            waiting: self.queue@.len() as usize,
            stopped: self.stopped_order@.len() as usize,
            stopped_total: self.stopped_total,
        }
    }

    fn stat_raw(&self) -> (r: GlobalStat)
        ensures
            r == self.stat(),
    {
        let ids = self.list_active();
        let ghost all = ints(ids@);
        let mut speed: u64 = 0;
        let mut upload: u64 = 0;
        let mut i: usize = 0;
        assert(all.take(0) =~= Seq::<int>::empty());
        while i < ids.len()
            invariant
                i <= ids@.len(),
                all == ints(ids@),
                forall|k: int| 0 <= k < ids@.len() ==> (#[trigger] ids@[k]) < self.tasks@.len(),
                speed == speed_sum(self.tasks@, all.take(i as int), false),
                upload == speed_sum(self.tasks@, all.take(i as int), true),
            decreases ids@.len() - i,
        {
            proof {
                assert(all.take(i + 1).drop_last() =~= all.take(i as int));
                assert(all.take(i + 1).last() == ids@[i as int]);
            }
            let t = &self.tasks[ids[i]];
            speed = speed.wrapping_add(t.speed_live());
            upload = upload.wrapping_add(t.upload_speed_live());
            i = i + 1;
        }
        assert(all.take(i as int) =~= all);
        GlobalStat {
            speed,
            upload,
            active: self.active.len(),
            waiting: self.queue.len(),
            stopped: self.stopped_order.len(),
            stopped_total: self.stopped_total,
        }
    }

    /// The figures over all tasks, as text.
    pub fn global_stat(&self) -> (r: Json)
        ensures
            r@ == stat_view(self.stat(), false),
    {
        show_stat(&self.stat_raw(), false)
    }

    /// The figures over all tasks, as numbers.
    pub fn global_stat_native(&self) -> (r: Json)
        ensures
            r@ == stat_view(self.stat(), true),
    {
        show_stat(&self.stat_raw(), true)
    }

    /// The files of a task.
    pub fn get_files(&self, gid: &str) -> (r: Result<Json, String>)
        requires
            self.wf(),
        ensures
            if has_task(self.tasks@, gid@) {
                r is Ok && r->Ok_0@ == JsonView::Arr(
                    files_view(self.tasks@[task_at(self.tasks@, gid@)], false),
                )
            } else {
                fails(r, unknown_gid(gid@))
            },
    {
        match self.task_of(gid) {
            Ok(k) => {
                assert(task_fine(self.tasks@[k as int]));
                Ok(Json::array(show_files(&self.tasks[k], false)))
            },
            Err(e) => Err(e),
        }
    }

    /// The addresses of a task; none of a BitTorrent task.
    pub fn get_uris(&self, gid: &str) -> (r: Result<Json, String>)
        ensures
            if has_task(self.tasks@, gid@) {
                let t = self.tasks@[task_at(self.tasks@, gid@)];
                r is Ok && r->Ok_0@ == JsonView::Arr(
                    if t.is_bt_spec() { Seq::empty() } else { uris_view(t) },
                )
            } else {
                fails(r, unknown_gid(gid@))
            },
    {
        match self.task_of(gid) {
            Ok(k) => {
                if self.tasks[k].is_bt() {
                    let none: Vec<Json> = Vec::new();
                    assert(json_views(none@) =~= Seq::<JsonView>::empty());
                    return Ok(Json::array(none));
                }
                Ok(Json::array(crate::status::show_uris(&self.tasks[k])))
            },
            Err(e) => Err(e),
        }
    }

    /// The peers of a BitTorrent task.
    pub fn get_peers(&self, gid: &str) -> (r: Result<Json, String>)
        ensures
            if has_task(self.tasks@, gid@) {
                let t = self.tasks@[task_at(self.tasks@, gid@)];
                if t.is_bt_spec() {
                    r is Ok && r->Ok_0@ == peers_view(t.bt_peers@)
                } else {
                    fails(r, "非 BT 任务，无 peer 信息"@)
                }
            } else {
                fails(r, unknown_gid(gid@))
            },
    {
        match self.task_of(gid) {
            Ok(k) => {
                if !self.tasks[k].is_bt() {
                    return Err("非 BT 任务，无 peer 信息".to_owned());
                }
                Ok(show_peers(&self.tasks[k].bt_peers))
            },
            Err(e) => Err(e),
        }
    }

    /// Whether there is a BitTorrent task of that name.
    pub fn is_bt_task(&self, gid: &str) -> (r: bool)
        ensures
            r == (has_task(self.tasks@, gid@) && self.tasks@[task_at(
                self.tasks@,
                gid@,
            )].is_bt_spec()),
    {
        match self.find(gid) {
            Some(k) => self.tasks[k].is_bt(),
            None => false,
        }
    }
}

proof fn lemma_places_in(a: Seq<usize>, b: Seq<usize>, c: Seq<usize>, n: int)
    requires
        ints(c) == ints(a) + ints(b),
        forall|i: int| 0 <= i < a.len() ==> (#[trigger] a[i]) < n,
        forall|i: int| 0 <= i < b.len() ==> (#[trigger] b[i]) < n,
    ensures
        forall|i: int| 0 <= i < c.len() ==> (#[trigger] c[i]) < n,
{
    assert(ints(c).len() == c.len());
    assert forall|i: int| 0 <= i < c.len() implies (#[trigger] c[i]) < n by {
        assert(ints(c)[i] == c[i]);
        if i < a.len() {
            assert((ints(a) + ints(b))[i] == ints(a)[i]);
            assert(a[i] < n);
        } else {
            assert((ints(a) + ints(b))[i] == ints(b)[i - a.len()]);
            assert(b[i - a.len()] < n);
        }
    }
}

// ---------------------------------------------------------------------------
// What lists hold
// ---------------------------------------------------------------------------

/// A page of a list begins at the offset and has as many entries as are asked for, as far as
/// there are so many; a negative number asks for all, and a negative offset for the start.
pub proof fn law_page_of_a_list(s: Seq<int>, offset: int, num: int, i: int)
    ensures
        ({
            let r = slice_of(s, offset, num);
            let start = if offset < 0 { 0 } else { offset };
            let left = if start < s.len() { s.len() - start } else { 0 };
            &&& r.len() == if num < 0 || num > left { left } else { num }
            &&& (0 <= i < r.len() ==> r[i] == s[start + i])
        }),
{
}

/// Pages that follow each other make up the list.
pub proof fn law_pages_make_up_the_list(s: Seq<int>, n: int)
    requires
        0 <= n,
    ensures
        slice_of(s, 0, n) + slice_of(s, n, -1) == s,
        slice_of(s, 0, -1) == s,
{
    assert(slice_of(s, 0, n) + slice_of(s, n, -1) =~= s);
    assert(slice_of(s, 0, -1) =~= s);
}

proof fn lemma_places_of(tasks: Seq<Task>, n: int, list: Seq<Seq<char>>, k: int)
    requires
        0 <= n <= tasks.len(),
    ensures
        places_of(tasks, n, list).contains(k) <==> 0 <= k < n && list.contains(tasks[k].gid@),
        forall|i: int, j: int|
            0 <= i < j < places_of(tasks, n, list).len() ==> places_of(tasks, n, list)[i] < places_of(
                tasks,
                n,
                list,
            )[j],
        forall|i: int|
            0 <= i < places_of(tasks, n, list).len() ==> 0 <= #[trigger] places_of(tasks, n, list)[i] < n,
    decreases n,
{
    if n > 0 {
        lemma_places_of(tasks, n - 1, list, k);
        let rest = places_of(tasks, n - 1, list);
        let all = places_of(tasks, n, list);
        if list.contains(tasks[n - 1].gid@) {
            assert(all == rest.push(n - 1));
            assert(all[rest.len() as int] == n - 1);
            if rest.contains(k) {
                let i = choose|i: int| 0 <= i < rest.len() && rest[i] == k;
                assert(all[i] == k);
            }
            if all.contains(k) && k != n - 1 {
                let i = choose|i: int| 0 <= i < all.len() && all[i] == k;
                assert(rest[i] == k);
            }
        }
    }
}

/// The list of active tasks has exactly the active ones, in the order of creation.
pub proof fn law_active_list_has_the_active_tasks(m: TaskManager, k: int)
    requires
        m.wf(),
        0 <= k < m.tasks@.len(),
    ensures
        m.active_places().contains(k) <==> m.tasks@[k].shared.status is Active,
        forall|i: int, j: int|
            0 <= i < j < m.active_places().len() ==> m.active_places()[i] < m.active_places()[j],
{
    lemma_places_of(m.tasks@, m.tasks@.len() as int, string_texts(m.active@), k);
}

proof fn lemma_places(tasks: Seq<Task>, list: Seq<Seq<char>>, k: int)
    requires
        crate::manager::names_differ(tasks),
        0 <= k < tasks.len(),
    ensures
        places(tasks, list).contains(k) <==> list.contains(tasks[k].gid@),
    decreases list.len(),
{
    if list.len() > 0 {
        let front = list.drop_last();
        let g = list.last();
        lemma_places(tasks, front, k);
        crate::manager::lemma_task_at(tasks, g);
        let rest = places(tasks, front);
        let all = places(tasks, list);
        assert(list.contains(tasks[k].gid@) <==> front.contains(tasks[k].gid@) || g == tasks[k].gid@) by {
            if list.contains(tasks[k].gid@) {
                let i = choose|i: int| 0 <= i < list.len() && list[i] == tasks[k].gid@;
                if i < front.len() {
                    assert(front[i] == tasks[k].gid@);
                }
            }
            if front.contains(tasks[k].gid@) {
                let i = choose|i: int| 0 <= i < front.len() && front[i] == tasks[k].gid@;
                assert(list[i] == tasks[k].gid@);
            }
            assert(list[list.len() - 1] == g);
        }
        if g == tasks[k].gid@ {
            assert(crate::manager::is_named(tasks, g));
            let t = task_at(tasks, g);
            if t < k {
                assert(tasks[t].gid@ != tasks[k].gid@);
            }
            if k < t {
                assert(tasks[k].gid@ != tasks[t].gid@);
            }
            assert(all[all.len() - 1] == k);
        } else {
            if has_task(tasks, g) {
                assert(task_at(tasks, g) != k);
            }
            if rest.contains(k) {
                let i = choose|i: int| 0 <= i < rest.len() && rest[i] == k;
                assert(all[i] == k);
            }
            if all.contains(k) {
                let i = choose|i: int| 0 <= i < all.len() && all[i] == k;
                assert(i < rest.len());
                assert(rest[i] == k);
            }
        }
    }
}

/// The list of waiting tasks has every task that waits, and shows the queue in its order.
pub proof fn law_waiting_list_shows_the_queue(m: TaskManager, k: int)
    requires
        m.wf(),
        0 <= k < m.tasks@.len(),
    ensures
        m.tasks@[k].shared.status is Waiting ==> m.waiting_places().contains(k),
        m.waiting_places().contains(k) <==> string_texts(m.queue@).contains(m.tasks@[k].gid@),
        (forall|i: int| 0 <= i < m.queue@.len() ==> has_task(m.tasks@, #[trigger] m.queue@[i]@))
            ==> m.waiting_places().len() == m.queue@.len() && forall|i: int|
            0 <= i < m.queue@.len() ==> m.tasks@[#[trigger] m.waiting_places()[i]].gid@ == m.queue@[i]@,
{
    lemma_places(m.tasks@, string_texts(m.queue@), k);
    if forall|i: int| 0 <= i < m.queue@.len() ==> has_task(m.tasks@, #[trigger] m.queue@[i]@) {
        let list = string_texts(m.queue@);
        assert forall|i: int| 0 <= i < list.len() implies has_task(m.tasks@, #[trigger] list[i]) by {
            assert(has_task(m.tasks@, m.queue@[i]@));
        }
        lemma_places_in_order(m.tasks@, list);
    }
}

proof fn lemma_places_in_order(tasks: Seq<Task>, list: Seq<Seq<char>>)
    requires
        forall|i: int| 0 <= i < list.len() ==> has_task(tasks, #[trigger] list[i]),
    ensures
        places(tasks, list).len() == list.len(),
        forall|i: int|
            0 <= i < list.len() ==> 0 <= #[trigger] places(tasks, list)[i] < tasks.len() && tasks[places(
                tasks,
                list,
            )[i]].gid@ == list[i],
    decreases list.len(),
{
    if list.len() > 0 {
        let front = list.drop_last();
        assert forall|i: int| 0 <= i < front.len() implies has_task(tasks, #[trigger] front[i]) by {
            assert(front[i] == list[i]);
        }
        lemma_places_in_order(tasks, front);
        assert(has_task(tasks, list[list.len() - 1]));
        crate::manager::lemma_task_at(tasks, list.last());
        let all = places(tasks, list);
        assert forall|i: int| 0 <= i < list.len() implies 0 <= #[trigger] all[i] < tasks.len()
            && tasks[all[i]].gid@ == list[i] by {
            if i < front.len() {
                assert(all[i] == places(tasks, front)[i]);
                assert(front[i] == list[i]);
            }
        }
    }
}

/// The list of stopped tasks has every task that is over, the latest first.
pub proof fn law_stopped_list_shows_the_latest_first(m: TaskManager, k: int)
    requires
        m.wf(),
        0 <= k < m.tasks@.len(),
    ensures
        crate::task::is_final(m.tasks@[k].shared.status) ==> m.stopped_places().contains(k),
        (forall|i: int|
            0 <= i < m.stopped_order@.len() ==> has_task(m.tasks@, #[trigger] m.stopped_order@[i]@))
            ==> m.stopped_places().len() == m.stopped_order@.len() && forall|i: int|
            0 <= i < m.stopped_order@.len() ==> m.tasks@[#[trigger] m.stopped_places()[i]].gid@
                == m.stopped_order@[m.stopped_order@.len() - 1 - i]@,
{
    let st = string_texts(m.stopped_order@);
    let list = st.reverse();
    lemma_places(m.tasks@, list, k);
    let n = st.len() as int;
    if crate::task::is_final(m.tasks@[k].shared.status) {
        assert(st.contains(m.tasks@[k].gid@));
        let i = choose|i: int| 0 <= i < st.len() && st[i] == m.tasks@[k].gid@;
        assert(list[n - 1 - i] == m.tasks@[k].gid@);
    }
    if forall|i: int|
        0 <= i < m.stopped_order@.len() ==> has_task(m.tasks@, #[trigger] m.stopped_order@[i]@) {
        assert forall|i: int| 0 <= i < list.len() implies has_task(m.tasks@, #[trigger] list[i]) by {
            assert(has_task(m.tasks@, m.stopped_order@[n - 1 - i]@));
        }
        lemma_places_in_order(m.tasks@, list);
    }
}

proof fn lemma_paused_places(tasks: Seq<Task>, n: int, k: int)
    requires
        0 <= n <= tasks.len(),
    ensures
        paused_places(tasks, n).contains(k) <==> 0 <= k < n && tasks[k].shared.status is Paused,
    decreases n,
{
    if n > 0 {
        lemma_paused_places(tasks, n - 1, k);
        let rest = paused_places(tasks, n - 1);
        let all = paused_places(tasks, n);
        if tasks[n - 1].shared.status is Paused {
            assert(all[rest.len() as int] == n - 1);
            if rest.contains(k) {
                let i = choose|i: int| 0 <= i < rest.len() && rest[i] == k;
                assert(all[i] == k);
            }
            if all.contains(k) && k != n - 1 {
                let i = choose|i: int| 0 <= i < all.len() && all[i] == k;
                assert(rest[i] == k);
            }
        }
    }
}

/// The list of all tasks has every task that is active, waits, is paused or is over.
pub proof fn law_list_of_all_has_every_task(m: TaskManager, k: int)
    requires
        m.wf(),
        0 <= k < m.tasks@.len(),
        !(m.tasks@[k].shared.status is Seeding),
    ensures
        m.scope_places(scope_of("all"@)).contains(k),
{
    reveal_strlit("active");
    reveal_strlit("waiting");
    reveal_strlit("stopped");
    reveal_strlit("all");
    assert("active"@.len() == 6 && "waiting"@.len() == 7 && "stopped"@.len() == 7 && "all"@.len() == 3);
    let n = m.tasks@.len() as int;
    law_active_list_has_the_active_tasks(m, k);
    law_waiting_list_shows_the_queue(m, k);
    law_stopped_list_shows_the_latest_first(m, k);
    lemma_paused_places(m.tasks@, n, k);
    let a = m.active_places();
    let w = m.waiting_places();
    let p = paused_places(m.tasks@, n);
    let s = m.stopped_places();
    let all = a + w + (p + s);
    assert(m.scope_places(scope_of("all"@)) == all);
    if a.contains(k) {
        let i = choose|i: int| 0 <= i < a.len() && a[i] == k;
        assert(all[i] == k);
    } else if w.contains(k) {
        let i = choose|i: int| 0 <= i < w.len() && w[i] == k;
        assert(all[a.len() + i] == k);
    } else if p.contains(k) {
        let i = choose|i: int| 0 <= i < p.len() && p[i] == k;
        assert(all[a.len() + w.len() + i] == k);
    } else {
        let i = choose|i: int| 0 <= i < s.len() && s[i] == k;
        assert(all[a.len() + w.len() + p.len() + i] == k);
    }
}

} // verus!
