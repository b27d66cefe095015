//! Requests about trackers: global ones, those of a task, and subscriptions.

use vstd::prelude::*;

use crate::json::{json_views, Json, JsonView, ObjectBuilder};
use crate::lists::{take_out, unique_keys, without};
use crate::manager::{
    fails, has_task, is_active, is_over, is_waiting, lists_all, lists_those, sound, task_at, task_fine,
    unknown_gid, Effect, TaskManager,
};
use crate::manifest::{pair_texts, string_texts};
use crate::task::{is_final, Task};
use crate::text::{chars_of, has_prefix, joined, same_str, starts_with, string_of, trim, trimmed};
use crate::torrent::{all_trackers, merge_trackers, put_texts, with_texts};
use crate::trackers::{
    dropped, entry_views, synced, withdrawn, EntryView, TrackerBook, TrackerSubscription,
};

verus! {

/// A subscription is refreshed again after this time, in seconds.
pub const SUBSCRIPTION_TTL: u64 = 86_400;

/// Whether a task takes part in changes of the global trackers.
pub open spec fn takes_trackers(t: Task) -> bool {
    !is_final(t.shared.status) && t.is_bt_spec()
}

/// Whether tasks differ in nothing but that live BitTorrent tasks have some trackers
/// more.
pub open spec fn gained_trackers(a: Seq<Task>, b: Seq<Task>, list: Seq<Seq<char>>) -> bool {
    &&& a.len() == b.len()
    &&& forall|i: int|
        0 <= i < a.len() ==> {
            &&& #[trigger] b[i] == (Task { bt_trackers: b[i].bt_trackers, ..a[i] })
            &&& if takes_trackers(a[i]) {
                string_texts(b[i].bt_trackers@) == with_texts(
                    string_texts(a[i].bt_trackers@),
                    list,
                )
            } else {
                b[i] == a[i]
            }
        }
}

/// Whether tasks differ in nothing but that live BitTorrent tasks lost a tracker.
pub open spec fn lost_tracker(a: Seq<Task>, b: Seq<Task>, url: Seq<char>) -> bool {
    &&& a.len() == b.len()
    &&& forall|i: int|
        0 <= i < a.len() ==> {
            &&& #[trigger] b[i] == (Task { bt_trackers: b[i].bt_trackers, ..a[i] })
            &&& if takes_trackers(a[i]) {
                string_texts(b[i].bt_trackers@) == without(string_texts(a[i].bt_trackers@), url)
            } else {
                b[i] == a[i]
            }
        }
}

/// Soundness does not depend on trackers.
pub proof fn lemma_sound_same(
    a: Seq<Task>,
    b: Seq<Task>,
    queue: Seq<Seq<char>>,
    active: Seq<Seq<char>>,
    stopped: Seq<Seq<char>>,
)
    requires
        sound(a, queue, active, stopped),
        a.len() == b.len(),
        forall|i: int|
            0 <= i < a.len() ==> (#[trigger] b[i]).gid == a[i].gid && b[i].shared.status
                == a[i].shared.status && b[i].shared.active_since == a[i].shared.active_since && b[i].wf()
                && unique_keys(pair_texts(b[i].options@)),
    ensures
        sound(b, queue, active, stopped),
{
    assert forall|i: int| 0 <= i < b.len() implies task_fine(#[trigger] b[i]) by {
        assert(task_fine(a[i]));
    }
    assert forall|i: int, j: int| 0 <= i < j < b.len() implies (#[trigger] b[i]).gid@ != (
    #[trigger] b[j]).gid@ by {
        assert(a[i].gid@ != a[j].gid@);
    }
    lemma_lists_same(a, b, active, is_active());
    lemma_lists_same(a, b, stopped, is_over());
    lemma_lists_same(a, b, queue, is_waiting());
}

proof fn lemma_lists_same(
    a: Seq<Task>,
    b: Seq<Task>,
    list: Seq<Seq<char>>,
    pred: spec_fn(crate::task::Status) -> bool,
)
    requires
        a.len() == b.len(),
        forall|i: int|
            0 <= i < a.len() ==> (#[trigger] b[i]).gid == a[i].gid && b[i].shared.status
                == a[i].shared.status,
    ensures
        lists_those(a, list, pred) ==> lists_those(b, list, pred),
        lists_all(a, list, pred) ==> lists_all(b, list, pred),
{
    assert forall|i: int| 0 <= i < b.len() && lists_those(a, list, pred) implies (pred(
        (#[trigger] b[i]).shared.status,
    ) <==> list.contains(b[i].gid@)) by {
        assert(pred(a[i].shared.status) <==> list.contains(a[i].gid@));
    }
    assert forall|i: int|
        0 <= i < b.len() && lists_all(a, list, pred) && pred((#[trigger] b[i]).shared.status) implies list.contains(
        b[i].gid@,
    ) by {
        assert(pred(a[i].shared.status));
    }
}

fn live_bt(t: &Task) -> (r: bool)
    ensures
        r == takes_trackers(*t),
{
    !t.status().is_terminal() && t.is_bt()
}

/// What is said of a subscription that does not exist.
pub open spec fn unknown_sub(id: Seq<char>) -> Seq<char> {
    "订阅源不存在: "@ + id
}

/// What is said of a subscription whose list is empty.
pub open spec fn empty_list() -> Seq<char> {
    "订阅源返回空列表"@
}

/// The texts of a list without white space around them and without empty ones.
pub open spec fn cleaned(list: Seq<Seq<char>>) -> Seq<Seq<char>>
    decreases list.len(),
{
    if list.len() == 0 {
        list
    } else {
        let rest = cleaned(list.drop_last());
        let x = trimmed(list.last());
        if x.len() == 0 { rest } else { rest.push(x) }
    }
}

/// The texts of a list without white space around them and without empty ones.
pub fn clean_list(list: &Vec<String>) -> (r: Vec<String>)
    ensures
        string_texts(r@) == cleaned(string_texts(list@)),
{
    let ghost all = string_texts(list@);
    let mut out: Vec<String> = Vec::new();
    let mut i: usize = 0;
    assert(all.take(0) =~= Seq::<Seq<char>>::empty());
    assert(string_texts(out@) =~= Seq::<Seq<char>>::empty());
    while i < list.len()
        invariant
            i <= list@.len(),
            all == string_texts(list@),
            string_texts(out@) == cleaned(all.take(i as int)),
        decreases list@.len() - i,
    {
        let ghost before = out@;
        proof {
            assert(all.take(i + 1).drop_last() =~= all.take(i as int));
            assert(all.take(i + 1).last() == list@[i as int]@);
        }
        let x = trim(&chars_of(list[i].as_str()));
        if x.len() > 0 {
            out.push(string_of(&x));
            assert(string_texts(out@) =~= string_texts(before).push(x@));
        }
        i = i + 1;
    }
    assert(all.take(i as int) =~= all);
    out
}

/// Adding texts never shortens a list, and leaves it alone exactly if all were there.
pub proof fn lemma_with_texts(s: Seq<Seq<char>>, more: Seq<Seq<char>>)
    ensures
        with_texts(s, more).len() >= s.len(),
        with_texts(s, more).len() == s.len() ==> with_texts(s, more) == s,
        forall|x: Seq<char>|
            #[trigger] with_texts(s, more).contains(x) <==> s.contains(x) || more.contains(x),
    decreases more.len(),
{
    if more.len() > 0 {
        let front = more.drop_last();
        lemma_with_texts(s, front);
        let rest = with_texts(s, front);
        let all = with_texts(s, more);
        assert forall|x: Seq<char>| #[trigger] all.contains(x) <==> s.contains(x) || more.contains(x) by {
            assert(more.contains(x) <==> front.contains(x) || x == more.last()) by {
                if more.contains(x) {
                    let k = choose|k: int| 0 <= k < more.len() && more[k] == x;
                    if k < front.len() {
                        assert(front[k] == x);
                    }
                }
                if front.contains(x) {
                    let k = choose|k: int| 0 <= k < front.len() && front[k] == x;
                    assert(more[k] == x);
                }
                assert(more[more.len() - 1] == more.last());
            }
            assert(all.contains(x) <==> rest.contains(x) || x == more.last()) by {
                if !rest.contains(more.last()) {
                    assert(all == rest.push(more.last()));
                    assert(all[rest.len() as int] == more.last());
                    if all.contains(x) {
                        let k = choose|k: int| 0 <= k < all.len() && all[k] == x;
                        if k < rest.len() {
                            assert(rest[k] == x);
                        }
                    }
                    if rest.contains(x) {
                        let k = choose|k: int| 0 <= k < rest.len() && rest[k] == x;
                        assert(all[k] == x);
                    }
                }
            }
        }
    } else {
        assert forall|x: Seq<char>| #[trigger] with_texts(s, more).contains(x) <==> s.contains(x)
            || more.contains(x) by {}
    }
}

/// The subscriptions without those of one name.
pub open spec fn subs_without(s: Seq<TrackerSubscription>, id: Seq<char>) -> Seq<TrackerSubscription>
    decreases s.len(),
{
    if s.len() == 0 {
        s
    } else {
        let rest = subs_without(s.drop_last(), id);
        if s.last().id@ == id { rest } else { rest.push(s.last()) }
    }
}

/// Whether a subscription is due at `secs`: it is on and was not refreshed for a day.
pub open spec fn is_due(s: TrackerSubscription, secs: u64) -> bool {
    s.enabled && (if secs > s.last_updated { secs - s.last_updated } else { 0 }) >= SUBSCRIPTION_TTL
}

/// Names and addresses of the subscriptions that are on, or of those that are due.
pub open spec fn wanted_subs(s: Seq<TrackerSubscription>, due_only: bool, secs: u64) -> Seq<(
    Seq<char>,
    Seq<char>,
)>
    decreases s.len(),
{
    if s.len() == 0 {
        Seq::empty()
    } else {
        let rest = wanted_subs(s.drop_last(), due_only, secs);
        let x = s.last();
        if if due_only { is_due(x, secs) } else { x.enabled } {
            rest.push((x.id@, x.url@))
        } else {
            rest
        }
    }
}

/// A subscription as it is shown.
pub open spec fn sub_view(s: TrackerSubscription) -> JsonView {
    JsonView::Obj(
        seq![
            ("id"@, JsonView::Str(s.id@)),
            ("name"@, JsonView::Str(s.name@)),
            ("url"@, JsonView::Str(s.url@)),
            ("enabled"@, JsonView::Bool(s.enabled)),
            ("last_updated"@, JsonView::Unsigned(s.last_updated)),
            ("last_count"@, JsonView::Unsigned(s.last_count as u64)),
            ("last_error"@, JsonView::Str(s.last_error@)),
        ],
    )
}

/// Subscriptions as they are shown.
pub open spec fn subs_view(s: Seq<TrackerSubscription>) -> JsonView {
    JsonView::Arr(Seq::new(s.len(), |i: int| sub_view(s[i])))
}

/// A subscription as it is shown.
pub fn show_sub(s: &TrackerSubscription) -> (r: Json)
    ensures
        r@ == sub_view(*s),
{
    let mut b = ObjectBuilder::new();
    b.put("id", Json::text(s.id.as_str()));
    b.put("name", Json::text(s.name.as_str()));
    b.put("url", Json::text(s.url.as_str()));
    b.put("enabled", Json::Bool(s.enabled));
    b.put("last_updated", Json::Unsigned(s.last_updated));
    b.put("last_count", Json::Unsigned(s.last_count as u64));
    b.put("last_error", Json::text(s.last_error.as_str()));
    assert(b@ =~= sub_view(*s)->Obj_0);
    b.done()
}

/// Subscriptions as they are shown.
pub fn show_subs(s: &Vec<TrackerSubscription>) -> (r: Json)
    ensures
        r@ == subs_view(s@),
{
    let mut out: Vec<Json> = Vec::new();
    let mut i: usize = 0;
    while i < s.len()
        invariant
            i <= s@.len(),
            out@.len() == i,
            forall|k: int| 0 <= k < i ==> (#[trigger] out@[k])@ == sub_view(s@[k]),
        decreases s@.len() - i,
    {
        out.push(show_sub(&s[i]));
        i = i + 1;
    }
    assert(json_views(out@) =~= subs_view(s@)->Arr_0);
    Json::array(out)
}

/// Trackers as they are shown.
pub open spec fn tracker_rows(urls: Seq<Seq<char>>) -> JsonView {
    JsonView::Arr(
        Seq::new(urls.len(), |i: int| JsonView::Obj(seq![("url"@, JsonView::Str(urls[i]))])),
    )
}

fn show_trackers(urls: &Vec<String>) -> (r: Json)
    ensures
        r@ == tracker_rows(string_texts(urls@)),
{
    let mut out: Vec<Json> = Vec::new();
    let mut i: usize = 0;
    while i < urls.len()
        invariant
            i <= urls@.len(),
            out@.len() == i,
            forall|k: int|
                0 <= k < i ==> (#[trigger] out@[k])@ == JsonView::Obj(
                    seq![("url"@, JsonView::Str(urls@[k]@))],
                ),
        decreases urls@.len() - i,
    {
        let mut b = ObjectBuilder::new();
        b.put("url", Json::text(urls[i].as_str()));
        assert(b@ =~= seq![("url"@, JsonView::Str(urls@[i as int]@))]);
        out.push(b.done());
        i = i + 1;
    }
    assert(json_views(out@) =~= tracker_rows(string_texts(urls@))->Arr_0);
    Json::array(out)
}

impl TaskManager {
    /// Gives trackers to every live BitTorrent task.
    fn inject(&mut self, list: &Vec<String>)
        requires
            old(self).wf(),
        ensures
            final(self).wf(),
            gained_trackers(old(self).tasks@, final(self).tasks@, string_texts(list@)),
            *final(self) == (TaskManager { tasks: final(self).tasks, ..*old(self) }),
    {
        let ghost start = *self;
        let n: usize = self.tasks.len();
        let mut i: usize = 0;
        while i < n
            invariant
                i <= n,
                n == self.tasks@.len(),
                start.wf(),
                *self == (TaskManager { tasks: self.tasks, ..start }),
                self.tasks@.len() == start.tasks@.len(),
                gained_trackers(
                    start.tasks@.take(i as int),
                    self.tasks@.take(i as int),
                    string_texts(list@),
                ),
                forall|k: int| i <= k < n ==> #[trigger] self.tasks@[k] == start.tasks@[k],
            decreases n - i,
        {
            let ghost before = self.tasks@;
            if live_bt(&self.tasks[i]) {
                put_texts(&mut self.tasks[i].bt_trackers, list);
            }
            proof {
                let a = start.tasks@;
                let b = self.tasks@;
                assert forall|k: int| 0 <= k < i + 1 implies ({
                    &&& #[trigger] b.take(i + 1)[k] == (Task {
                        bt_trackers: b.take(i + 1)[k].bt_trackers,
                        ..a.take(i + 1)[k]
                    })
                    &&& if takes_trackers(a.take(i + 1)[k]) {
                        string_texts(b.take(i + 1)[k].bt_trackers@) == with_texts(
                            string_texts(a.take(i + 1)[k].bt_trackers@),
                            string_texts(list@),
                        )
                    } else {
                        b.take(i + 1)[k] == a.take(i + 1)[k]
                    }
                }) by {
                    if k < i {
                        assert(before.take(i as int)[k] == b[k]);
                        assert(a.take(i as int)[k] == a[k]);
                    } else {
                        assert(before[k] == a[k]);
                    }
                }
            }
            i = i + 1;
        }
        proof {
            assert(start.tasks@.take(i as int) =~= start.tasks@);
            assert(self.tasks@.take(i as int) =~= self.tasks@);
            assert forall|k: int| 0 <= k < self.tasks@.len() implies (#[trigger] self.tasks@[k]).wf()
                && unique_keys(pair_texts(self.tasks@[k].options@)) by {
                assert(task_fine(start.tasks@[k]));
            }
            lemma_sound_same(
                start.tasks@,
                self.tasks@,
                string_texts(start.queue@),
                string_texts(start.active@),
                string_texts(start.stopped_order@),
            );
        }
    }

    /// Takes a tracker from every live BitTorrent task.
    fn expel(&mut self, url: &str)
        requires
            old(self).wf(),
        ensures
            final(self).wf(),
            lost_tracker(old(self).tasks@, final(self).tasks@, url@),
            *final(self) == (TaskManager { tasks: final(self).tasks, ..*old(self) }),
    {
        let ghost start = *self;
        let n: usize = self.tasks.len();
        let mut i: usize = 0;
        while i < n
            invariant
                i <= n,
                n == self.tasks@.len(),
                start.wf(),
                *self == (TaskManager { tasks: self.tasks, ..start }),
                self.tasks@.len() == start.tasks@.len(),
                lost_tracker(start.tasks@.take(i as int), self.tasks@.take(i as int), url@),
                forall|k: int| i <= k < n ==> #[trigger] self.tasks@[k] == start.tasks@[k],
            decreases n - i,
        {
            let ghost before = self.tasks@;
            if live_bt(&self.tasks[i]) {
                take_out(&mut self.tasks[i].bt_trackers, url);
            }
            proof {
                let a = start.tasks@;
                let b = self.tasks@;
                assert forall|k: int| 0 <= k < i + 1 implies ({
                    &&& #[trigger] b.take(i + 1)[k] == (Task {
                        bt_trackers: b.take(i + 1)[k].bt_trackers,
                        ..a.take(i + 1)[k]
                    })
                    &&& if takes_trackers(a.take(i + 1)[k]) {
                        string_texts(b.take(i + 1)[k].bt_trackers@) == without(
                            string_texts(a.take(i + 1)[k].bt_trackers@),
                            url@,
                        )
                    } else {
                        b.take(i + 1)[k] == a.take(i + 1)[k]
                    }
                }) by {
                    if k < i {
                        assert(before.take(i as int)[k] == b[k]);
                        assert(a.take(i as int)[k] == a[k]);
                    } else {
                        assert(before[k] == a[k]);
                    }
                }
            }
            i = i + 1;
        }
        proof {
            assert(start.tasks@.take(i as int) =~= start.tasks@);
            assert(self.tasks@.take(i as int) =~= self.tasks@);
            assert forall|k: int| 0 <= k < self.tasks@.len() implies (#[trigger] self.tasks@[k]).wf()
                && unique_keys(pair_texts(self.tasks@[k].options@)) by {
                assert(task_fine(start.tasks@[k]));
            }
            lemma_sound_same(
                start.tasks@,
                self.tasks@,
                string_texts(start.queue@),
                string_texts(start.active@),
                string_texts(start.stopped_order@),
            );
        }
    }

    /// The global trackers.
    pub fn get_global_trackers(&self) -> (r: Vec<String>)
        ensures
            string_texts(r@) == self.trackers.urls(),
    {
        self.trackers.url_list()
    }

    /// What the manager is after a request to add a global tracker.
    pub open spec fn adds_tracker(
        &self,
        after: TaskManager,
        url: Seq<char>,
        r: Result<(), String>,
    ) -> bool {
        let u = trimmed(url);
        if u.len() == 0 {
            fails(r, "tracker URL 不能为空"@) && after == *self
        } else if self.trackers.urls().contains(u) {
            fails(r, "tracker 已存在: "@ + u) && after == *self
        } else {
            &&& r is Ok
            &&& entry_views(after.trackers.entries@) == entry_views(
                self.trackers.entries@,
            ).push(EntryView { url: u, manual: true, subs: Seq::empty() })
            &&& after.trackers == (TrackerBook {
                entries: after.trackers.entries,
                ..self.trackers
            })
            &&& gained_trackers(self.tasks@, after.tasks@, seq![u])
            &&& after.effects@ == self.effects@.push(Effect::Save)
            &&& after == (TaskManager {
                tasks: after.tasks,
                trackers: after.trackers,
                effects: after.effects,
                ..*self
            })
        }
    }

    /// Adds a global tracker, for the running tasks too.
    pub fn add_global_tracker(&mut self, url: &str) -> (r: Result<(), String>)
        requires
            old(self).wf(),
        ensures
            final(self).wf(),
            old(self).adds_tracker(*final(self), url@, r),
    {
        let u = string_of(&trim(&chars_of(url)));
        if chars_of(u.as_str()).len() == 0 {
            return Err("tracker URL 不能为空".to_owned());
        }
        if self.trackers.lists(u.as_str()) {
            return Err(joined("tracker 已存在: ", u.as_str()));
        }
        self.trackers.add_manual(u.as_str());
        let mut one: Vec<String> = Vec::new();
        one.push(u);
        assert(string_texts(one@) =~= seq![u@]);
        self.inject(&one);
        self.note(Effect::Save);
        Ok(())
    }

    /// What the manager is after a request to take a global tracker out.
    pub open spec fn drops_tracker(
        &self,
        after: TaskManager,
        url: Seq<char>,
        r: Result<(), String>,
    ) -> bool {
        let u = trimmed(url);
        if !self.trackers.urls().contains(u) {
            fails(r, "tracker 不存在: "@ + u) && after == *self
        } else {
            let e = entry_views(self.trackers.entries@);
            &&& r is Ok
            &&& entry_views(after.trackers.entries@) == dropped(e, u)
            &&& after.trackers == (TrackerBook {
                entries: after.trackers.entries,
                ..self.trackers
            })
            &&& lost_tracker(self.tasks@, after.tasks@, u)
            &&& after.effects@ == self.effects@.push(Effect::Save)
            &&& after == (TaskManager {
                tasks: after.tasks,
                trackers: after.trackers,
                effects: after.effects,
                ..*self
            })
        }
    }

    /// Takes a global tracker out, from the running tasks too.
    pub fn remove_global_tracker(&mut self, url: &str) -> (r: Result<(), String>)
        requires
            old(self).wf(),
        ensures
            final(self).wf(),
            old(self).drops_tracker(*final(self), url@, r),
    {
        let u = string_of(&trim(&chars_of(url)));
        if !self.trackers.remove_url(u.as_str()) {
            return Err(joined("tracker 不存在: ", u.as_str()));
        }
        self.expel(u.as_str());
        self.note(Effect::Save);
        Ok(())
    }

    /// What the manager is after a request to add trackers to a task.
    pub open spec fn gives_trackers(
        &self,
        after: TaskManager,
        gid: Seq<char>,
        list: Vec<String>,
        r: Result<(), String>,
    ) -> bool {
        &&& !has_task(self.tasks@, gid) ==> fails(r, unknown_gid(gid)) && after
            == *self
        &&& has_task(self.tasks@, gid) ==> {
            let k = task_at(self.tasks@, gid);
            let t = self.tasks@[k];
            if !t.is_bt_spec() {
                fails(r, "非 BT 任务，无法添加 tracker"@) && after == *self
            } else if is_final(t.shared.status) {
                fails(r, "任务已结束，无法添加 tracker"@) && after == *self
            } else {
                let t2 = after.tasks@[k];
                let had = string_texts(t.bt_trackers@);
                let has = with_texts(had, cleaned(string_texts(list@)));
                &&& r is Ok
                &&& string_texts(t2.bt_trackers@) == has
                &&& after.tasks@ == self.tasks@.update(
                    k,
                    Task { bt_trackers: t2.bt_trackers, ..t },
                )
                &&& after.effects@ == if has.len() > had.len() {
                    self.effects@.push(Effect::Save)
                } else {
                    self.effects@
                }
                &&& after == (TaskManager {
                    tasks: after.tasks,
                    effects: after.effects,
                    ..*self
                })
            }
        }
    }

    /// Adds trackers to a BitTorrent task. Those it has already, and empty ones, are
    /// passed over.
    pub fn add_trackers(&mut self, gid: &str, list: Vec<String>) -> (r: Result<(), String>)
        requires
            old(self).wf(),
        ensures
            final(self).wf(),
            old(self).gives_trackers(*final(self), gid@, list, r),
    {
        let k: usize = match self.task_of(gid) {
            Ok(k) => k,
            Err(e) => {
                return Err(e);
            },
        };
        if !self.tasks[k].is_bt() {
            return Err("非 BT 任务，无法添加 tracker".to_owned());
        }
        if self.tasks[k].status().is_terminal() {
            return Err("任务已结束，无法添加 tracker".to_owned());
        }
        let ghost before = *self;
        let clean = clean_list(&list);
        let had: usize = self.tasks[k].bt_trackers.len();
        put_texts(&mut self.tasks[k].bt_trackers, &clean);
        let has: usize = self.tasks[k].bt_trackers.len();
        proof {
            let t2 = self.tasks@[k as int];
            assert(self.tasks@ =~= before.tasks@.update(
                k as int,
                Task { bt_trackers: t2.bt_trackers, ..before.tasks@[k as int] },
            ));
            assert(string_texts(t2.bt_trackers@).len() == t2.bt_trackers@.len());
            assert(string_texts(before.tasks@[k as int].bt_trackers@).len()
                == before.tasks@[k as int].bt_trackers@.len());
            assert forall|i: int| 0 <= i < self.tasks@.len() implies (#[trigger] self.tasks@[i]).wf()
                && unique_keys(pair_texts(self.tasks@[i].options@)) by {
                assert(task_fine(before.tasks@[i]));
            }
            lemma_sound_same(
                before.tasks@,
                self.tasks@,
                string_texts(before.queue@),
                string_texts(before.active@),
                string_texts(before.stopped_order@),
            );
        }
        if has > had {
            self.note(Effect::Save);
        }
        Ok(())
    }

    /// Every tracker of a BitTorrent task.
    pub fn get_trackers(&self, gid: &str) -> (r: Result<Json, String>)
        ensures
            !has_task(self.tasks@, gid@) ==> fails(r, unknown_gid(gid@)),
            has_task(self.tasks@, gid@) ==> {
                let t = self.tasks@[task_at(self.tasks@, gid@)];
                if t.is_bt_spec() {
                    r is Ok && r->Ok_0@ == tracker_rows(
                        all_trackers(
                            t.bt_meta,
                            string_texts(t.bt_trackers@),
                            self.trackers.urls(),
                        ),
                    )
                } else {
                    fails(r, "非 BT 任务，无 tracker 信息"@)
                }
            },
    {
        let k: usize = match self.task_of(gid) {
            Ok(k) => k,
            Err(e) => {
                return Err(e);
            },
        };
        let t = &self.tasks[k];
        if !t.is_bt() {
            return Err("非 BT 任务，无 tracker 信息".to_owned());
        }
        let global = self.trackers.url_list();
        let urls = merge_trackers(&t.bt_meta, &t.bt_trackers, &global);
        Ok(show_trackers(&urls))
    }

    /// What the manager is after a request to subscribe to a list of trackers.
    pub open spec fn subscribes(
        &self,
        after: TaskManager,
        name: Seq<char>,
        url: Seq<char>,
        enabled: bool,
        id: String,
        r: Result<TrackerSubscription, String>,
    ) -> bool {
        let u = trimmed(url);
        let subs = self.trackers.subscriptions@;
        if u.len() == 0 {
            fails(r, "订阅 URL 不能为空"@) && after == *self
        } else if !has_prefix(u, "http://"@) && !has_prefix(u, "https://"@) {
            fails(r, "订阅 URL 必须以 http:// 或 https:// 开头"@) && after
                == *self
        } else if exists|i: int| 0 <= i < subs.len() && (#[trigger] subs[i]).url@ == u {
            fails(r, "订阅源已存在: "@ + u) && after == *self
        } else {
            let s = r->Ok_0;
            &&& r is Ok
            &&& s.id == id
            &&& s.name@ == if trimmed(name).len() == 0 { u } else { trimmed(name) }
            &&& s.url@ == u
            &&& s.enabled == enabled
            &&& s.last_updated == 0
            &&& s.last_count == 0
            &&& s.last_error@.len() == 0
            &&& after.trackers.subscriptions@ == subs.push(s)
            &&& after.trackers == (TrackerBook {
                subscriptions: after.trackers.subscriptions,
                ..self.trackers
            })
            &&& after.effects@ == if enabled {
                self.effects@.push(Effect::Save).push(Effect::Refresh)
            } else {
                self.effects@.push(Effect::Save)
            }
            &&& after == (TaskManager {
                trackers: after.trackers,
                effects: after.effects,
                ..*self
            })
        }
    }

    /// Subscribes to a list of trackers. `id` is the name of the new subscription; a
    /// subscription that is on is refreshed at once.
    pub fn add_subscription(&mut self, name: &str, url: &str, enabled: bool, id: String) -> (r: Result<
        TrackerSubscription,
        String,
    >)
        requires
            old(self).wf(),
        ensures
            final(self).wf(),
            old(self).subscribes(*final(self), name@, url@, enabled, id, r),
    {
        let u = trim(&chars_of(url));
        if u.len() == 0 {
            return Err("订阅 URL 不能为空".to_owned());
        }
        if !starts_with(&u, "http://") && !starts_with(&u, "https://") {
            return Err("订阅 URL 必须以 http:// 或 https:// 开头".to_owned());
        }
        let u = string_of(&u);
        let ghost before = *self;
        let mut i: usize = 0;
        while i < self.trackers.subscriptions.len()
            invariant
                i <= self.trackers.subscriptions@.len(),
                *self == before,
                before == *old(self),
                before.wf(),
                u@ == trimmed(url@),
                u@.len() > 0,
                has_prefix(u@, "http://"@) || has_prefix(u@, "https://"@),
                forall|j: int|
                    0 <= j < i ==> (#[trigger] self.trackers.subscriptions@[j]).url@ != u@,
            decreases self.trackers.subscriptions@.len() - i,
        {
            if same_str(self.trackers.subscriptions[i].url.as_str(), u.as_str()) {
                assert(self.trackers.subscriptions@[i as int].url@ == u@);
                return Err(joined("订阅源已存在: ", u.as_str()));
            }
            i = i + 1;
        }
        let shown = trim(&chars_of(name));
        let sub = TrackerSubscription {
            id,
            name: if shown.len() == 0 {
                u.clone()
            } else {
                string_of(&shown)
            },
            url: u,
            enabled,
            last_updated: 0,
            last_count: 0,
            last_error: String::new(),
        };
        let copy = sub.clone();
        self.trackers.subscriptions.push(copy);
        self.note(Effect::Save);
        if enabled {
            self.note(Effect::Refresh);
        }
        Ok(sub)
    }

    /// What the manager is after a request to end a subscription.
    pub open spec fn unsubscribes(
        &self,
        after: TaskManager,
        id: Seq<char>,
        r: Result<(), String>,
    ) -> bool {
        let subs = self.trackers.subscriptions@;
        if subs_without(subs, id).len() == subs.len() {
            fails(r, unknown_sub(id)) && after == *self
        } else {
            &&& r is Ok
            &&& after.trackers.subscriptions@ == subs_without(subs, id)
            &&& entry_views(after.trackers.entries@) == withdrawn(
                entry_views(self.trackers.entries@),
                id,
                Seq::empty(),
            )
            &&& after.trackers.auto_update == self.trackers.auto_update
            &&& after.effects@ == self.effects@.push(Effect::Save)
            &&& after == (TaskManager {
                trackers: after.trackers,
                effects: after.effects,
                ..*self
            })
        }
    }

    /// Ends a subscription. Trackers that it alone provided go.
    pub fn remove_subscription(&mut self, id: &str) -> (r: Result<(), String>)
        requires
            old(self).wf(),
        ensures
            final(self).wf(),
            old(self).unsubscribes(*final(self), id@, r),
    {
        let ghost subs = self.trackers.subscriptions@;
        let mut kept: Vec<TrackerSubscription> = Vec::new();
        let mut i: usize = 0;
        assert(subs.take(0) =~= Seq::<TrackerSubscription>::empty());
        while i < self.trackers.subscriptions.len()
            invariant
                i <= self.trackers.subscriptions@.len(),
                subs == self.trackers.subscriptions@,
                *self == *old(self),
                kept@ == subs_without(subs.take(i as int), id@),
                kept@.len() <= i,
            decreases self.trackers.subscriptions@.len() - i,
        {
            proof {
                assert(subs.take(i + 1).drop_last() =~= subs.take(i as int));
                assert(subs.take(i + 1).last() == subs[i as int]);
            }
            if !same_str(self.trackers.subscriptions[i].id.as_str(), id) {
                kept.push(self.trackers.subscriptions[i].clone());
            }
            i = i + 1;
        }
        assert(subs.take(i as int) =~= subs);
        if kept.len() == self.trackers.subscriptions.len() {
            return Err(joined("订阅源不存在: ", id));
        }
        self.trackers.subscriptions = kept;
        let none: Vec<String> = Vec::new();
        assert(string_texts(none@) =~= Seq::<Seq<char>>::empty());
        self.trackers.withdraw(id, &none);
        self.note(Effect::Save);
        Ok(())
    }

    /// Every subscription.
    pub fn get_subscriptions(&self) -> (r: Vec<TrackerSubscription>)
        ensures
            r@ == self.trackers.subscriptions@,
    {
        let mut out: Vec<TrackerSubscription> = Vec::new();
        let mut i: usize = 0;
        let ghost all = self.trackers.subscriptions@;
        while i < self.trackers.subscriptions.len()
            invariant
                i <= self.trackers.subscriptions@.len(),
                all == self.trackers.subscriptions@,
                out@ == all.take(i as int),
            decreases self.trackers.subscriptions@.len() - i,
        {
            out.push(self.trackers.subscriptions[i].clone());
            assert(all.take(i + 1) =~= all.take(i as int).push(all[i as int]));
            i = i + 1;
        }
        assert(all.take(i as int) =~= all);
        out
    }

    /// What the manager is after a request to switch a subscription.
    pub open spec fn toggles(
        &self,
        after: TaskManager,
        id: Seq<char>,
        r: Result<(), String>,
    ) -> bool {
        let subs = self.trackers.subscriptions@;
        let k = TrackerBook::sub_at(subs, id);
        if k >= subs.len() {
            fails(r, unknown_sub(id)) && after == *self
        } else {
            let on = !subs[k].enabled;
            &&& r is Ok
            &&& after.trackers.subscriptions@ == subs.update(
                k,
                TrackerSubscription { enabled: on, ..subs[k] },
            )
            &&& entry_views(after.trackers.entries@) == if on {
                entry_views(self.trackers.entries@)
            } else {
                withdrawn(entry_views(self.trackers.entries@), id, Seq::empty())
            }
            &&& after.trackers.auto_update == self.trackers.auto_update
            &&& after.effects@ == if on {
                self.effects@.push(Effect::Save).push(Effect::Refresh)
            } else {
                self.effects@.push(Effect::Save)
            }
            &&& after == (TaskManager {
                trackers: after.trackers,
                effects: after.effects,
                ..*self
            })
        }
    }

    /// Switches a subscription on or off. Off, the trackers that it alone provided go;
    /// on, it is refreshed at once.
    pub fn toggle_subscription(&mut self, id: &str) -> (r: Result<(), String>)
        requires
            old(self).wf(),
        ensures
            final(self).wf(),
            old(self).toggles(*final(self), id@, r),
    {
        let k: usize = match self.trackers.find_sub(id) {
            Some(k) => k,
            None => {
                return Err(joined("订阅源不存在: ", id));
            },
        };
        let ghost subs = self.trackers.subscriptions@;
        let on: bool = !self.trackers.subscriptions[k].enabled;
        self.trackers.subscriptions[k].enabled = on;
        assert(self.trackers.subscriptions@ =~= subs.update(
            k as int,
            TrackerSubscription { enabled: on, ..subs[k as int] },
        ));
        if !on {
            let none: Vec<String> = Vec::new();
            assert(string_texts(none@) =~= Seq::<Seq<char>>::empty());
            self.trackers.withdraw(id, &none);
        }
        self.note(Effect::Save);
        if on {
            self.note(Effect::Refresh);
        }
        Ok(())
    }

    /// Whether subscriptions are refreshed by themselves.
    pub fn get_auto_update_trackers(&self) -> (r: bool)
        ensures
            r == self.trackers.auto_update,
    {
        self.trackers.auto_update
    }

    /// What the manager is after the automatic refresh was switched.
    pub open spec fn sets_auto(&self, after: TaskManager, enabled: bool) -> bool {
        &&& after.trackers == (TrackerBook { auto_update: enabled, ..self.trackers })
        &&& after.effects@ == self.effects@.push(Effect::Save)
        &&& after == (TaskManager {
            trackers: after.trackers,
            effects: after.effects,
            ..*self
        })
    }

    /// Sets whether subscriptions are refreshed by themselves.
    pub fn set_auto_update_trackers(&mut self, enabled: bool)
        requires
            old(self).wf(),
        ensures
            final(self).wf(),
            old(self).sets_auto(*final(self), enabled),
    {
        self.trackers.auto_update = enabled;
        self.note(Effect::Save);
    }

    /// Whether subscriptions are refreshed without being asked for.
    pub open spec fn wants_refresh(&self) -> bool {
        self.trackers.auto_update && exists|i: int|
            0 <= i < self.trackers.subscriptions@.len() && (
            #[trigger] self.trackers.subscriptions@[i]).enabled
    }

    /// Whether there is anything to refresh by itself.
    pub fn should_auto_refresh(&self) -> (r: bool)
        ensures
            r == self.wants_refresh(),
    {
        if !self.trackers.auto_update {
            return false;
        }
        let mut i: usize = 0;
        while i < self.trackers.subscriptions.len()
            invariant
                i <= self.trackers.subscriptions@.len(),
                self.trackers.auto_update,
                forall|j: int|
                    0 <= j < i ==> !(#[trigger] self.trackers.subscriptions@[j]).enabled,
            decreases self.trackers.subscriptions@.len() - i,
        {
            if self.trackers.subscriptions[i].enabled {
                assert(self.trackers.subscriptions@[i as int].enabled);
                return true;
            }
            i = i + 1;
        }
        false
    }

    /// Names and addresses of the subscriptions to refresh: all that are on, or only
    /// those that are due at `secs`.
    pub fn subscriptions_to_refresh(&self, due_only: bool, secs: u64) -> (r: Vec<(String, String)>)
        ensures
            pair_texts(r@) == wanted_subs(
                self.trackers.subscriptions@,
                due_only,
                secs,
            ),
    {
        let ghost all = self.trackers.subscriptions@;
        let mut out: Vec<(String, String)> = Vec::new();
        let mut i: usize = 0;
        assert(all.take(0) =~= Seq::<TrackerSubscription>::empty());
        assert(pair_texts(out@) =~= Seq::<(Seq<char>, Seq<char>)>::empty());
        while i < self.trackers.subscriptions.len()
            invariant
                i <= self.trackers.subscriptions@.len(),
                all == self.trackers.subscriptions@,
                pair_texts(out@) == wanted_subs(all.take(i as int), due_only, secs),
            decreases self.trackers.subscriptions@.len() - i,
        {
            let ghost before = out@;
            let s = &self.trackers.subscriptions[i];
            proof {
                assert(all.take(i + 1).drop_last() =~= all.take(i as int));
                assert(all.take(i + 1).last() == *s);
            }
            let age: u64 = if secs > s.last_updated { secs - s.last_updated } else { 0 };
            if s.enabled && (!due_only || age >= SUBSCRIPTION_TTL) {
                out.push((s.id.clone(), s.url.clone()));
                assert(pair_texts(out@) =~= pair_texts(before).push(
                    (s.id@, s.url@),
                ));
            }
            i = i + 1;
        }
        assert(all.take(i as int) =~= all);
        out
    }

    /// The address of a subscription.
    pub fn subscription_url(&self, id: &str) -> (r: Result<String, String>)
        ensures
            ({
                let subs = self.trackers.subscriptions@;
                let k = TrackerBook::sub_at(subs, id@);
                if k < subs.len() {
                    r is Ok && r->Ok_0 == subs[k].url
                } else {
                    fails(r, unknown_sub(id@))
                }
            }),
    {
        match self.trackers.find_sub(id) {
            Some(k) => Ok(self.trackers.subscriptions[k].url.clone()),
            None => Err(joined("订阅源不存在: ", id)),
        }
    }

    /// What the manager is after a subscription's list came in. The list counts even if the
    /// subscription was removed while it was under way.
    pub open spec fn listed(
        &self,
        after: TaskManager,
        id: Seq<char>,
        list: Seq<Seq<char>>,
        secs: u64,
        give: bool,
    ) -> bool {
        let subs = self.trackers.subscriptions@;
        let k = TrackerBook::sub_at(subs, id);
        let s = after.trackers.subscriptions@[k];
        &&& after.trackers.auto_update == self.trackers.auto_update
        &&& after == (TaskManager { tasks: after.tasks, trackers: after.trackers, ..*self })
        &&& if k >= subs.len() {
            after.trackers.subscriptions == self.trackers.subscriptions
        } else {
            &&& after.trackers.subscriptions@ == subs.update(k, s)
            &&& if list.len() == 0 {
                &&& s.last_error@ == empty_list()
                &&& s == (TrackerSubscription { last_error: s.last_error, ..subs[k] })
            } else {
                &&& s.last_error@.len() == 0
                &&& s == (TrackerSubscription {
                    last_updated: secs,
                    last_count: list.len() as usize,
                    last_error: s.last_error,
                    ..subs[k]
                })
            }
        }
        &&& if list.len() == 0 {
            &&& after.trackers.entries == self.trackers.entries
            &&& after.tasks == self.tasks
        } else {
            &&& entry_views(after.trackers.entries@) == synced(
                entry_views(self.trackers.entries@),
                id,
                list,
            )
            &&& if give {
                gained_trackers(self.tasks@, after.tasks@, list)
            } else {
                after.tasks == self.tasks
            }
        }
    }

    /// Takes in the list that a subscription brought. An empty list counts as a failure
    /// and changes no tracker. With `give` the running tasks get the trackers too.
    fn take_list(&mut self, id: &str, list: &Vec<String>, secs: u64, give: bool) -> (r: Result<
        usize,
        String,
    >)
        requires
            old(self).wf(),
        ensures
            final(self).wf(),
            old(self).listed(*final(self), id@, string_texts(list@), secs, give),
            if list@.len() == 0 {
                fails(r, empty_list())
            } else {
                r is Ok && r->Ok_0 == list@.len()
            },
    {
        let ghost before = *self;
        let ghost subs = self.trackers.subscriptions@;
        assert(string_texts(list@).len() == list@.len());
        let place = self.trackers.find_sub(id);
        if list.len() == 0 {
            match place {
                Some(k) => {
                    let e = "订阅源返回空列表".to_owned();
                    self.trackers.subscriptions[k].last_error = e;
                    assert(self.trackers.subscriptions@ =~= subs.update(
                        k as int,
                        self.trackers.subscriptions@[k as int],
                    ));
                },
                None => {},
            }
            return Err("订阅源返回空列表".to_owned());
        }
        self.trackers.sync(id, list);
        match place {
            Some(k) => {
                self.trackers.subscriptions[k].last_updated = secs;
                self.trackers.subscriptions[k].last_count = list.len();
                self.trackers.subscriptions[k].last_error = String::new();
                assert(self.trackers.subscriptions@ =~= subs.update(
                    k as int,
                    self.trackers.subscriptions@[k as int],
                ));
            },
            None => {},
        }
        if give {
            self.inject(list);
        }
        Ok(list.len())
    }

    /// Takes in what a refresh of one subscription brought: the list of its trackers, or
    /// the failure to get it, which changes nothing. Tells how many trackers it has.
    pub fn refresh_subscription(&mut self, id: &str, fetched: Result<Vec<String>, String>, secs: u64) -> (r:
        Result<usize, String>)
        requires
            old(self).wf(),
        ensures
            final(self).wf(),
            match fetched {
                Err(e) => r == Err::<usize, String>(e) && *final(self) == *old(self),
                Ok(list) => {
                    &&& old(self).listed(
                        (TaskManager { effects: old(self).effects, ..*final(self) }),
                        id@,
                        string_texts(list@),
                        secs,
                        true,
                    )
                    &&& final(self).effects@ == old(self).effects@.push(Effect::Save)
                    &&& if list@.len() == 0 {
                        fails(r, empty_list())
                    } else {
                        r is Ok && r->Ok_0 == list@.len()
                    }
                },
            },
    {
        match fetched {
            Err(e) => Err(e),
            Ok(list) => {
                let r = self.take_list(id, &list, secs, true);
                self.note(Effect::Save);
                r
            },
        }
    }

    /// Whether `after` is the manager once it took in what one of several refreshed
    /// subscriptions brought. A failure is noted with the subscription, if it is still
    /// there.
    pub open spec fn took_in(
        &self,
        after: TaskManager,
        id: Seq<char>,
        fetched: Result<Vec<String>, String>,
        secs: u64,
    ) -> bool {
        let subs = self.trackers.subscriptions@;
        let k = TrackerBook::sub_at(subs, id);
        match fetched {
            Err(e) => if k >= subs.len() {
                after == *self
            } else {
                &&& after.trackers.subscriptions@ == subs.update(
                    k,
                    TrackerSubscription { last_error: e, ..subs[k] },
                )
                &&& after.trackers == (TrackerBook {
                    subscriptions: after.trackers.subscriptions,
                    ..self.trackers
                })
                &&& after == (TaskManager { trackers: after.trackers, ..*self })
            },
            Ok(list) => self.listed(after, id, string_texts(list@), secs, false),
        }
    }

    /// Takes in what one of several refreshed subscriptions brought.
    fn take_fetched(&mut self, id: &str, fetched: Result<Vec<String>, String>, secs: u64)
        requires
            old(self).wf(),
        ensures
            final(self).wf(),
            old(self).took_in(*final(self), id@, fetched, secs),
    {
        match fetched {
            Err(e) => match self.trackers.find_sub(id) {
                None => {},
                Some(k) => {
                    let ghost subs = self.trackers.subscriptions@;
                    self.trackers.subscriptions[k].last_error = e;
                    assert(self.trackers.subscriptions@ =~= subs.update(
                        k as int,
                        TrackerSubscription { last_error: e, ..subs[k as int] },
                    ));
                },
            },
            Ok(list) => {
                let _ = self.take_list(id, &list, secs, false);
            },
        }
    }

    /// Takes in what a refresh of several subscriptions brought, one after the other, and
    /// tells how many trackers came in all. Running tasks keep their trackers. Without
    /// any subscription nothing is saved.
    pub fn refresh_all_subscriptions(
        &mut self,
        fetched: Vec<(String, Result<Vec<String>, String>)>,
        secs: u64,
    ) -> (r: usize)
        requires
            old(self).wf(),
            came_in(fetched@) <= usize::MAX,
        ensures
            final(self).wf(),
            r == came_in(fetched@),
            all_taken_in(
                *old(self),
                (TaskManager { effects: old(self).effects, ..*final(self) }),
                fetched@,
                secs,
            ),
            final(self).effects@ == if fetched@.len() == 0 {
                old(self).effects@
            } else {
                old(self).effects@.push(Effect::Save)
            },
    {
        let ghost all = fetched@;
        let ghost mut states = seq![*self];
        let mut total: usize = 0;
        let mut rest = fetched;
        let n: usize = rest.len();
        let mut i: usize = 0;
        proof {
            assert(all.take(0) =~= Seq::empty());
            assert(all.skip(0) =~= all);
        }
        while i < n
            invariant
                i <= n,
                n == all.len(),
                rest@ == all.skip(i as int),
                self.wf(),
                self.effects == old(self).effects,
                total == came_in(all.take(i as int)),
                came_in(all) <= usize::MAX,
                states.len() == i + 1,
                states[0] == *old(self),
                states[i as int] == *self,
                forall|j: int|
                    0 <= j < i ==> states[j].took_in(
                        #[trigger] states[j + 1],
                        all[j].0@,
                        all[j].1,
                        secs,
                    ),
            decreases n - i,
        {
            let (id, got) = rest.remove(0);
            proof {
                assert((id, got) == all[i as int]);
                assert(rest@ =~= all.skip(i + 1));
                assert(all.take(i + 1).drop_last() =~= all.take(i as int));
                assert(all.take(i + 1).last() == all[i as int]);
                lemma_came_in_grows(all, i + 1);
            }
            total = total + match &got {
                Ok(list) => list.len(),
                Err(_) => 0,
            };
            let ghost before = *self;
            self.take_fetched(id.as_str(), got, secs);
            proof {
                assert(before.took_in(*self, all[i as int].0@, all[i as int].1, secs));
                states = states.push(*self);
            }
            i = i + 1;
        }
        assert(all.take(i as int) =~= all);
        assert(along(states, all, secs));
        if n > 0 {
            self.note(Effect::Save);
        }
        total
    }
}

/// Number of trackers in the lists that came.
pub open spec fn came_in(fetched: Seq<(String, Result<Vec<String>, String>)>) -> int
    decreases fetched.len(),
{
    if fetched.len() == 0 {
        0
    } else {
        came_in(fetched.drop_last()) + match fetched.last().1 {
            Ok(list) => list@.len() as int,
            Err(_) => 0,
        }
    }
}

proof fn lemma_came_in_grows(all: Seq<(String, Result<Vec<String>, String>)>, k: int)
    requires
        0 <= k <= all.len(),
    ensures
        came_in(all.take(k)) <= came_in(all),
    decreases all.len() - k,
{
    if k < all.len() {
        assert(all.take(k + 1).drop_last() =~= all.take(k));
        lemma_came_in_grows(all, k + 1);
    } else {
        assert(all.take(k) =~= all);
    }
}

/// Whether each state comes from the one before by taking in one list.
pub open spec fn along(
    states: Seq<TaskManager>,
    fetched: Seq<(String, Result<Vec<String>, String>)>,
    secs: u64,
) -> bool {
    &&& states.len() == fetched.len() + 1
    &&& forall|j: int|
        0 <= j < fetched.len() ==> states[j].took_in(
            #[trigger] states[j + 1],
            fetched[j].0@,
            fetched[j].1,
            secs,
        )
}

/// Whether `after` comes from `before` by taking in all that came, in order.
pub open spec fn all_taken_in(
    before: TaskManager,
    after: TaskManager,
    fetched: Seq<(String, Result<Vec<String>, String>)>,
    secs: u64,
) -> bool {
    exists|states: Seq<TaskManager>|
        #[trigger] along(states, fetched, secs) && states[0] == before && states.last() == after
}

/// An empty list from a subscription changes no tracker.
pub proof fn law_empty_list_keeps_trackers(
    before: TaskManager,
    after: TaskManager,
    id: Seq<char>,
    secs: u64,
    give: bool,
)
    requires
        before.listed(after, id, Seq::empty(), secs, give),
    ensures
        after.trackers.urls() == before.trackers.urls(),
        after.tasks == before.tasks,
{
}

/// A subscription that was refreshed is not due again for a day.
pub proof fn law_fresh_subscription_is_not_due(s: TrackerSubscription, now: u64, later: u64)
    requires
        s.last_updated == now,
        now <= later < now + SUBSCRIPTION_TTL,
    ensures
        !is_due(s, later),
{
}

/// A subscription is due a day after it was last refreshed, if it is on.
pub proof fn law_subscription_is_due_after_a_day(s: TrackerSubscription, secs: u64)
    ensures
        !s.enabled ==> !is_due(s, secs),
        s.enabled && secs >= s.last_updated + 86_400 ==> is_due(s, secs),
        s.last_updated <= secs < s.last_updated + 86_400 ==> !is_due(s, secs),
{
}

/// The subscriptions that are refreshed are those that are on, or those of them that are
/// due, each by its name and address.
pub proof fn law_wanted_subscriptions(s: Seq<TrackerSubscription>, due_only: bool, secs: u64, p: (
    Seq<char>,
    Seq<char>,
))
    ensures
        wanted_subs(s, due_only, secs).contains(p) <==> exists|i: int|
            0 <= i < s.len() && (#[trigger] s[i]).enabled && (due_only ==> is_due(s[i], secs)) && p == (
                s[i].id@,
                s[i].url@,
            ),
    decreases s.len(),
{
    if s.len() > 0 {
        let front = s.drop_last();
        law_wanted_subscriptions(front, due_only, secs, p);
        let rest = wanted_subs(front, due_only, secs);
        let all = wanted_subs(s, due_only, secs);
        let x = s.last();
        let taken = x.enabled && (due_only ==> is_due(x, secs));
        assert(all.contains(p) <==> rest.contains(p) || (taken && p == (x.id@, x.url@))) by {
            if all.contains(p) {
                let k = choose|k: int| 0 <= k < all.len() && all[k] == p;
                if k < rest.len() {
                    assert(rest[k] == p);
                }
            }
            if rest.contains(p) {
                let k = choose|k: int| 0 <= k < rest.len() && rest[k] == p;
                assert(all[k] == p);
            }
            if taken {
                assert(all[rest.len() as int] == (x.id@, x.url@));
            }
        }
        if exists|i: int|
            0 <= i < s.len() && (#[trigger] s[i]).enabled && (due_only ==> is_due(s[i], secs)) && p == (
                s[i].id@,
                s[i].url@,
            ) {
            let i = choose|i: int|
                0 <= i < s.len() && (#[trigger] s[i]).enabled && (due_only ==> is_due(s[i], secs)) && p
                    == (s[i].id@, s[i].url@);
            if i < front.len() {
                assert(front[i] == s[i]);
            }
        }
        if rest.contains(p) {
            let i = choose|i: int|
                0 <= i < front.len() && (#[trigger] front[i]).enabled && (due_only ==> is_due(
                    front[i],
                    secs,
                )) && p == (front[i].id@, front[i].url@);
            assert(s[i] == front[i]);
        }
        assert(s[s.len() - 1] == x);
    }
}

/// Ending a subscription leaves every other one, in order.
pub proof fn law_other_subscriptions_stay(s: Seq<TrackerSubscription>, id: Seq<char>, x: TrackerSubscription)
    ensures
        subs_without(s, id).contains(x) <==> s.contains(x) && x.id@ != id,
    decreases s.len(),
{
    if s.len() > 0 {
        let front = s.drop_last();
        law_other_subscriptions_stay(front, id, x);
        let rest = subs_without(front, id);
        let all = subs_without(s, id);
        let last = s.last();
        assert(s.contains(x) <==> front.contains(x) || x == last) by {
            if s.contains(x) {
                let k = choose|k: int| 0 <= k < s.len() && s[k] == x;
                if k < front.len() {
                    assert(front[k] == x);
                }
            }
            if front.contains(x) {
                let k = choose|k: int| 0 <= k < front.len() && front[k] == x;
                assert(s[k] == x);
            }
            assert(s[s.len() - 1] == last);
        }
        if last.id@ != id {
            assert(all[rest.len() as int] == last);
            if rest.contains(x) {
                let k = choose|k: int| 0 <= k < rest.len() && rest[k] == x;
                assert(all[k] == x);
            }
            if all.contains(x) && x != last {
                let k = choose|k: int| 0 <= k < all.len() && all[k] == x;
                assert(rest[k] == x);
            }
        }
    }
}

/// What the row of a subscription has at each key.
pub proof fn law_subscription_row(s: TrackerSubscription)
    ensures
        ({
            let o = sub_view(s);
            &&& o.at("id"@) == JsonView::Str(s.id@)
            &&& o.at("name"@) == JsonView::Str(s.name@)
            &&& o.at("url"@) == JsonView::Str(s.url@)
            &&& o.at("enabled"@) == JsonView::Bool(s.enabled)
            &&& o.at("last_updated"@) == JsonView::Unsigned(s.last_updated)
            &&& o.at("last_count"@) == JsonView::Unsigned(s.last_count as u64)
            &&& o.at("last_error"@) == JsonView::Str(s.last_error@)
        }),
{
    let f = sub_view(s)->Obj_0;
    reveal_strlit("id");
    reveal_strlit("name");
    reveal_strlit("url");
    reveal_strlit("enabled");
    reveal_strlit("last_updated");
    reveal_strlit("last_count");
    reveal_strlit("last_error");
    assert("id"@.len() == 2 && "name"@.len() == 4 && "url"@.len() == 3 && "enabled"@.len() == 7);
    assert("last_updated"@.len() == 12 && "last_count"@.len() == 10 && "last_error"@.len() == 10);
    assert("last_count"@[5] == 'c' && "last_error"@[5] == 'e');
    assert(crate::lists::unique_keys(f));
    crate::session::lemma_field(f, 0);
    crate::session::lemma_field(f, 1);
    crate::session::lemma_field(f, 2);
    crate::session::lemma_field(f, 3);
    crate::session::lemma_field(f, 4);
    crate::session::lemma_field(f, 5);
    crate::session::lemma_field(f, 6);
}

/// A tracker that the user adds is listed, counts as the user's, and reaches every
/// BitTorrent task that is not over; it cannot be added twice.
pub proof fn law_added_tracker_reaches_the_tasks(
    before: TaskManager,
    after: TaskManager,
    url: Seq<char>,
    r: Result<(), String>,
    i: int,
)
    requires
        before.adds_tracker(after, url, r),
        0 <= i < before.tasks@.len(),
        trimmed(url).len() > 0,
    ensures
        before.trackers.urls().contains(trimmed(url)) ==> r is Err && after == before,
        !before.trackers.urls().contains(trimmed(url)) ==> {
            let t = before.tasks@[i];
            &&& r is Ok
            &&& after.trackers.urls().contains(trimmed(url))
            &&& after.tasks@.len() == before.tasks@.len()
            &&& (!is_final(t.shared.status) && (t.bt_meta is Some || t.bt_info_hash is Some)
                ==> string_texts(after.tasks@[i].bt_trackers@).contains(trimmed(url)))
            &&& (is_final(t.shared.status) || (t.bt_meta is None && t.bt_info_hash is None)
                ==> after.tasks@[i] == t)
        },
{
    let u = trimmed(url);
    if !before.trackers.urls().contains(u) {
        let e = entry_views(after.trackers.entries@);
        assert(after.trackers.urls()[e.len() - 1] == u);
        let had = string_texts(before.tasks@[i].bt_trackers@);
        assert(after.tasks@[i] == after.tasks@[i]);
        reveal_with_fuel(with_texts, 2);
        assert(seq![u].drop_last() =~= Seq::<Seq<char>>::empty());
        let has = with_texts(had, seq![u]);
        if !had.contains(u) {
            assert(has == had.push(u));
            assert(has[had.len() as int] == u);
        }
    }
}

/// A refresh that failed is noted with its subscription and changes nothing else. One
/// that brought a list is noted with the time and the number of trackers, and the
/// subscription then provides exactly those.
pub proof fn law_refresh_is_noted(
    m: TaskManager,
    after: TaskManager,
    id: Seq<char>,
    fetched: Result<Vec<String>, String>,
    secs: u64,
)
    requires
        m.took_in(after, id, fetched, secs),
        TrackerBook::sub_at(m.trackers.subscriptions@, id) < m.trackers.subscriptions@.len(),
        TrackerBook::sub_at(m.trackers.subscriptions@, id) >= 0,
    ensures
        ({
            let k = TrackerBook::sub_at(m.trackers.subscriptions@, id);
            let before = m.trackers.subscriptions@[k];
            let s = after.trackers.subscriptions@[k];
            &&& s.id@ == before.id@ && s.url@ == before.url@ && s.name@ == before.name@ && s.enabled
                == before.enabled
            &&& after.tasks == m.tasks
            &&& fetched is Err ==> s.last_error == fetched->Err_0 && s.last_updated == before.last_updated
                && s.last_count == before.last_count && after.trackers.entries == m.trackers.entries
            &&& fetched is Ok && fetched->Ok_0@.len() > 0 ==> s.last_error@.len() == 0 && s.last_updated
                == secs && s.last_count == fetched->Ok_0@.len() && entry_views(after.trackers.entries@)
                == synced(entry_views(m.trackers.entries@), id, string_texts(fetched->Ok_0@))
            &&& fetched is Ok && fetched->Ok_0@.len() == 0 ==> s.last_error@.len() > 0
                && after.trackers.entries == m.trackers.entries
        }),
{
    reveal_strlit("订阅源返回空列表");
    let k = TrackerBook::sub_at(m.trackers.subscriptions@, id);
    if fetched is Ok {
        assert(string_texts(fetched->Ok_0@).len() == fetched->Ok_0@.len());
        assert(fetched->Ok_0@.len() == fetched->Ok_0.len());
    }
}

/// The trackers that several refreshes brought add up; one that failed brought none.
pub proof fn law_refreshed_trackers_add_up(
    fetched: Seq<(String, Result<Vec<String>, String>)>,
    one: (String, Result<Vec<String>, String>),
)
    ensures
        came_in(fetched.push(one)) == came_in(fetched) + if one.1 is Ok {
            one.1->Ok_0@.len() as int
        } else {
            0
        },
        came_in(Seq::empty()) == 0,
{
    assert(fetched.push(one).drop_last() =~= fetched);
}

/// Subscriptions are refreshed without being asked for if that is switched on and one of
/// them is enabled.
pub proof fn law_enabled_subscriptions_are_refreshed(m: TaskManager, i: int)
    ensures
        !m.trackers.auto_update ==> !m.wants_refresh(),
        m.trackers.subscriptions@.len() == 0 ==> !m.wants_refresh(),
        m.trackers.auto_update && 0 <= i < m.trackers.subscriptions@.len()
            && m.trackers.subscriptions@[i].enabled ==> m.wants_refresh(),
        (forall|j: int|
            0 <= j < m.trackers.subscriptions@.len() ==> !(#[trigger] m.trackers.subscriptions@[j]).enabled)
            ==> !m.wants_refresh(),
{
}

} // verus!
