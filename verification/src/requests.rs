//! What requests do, from their names to the change of the tasks and the answer.

use vstd::prelude::*;

use crate::compat::{
    bare_method, compat_request, options_at, texts_at, CompatDispatcher, CompatErrorView,
};
use crate::json::{filtered, text_array, text_list_view, Json, JsonView};
use crate::lists::{lemma_without, unique_keys};
use crate::manager::{has_task, is_named, lemma_task_at, task_at, Effect, Env, TaskManager};
use crate::manifest::string_texts;
use crate::native::{native_request, NativeDispatcher};
use crate::perform::{answered, counts, outcome_of, Given};
use crate::queries::{rows, slice_of, stat_view};
use crate::rpc::{is_gid, options_view, Call, CallView, Proto};
use crate::session::lemma_field;
use crate::status::{files_view, native_view, peers_view, status_view, uris_view};
use crate::subscriptions::{sub_view, subs_view};
use crate::task::{is_final, Task};
use crate::text::has_prefix;
use crate::trackers::TrackerSubscription;

verus! {

// ---------------------------------------------------------------------------
// Requests that were carried out
// ---------------------------------------------------------------------------

/// A request that was carried out: the engine before and after, what was given from
/// outside, and the answer.
pub struct Deed {
    pub before: TaskManager,
    pub after: TaskManager,
    pub call: Call,
    pub given: Given,
    pub fresh: String,
    pub env: Env,
    pub now: u64,
    pub r: Result<Json, String>,
}

impl Deed {
    /// Whether it is what came of a request of existing front ends.
    pub open spec fn of_compat(self, d: CompatDispatcher, method: Seq<char>, params: Seq<Json>) -> bool {
        &&& compat_request(d, method, params) == Ok::<CallView, CompatErrorView>(self.call@)
        &&& self.before.performs(
            self.after,
            self.call,
            self.given,
            self.fresh,
            Proto::Compat,
            self.env,
            self.now,
            self.r,
        )
    }

    /// Whether it is what came of a request of the engine's own protocol.
    pub open spec fn of_native(self, d: NativeDispatcher, method: Seq<char>, params: Json) -> bool {
        &&& native_request(d, method, params) == Ok::<CallView, Seq<char>>(self.call@)
        &&& self.before.performs(
            self.after,
            self.call,
            self.given,
            self.fresh,
            Proto::Native,
            self.env,
            self.now,
            self.r,
        )
    }

    /// The place of a task before.
    pub open spec fn place(self, gid: Seq<char>) -> int {
        task_at(self.before.tasks@, gid)
    }

    /// A task before.
    pub open spec fn task(self, gid: Seq<char>) -> Task {
        self.before.tasks@[self.place(gid)]
    }

    /// Whether there was such a task before.
    pub open spec fn knew(self, gid: Seq<char>) -> bool {
        has_task(self.before.tasks@, gid)
    }

    /// Whether every task but one is as it was.
    pub open spec fn only_touched(self, gid: Seq<char>) -> bool {
        &&& self.after.tasks@.len() == self.before.tasks@.len()
        &&& forall|i: int|
            0 <= i < self.before.tasks@.len() && i != self.place(gid) ==> #[trigger] self.after.tasks@[i]
                == self.before.tasks@[i]
    }

    /// Whether the request failed and changed nothing.
    pub open spec fn refused(self) -> bool {
        self.r is Err && self.after == self.before
    }

    /// Whether a task came to rest: a waiting one at once, and out of the queue; one that
    /// runs is told to stop. Any other request for it fails.
    pub open spec fn paused(self, gid: Seq<char>) -> bool {
        let t = self.task(gid);
        let u = self.after.tasks@[self.place(gid)];
        if !self.knew(gid) {
            self.refused()
        } else if t.shared.status is Waiting {
            &&& self.r is Ok
            &&& self.only_touched(gid)
            &&& u.shared.status is Paused
            &&& u.gid == t.gid
            &&& !string_texts(self.after.queue@).contains(gid)
            &&& self.after.active == self.before.active
            &&& self.after.stopped_order == self.before.stopped_order
        } else if t.shared.status is Active || t.shared.status is Seeding {
            &&& self.r is Ok
            &&& self.only_touched(gid)
            &&& u.intent is Pause
            &&& u.shared == t.shared
            &&& self.after.queue == self.before.queue
            &&& self.after.effects@ == self.before.effects@.push(Effect::Cancel { gid: t.gid })
        } else {
            self.refused()
        }
    }

    /// Whether a paused task waits again, at the end of the queue. Any other request for
    /// it fails.
    pub open spec fn queued_again(self, gid: Seq<char>) -> bool {
        let u = self.after.tasks@[self.place(gid)];
        if self.knew(gid) && self.task(gid).shared.status is Paused {
            &&& self.r is Ok
            &&& self.only_touched(gid)
            &&& u.shared.status is Waiting
            &&& u.intent is Unset
            &&& u.gid == self.task(gid).gid
            &&& string_texts(self.after.queue@) == string_texts(self.before.queue@).push(gid)
            &&& self.after.active == self.before.active
            &&& self.after.stopped_order == self.before.stopped_order
            &&& self.after.effects@.contains(Effect::Kick)
        } else {
            self.refused()
        }
    }

    /// Whether a task is gone, and what it downloaded is kept: an active one goes as soon
    /// as it has stopped, any other one at once.
    pub open spec fn removed(self, gid: Seq<char>) -> bool {
        let t = self.task(gid);
        let u = self.after.tasks@[self.place(gid)];
        if !self.knew(gid) {
            self.refused()
        } else if t.shared.status is Active {
            &&& self.r is Ok
            &&& self.only_touched(gid)
            &&& u.intent is Remove
            &&& !u.delete_files
            &&& u.shared == t.shared
            &&& self.after.effects@ == self.before.effects@.push(Effect::Cancel { gid: t.gid })
        } else {
            &&& self.r is Ok
            &&& self.after.tasks@ == self.before.tasks@.remove(self.place(gid))
            &&& !has_task(self.after.tasks@, gid)
            &&& !string_texts(self.after.stopped_order@).contains(gid)
            &&& (t.shared.status is Waiting ==> !string_texts(self.after.queue@).contains(gid))
            &&& self.after.effects@.contains(
                Effect::CleanUp { path: t.shared.path, files: false },
            )
            &&& !self.after.effects@.skip(self.before.effects@.len() as int).contains(
                Effect::CleanUp { path: t.shared.path, files: true },
            )
        }
    }

    /// Whether a stopped task is forgotten. A task that has not stopped stays.
    pub open spec fn forgotten(self, gid: Seq<char>) -> bool {
        let t = self.task(gid);
        if self.knew(gid) && (t.shared.status is Complete || t.shared.status is Error
            || t.shared.status is Removed) {
            &&& self.r is Ok
            &&& self.after.tasks@ == self.before.tasks@.remove(self.place(gid))
            &&& !has_task(self.after.tasks@, gid)
            &&& !string_texts(self.after.stopped_order@).contains(gid)
            &&& self.after.queue == self.before.queue
            &&& self.after.active == self.before.active
        } else {
            self.refused()
        }
    }

    /// Whether every stopped task is forgotten, and no other.
    pub open spec fn purged(self) -> bool {
        &&& self.r is Ok
        &&& self.after.stopped_order@.len() == 0
        &&& self.after.queue == self.before.queue
        &&& self.after.active == self.before.active
        &&& forall|i: int|
            0 <= i < self.after.tasks@.len() ==> !is_final(
                (#[trigger] self.after.tasks@[i]).shared.status,
            ) && self.before.tasks@.contains(self.after.tasks@[i])
        &&& forall|i: int|
            0 <= i < self.before.tasks@.len() && !is_final(
                (#[trigger] self.before.tasks@[i]).shared.status,
            ) ==> self.after.tasks@.contains(self.before.tasks@[i])
    }

    /// Whether the answer is this and nothing changed.
    pub open spec fn told(self, v: JsonView) -> bool {
        self.r is Ok && self.r->Ok_0@ == v && self.after == self.before
    }

    /// Whether an answer, if there is one, is that the request was carried out.
    pub open spec fn says_ok(self) -> bool {
        self.r is Ok ==> self.r->Ok_0@ == JsonView::Str("OK"@)
    }

    /// The same in the engine's own protocol.
    pub open spec fn says_ok_native(self) -> bool {
        self.r is Ok ==> self.r->Ok_0@.at("ok"@) == JsonView::Bool(true)
    }
}

proof fn lemma_gone(before: Seq<Task>, k: int, gid: Seq<char>)
    requires
        crate::manager::names_differ(before),
        0 <= k < before.len(),
        before[k].gid@ == gid,
    ensures
        !has_task(before.remove(k), gid),
{
    let after = before.remove(k);
    lemma_task_at(after, gid);
    if is_named(after, gid) {
        let i = choose|i: int| 0 <= i < after.len() && (#[trigger] after[i]).gid@ == gid;
        let o = if i < k { i } else { i + 1 };
        assert(after[i] == before[o]);
        if o < k {
            assert(before[o].gid@ != before[k].gid@);
        } else {
            assert(before[k].gid@ != before[o].gid@);
        }
    }
}

proof fn lemma_paused(e: Deed, gid: Seq<char>)
    requires
        e.before.pauses(e.after, gid, e.now, outcome_of(e.r)),
    ensures
        e.paused(gid),
{
    lemma_task_at(e.before.tasks@, gid);
    lemma_without(string_texts(e.before.queue@), gid);
}

proof fn lemma_queued_again(e: Deed, gid: Seq<char>)
    requires
        e.before.unpauses(e.after, gid, e.now, outcome_of(e.r)),
    ensures
        e.queued_again(gid),
{
    lemma_task_at(e.before.tasks@, gid);
    if e.knew(gid) && e.task(gid).shared.status is Paused {
        assert(string_texts(e.after.queue@) =~= string_texts(e.before.queue@).push(gid));
        assert(e.after.effects@[e.before.effects@.len() as int] == Effect::Kick);
    }
}

proof fn lemma_removed(e: Deed, gid: Seq<char>)
    requires
        e.before.wf(),
        e.before.removes(e.after, gid, outcome_of(e.r)),
    ensures
        e.removed(gid),
{
    lemma_task_at(e.before.tasks@, gid);
    lemma_without(string_texts(e.before.queue@), gid);
    lemma_without(string_texts(e.before.stopped_order@), gid);
    if e.knew(gid) && !(e.task(gid).shared.status is Active) {
        let t = e.task(gid);
        let n = e.before.effects@.len() as int;
        lemma_gone(e.before.tasks@, e.place(gid), gid);
        assert(e.after.effects@[n] == (Effect::CleanUp { path: t.shared.path, files: false }));
        let rest = e.after.effects@.skip(n);
        assert(rest.len() == 4);
        assert forall|i: int| 0 <= i < rest.len() implies rest[i] != (Effect::CleanUp {
            path: t.shared.path,
            files: true,
        }) by {
            assert(rest[i] == e.after.effects@[n + i]);
            assert(i == 0 || i == 1 || i == 2 || i == 3);
        }
    }
}

proof fn lemma_forgotten(e: Deed, gid: Seq<char>)
    requires
        e.before.wf(),
        e.before.forgets(e.after, gid, outcome_of(e.r)),
    ensures
        e.forgotten(gid),
{
    lemma_task_at(e.before.tasks@, gid);
    lemma_without(string_texts(e.before.stopped_order@), gid);
    if e.knew(gid) && is_final(e.task(gid).shared.status) {
        lemma_gone(e.before.tasks@, e.place(gid), gid);
    }
}

proof fn lemma_purged(e: Deed)
    requires
        e.before.purges(e.after),
        e.r is Ok,
    ensures
        e.purged(),
{
    crate::outcome::lemma_live_tasks(e.before.tasks@);
}

// ---------------------------------------------------------------------------
// The protocol of existing front ends
// ---------------------------------------------------------------------------

/// The parameters of one who knows the secret: the token in front, if one is asked for,
/// and then the arguments.
pub open spec fn lets_in(d: CompatDispatcher, params: Seq<Json>, args: Seq<Json>) -> bool {
    match d.secret {
        Some(s) => {
            &&& params.len() > 0
            &&& params[0]@ == JsonView::Str("token:"@ + s@)
            &&& params.skip(1) == args
        },
        None => params == args,
    }
}

/// Whether the first argument names a task.
pub open spec fn names_task(args: Seq<Json>, gid: Seq<char>) -> bool {
    args.len() > 0 && args[0]@ == JsonView::Str(gid) && is_gid(gid)
}

/// A number that tells the methods apart.
spec fn mark(m: Seq<char>) -> int {
    m.len() * 1_000_000 + (m[0] as int) * 1000 + (m[m.len() - 2] as int)
}

/// Whether a name begins like no name space.
spec fn plain(m: Seq<char>) -> bool {
    m.len() >= 5 && m[1] != 'y' && !(m[0] == 'a' && m[1] == 'r')
}

proof fn lemma_marks()
    ensures
        mark("addUri"@) == 6097114,
        mark("addTorrent"@) == 10097110,
        mark("getPeers"@) == 8103114,
        mark("remove"@) == 6114118,
        mark("forceRemove"@) == 11102118,
        mark("pause"@) == 5112115,
        mark("forcePause"@) == 10102115,
        mark("unpause"@) == 7117115,
        mark("tellStatus"@) == 10116117,
        mark("tellActive"@) == 10116118,
        mark("tellWaiting"@) == 11116110,
        mark("tellStopped"@) == 11116101,
        mark("getGlobalStat"@) == 13103097,
        mark("getVersion"@) == 10103111,
        mark("getFiles"@) == 8103101,
        mark("getURIs"@) == 7103073,
        mark("getOption"@) == 9103111,
        mark("changeOption"@) == 12099111,
        mark("getGlobalOption"@) == 15103111,
        mark("changeGlobalOption"@) == 18099111,
        mark("purgeDownloadResult"@) == 19112108,
        mark("removeDownloadResult"@) == 20114108,
        mark("saveSession"@) == 11115111,
        mark("shutdown"@) == 8115119,
        mark("forceShutdown"@) == 13102119,
        mark("system.multicall"@) == 16115108,
        mark("system.listMethods"@) == 18115100,
        mark("system.listNotifications"@) == 24115110,
        plain("addUri"@),
        plain("addTorrent"@),
        plain("getPeers"@),
        plain("remove"@),
        plain("forceRemove"@),
        plain("pause"@),
        plain("forcePause"@),
        plain("unpause"@),
        plain("tellStatus"@),
        plain("tellActive"@),
        plain("tellWaiting"@),
        plain("tellStopped"@),
        plain("getGlobalStat"@),
        plain("getVersion"@),
        plain("getFiles"@),
        plain("getURIs"@),
        plain("getOption"@),
        plain("changeOption"@),
        plain("getGlobalOption"@),
        plain("changeGlobalOption"@),
        plain("purgeDownloadResult"@),
        plain("removeDownloadResult"@),
        plain("saveSession"@),
        plain("shutdown"@),
        plain("forceShutdown"@),
{
    reveal_strlit("addUri");
    reveal_strlit("addTorrent");
    reveal_strlit("getPeers");
    reveal_strlit("remove");
    reveal_strlit("forceRemove");
    reveal_strlit("pause");
    reveal_strlit("forcePause");
    reveal_strlit("unpause");
    reveal_strlit("tellStatus");
    reveal_strlit("tellActive");
    reveal_strlit("tellWaiting");
    reveal_strlit("tellStopped");
    reveal_strlit("getGlobalStat");
    reveal_strlit("getVersion");
    reveal_strlit("getFiles");
    reveal_strlit("getURIs");
    reveal_strlit("getOption");
    reveal_strlit("changeOption");
    reveal_strlit("getGlobalOption");
    reveal_strlit("changeGlobalOption");
    reveal_strlit("purgeDownloadResult");
    reveal_strlit("removeDownloadResult");
    reveal_strlit("saveSession");
    reveal_strlit("shutdown");
    reveal_strlit("forceShutdown");
    reveal_strlit("system.multicall");
    reveal_strlit("system.listMethods");
    reveal_strlit("system.listNotifications");
}

proof fn lemma_plain(m: Seq<char>)
    requires
        plain(m),
    ensures
        bare_method("aria2."@ + m) == m,
        bare_method(m) == m,
        !has_prefix(m, "system."@),
{
    reveal_strlit("aria2.");
    reveal_strlit("system.");
    let p = "aria2."@;
    let s = p + m;
    assert(s.take(p.len() as int) =~= p);
    assert(s.skip(p.len() as int) =~= m);
    if has_prefix(m, p) {
        assert(m.take(p.len() as int)[0] == p[0] && m.take(p.len() as int)[1] == p[1]);
    }
    let q = "system."@;
    if has_prefix(m, q) {
        assert(m.take(q.len() as int)[1] == q[1]);
    }
}

/// A front end that asks for a paused task to go on gets it queued again.
pub proof fn law_front_end_unpauses(
    d: CompatDispatcher,
    method: Seq<char>,
    params: Seq<Json>,
    args: Seq<Json>,
    gid: Seq<char>,
    e: Deed,
)
    requires
        method == "aria2.unpause"@,
        lets_in(d, params, args),
        names_task(args, gid),
    ensures
        compat_request(d, method, params) is Ok,
        e.of_compat(d, method, params) ==> e.before.unpauses(e.after, gid, e.now, outcome_of(e.r)),
        e.of_compat(d, method, params) ==> e.queued_again(gid) && e.says_ok(),
{
    lemma_marks();
    reveal_strlit("aria2.");
    reveal_strlit("aria2.unpause");
    reveal_strlit("unpause");
    assert("aria2.unpause"@ =~= "aria2."@ + "unpause"@);
    lemma_plain("unpause"@);
    if e.of_compat(d, method, params) {
        lemma_queued_again(e, gid);
    }
}

/// A front end that asks for a task to pause, by force or not, gets it to rest.
pub proof fn law_front_end_pauses(
    d: CompatDispatcher,
    method: Seq<char>,
    params: Seq<Json>,
    args: Seq<Json>,
    gid: Seq<char>,
    e: Deed,
)
    requires
        method == "aria2.pause"@ || method == "aria2.forcePause"@,
        lets_in(d, params, args),
        names_task(args, gid),
    ensures
        compat_request(d, method, params) is Ok,
        e.of_compat(d, method, params) ==> e.before.pauses(e.after, gid, e.now, outcome_of(e.r)),
        e.of_compat(d, method, params) ==> e.paused(gid) && e.says_ok(),
{
    lemma_marks();
    reveal_strlit("aria2.");
    reveal_strlit("aria2.pause");
    reveal_strlit("pause");
    assert("aria2.pause"@ =~= "aria2."@ + "pause"@);
    lemma_plain("pause"@);
    reveal_strlit("aria2.forcePause");
    reveal_strlit("forcePause");
    assert("aria2.forcePause"@ =~= "aria2."@ + "forcePause"@);
    lemma_plain("forcePause"@);
    if e.of_compat(d, method, params) {
        lemma_paused(e, gid);
    }
}

/// A front end that asks for a task to go, by force or not, gets it removed with its files kept.
pub proof fn law_front_end_removes(
    d: CompatDispatcher,
    method: Seq<char>,
    params: Seq<Json>,
    args: Seq<Json>,
    gid: Seq<char>,
    e: Deed,
)
    requires
        method == "aria2.remove"@ || method == "aria2.forceRemove"@,
        lets_in(d, params, args),
        names_task(args, gid),
    ensures
        compat_request(d, method, params) is Ok,
        e.of_compat(d, method, params) ==> e.before.removes(e.after, gid, outcome_of(e.r)),
        e.of_compat(d, method, params) && e.before.wf() ==> e.removed(gid) && e.says_ok(),
{
    lemma_marks();
    reveal_strlit("aria2.");
    reveal_strlit("aria2.remove");
    reveal_strlit("remove");
    assert("aria2.remove"@ =~= "aria2."@ + "remove"@);
    lemma_plain("remove"@);
    reveal_strlit("aria2.forceRemove");
    reveal_strlit("forceRemove");
    assert("aria2.forceRemove"@ =~= "aria2."@ + "forceRemove"@);
    lemma_plain("forceRemove"@);
    if e.of_compat(d, method, params) && e.before.wf() {
        lemma_removed(e, gid);
    }
}

/// A front end that asks for the result of a stopped task to go gets it forgotten.
pub proof fn law_front_end_forgets(
    d: CompatDispatcher,
    method: Seq<char>,
    params: Seq<Json>,
    args: Seq<Json>,
    gid: Seq<char>,
    e: Deed,
)
    requires
        method == "aria2.removeDownloadResult"@,
        lets_in(d, params, args),
        names_task(args, gid),
    ensures
        compat_request(d, method, params) is Ok,
        e.of_compat(d, method, params) ==> e.before.forgets(e.after, gid, outcome_of(e.r)),
        e.of_compat(d, method, params) && e.before.wf() ==> e.forgotten(gid) && e.says_ok(),
{
    lemma_marks();
    reveal_strlit("aria2.");
    reveal_strlit("aria2.removeDownloadResult");
    reveal_strlit("removeDownloadResult");
    assert("aria2.removeDownloadResult"@ =~= "aria2."@ + "removeDownloadResult"@);
    lemma_plain("removeDownloadResult"@);
    if e.of_compat(d, method, params) && e.before.wf() {
        lemma_forgotten(e, gid);
    }
}

/// A front end that asks for all results to go gets every stopped task forgotten.
pub proof fn law_front_end_purges(
    d: CompatDispatcher,
    method: Seq<char>,
    params: Seq<Json>,
    args: Seq<Json>,
    e: Deed,
)
    requires
        method == "aria2.purgeDownloadResult"@,
        lets_in(d, params, args),
    ensures
        compat_request(d, method, params) is Ok,
        e.of_compat(d, method, params) ==> e.purged() && e.says_ok(),
{
    lemma_marks();
    reveal_strlit("aria2.");
    reveal_strlit("aria2.purgeDownloadResult");
    reveal_strlit("purgeDownloadResult");
    assert("aria2.purgeDownloadResult"@ =~= "aria2."@ + "purgeDownloadResult"@);
    lemma_plain("purgeDownloadResult"@);
    if e.of_compat(d, method, params) {
        lemma_purged(e);
    }
}

/// A front end that asks for a task is told of it, with numbers as text; with a list of
/// keys it is told of these.
pub proof fn law_front_end_is_told_of_a_task(
    d: CompatDispatcher,
    method: Seq<char>,
    params: Seq<Json>,
    args: Seq<Json>,
    gid: Seq<char>,
    e: Deed,
)
    requires
        method == "aria2.tellStatus"@,
        lets_in(d, params, args),
        names_task(args, gid),
    ensures
        compat_request(d, method, params) is Ok,
        e.of_compat(d, method, params) ==> !e.knew(gid) ==> e.refused(),
        e.of_compat(d, method, params) ==> e.knew(gid) && args.len() == 1 ==> e.told(status_view(e.task(gid), e.now)),
        e.of_compat(d, method, params) ==> e.knew(gid) ==> e.told(filtered(status_view(e.task(gid), e.now), texts_at(args, 1))),
{
    lemma_marks();
    reveal_strlit("aria2.");
    reveal_strlit("aria2.tellStatus");
    reveal_strlit("tellStatus");
    assert("aria2.tellStatus"@ =~= "aria2."@ + "tellStatus"@);
    lemma_plain("tellStatus"@);
    assert(args.len() == 1 ==> texts_at(args, 1) is None);
}

/// A front end that asks for the active tasks is told of all of them.
pub proof fn law_front_end_lists_active(
    d: CompatDispatcher,
    method: Seq<char>,
    params: Seq<Json>,
    args: Seq<Json>,
    e: Deed,
)
    requires
        method == "aria2.tellActive"@,
        lets_in(d, params, args),
    ensures
        compat_request(d, method, params) is Ok,
        e.of_compat(d, method, params) ==> e.told(JsonView::Arr(rows(e.before.tasks@, e.before.active_places(), e.now, false, texts_at(args, 0)))),
{
    lemma_marks();
    reveal_strlit("aria2.");
    reveal_strlit("aria2.tellActive");
    reveal_strlit("tellActive");
    assert("aria2.tellActive"@ =~= "aria2."@ + "tellActive"@);
    lemma_plain("tellActive"@);
    assert(slice_of(e.before.active_places(), 0, -1) =~= e.before.active_places());
}

/// A front end that asks for waiting tasks from an offset on is told of that part of the
/// queue.
pub proof fn law_front_end_lists_waiting(
    d: CompatDispatcher,
    method: Seq<char>,
    params: Seq<Json>,
    args: Seq<Json>,
    offset: i64,
    num: i64,
    e: Deed,
)
    requires
        method == "aria2.tellWaiting"@,
        lets_in(d, params, args),
        args.len() == 2,
        args[0]@.signed() == Some(offset),
        args[1]@.signed() == Some(num),
    ensures
        compat_request(d, method, params) is Ok,
        e.of_compat(d, method, params) ==> e.told(JsonView::Arr(rows(e.before.tasks@, slice_of(e.before.waiting_places(), offset as int, num as int), e.now, false, None))),
{
    lemma_marks();
    reveal_strlit("aria2.");
    reveal_strlit("aria2.tellWaiting");
    reveal_strlit("tellWaiting");
    assert("aria2.tellWaiting"@ =~= "aria2."@ + "tellWaiting"@);
    lemma_plain("tellWaiting"@);
}

/// A front end that asks for stopped tasks from an offset on is told of that part of them.
pub proof fn law_front_end_lists_stopped(
    d: CompatDispatcher,
    method: Seq<char>,
    params: Seq<Json>,
    args: Seq<Json>,
    offset: i64,
    num: i64,
    e: Deed,
)
    requires
        method == "aria2.tellStopped"@,
        lets_in(d, params, args),
        args.len() == 2,
        args[0]@.signed() == Some(offset),
        args[1]@.signed() == Some(num),
    ensures
        compat_request(d, method, params) is Ok,
        e.of_compat(d, method, params) ==> e.told(JsonView::Arr(rows(e.before.tasks@, slice_of(e.before.stopped_places(), offset as int, num as int), e.now, false, None))),
{
    lemma_marks();
    reveal_strlit("aria2.");
    reveal_strlit("aria2.tellStopped");
    reveal_strlit("tellStopped");
    assert("aria2.tellStopped"@ =~= "aria2."@ + "tellStopped"@);
    lemma_plain("tellStopped"@);
}

/// A front end that asks for the figures over all tasks is told them, with numbers as text.
pub proof fn law_front_end_is_told_the_figures(
    d: CompatDispatcher,
    method: Seq<char>,
    params: Seq<Json>,
    args: Seq<Json>,
    e: Deed,
)
    requires
        method == "aria2.getGlobalStat"@,
        lets_in(d, params, args),
    ensures
        compat_request(d, method, params) is Ok,
        e.of_compat(d, method, params) ==> e.told(stat_view(e.before.stat(), false)),
{
    lemma_marks();
    reveal_strlit("aria2.");
    reveal_strlit("aria2.getGlobalStat");
    reveal_strlit("getGlobalStat");
    assert("aria2.getGlobalStat"@ =~= "aria2."@ + "getGlobalStat"@);
    lemma_plain("getGlobalStat"@);
}

/// A front end that asks for the options of the engine is told them.
pub proof fn law_front_end_is_told_the_settings(
    d: CompatDispatcher,
    method: Seq<char>,
    params: Seq<Json>,
    args: Seq<Json>,
    e: Deed,
)
    requires
        method == "aria2.getGlobalOption"@,
        lets_in(d, params, args),
    ensures
        compat_request(d, method, params) is Ok,
        e.of_compat(d, method, params) ==> e.told(e.before.global_view()),
{
    lemma_marks();
    reveal_strlit("aria2.");
    reveal_strlit("aria2.getGlobalOption");
    reveal_strlit("getGlobalOption");
    assert("aria2.getGlobalOption"@ =~= "aria2."@ + "getGlobalOption"@);
    lemma_plain("getGlobalOption"@);
}

/// A front end that asks for the options of a task is told them.
pub proof fn law_front_end_is_told_the_options(
    d: CompatDispatcher,
    method: Seq<char>,
    params: Seq<Json>,
    args: Seq<Json>,
    gid: Seq<char>,
    e: Deed,
)
    requires
        method == "aria2.getOption"@,
        lets_in(d, params, args),
        names_task(args, gid),
    ensures
        compat_request(d, method, params) is Ok,
        e.of_compat(d, method, params) ==> if e.knew(gid) { e.told(e.before.option_view(e.task(gid))) } else { e.refused() },
{
    lemma_marks();
    reveal_strlit("aria2.");
    reveal_strlit("aria2.getOption");
    reveal_strlit("getOption");
    assert("aria2.getOption"@ =~= "aria2."@ + "getOption"@);
    lemma_plain("getOption"@);
}

/// A front end that asks for the files of a task is told them.
pub proof fn law_front_end_is_told_the_files(
    d: CompatDispatcher,
    method: Seq<char>,
    params: Seq<Json>,
    args: Seq<Json>,
    gid: Seq<char>,
    e: Deed,
)
    requires
        method == "aria2.getFiles"@,
        lets_in(d, params, args),
        names_task(args, gid),
    ensures
        compat_request(d, method, params) is Ok,
        e.of_compat(d, method, params) ==> if e.knew(gid) { e.told(JsonView::Arr(files_view(e.task(gid), false))) } else { e.refused() },
{
    lemma_marks();
    reveal_strlit("aria2.");
    reveal_strlit("aria2.getFiles");
    reveal_strlit("getFiles");
    assert("aria2.getFiles"@ =~= "aria2."@ + "getFiles"@);
    lemma_plain("getFiles"@);
}

/// A front end that asks for the addresses of a task is told them; a BitTorrent task has
/// none.
pub proof fn law_front_end_is_told_the_addresses(
    d: CompatDispatcher,
    method: Seq<char>,
    params: Seq<Json>,
    args: Seq<Json>,
    gid: Seq<char>,
    e: Deed,
)
    requires
        method == "aria2.getURIs"@,
        lets_in(d, params, args),
        names_task(args, gid),
    ensures
        compat_request(d, method, params) is Ok,
        e.of_compat(d, method, params) ==> if !e.knew(gid) {
            e.refused()
        } else if e.task(gid).bt_meta is Some || e.task(gid).bt_info_hash is Some {
            e.told(JsonView::Arr(Seq::empty()))
        } else {
            e.told(JsonView::Arr(uris_view(e.task(gid))))
        },
{
    lemma_marks();
    reveal_strlit("aria2.");
    reveal_strlit("aria2.getURIs");
    reveal_strlit("getURIs");
    assert("aria2.getURIs"@ =~= "aria2."@ + "getURIs"@);
    lemma_plain("getURIs"@);
}

/// A front end that asks for the peers of a BitTorrent task is told them.
pub proof fn law_front_end_is_told_the_peers(
    d: CompatDispatcher,
    method: Seq<char>,
    params: Seq<Json>,
    args: Seq<Json>,
    gid: Seq<char>,
    e: Deed,
)
    requires
        method == "aria2.getPeers"@,
        lets_in(d, params, args),
        names_task(args, gid),
    ensures
        compat_request(d, method, params) is Ok,
        e.of_compat(d, method, params) ==> if e.knew(gid) && (e.task(gid).bt_meta is Some || e.task(gid).bt_info_hash is Some) {
            e.told(peers_view(e.task(gid).bt_peers@))
        } else {
            e.refused()
        },
{
    lemma_marks();
    reveal_strlit("aria2.");
    reveal_strlit("aria2.getPeers");
    reveal_strlit("getPeers");
    assert("aria2.getPeers"@ =~= "aria2."@ + "getPeers"@);
    lemma_plain("getPeers"@);
}

/// A front end that asks for the session to be saved gets that, and nothing else changes.
pub proof fn law_front_end_saves(
    d: CompatDispatcher,
    method: Seq<char>,
    params: Seq<Json>,
    args: Seq<Json>,
    e: Deed,
)
    requires
        method == "aria2.saveSession"@,
        lets_in(d, params, args),
    ensures
        compat_request(d, method, params) is Ok,
        e.of_compat(d, method, params) ==> e.r is Ok && e.says_ok() && e.after.effects@ == e.before.effects@.push(Effect::Save) && e.before.same_but_effects(e.after),
{
    lemma_marks();
    reveal_strlit("aria2.");
    reveal_strlit("aria2.saveSession");
    reveal_strlit("saveSession");
    assert("aria2.saveSession"@ =~= "aria2."@ + "saveSession"@);
    lemma_plain("saveSession"@);
}

/// A front end that asks for the engine to end gets that, and nothing else changes.
pub proof fn law_front_end_shuts_down(
    d: CompatDispatcher,
    method: Seq<char>,
    params: Seq<Json>,
    args: Seq<Json>,
    e: Deed,
)
    requires
        method == "aria2.shutdown"@ || method == "aria2.forceShutdown"@,
        lets_in(d, params, args),
    ensures
        compat_request(d, method, params) is Ok,
        e.of_compat(d, method, params) ==> e.r is Ok && e.says_ok() && e.after.effects@ == e.before.effects@.push(Effect::Shutdown) && e.before.same_but_effects(e.after),
{
    lemma_marks();
    reveal_strlit("aria2.");
    reveal_strlit("aria2.shutdown");
    reveal_strlit("shutdown");
    assert("aria2.shutdown"@ =~= "aria2."@ + "shutdown"@);
    lemma_plain("shutdown"@);
    reveal_strlit("aria2.forceShutdown");
    reveal_strlit("forceShutdown");
    assert("aria2.forceShutdown"@ =~= "aria2."@ + "forceShutdown"@);
    lemma_plain("forceShutdown"@);
}

/// A front end that changes options of a task changes those of the task that it names.
pub proof fn law_front_end_changes_an_option(
    d: CompatDispatcher,
    method: Seq<char>,
    params: Seq<Json>,
    args: Seq<Json>,
    gid: Seq<char>,
    e: Deed,
)
    requires
        method == "aria2.changeOption"@,
        lets_in(d, params, args),
        names_task(args, gid),
        args.len() == 2,
    ensures
        compat_request(d, method, params) is Ok,
        e.of_compat(d, method, params) ==> exists|o: Json| #[trigger]
            options_view(o) == options_view(args[1]) && e.before.changes_option(
                e.after,
                gid,
                o,
                outcome_of(e.r),
            ) && e.says_ok(),
{
    lemma_marks();
    reveal_strlit("aria2.");
    reveal_strlit("aria2.changeOption");
    reveal_strlit("changeOption");
    assert("aria2.changeOption"@ =~= "aria2."@ + "changeOption"@);
    lemma_plain("changeOption"@);
    if e.of_compat(d, method, params) {
        assert(options_view(e.call->ChangeOption_options) == options_view(args[1]));
    }
}

/// A front end that changes options of the engine changes them.
pub proof fn law_front_end_changes_a_setting(
    d: CompatDispatcher,
    method: Seq<char>,
    params: Seq<Json>,
    args: Seq<Json>,
    e: Deed,
)
    requires
        method == "aria2.changeGlobalOption"@,
        lets_in(d, params, args),
        args.len() == 1,
    ensures
        compat_request(d, method, params) is Ok,
        e.of_compat(d, method, params) ==> exists|o: Json| #[trigger]
            options_view(o) == options_view(args[0]) && e.before.changes_global(
                e.after,
                o,
                e.env,
                outcome_of(e.r),
            ) && e.says_ok(),
{
    lemma_marks();
    reveal_strlit("aria2.");
    reveal_strlit("aria2.changeGlobalOption");
    reveal_strlit("changeGlobalOption");
    assert("aria2.changeGlobalOption"@ =~= "aria2."@ + "changeGlobalOption"@);
    lemma_plain("changeGlobalOption"@);
    if e.of_compat(d, method, params) {
        assert(options_view(e.call->ChangeGlobal_options) == options_view(args[0]));
    }
}

/// A front end that adds addresses without a magnet link among them gets a new task for
/// them, under the name that it is told, at the place in the queue that it asks for.
pub proof fn law_front_end_adds_addresses(
    d: CompatDispatcher,
    method: Seq<char>,
    params: Seq<Json>,
    args: Seq<Json>,
    uris: Seq<Seq<char>>,
    e: Deed,
)
    requires
        method == "aria2.addUri"@,
        lets_in(d, params, args),
        args.len() >= 1,
        text_array(Some(args[0]@)) == Some(uris),
        args.len() > 1 ==> args[1]@ is Obj,
    ensures
        compat_request(d, method, params) is Ok,
        e.of_compat(d, method, params) ==> e.given is Nothing ==> exists|u: Vec<String>, o: Json|
            #![trigger string_texts(u@), options_view(o)]
            string_texts(u@) == uris && options_view(o) == options_at(args, 1)
                && e.before.adds_uris(
                e.after,
                u,
                o,
                crate::compat::number_at(args, 2),
                e.fresh,
                e.env,
                outcome_of(e.r),
            ) && answered(e.r, JsonView::Str(e.fresh@)),
{
    lemma_marks();
    reveal_strlit("aria2.");
    reveal_strlit("aria2.addUri");
    reveal_strlit("addUri");
    assert("aria2.addUri"@ =~= "aria2."@ + "addUri"@);
    lemma_plain("addUri"@);
    if e.of_compat(d, method, params) && e.given is Nothing {
        let u = e.call->Add_source->Uris_0;
        let o = e.call->Add_options;
        assert(string_texts(u@) == uris);
        assert(options_view(o) == options_at(args, 1));
    }
}

/// A front end that adds a torrent file gets a new task for it once the file was read, and
/// is told its name; a file that cannot be read changes nothing.
pub proof fn law_front_end_adds_a_torrent(
    d: CompatDispatcher,
    method: Seq<char>,
    params: Seq<Json>,
    args: Seq<Json>,
    text: Seq<char>,
    e: Deed,
)
    requires
        method == "aria2.addTorrent"@,
        lets_in(d, params, args),
        args.len() >= 1,
        args[0]@ == JsonView::Str(text),
    ensures
        compat_request(d, method, params) is Ok,
        e.of_compat(d, method, params) ==> match e.given {
            Given::Torrent(Ok(meta)) => exists|o: Json| #[trigger]
                options_view(o) == options_at(args, 1) && e.before.adds_torrent(
                    e.after,
                    meta,
                    o,
                    crate::compat::number_at(args, 2),
                    e.fresh,
                    e.env,
                ) && e.r is Ok && e.r->Ok_0@ == JsonView::Str(e.fresh@),
            Given::Torrent(Err(_)) => e.refused(),
            _ => true,
        },
        e.of_compat(d, method, params) ==> e.call is Add && e.call->Add_source is Torrent && e.call->Add_source->Torrent_0@ == text,
{
    lemma_marks();
    reveal_strlit("aria2.");
    reveal_strlit("aria2.addTorrent");
    reveal_strlit("addTorrent");
    assert("aria2.addTorrent"@ =~= "aria2."@ + "addTorrent"@);
    lemma_plain("addTorrent"@);
    if e.of_compat(d, method, params) {
        assert(options_view(e.call->Add_options) == options_at(args, 1));
    }
}

/// A front end that asks for the version is told it.
pub proof fn law_front_end_is_told_the_version(
    d: CompatDispatcher,
    method: Seq<char>,
    params: Seq<Json>,
    args: Seq<Json>,
    e: Deed,
)
    requires
        method == "aria2.getVersion"@,
        lets_in(d, params, args),
    ensures
        compat_request(d, method, params) is Ok,
        e.of_compat(d, method, params) ==> e.r is Ok && e.r->Ok_0@.at("version"@) == JsonView::Str(d.version@) && e.after == e.before,
        e.of_compat(d, method, params) ==> e.r->Ok_0@.at("enabledFeatures"@).array() == Some(seq![JsonView::Str(d.name@ + " (Rust)"@)]),
{
    lemma_marks();
    reveal_strlit("aria2.");
    reveal_strlit("aria2.getVersion");
    reveal_strlit("getVersion");
    assert("aria2.getVersion"@ =~= "aria2."@ + "getVersion"@);
    lemma_plain("getVersion"@);
    let v = crate::compat::version_view(d.name@, d.version@);
    reveal_strlit("version");
    reveal_strlit("enabledFeatures");
    assert("version"@.len() != "enabledFeatures"@.len());
    assert(unique_keys(v->Obj_0));
    lemma_field(v->Obj_0, 0);
    lemma_field(v->Obj_0, 1);
    let one = seq![d.name@ + " (Rust)"@];
    assert(text_list_view(one)->Arr_0 =~= seq![JsonView::Str(d.name@ + " (Rust)"@)]);
}

/// A method that the protocol does not offer is not found.
pub proof fn law_front_end_unknown_method(
    d: CompatDispatcher,
    method: Seq<char>,
    params: Seq<Json>,
    args: Seq<Json>,
)
    requires
        lets_in(d, params, args),
        bare_method(method) == method,
        !has_prefix(method, "system."@),
        method != "addUri"@,
        method != "addTorrent"@,
        method != "getPeers"@,
        method != "remove"@,
        method != "forceRemove"@,
        method != "pause"@,
        method != "forcePause"@,
        method != "unpause"@,
        method != "tellStatus"@,
        method != "tellActive"@,
        method != "tellWaiting"@,
        method != "tellStopped"@,
        method != "getGlobalStat"@,
        method != "getVersion"@,
        method != "getFiles"@,
        method != "getURIs"@,
        method != "getOption"@,
        method != "changeOption"@,
        method != "getGlobalOption"@,
        method != "changeGlobalOption"@,
        method != "purgeDownloadResult"@,
        method != "removeDownloadResult"@,
        method != "saveSession"@,
        method != "shutdown"@,
        method != "forceShutdown"@,
    ensures
        compat_request(d, method, params) == Err::<CallView, CompatErrorView>(CompatErrorView::MethodNotFound),
{
    reveal_strlit("system.");
    reveal_strlit("system.multicall");
    reveal_strlit("system.listMethods");
    reveal_strlit("system.listNotifications");
    let q = "system."@;
    assert("system.multicall"@.take(q.len() as int) =~= q);
    assert("system.listMethods"@.take(q.len() as int) =~= q);
    assert("system.listNotifications"@.take(q.len() as int) =~= q);
}

// ---------------------------------------------------------------------------
// The engine's own protocol
// ---------------------------------------------------------------------------

/// Whether a request knows the secret, if there is one.
pub open spec fn has_token(d: NativeDispatcher, params: Json) -> bool {
    d.secret is Some ==> params@.at("token"@) == JsonView::Str(d.secret->0@)
}

/// Whether a request names a task.
pub open spec fn has_gid(params: Json, gid: Seq<char>) -> bool {
    params@.at("gid"@) == JsonView::Str(gid) && is_gid(gid)
}

/// A number that tells the methods apart.
spec fn native_mark(m: Seq<char>) -> int {
    m.len() * 1_000_000 + (m[7] as int) * 1000 + (m[m.len() - 2] as int)
}

proof fn lemma_native_marks()
    ensures
        native_mark("task.add"@) == 8100100,
        native_mark("task.tell"@) == 9108108,
        native_mark("task.list"@) == 9115115,
        native_mark("task.pause"@) == 10117115,
        native_mark("task.resume"@) == 11115109,
        native_mark("task.remove"@) == 11109118,
        native_mark("task.removeResult"@) == 17109108,
        native_mark("task.getFiles"@) == 13116101,
        native_mark("task.getUris"@) == 12116105,
        native_mark("task.getPeers"@) == 13116114,
        native_mark("task.getTrackers"@) == 16116114,
        native_mark("task.getOption"@) == 14116111,
        native_mark("task.addTrackers"@) == 16100114,
        native_mark("task.changeOption"@) == 17097111,
        native_mark("task.purgeResults"@) == 17114116,
        native_mark("engine.saveSession"@) == 18115111,
        native_mark("engine.globalStat"@) == 17103097,
        native_mark("engine.getOptions"@) == 17103110,
        native_mark("engine.getTrackers"@) == 18103114,
        native_mark("engine.getSubscriptions"@) == 23103110,
        native_mark("engine.refreshAllSubscriptions"@) == 30114110,
        native_mark("engine.getAutoUpdateTrackers"@) == 28103114,
        native_mark("engine.shutdown"@) == 15115119,
        native_mark("engine.forceShutdown"@) == 20102119,
        native_mark("engine.removeSubscription"@) == 25114111,
        native_mark("engine.toggleSubscription"@) == 25116111,
        native_mark("engine.refreshSubscription"@) == 26114111,
        native_mark("engine.addTracker"@) == 17097101,
        native_mark("engine.removeTracker"@) == 20114101,
        native_mark("engine.addSubscription"@) == 22097111,
        native_mark("engine.setAutoUpdateTrackers"@) == 28115114,
        native_mark("engine.changeOptions"@) == 20099110,
        native_mark("engine.getVersion"@) == 17103111,
        native_mark("events.subscribe"@) == 16115098,
{
    reveal_strlit("task.add");
    reveal_strlit("task.tell");
    reveal_strlit("task.list");
    reveal_strlit("task.pause");
    reveal_strlit("task.resume");
    reveal_strlit("task.remove");
    reveal_strlit("task.removeResult");
    reveal_strlit("task.getFiles");
    reveal_strlit("task.getUris");
    reveal_strlit("task.getPeers");
    reveal_strlit("task.getTrackers");
    reveal_strlit("task.getOption");
    reveal_strlit("task.addTrackers");
    reveal_strlit("task.changeOption");
    reveal_strlit("task.purgeResults");
    reveal_strlit("engine.saveSession");
    reveal_strlit("engine.globalStat");
    reveal_strlit("engine.getOptions");
    reveal_strlit("engine.getTrackers");
    reveal_strlit("engine.getSubscriptions");
    reveal_strlit("engine.refreshAllSubscriptions");
    reveal_strlit("engine.getAutoUpdateTrackers");
    reveal_strlit("engine.shutdown");
    reveal_strlit("engine.forceShutdown");
    reveal_strlit("engine.removeSubscription");
    reveal_strlit("engine.toggleSubscription");
    reveal_strlit("engine.refreshSubscription");
    reveal_strlit("engine.addTracker");
    reveal_strlit("engine.removeTracker");
    reveal_strlit("engine.addSubscription");
    reveal_strlit("engine.setAutoUpdateTrackers");
    reveal_strlit("engine.changeOptions");
    reveal_strlit("engine.getVersion");
    reveal_strlit("events.subscribe");
}

proof fn lemma_says_ok(e: Deed)
    requires
        answered(e.r, JsonView::Obj(seq![("ok"@, JsonView::Bool(true))])),
    ensures
        e.says_ok_native(),
{
    let f = seq![("ok"@, JsonView::Bool(true))];
    lemma_field(f, 0);
}

/// A request for a paused task to go on gets it queued again.
pub proof fn law_resume_queues_again(
    d: NativeDispatcher,
    method: Seq<char>,
    params: Json,
    gid: Seq<char>,
    e: Deed,
)
    requires
        method == "task.resume"@,
        has_token(d, params),
        has_gid(params, gid),
    ensures
        native_request(d, method, params) is Ok,
        e.of_native(d, method, params) ==> e.before.unpauses(e.after, gid, e.now, outcome_of(e.r)),
        e.of_native(d, method, params) ==> e.queued_again(gid) && e.says_ok_native(),
{
    lemma_native_marks();
    if e.of_native(d, method, params) {
        lemma_queued_again(e, gid);
        lemma_says_ok(e);
    }
}

/// A request for a task to pause gets it to rest.
pub proof fn law_pause_brings_to_rest(
    d: NativeDispatcher,
    method: Seq<char>,
    params: Json,
    gid: Seq<char>,
    e: Deed,
)
    requires
        method == "task.pause"@,
        has_token(d, params),
        has_gid(params, gid),
    ensures
        native_request(d, method, params) is Ok,
        e.of_native(d, method, params) ==> e.before.pauses(e.after, gid, e.now, outcome_of(e.r)),
        e.of_native(d, method, params) ==> e.paused(gid) && e.says_ok_native(),
{
    lemma_native_marks();
    if e.of_native(d, method, params) {
        lemma_paused(e, gid);
        lemma_says_ok(e);
    }
}

/// A request for a task to go gets it removed with its files kept.
pub proof fn law_remove_takes_out(
    d: NativeDispatcher,
    method: Seq<char>,
    params: Json,
    gid: Seq<char>,
    e: Deed,
)
    requires
        method == "task.remove"@,
        has_token(d, params),
        has_gid(params, gid),
    ensures
        native_request(d, method, params) is Ok,
        e.of_native(d, method, params) ==> e.before.removes(e.after, gid, outcome_of(e.r)),
        e.of_native(d, method, params) && e.before.wf() ==> e.removed(gid) && e.says_ok_native(),
{
    lemma_native_marks();
    if e.of_native(d, method, params) && e.before.wf() {
        lemma_removed(e, gid);
        lemma_says_ok(e);
    }
}

/// A request for the result of a stopped task to go gets it forgotten.
pub proof fn law_remove_result_forgets(
    d: NativeDispatcher,
    method: Seq<char>,
    params: Json,
    gid: Seq<char>,
    e: Deed,
)
    requires
        method == "task.removeResult"@,
        has_token(d, params),
        has_gid(params, gid),
    ensures
        native_request(d, method, params) is Ok,
        e.of_native(d, method, params) ==> e.before.forgets(e.after, gid, outcome_of(e.r)),
        e.of_native(d, method, params) && e.before.wf() ==> e.forgotten(gid) && e.says_ok_native(),
{
    lemma_native_marks();
    if e.of_native(d, method, params) && e.before.wf() {
        lemma_forgotten(e, gid);
        lemma_says_ok(e);
    }
}

/// A request for all results to go gets every stopped task forgotten.
pub proof fn law_purge_forgets_all(d: NativeDispatcher, method: Seq<char>, params: Json, e: Deed)
    requires
        method == "task.purgeResults"@,
        has_token(d, params),
    ensures
        native_request(d, method, params) is Ok,
        e.of_native(d, method, params) ==> e.purged() && e.says_ok_native(),
{
    lemma_native_marks();
    if e.of_native(d, method, params) {
        lemma_purged(e);
        lemma_says_ok(e);
    }
}

/// A request for a task is told of it, with numbers as numbers: the bytes on disk so far at
/// one key, the known length at another. With a list of keys it is told of these.
pub proof fn law_tell_shows_the_task(
    d: NativeDispatcher,
    method: Seq<char>,
    params: Json,
    gid: Seq<char>,
    e: Deed,
)
    requires
        method == "task.tell"@,
        has_token(d, params),
        has_gid(params, gid),
    ensures
        native_request(d, method, params) is Ok,
        e.of_native(d, method, params) ==> !e.knew(gid) ==> e.refused(),
        e.of_native(d, method, params) ==> e.knew(gid) ==> e.told(filtered(native_view(e.task(gid), e.now), text_array(params@.get("keys"@)))),
        e.of_native(d, method, params) ==> e.knew(gid) && params@.get("keys"@) is None ==> {
            let o = e.r->Ok_0@;
            &&& e.told(native_view(e.task(gid), e.now))
            &&& o.at("completedLength"@) == JsonView::Unsigned(
                if e.task(gid).live.completed > 0 {
                    e.task(gid).live.completed
                } else {
                    e.task(gid).shared.completed
                },
            )
            &&& o.at("totalLength"@) == JsonView::Unsigned(
                match e.task(gid).shared.total_len {
                    Some(n) => n,
                    None => 0,
                },
            )
        },
{
    lemma_native_marks();
    crate::shown::law_task_is_shown_as_it_is(e.task(gid), e.now);
}

/// A request for the active tasks is told of them in the order of creation.
pub proof fn law_list_active(
    d: NativeDispatcher,
    method: Seq<char>,
    params: Json,
    offset: i64,
    num: i64,
    e: Deed,
)
    requires
        method == "task.list"@,
        has_token(d, params),
        params@.at("scope"@) == JsonView::Str("active"@),
        params@.at("offset"@).signed() == Some(offset),
        params@.at("num"@).signed() == Some(num),
        params@.get("keys"@) is None,
    ensures
        native_request(d, method, params) is Ok,
        e.of_native(d, method, params) ==> e.told(JsonView::Arr(rows(e.before.tasks@, slice_of(e.before.active_places(), offset as int, num as int), e.now, true, None))),
{
    lemma_native_marks();
    reveal_strlit("active");
    reveal_strlit("waiting");
    reveal_strlit("stopped");
    reveal_strlit("all");
    assert("waiting"@[0] != "stopped"@[0]);
    assert("active"@.len() == 6 && "waiting"@.len() == 7 && "stopped"@.len() == 7 && "all"@.len() == 3);
    let all = e.before.active_places();
    assert(e.before.scope_places(crate::queries::scope_of("active"@)) =~= all);
}

/// A request for the waiting tasks is told of them in the order of the queue.
pub proof fn law_list_waiting(
    d: NativeDispatcher,
    method: Seq<char>,
    params: Json,
    offset: i64,
    num: i64,
    e: Deed,
)
    requires
        method == "task.list"@,
        has_token(d, params),
        params@.at("scope"@) == JsonView::Str("waiting"@),
        params@.at("offset"@).signed() == Some(offset),
        params@.at("num"@).signed() == Some(num),
        params@.get("keys"@) is None,
    ensures
        native_request(d, method, params) is Ok,
        e.of_native(d, method, params) ==> e.told(JsonView::Arr(rows(e.before.tasks@, slice_of(e.before.waiting_places(), offset as int, num as int), e.now, true, None))),
{
    lemma_native_marks();
    reveal_strlit("active");
    reveal_strlit("waiting");
    reveal_strlit("stopped");
    reveal_strlit("all");
    assert("waiting"@[0] != "stopped"@[0]);
    assert("active"@.len() == 6 && "waiting"@.len() == 7 && "stopped"@.len() == 7 && "all"@.len() == 3);
    let all = e.before.waiting_places();
    assert(e.before.scope_places(crate::queries::scope_of("waiting"@)) =~= all);
}

/// A request for the stopped tasks is told of the paused ones and then of those that
/// ended, the latest first.
pub proof fn law_list_stopped(
    d: NativeDispatcher,
    method: Seq<char>,
    params: Json,
    offset: i64,
    num: i64,
    e: Deed,
)
    requires
        method == "task.list"@,
        has_token(d, params),
        params@.at("scope"@) == JsonView::Str("stopped"@),
        params@.at("offset"@).signed() == Some(offset),
        params@.at("num"@).signed() == Some(num),
        params@.get("keys"@) is None,
    ensures
        native_request(d, method, params) is Ok,
        e.of_native(d, method, params) ==> e.told(JsonView::Arr(rows(e.before.tasks@, slice_of(crate::queries::paused_places(e.before.tasks@, e.before.tasks@.len() as int) + e.before.stopped_places(), offset as int, num as int), e.now, true, None))),
{
    lemma_native_marks();
    reveal_strlit("active");
    reveal_strlit("waiting");
    reveal_strlit("stopped");
    reveal_strlit("all");
    assert("waiting"@[0] != "stopped"@[0]);
    assert("active"@.len() == 6 && "waiting"@.len() == 7 && "stopped"@.len() == 7 && "all"@.len() == 3);
    let all = crate::queries::paused_places(e.before.tasks@, e.before.tasks@.len() as int) + e.before.stopped_places();
    assert(e.before.scope_places(crate::queries::scope_of("stopped"@)) =~= all);
}

/// A request for all tasks is told of the active, the waiting and the stopped ones.
pub proof fn law_list_all(
    d: NativeDispatcher,
    method: Seq<char>,
    params: Json,
    offset: i64,
    num: i64,
    e: Deed,
)
    requires
        method == "task.list"@,
        has_token(d, params),
        params@.at("scope"@) == JsonView::Str("all"@) || params@.at("scope"@).text() is None,
        params@.at("offset"@).signed() == Some(offset),
        params@.at("num"@).signed() == Some(num),
        params@.get("keys"@) is None,
    ensures
        native_request(d, method, params) is Ok,
        e.of_native(d, method, params) ==> e.told(JsonView::Arr(rows(e.before.tasks@, slice_of(e.before.active_places() + e.before.waiting_places() + (crate::queries::paused_places(
            e.before.tasks@,
            e.before.tasks@.len() as int,
        ) + e.before.stopped_places()), offset as int, num as int), e.now, true, None))),
{
    lemma_native_marks();
    reveal_strlit("active");
    reveal_strlit("waiting");
    reveal_strlit("stopped");
    reveal_strlit("all");
    assert("waiting"@[0] != "stopped"@[0]);
    assert("active"@.len() == 6 && "waiting"@.len() == 7 && "stopped"@.len() == 7 && "all"@.len() == 3);
    let all = e.before.active_places() + e.before.waiting_places() + (crate::queries::paused_places(
            e.before.tasks@,
            e.before.tasks@.len() as int,
        ) + e.before.stopped_places());
    assert(e.before.scope_places(crate::queries::scope_of("all"@)) =~= all);
}

/// A request for the figures over all tasks is told them.
pub proof fn law_figures_are_told(d: NativeDispatcher, method: Seq<char>, params: Json, e: Deed)
    requires
        method == "engine.globalStat"@,
        has_token(d, params),
    ensures
        native_request(d, method, params) is Ok,
        e.of_native(d, method, params) ==> e.told(stat_view(e.before.stat(), true)),
{
    lemma_native_marks();
}

/// A request for the options of the engine is told them.
pub proof fn law_settings_are_told(d: NativeDispatcher, method: Seq<char>, params: Json, e: Deed)
    requires
        method == "engine.getOptions"@,
        has_token(d, params),
    ensures
        native_request(d, method, params) is Ok,
        e.of_native(d, method, params) ==> e.told(e.before.global_view()),
{
    lemma_native_marks();
}

/// A request for the options of a task is told them.
pub proof fn law_options_are_told(
    d: NativeDispatcher,
    method: Seq<char>,
    params: Json,
    gid: Seq<char>,
    e: Deed,
)
    requires
        method == "task.getOption"@,
        has_token(d, params),
        has_gid(params, gid),
    ensures
        native_request(d, method, params) is Ok,
        e.of_native(d, method, params) ==> if e.knew(gid) { e.told(e.before.option_view(e.task(gid))) } else { e.refused() },
{
    lemma_native_marks();
}

/// A request for the files of a task is told them.
pub proof fn law_files_are_told(d: NativeDispatcher, method: Seq<char>, params: Json, gid: Seq<char>, e: Deed)
    requires
        method == "task.getFiles"@,
        has_token(d, params),
        has_gid(params, gid),
    ensures
        native_request(d, method, params) is Ok,
        e.of_native(d, method, params) ==> if e.knew(gid) { e.told(JsonView::Arr(files_view(e.task(gid), false))) } else { e.refused() },
{
    lemma_native_marks();
}

/// A request for the addresses of a task is told them; a BitTorrent task has none.
pub proof fn law_addresses_are_told(
    d: NativeDispatcher,
    method: Seq<char>,
    params: Json,
    gid: Seq<char>,
    e: Deed,
)
    requires
        method == "task.getUris"@,
        has_token(d, params),
        has_gid(params, gid),
    ensures
        native_request(d, method, params) is Ok,
        e.of_native(d, method, params) ==> if !e.knew(gid) {
            e.refused()
        } else if e.task(gid).bt_meta is Some || e.task(gid).bt_info_hash is Some {
            e.told(JsonView::Arr(Seq::empty()))
        } else {
            e.told(JsonView::Arr(uris_view(e.task(gid))))
        },
{
    lemma_native_marks();
}

/// A request for the peers of a BitTorrent task is told them.
pub proof fn law_peers_are_told(d: NativeDispatcher, method: Seq<char>, params: Json, gid: Seq<char>, e: Deed)
    requires
        method == "task.getPeers"@,
        has_token(d, params),
        has_gid(params, gid),
    ensures
        native_request(d, method, params) is Ok,
        e.of_native(d, method, params) ==> if e.knew(gid) && (e.task(gid).bt_meta is Some || e.task(gid).bt_info_hash is Some) { e.told(peers_view(e.task(gid).bt_peers@)) } else { e.refused() },
{
    lemma_native_marks();
}

/// A request for the trackers of a BitTorrent task is told them.
pub proof fn law_trackers_of_a_task_are_told(
    d: NativeDispatcher,
    method: Seq<char>,
    params: Json,
    gid: Seq<char>,
    e: Deed,
)
    requires
        method == "task.getTrackers"@,
        has_token(d, params),
        has_gid(params, gid),
    ensures
        native_request(d, method, params) is Ok,
        e.of_native(d, method, params) ==> if e.knew(gid) && (e.task(gid).bt_meta is Some || e.task(gid).bt_info_hash is Some) {
            e.told(
                crate::subscriptions::tracker_rows(
                    crate::torrent::all_trackers(
                        e.task(gid).bt_meta,
                        string_texts(e.task(gid).bt_trackers@),
                        e.before.trackers.urls(),
                    ),
                ),
            )
        } else {
            e.refused()
        },
{
    lemma_native_marks();
}

/// A request for the session to be saved gets that, and nothing else changes.
pub proof fn law_save_is_noted(d: NativeDispatcher, method: Seq<char>, params: Json, e: Deed)
    requires
        method == "engine.saveSession"@,
        has_token(d, params),
    ensures
        native_request(d, method, params) is Ok,
        e.of_native(d, method, params) ==> e.r is Ok && e.says_ok_native() && e.after.effects@ == e.before.effects@.push(Effect::Save) && e.before.same_but_effects(e.after),
{
    lemma_native_marks();
    if e.of_native(d, method, params) {
        lemma_says_ok(e);
    }
}

/// A request for the engine to end gets that, and nothing else changes.
pub proof fn law_shutdown_is_noted(d: NativeDispatcher, method: Seq<char>, params: Json, e: Deed)
    requires
        method == "engine.shutdown"@ || method == "engine.forceShutdown"@,
        has_token(d, params),
    ensures
        native_request(d, method, params) is Ok,
        e.of_native(d, method, params) ==> e.r is Ok && e.says_ok_native() && e.after.effects@ == e.before.effects@.push(Effect::Shutdown) && e.before.same_but_effects(e.after),
{
    lemma_native_marks();
    if e.of_native(d, method, params) {
        lemma_says_ok(e);
    }
}

/// A request for the trackers of the engine is told them.
pub proof fn law_trackers_are_told(d: NativeDispatcher, method: Seq<char>, params: Json, e: Deed)
    requires
        method == "engine.getTrackers"@,
        has_token(d, params),
    ensures
        native_request(d, method, params) is Ok,
        e.of_native(d, method, params) ==> e.r is Ok && e.after == e.before && e.r->Ok_0@.at("trackers"@) == text_list_view(e.before.trackers.urls()),
{
    lemma_native_marks();
    let f = seq![("trackers"@, text_list_view(e.before.trackers.urls()))];
    lemma_field(f, 0);
}

/// A request for the subscriptions is told them.
pub proof fn law_subscriptions_are_told(d: NativeDispatcher, method: Seq<char>, params: Json, e: Deed)
    requires
        method == "engine.getSubscriptions"@,
        has_token(d, params),
    ensures
        native_request(d, method, params) is Ok,
        e.of_native(d, method, params) ==> e.told(subs_view(e.before.trackers.subscriptions@)),
{
    lemma_native_marks();
}

/// A request whether subscriptions are refreshed by themselves is told so.
pub proof fn law_auto_update_is_told(d: NativeDispatcher, method: Seq<char>, params: Json, e: Deed)
    requires
        method == "engine.getAutoUpdateTrackers"@,
        has_token(d, params),
    ensures
        native_request(d, method, params) is Ok,
        e.of_native(d, method, params) ==> e.r is Ok && e.after == e.before && e.r->Ok_0@.at("enabled"@) == JsonView::Bool(e.before.trackers.auto_update),
{
    lemma_native_marks();
    let f = seq![("enabled"@, JsonView::Bool(e.before.trackers.auto_update))];
    lemma_field(f, 0);
}

/// A request that sets whether subscriptions are refreshed by themselves does so, and a
/// later question is told it.
pub proof fn law_auto_update_is_set(d: NativeDispatcher, method: Seq<char>, params: Json, on: bool, e: Deed)
    requires
        method == "engine.setAutoUpdateTrackers"@,
        has_token(d, params),
        params@.at("enabled"@) == JsonView::Bool(on),
    ensures
        native_request(d, method, params) is Ok,
        e.of_native(d, method, params) ==> e.r is Ok && e.says_ok_native() && e.after.trackers.auto_update == on && e.after.tasks == e.before.tasks && e.after.trackers.entries == e.before.trackers.entries && e.after.trackers.subscriptions == e.before.trackers.subscriptions,
{
    lemma_native_marks();
    if e.of_native(d, method, params) {
        lemma_says_ok(e);
    }
}

/// A request to add a tracker adds it for all tasks.
pub proof fn law_tracker_is_added(
    d: NativeDispatcher,
    method: Seq<char>,
    params: Json,
    url: Seq<char>,
    e: Deed,
)
    requires
        method == "engine.addTracker"@,
        has_token(d, params),
        params@.at("tracker"@) == JsonView::Str(url),
    ensures
        native_request(d, method, params) is Ok,
        e.of_native(d, method, params) ==> e.before.adds_tracker(e.after, url, outcome_of(e.r)) && e.says_ok_native(),
{
    lemma_native_marks();
    if e.of_native(d, method, params) {
        lemma_says_ok(e);
    }
}

/// A request to remove a tracker takes it from all tasks.
pub proof fn law_tracker_is_removed(
    d: NativeDispatcher,
    method: Seq<char>,
    params: Json,
    url: Seq<char>,
    e: Deed,
)
    requires
        method == "engine.removeTracker"@,
        has_token(d, params),
        params@.at("tracker"@) == JsonView::Str(url),
    ensures
        native_request(d, method, params) is Ok,
        e.of_native(d, method, params) ==> e.before.drops_tracker(e.after, url, outcome_of(e.r)) && e.says_ok_native(),
{
    lemma_native_marks();
    if e.of_native(d, method, params) {
        lemma_says_ok(e);
    }
}

/// A request to subscribe to an address does so, switched on unless it is asked to be off,
/// and is told of the subscription.
pub proof fn law_subscription_is_added(
    d: NativeDispatcher,
    method: Seq<char>,
    params: Json,
    name: Seq<char>,
    url: Seq<char>,
    on: bool,
    e: Deed,
)
    requires
        method == "engine.addSubscription"@,
        has_token(d, params),
        params@.at("url"@) == JsonView::Str(url),
        params@.at("name"@) == JsonView::Str(name),
        on == (params@.at("enabled"@) != JsonView::Bool(false)),
    ensures
        native_request(d, method, params) is Ok,
        e.of_native(d, method, params) ==> exists|s: Result<TrackerSubscription, String>| #[trigger]
            e.before.subscribes(
                e.after,
                name,
                url,
                on,
                e.fresh,
                s,
            ) && match s {
                Ok(sub) => e.r is Ok && e.r->Ok_0@ == sub_view(sub),
                Err(_) => e.r is Err,
            },
{
    lemma_native_marks();
}

/// A request to end a subscription does so.
pub proof fn law_subscription_is_removed(
    d: NativeDispatcher,
    method: Seq<char>,
    params: Json,
    id: Seq<char>,
    e: Deed,
)
    requires
        method == "engine.removeSubscription"@,
        has_token(d, params),
        params@.at("id"@) == JsonView::Str(id),
    ensures
        native_request(d, method, params) is Ok,
        e.of_native(d, method, params) ==> e.before.unsubscribes(e.after, id, outcome_of(e.r)) && e.says_ok_native(),
{
    lemma_native_marks();
    if e.of_native(d, method, params) {
        lemma_says_ok(e);
    }
}

/// A request to switch a subscription on or off does so.
pub proof fn law_subscription_is_switched(
    d: NativeDispatcher,
    method: Seq<char>,
    params: Json,
    id: Seq<char>,
    e: Deed,
)
    requires
        method == "engine.toggleSubscription"@,
        has_token(d, params),
        params@.at("id"@) == JsonView::Str(id),
    ensures
        native_request(d, method, params) is Ok,
        e.of_native(d, method, params) ==> e.before.toggles(e.after, id, outcome_of(e.r)) && e.says_ok_native(),
{
    lemma_native_marks();
    if e.of_native(d, method, params) {
        lemma_says_ok(e);
    }
}

/// A request to refresh a subscription, or all of them, is told how much came of it.
pub proof fn law_refresh_is_counted(d: NativeDispatcher, method: Seq<char>, params: Json, e: Deed)
    requires
        method == "engine.refreshAllSubscriptions"@,
        has_token(d, params),
    ensures
        native_request(d, method, params) is Ok,
        e.of_native(d, method, params) ==> e.after == e.before && counts(e.r, e.given),
{
    lemma_native_marks();
}

/// A request to refresh one subscription is told how much came of it.
pub proof fn law_refresh_of_one_is_counted(
    d: NativeDispatcher,
    method: Seq<char>,
    params: Json,
    id: Seq<char>,
    e: Deed,
)
    requires
        method == "engine.refreshSubscription"@,
        has_token(d, params),
        params@.at("id"@) == JsonView::Str(id),
    ensures
        native_request(d, method, params) is Ok,
        e.of_native(d, method, params) ==> e.after == e.before && counts(e.r, e.given) && e.call is Subscription && e.call->Subscription_id@ == id,
{
    lemma_native_marks();
}

/// A request to give a task more trackers gives them to it.
pub proof fn law_task_gets_trackers(
    d: NativeDispatcher,
    method: Seq<char>,
    params: Json,
    gid: Seq<char>,
    list: Seq<Seq<char>>,
    e: Deed,
)
    requires
        method == "task.addTrackers"@,
        has_token(d, params),
        has_gid(params, gid),
        text_array(params@.get("trackers"@)) == Some(list),
        list.len() > 0,
    ensures
        native_request(d, method, params) is Ok,
        e.of_native(d, method, params) ==> exists|v: Vec<String>|
            #![trigger string_texts(v@)]
            string_texts(v@) == list && e.before.gives_trackers(e.after, gid, v, outcome_of(e.r))
                && e.says_ok_native(),
{
    lemma_native_marks();
    if e.of_native(d, method, params) {
        assert(string_texts(e.call->AddTrackers_trackers@) == list);
        lemma_says_ok(e);
    }
}

/// A request to change options of a task changes those of the task that it names; what
/// names the task and the token are no options.
pub proof fn law_option_is_changed(
    d: NativeDispatcher,
    method: Seq<char>,
    params: Json,
    gid: Seq<char>,
    e: Deed,
)
    requires
        method == "task.changeOption"@,
        has_token(d, params),
        has_gid(params, gid),
    ensures
        native_request(d, method, params) is Ok,
        e.of_native(d, method, params) ==> exists|o: Json| #[trigger]
            options_view(o) == crate::native::options_of(crate::native::other_entries(params.entries(), seq!["gid"@, "token"@])) && e.before.changes_option(
                e.after,
                gid,
                o,
                outcome_of(e.r),
            ) && e.says_ok_native(),
{
    lemma_native_marks();
    if e.of_native(d, method, params) {
        assert(options_view(e.call->ChangeOption_options) == crate::native::options_of(crate::native::other_entries(params.entries(), seq!["gid"@, "token"@])));
        lemma_says_ok(e);
    }
}

/// A request to change options of the engine changes them; the token is no option.
pub proof fn law_setting_is_changed(d: NativeDispatcher, method: Seq<char>, params: Json, e: Deed)
    requires
        method == "engine.changeOptions"@,
        has_token(d, params),
    ensures
        native_request(d, method, params) is Ok,
        e.of_native(d, method, params) ==> exists|o: Json| #[trigger]
            options_view(o) == crate::native::options_of(crate::native::other_entries(params.entries(), seq!["token"@])) && e.before.changes_global(
                e.after,
                o,
                e.env,
                outcome_of(e.r),
            ) && e.says_ok_native(),
{
    lemma_native_marks();
    if e.of_native(d, method, params) {
        assert(options_view(e.call->ChangeGlobal_options) == crate::native::options_of(crate::native::other_entries(params.entries(), seq!["token"@])));
        lemma_says_ok(e);
    }
}

/// A request for the version is told name and version.
pub proof fn law_version_is_told(d: NativeDispatcher, method: Seq<char>, params: Json, e: Deed)
    requires
        method == "engine.getVersion"@,
        has_token(d, params),
    ensures
        native_request(d, method, params) is Ok,
        e.of_native(d, method, params) ==> e.r is Ok && e.after == e.before && e.r->Ok_0@.at("name"@) == JsonView::Str(d.name@) && e.r->Ok_0@.at("version"@) == JsonView::Str(d.version@),
        e.of_native(d, method, params) ==> e.r->Ok_0@.at("features"@) == text_list_view(seq!["http"@, "resume"@, "checksum"@, "bt"@, "events"@]),
{
    lemma_native_marks();
    let v = crate::native::about_view(d.name@, d.version@);
    reveal_strlit("name");
    reveal_strlit("version");
    reveal_strlit("features");
    assert("name"@.len() == 4 && "version"@.len() == 7 && "features"@.len() == 8);
    assert(unique_keys(v->Obj_0));
    lemma_field(v->Obj_0, 0);
    lemma_field(v->Obj_0, 1);
    lemma_field(v->Obj_0, 2);
}

/// A request for events is acknowledged.
pub proof fn law_subscribing_to_events_is_acknowledged(
    d: NativeDispatcher,
    method: Seq<char>,
    params: Json,
    e: Deed,
)
    requires
        method == "events.subscribe"@,
        has_token(d, params),
    ensures
        native_request(d, method, params) is Ok,
        e.of_native(d, method, params) ==> e.r is Ok && e.says_ok_native() && e.after == e.before,
{
    lemma_native_marks();
    let f = seq![("ok"@, JsonView::Bool(true))];
    lemma_field(f, 0);
}

/// A request with addresses alone, none of them a magnet link, makes a new task for them
/// and is told its name.
pub proof fn law_addresses_are_added(
    d: NativeDispatcher,
    method: Seq<char>,
    params: Json,
    uris: Seq<Seq<char>>,
    e: Deed,
)
    requires
        method == "task.add"@,
        has_token(d, params),
        params@.at("magnet"@).text() is None,
        params@.at("torrent"@).text() is None,
        text_array(params@.get("uris"@)) == Some(uris),
    ensures
        native_request(d, method, params) is Ok,
        e.of_native(d, method, params) ==> e.given is Nothing ==> exists|u: Vec<String>, o: Json|
            #![trigger string_texts(u@), options_view(o)]
            string_texts(u@) == uris && e.before.adds_uris(
                e.after,
                u,
                o,
                params@.at("position"@).signed(),
                e.fresh,
                e.env,
                outcome_of(e.r),
            ) && (e.r is Ok ==> e.r->Ok_0@.at("gid"@) == JsonView::Str(e.fresh@)),
{
    lemma_native_marks();
    if e.of_native(d, method, params) && e.given is Nothing {
        let u = e.call->Add_source->Uris_0;
        let o = e.call->Add_options;
        assert(string_texts(u@) == uris);
        assert(options_view(o) == options_view(o));
        let f = seq![("gid"@, JsonView::Str(e.fresh@))];
        lemma_field(f, 0);
    }
}

/// A request with a torrent file makes a new task for it once the file was read; a file
/// that cannot be read changes nothing.
pub proof fn law_torrent_is_added(
    d: NativeDispatcher,
    method: Seq<char>,
    params: Json,
    text: Seq<char>,
    e: Deed,
)
    requires
        method == "task.add"@,
        has_token(d, params),
        params@.at("magnet"@).text() is None,
        params@.at("torrent"@) == JsonView::Str(text),
    ensures
        native_request(d, method, params) is Ok,
        e.of_native(d, method, params) ==> e.call is Add && e.call->Add_source is Torrent && e.call->Add_source->Torrent_0@ == text,
        e.of_native(d, method, params) ==> (e.given matches Given::Torrent(Err(_)) ==> e.refused()),
        e.of_native(d, method, params) ==> (e.given matches Given::Torrent(Ok(meta)) ==> e.before.adds_torrent(
            e.after,
            meta,
            e.call->Add_options,
            params@.at("position"@).signed(),
            e.fresh,
            e.env,
        ) && e.r is Ok && e.r->Ok_0@.at("gid"@) == JsonView::Str(e.fresh@)),
{
    lemma_native_marks();
    let f = seq![("gid"@, JsonView::Str(e.fresh@))];
    lemma_field(f, 0);
}

/// A request with a magnet link makes a new task for it, whatever else it holds; a link that
/// cannot be read changes nothing.
pub proof fn law_magnet_is_added(
    d: NativeDispatcher,
    method: Seq<char>,
    params: Json,
    link: Seq<char>,
    e: Deed,
)
    requires
        method == "task.add"@,
        has_token(d, params),
        params@.at("magnet"@) == JsonView::Str(link),
    ensures
        native_request(d, method, params) is Ok,
        e.of_native(d, method, params) ==> e.call is Add && e.call->Add_source is Magnet && e.call->Add_source->Magnet_0@ == link,
        e.of_native(d, method, params) ==> (e.given matches Given::Magnet(Err(_)) ==> e.refused()),
        e.of_native(d, method, params) ==> (e.given matches Given::Magnet(Ok(m)) ==> e.before.adds_magnet(
            e.after,
            m.info_hash,
            m.trackers,
            m.display_name,
            e.call->Add_options,
            params@.at("position"@).signed(),
            e.fresh,
            e.env,
        ) && e.r is Ok && e.r->Ok_0@.at("gid"@) == JsonView::Str(e.fresh@)),
{
    lemma_native_marks();
    let f = seq![("gid"@, JsonView::Str(e.fresh@))];
    lemma_field(f, 0);
}

} // verus!
