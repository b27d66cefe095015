//! Carrying requests out.
//!
//! A request is read by a dispatcher. What it needs from outside (a torrent file that
//! has to be parsed, a list that has to be fetched) is looked up next, and with that the
//! request is carried out.

use vstd::prelude::*;

use crate::json::{filtered, text_list_view, Json, JsonView};
use crate::manager::{
    decode_torrent, fails, first_magnet, has_task, magnet_among, task_at, unknown_gid, Effect, Env,
    TaskManager,
};
use crate::manifest::string_texts;
use crate::outside::base64_bytes;
use crate::queries::{rows, scope_of, slice_of, stat_view};
use crate::rpc::{
    count_json, count_view, done_json, done_view, keys_view, made_json, made_view, one_field, Call,
    EngineOp, Listing, ListingView, Proto, Source, SubOp, TaskOp,
};
use crate::status::{files_view, native_view, peers_view, status_view, uris_view};
use crate::subscriptions::{show_sub, show_subs, sub_view, subs_view, tracker_rows};
use crate::text::{chars_of, joined, string_of, trim, trimmed};
use crate::torrent::{all_trackers, TorrentMeta};
use crate::trackers::TrackerSubscription;

verus! {

/// What a request needs from outside.
pub enum Need {
    Nothing,
    /// These bytes, read as a torrent file.
    Torrent(Vec<u8>),
    /// This text, read as a magnet link.
    Magnet(String),
    /// A subscription, refreshed.
    Refresh(String),
    /// All subscriptions, refreshed.
    RefreshAll,
    /// Other requests, carried out one after the other.
    Calls,
}

/// A magnet link.
pub struct Magnet {
    pub info_hash: Vec<u8>,
    pub trackers: Vec<String>,
    pub display_name: Option<String>,
}

/// What was found outside.
pub enum Given {
    Nothing,
    /// The torrent, or what its reader says is wrong with it.
    Torrent(Result<TorrentMeta, String>),
    /// The link, or what its reader says is wrong with it.
    Magnet(Result<Magnet, String>),
    /// The number of trackers or subscriptions that were refreshed.
    Count(Result<u64, String>),
}

/// What a request needs from outside; an error if it fails without it.
pub open spec fn needs(r: Result<Need, String>, call: Call) -> bool {
    match call {
        Call::Add { source, options: _, position: _ } => match source {
            Source::Uris(u) => match first_magnet(string_texts(u@)) {
                Some(m) => match r {
                    Ok(Need::Magnet(text)) => text@ == trimmed(m),
                    _ => false,
                },
                None => r == Ok::<Need, String>(Need::Nothing),
            },
            Source::Torrent(text) => match base64_bytes(trimmed(text@)) {
                Ok(b) => match r {
                    Ok(Need::Torrent(bytes)) => bytes@ == b,
                    _ => false,
                },
                Err(e) => fails(r, "torrent base64 解码失败: "@ + e),
            },
            Source::Magnet(link) => match r {
                Ok(Need::Magnet(text)) => text@ == trimmed(link@),
                _ => false,
            },
        },
        Call::Subscription { change: SubOp::Refresh, id } => match r {
            Ok(Need::Refresh(i)) => i@ == id@,
            _ => false,
        },
        Call::Engine(EngineOp::RefreshAll) => r == Ok::<Need, String>(Need::RefreshAll),
        Call::Multicall(_) => r == Ok::<Need, String>(Need::Calls),
        _ => r == Ok::<Need, String>(Need::Nothing),
    }
}

/// What a request needs from outside; an error if it fails without it.
pub fn need_of(call: &Call) -> (r: Result<Need, String>)
    ensures
        needs(r, *call),
{
    match call {
        Call::Add { source, options: _, position: _ } => match source {
            Source::Uris(u) => match magnet_among(u) {
                Some(m) => Ok(Need::Magnet(string_of(&trim(&chars_of(m.as_str()))))),
                None => Ok(Need::Nothing),
            },
            Source::Torrent(text) => match decode_torrent(text.as_str()) {
                Ok(b) => Ok(Need::Torrent(b)),
                Err(e) => Err(e),
            },
            Source::Magnet(link) => Ok(Need::Magnet(string_of(&trim(&chars_of(link.as_str()))))),
        },
        Call::Subscription { change, id } => match change {
            SubOp::Refresh => Ok(Need::Refresh(id.clone())),
            _ => Ok(Need::Nothing),
        },
        Call::Engine(op) => match op {
            EngineOp::RefreshAll => Ok(Need::RefreshAll),
            _ => Ok(Need::Nothing),
        },
        Call::Multicall(_) => Ok(Need::Calls),
        _ => Ok(Need::Nothing),
    }
}

/// Whether what was found outside is what the request needs.
pub open spec fn suits(call: Call, given: Given) -> bool {
    match call {
        Call::Add { source, options: _, position: _ } => match source {
            Source::Uris(u) => if first_magnet(string_texts(u@)) is Some {
                given is Magnet
            } else {
                given is Nothing
            },
            Source::Torrent(_) => match given {
                Given::Torrent(t) => t is Ok ==> t->Ok_0.info.wf(),
                _ => false,
            },
            Source::Magnet(_) => given is Magnet,
        },
        Call::Subscription { change: SubOp::Refresh, id: _ } => given is Count,
        Call::Engine(EngineOp::RefreshAll) => given is Count,
        Call::Multicall(_) => false,
        _ => given is Nothing,
    }
}

// ---------------------------------------------------------------------------
// Questions
// ---------------------------------------------------------------------------

/// Whether an answer is as expected.
pub open spec fn is_answer(r: Result<Json, String>, v: Result<JsonView, Seq<char>>) -> bool {
    match r {
        Ok(j) => v == Ok::<JsonView, Seq<char>>(j@),
        Err(e) => v == Err::<JsonView, Seq<char>>(e@),
    }
}

impl TaskManager {
    /// The answer to a question about one task.
    pub open spec fn task_answer(&self, op: TaskOp, gid: Seq<char>) -> Result<JsonView, Seq<char>> {
        let t = self.tasks@[task_at(self.tasks@, gid)];
        if !has_task(self.tasks@, gid) {
            Err(unknown_gid(gid))
        } else {
            match op {
                TaskOp::Files => Ok(JsonView::Arr(files_view(t, false))),
                TaskOp::Uris => Ok(
                    JsonView::Arr(if t.is_bt_spec() { Seq::empty() } else { uris_view(t) }),
                ),
                TaskOp::Peers => if t.is_bt_spec() {
                    Ok(peers_view(t.bt_peers@))
                } else {
                    Err("非 BT 任务，无 peer 信息"@)
                },
                TaskOp::Trackers => if t.is_bt_spec() {
                    Ok(
                        tracker_rows(
                            all_trackers(
                                t.bt_meta,
                                string_texts(t.bt_trackers@),
                                self.trackers.urls(),
                            ),
                        ),
                    )
                } else {
                    Err("非 BT 任务，无 tracker 信息"@)
                },
                _ => Ok(self.option_view(t)),
            }
        }
    }

    /// The answer to a question for the state of one task.
    pub open spec fn tell_answer(
        &self,
        gid: Seq<char>,
        keys: Option<Seq<Seq<char>>>,
        proto: Proto,
        now: u64,
    ) -> Result<JsonView, Seq<char>> {
        let t = self.tasks@[task_at(self.tasks@, gid)];
        if !has_task(self.tasks@, gid) {
            Err(unknown_gid(gid))
        } else if proto is Native {
            Ok(filtered(native_view(t, now), keys))
        } else {
            Ok(filtered(status_view(t, now), keys))
        }
    }

    /// The answer to a question for a list of tasks.
    pub open spec fn list_answer(
        &self,
        listing: ListingView,
        offset: i64,
        num: i64,
        keys: Option<Seq<Seq<char>>>,
        now: u64,
    ) -> JsonView {
        let places = match listing {
            ListingView::Active => slice_of(self.active_places(), 0, -1),
            ListingView::Waiting => slice_of(self.waiting_places(), offset as int, num as int),
            ListingView::Stopped => slice_of(self.stopped_places(), offset as int, num as int),
            ListingView::Scope(s) => slice_of(
                self.scope_places(scope_of(s)),
                offset as int,
                num as int,
            ),
        };
        JsonView::Arr(rows(self.tasks@, places, now, listing is Scope, keys))
    }

    /// The answer to a question about the engine.
    pub open spec fn engine_answer(&self, op: EngineOp, proto: Proto) -> JsonView {
        match op {
            EngineOp::Stat => stat_view(self.stat(), proto is Native),
            EngineOp::Options => self.global_view(),
            EngineOp::Trackers => JsonView::Obj(
                seq![("trackers"@, text_list_view(self.trackers.urls()))],
            ),
            EngineOp::Subscriptions => subs_view(self.trackers.subscriptions@),
            _ => JsonView::Obj(seq![("enabled"@, JsonView::Bool(self.trackers.auto_update))]),
        }
    }

    fn answer_task(&self, op: TaskOp, gid: &str) -> (r: Result<Json, String>)
        requires
            self.wf(),
        ensures
            is_answer(r, self.task_answer(op, gid@)),
    {
        match op {
            TaskOp::Files => self.get_files(gid),
            TaskOp::Uris => self.get_uris(gid),
            TaskOp::Peers => self.get_peers(gid),
            TaskOp::Trackers => self.get_trackers(gid),
            _ => self.get_option(gid),
        }
    }

    fn answer_tell(&self, gid: &str, keys: &Option<Vec<String>>, proto: Proto, now: u64) -> (r: Result<
        Json,
        String,
    >)
        requires
            self.wf(),
        ensures
            is_answer(r, self.tell_answer(gid@, keys_view(*keys), proto, now)),
    {
        if proto == Proto::Native {
            self.tell_status_native(gid, keys.as_ref(), now)
        } else {
            self.tell_status(gid, keys.as_ref(), now)
        }
    }

    fn answer_list(
        &self,
        listing: &Listing,
        offset: i64,
        num: i64,
        keys: &Option<Vec<String>>,
        now: u64,
    ) -> (r: Json)
        requires
            self.wf(),
        ensures
            r@ == self.list_answer(listing@, offset, num, keys_view(*keys), now),
    {
        match listing {
            Listing::Active => self.tell_active(keys.as_ref(), now),
            Listing::Waiting => self.tell_waiting(offset, num, keys.as_ref(), now),
            Listing::Stopped => self.tell_stopped(offset, num, keys.as_ref(), now),
            Listing::Scope(s) => self.list_native(s.as_str(), offset, num, keys.as_ref(), now),
        }
    }

    fn answer_engine(&self, op: EngineOp, proto: Proto) -> (r: Json)
        ensures
            r@ == self.engine_answer(op, proto),
    {
        match op {
            EngineOp::Stat => if proto == Proto::Native {
                self.global_stat_native()
            } else {
                self.global_stat()
            },
            EngineOp::Options => self.get_global_option(),
            EngineOp::Trackers => {
                let urls = self.get_global_trackers();
                one_field("trackers", Json::text_list(&urls))
            },
            EngineOp::Subscriptions => {
                let subs = self.get_subscriptions();
                show_subs(&subs)
            },
            _ => one_field("enabled", Json::Bool(self.get_auto_update_trackers())),
        }
    }

    /// Asks for the session to be saved.
    pub fn save_session(&mut self)
        requires
            old(self).wf(),
        ensures
            final(self).wf(),
            final(self).effects@ == old(self).effects@.push(Effect::Save),
            old(self).same_but_effects(*final(self)),
    {
        self.note(Effect::Save);
    }

    /// Asks for the engine to end.
    pub fn shutdown(&mut self)
        requires
            old(self).wf(),
        ensures
            final(self).wf(),
            final(self).effects@ == old(self).effects@.push(Effect::Shutdown),
            old(self).same_but_effects(*final(self)),
    {
        self.note(Effect::Shutdown);
    }
}

// ---------------------------------------------------------------------------
// Commands
// ---------------------------------------------------------------------------

/// Whether a request succeeded, without its answer.
pub open spec fn outcome_of(r: Result<Json, String>) -> Result<(), String> {
    match r {
        Ok(_) => Ok(()),
        Err(e) => Err(e),
    }
}

/// Whether a request that succeeded was answered so.
pub open spec fn answered(r: Result<Json, String>, v: JsonView) -> bool {
    r is Ok ==> r->Ok_0@ == v
}

impl TaskManager {
    /// What the manager and the answer are after a request for a new task. `gid` is the
    /// name of the new task.
    pub open spec fn adds(
        &self,
        after: TaskManager,
        source: Source,
        options: Json,
        position: Option<i64>,
        given: Given,
        gid: String,
        proto: Proto,
        env: Env,
        r: Result<Json, String>,
    ) -> bool {
        match given {
            Given::Torrent(Ok(meta)) => {
                &&& r is Ok
                &&& self.adds_torrent(after, meta, options, position, gid, env)
                &&& answered(r, made_view(proto, gid@))
            },
            Given::Torrent(Err(e)) => fails(r, "torrent 解析失败: "@ + e@) && after == *self,
            Given::Magnet(Ok(m)) => {
                &&& r is Ok
                &&& self.adds_magnet(
                    after,
                    m.info_hash,
                    m.trackers,
                    m.display_name,
                    options,
                    position,
                    gid,
                    env,
                )
                &&& answered(r, made_view(proto, gid@))
            },
            Given::Magnet(Err(e)) => fails(r, "磁力链接解析失败: "@ + e@) && after == *self,
            _ => {
                &&& self.adds_uris(
                    after,
                    source->Uris_0,
                    options,
                    position,
                    gid,
                    env,
                    outcome_of(r),
                )
                &&& answered(r, made_view(proto, gid@))
            },
        }
    }

    /// What the manager and the answer are after a request about one task.
    pub open spec fn does_with_task(
        &self,
        after: TaskManager,
        op: TaskOp,
        gid: Seq<char>,
        proto: Proto,
        now: u64,
        r: Result<Json, String>,
    ) -> bool {
        match op {
            TaskOp::Pause => self.pauses(after, gid, now, outcome_of(r)) && answered(
                r,
                done_view(proto),
            ),
            TaskOp::Resume => self.unpauses(after, gid, now, outcome_of(r)) && answered(
                r,
                done_view(proto),
            ),
            TaskOp::Remove => self.removes(after, gid, outcome_of(r)) && answered(r, done_view(proto)),
            TaskOp::RemoveResult => self.forgets(after, gid, outcome_of(r)) && answered(
                r,
                done_view(proto),
            ),
            _ => is_answer(r, self.task_answer(op, gid)) && after == *self,
        }
    }

    /// What the manager and the answer are after a request about the engine.
    pub open spec fn does_with_engine(
        &self,
        after: TaskManager,
        op: EngineOp,
        given: Given,
        proto: Proto,
        r: Result<Json, String>,
    ) -> bool {
        match op {
            EngineOp::Purge => r is Ok && self.purges(after) && answered(r, done_view(proto)),
            EngineOp::Save => {
                &&& r is Ok
                &&& after.effects@ == self.effects@.push(Effect::Save)
                &&& self.same_but_effects(after)
                &&& answered(r, done_view(proto))
            },
            EngineOp::Shutdown => {
                &&& r is Ok
                &&& after.effects@ == self.effects@.push(Effect::Shutdown)
                &&& self.same_but_effects(after)
                &&& answered(r, done_view(proto))
            },
            EngineOp::RefreshAll => counts(r, given) && after == *self,
            _ => r is Ok && answered(r, self.engine_answer(op, proto)) && after == *self,
        }
    }

    /// What the manager and the answer are after a request. `fresh` is the name of a new
    /// task or a new subscription.
    pub open spec fn performs(
        &self,
        after: TaskManager,
        call: Call,
        given: Given,
        fresh: String,
        proto: Proto,
        env: Env,
        now: u64,
        r: Result<Json, String>,
    ) -> bool {
        match call {
            Call::Answer(j) => r == Ok::<Json, String>(j) && after == *self,
            Call::Add { source, options, position } => self.adds(
                after,
                source,
                options,
                position,
                given,
                fresh,
                proto,
                env,
                r,
            ),
            Call::Task { op, gid } => self.does_with_task(after, op, gid@, proto, now, r),
            Call::Tell { gid, keys } => is_answer(
                r,
                self.tell_answer(gid@, keys_view(keys), proto, now),
            ) && after == *self,
            Call::List { listing, offset, num, keys } => r is Ok && answered(
                r,
                self.list_answer(listing@, offset, num, keys_view(keys), now),
            ) && after == *self,
            Call::AddTrackers { gid, trackers } => self.gives_trackers(
                after,
                gid@,
                trackers,
                outcome_of(r),
            ) && answered(r, done_view(proto)),
            Call::ChangeOption { gid, options } => self.changes_option(
                after,
                gid@,
                options,
                outcome_of(r),
            ) && answered(r, done_view(proto)),
            Call::ChangeGlobal { options } => self.changes_global(
                after,
                options,
                env,
                outcome_of(r),
            ) && answered(r, done_view(proto)),
            Call::Engine(op) => self.does_with_engine(after, op, given, proto, r),
            Call::Tracker { add, url } => (if add {
                self.adds_tracker(after, url@, outcome_of(r))
            } else {
                self.drops_tracker(after, url@, outcome_of(r))
            }) && answered(r, done_view(proto)),
            Call::Subscribe { name, url, enabled } => exists|s: Result<TrackerSubscription, String>|
                #[trigger] self.subscribes(after, name@, url@, enabled, fresh, s) && match s {
                    Ok(sub) => r is Ok && answered(r, sub_view(sub)),
                    Err(e) => r == Err::<Json, String>(e),
                },
            Call::Subscription { change, id } => match change {
                SubOp::Remove => self.unsubscribes(after, id@, outcome_of(r)) && answered(
                    r,
                    done_view(proto),
                ),
                SubOp::Toggle => self.toggles(after, id@, outcome_of(r)) && answered(
                    r,
                    done_view(proto),
                ),
                SubOp::Refresh => counts(r, given) && after == *self,
            },
            Call::SetAuto(on) => r is Ok && self.sets_auto(after, on) && answered(
                r,
                done_view(proto),
            ),
            Call::Multicall(_) => true,
        }
    }

    fn add(
        &mut self,
        source: Source,
        options: &Json,
        position: Option<i64>,
        given: Given,
        gid: String,
        proto: Proto,
        env: &Env,
    ) -> (r: Result<Json, String>)
        requires
            old(self).wf(),
            old(self).is_free(gid@),
            match given {
                Given::Torrent(t) => t is Ok ==> t->Ok_0.info.wf(),
                Given::Magnet(_) => true,
                _ => match source {
                    Source::Uris(u) => first_magnet(string_texts(u@)) is None,
                    _ => false,
                },
            },
        ensures
            final(self).wf(),
            old(self).adds(*final(self), source, *options, position, given, gid, proto, *env, r),
    {
        let answer = made_json(proto, gid.as_str());
        match given {
            Given::Torrent(t) => match t {
                Ok(meta) => {
                    self.add_torrent(meta, options, position, gid, env);
                    Ok(answer)
                },
                Err(e) => Err(joined("torrent 解析失败: ", e.as_str())),
            },
            Given::Magnet(m) => match m {
                Ok(m) => {
                    self.add_magnet(
                        m.info_hash,
                        m.trackers,
                        m.display_name,
                        options,
                        position,
                        gid,
                        env,
                    );
                    Ok(answer)
                },
                Err(e) => Err(joined("磁力链接解析失败: ", e.as_str())),
            },
            _ => match source {
                Source::Uris(uris) => match self.add_uri(uris, options, position, gid, env) {
                    Ok(_) => Ok(answer),
                    Err(e) => Err(e),
                },
                _ => Ok(answer),
            },
        }
    }

    fn do_with_task(&mut self, op: TaskOp, gid: &str, proto: Proto, now: u64) -> (r: Result<Json, String>)
        requires
            old(self).wf(),
        ensures
            final(self).wf(),
            old(self).does_with_task(*final(self), op, gid@, proto, now, r),
    {
        let done = match op {
            TaskOp::Pause => self.pause(gid, now),
            TaskOp::Resume => self.unpause(gid, now),
            TaskOp::Remove => self.remove(gid),
            TaskOp::RemoveResult => self.remove_download_result(gid),
            _ => {
                return self.answer_task(op, gid);
            },
        };
        reply(done, proto)
    }

    fn do_with_engine(&mut self, op: EngineOp, given: Given, proto: Proto) -> (r: Result<Json, String>)
        requires
            old(self).wf(),
            op is RefreshAll ==> given is Count,
        ensures
            final(self).wf(),
            old(self).does_with_engine(*final(self), op, given, proto, r),
    {
        match op {
            EngineOp::Purge => {
                self.purge_download_result();
                Ok(done_json(proto))
            },
            EngineOp::Save => {
                self.save_session();
                Ok(done_json(proto))
            },
            EngineOp::Shutdown => {
                self.shutdown();
                Ok(done_json(proto))
            },
            EngineOp::RefreshAll => count_reply(given),
            _ => Ok(self.answer_engine(op, proto)),
        }
    }

    /// Carries a request out. `given` is what it needs from outside, `fresh` the name of
    /// a new task or a new subscription.
    pub fn perform(
        &mut self,
        call: Call,
        given: Given,
        fresh: String,
        proto: Proto,
        env: &Env,
        now: u64,
    ) -> (r: Result<Json, String>)
        requires
            old(self).wf(),
            suits(call, given),
            old(self).is_free(fresh@),
        ensures
            final(self).wf(),
            old(self).performs(*final(self), call, given, fresh, proto, *env, now, r),
    {
        match call {
            Call::Answer(j) => Ok(j),
            Call::Add { source, options, position } => self.add(
                source,
                &options,
                position,
                given,
                fresh,
                proto,
                env,
            ),
            Call::Task { op, gid } => self.do_with_task(op, gid.as_str(), proto, now),
            Call::Tell { gid, keys } => self.answer_tell(gid.as_str(), &keys, proto, now),
            Call::List { listing, offset, num, keys } => Ok(
                self.answer_list(&listing, offset, num, &keys, now),
            ),
            Call::AddTrackers { gid, trackers } => reply(
                self.add_trackers(gid.as_str(), trackers),
                proto,
            ),
            Call::ChangeOption { gid, options } => reply(
                self.change_option(gid.as_str(), &options),
                proto,
            ),
            Call::ChangeGlobal { options } => reply(self.change_global_option(&options, env), proto),
            Call::Engine(op) => self.do_with_engine(op, given, proto),
            Call::Tracker { add, url } => if add {
                reply(self.add_global_tracker(url.as_str()), proto)
            } else {
                reply(self.remove_global_tracker(url.as_str()), proto)
            },
            Call::Subscribe { name, url, enabled } => {
                let s = self.add_subscription(name.as_str(), url.as_str(), enabled, fresh);
                let ghost got = s;
                assert(old(self).subscribes(*self, name@, url@, enabled, fresh, got));
                match s {
                    Ok(sub) => Ok(show_sub(&sub)),
                    Err(e) => Err(e),
                }
            },
            Call::Subscription { change, id } => match change {
                SubOp::Remove => reply(self.remove_subscription(id.as_str()), proto),
                SubOp::Toggle => reply(self.toggle_subscription(id.as_str()), proto),
                SubOp::Refresh => count_reply(given),
            },
            Call::SetAuto(on) => {
                self.set_auto_update_trackers(on);
                Ok(done_json(proto))
            },
            Call::Multicall(_) => Ok(Json::Null),
        }
    }
}

/// Whether the answer says how much was refreshed.
pub open spec fn counts(r: Result<Json, String>, given: Given) -> bool {
    match given {
        Given::Count(Ok(n)) => r is Ok && answered(r, count_view(n)),
        Given::Count(Err(e)) => r == Err::<Json, String>(e),
        _ => false,
    }
}

fn count_reply(given: Given) -> (r: Result<Json, String>)
    requires
        given is Count,
    ensures
        counts(r, given),
{
    match given {
        Given::Count(c) => match c {
            Ok(n) => Ok(count_json(n)),
            Err(e) => Err(e),
        },
        _ => Ok(Json::Null),
    }
}

fn reply(done: Result<(), String>, proto: Proto) -> (r: Result<Json, String>)
    ensures
        r is Ok <==> done is Ok,
        done is Err ==> r->Err_0 == done->Err_0,
        answered(r, done_view(proto)),
{
    match done {
        Ok(_) => Ok(done_json(proto)),
        Err(e) => Err(e),
    }
}

/// What a request needs from outside is what it can go on with: a torrent where it has
/// the text of one, a magnet link where it has one or one is among its addresses, and
/// nothing where it has neither. White space around a link does not count.
pub proof fn law_what_is_needed_suits(
    r: Result<Need, String>,
    call: Call,
    n: Result<u64, String>,
    l: Result<Magnet, String>,
    e: String,
)
    requires
        needs(r, call),
        r is Ok,
    ensures
        r->Ok_0 is Nothing ==> suits(call, Given::Nothing),
        r->Ok_0 is Magnet ==> suits(call, Given::Magnet(l)),
        r->Ok_0 is Torrent ==> suits(call, Given::Torrent(Err(e))),
        r->Ok_0 is Refresh || r->Ok_0 is RefreshAll ==> suits(call, Given::Count(n)),
        call is Add && call->Add_source is Magnet ==> r->Ok_0 is Magnet && r->Ok_0->Magnet_0@ == trimmed(
            call->Add_source->Magnet_0@,
        ),
        call is Add && call->Add_source is Torrent ==> r->Ok_0 is Torrent && base64_bytes(
            trimmed(call->Add_source->Torrent_0@),
        ) == Ok::<Seq<u8>, Seq<char>>(r->Ok_0->Torrent_0@),
        call is Add && call->Add_source is Uris ==> (r->Ok_0 is Magnet <==> first_magnet(
            string_texts(call->Add_source->Uris_0@),
        ) is Some),
        call is Add && r->Ok_0 is Magnet && call->Add_source is Uris ==> Some(r->Ok_0->Magnet_0@) == (
        match first_magnet(string_texts(call->Add_source->Uris_0@)) {
            Some(m) => Some(trimmed(m)),
            None => None,
        }),
        call is Multicall ==> r->Ok_0 is Calls,
{
}

} // verus!
