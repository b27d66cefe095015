//! The engine's own protocol: named parameters, numbers as numbers, and events for
//! clients that subscribe to them.

use vstd::prelude::*;

use crate::config::opt_view;
use crate::json::{
    copy_field, entry_of, field_views, lemma_obj_view, said, text_array, text_list_view, Field, Json,
    JsonView, ObjectBuilder,
};
use crate::lists::{holds, key_at, lemma_key_at, lemma_key_at_props, value_at};
use crate::manager::{event_text, has_task, task_at, Event, TaskManager};
use crate::manifest::string_texts;
use crate::rpc::{
    gid_or, is_gid, one_field, options_view, read_gid, valid_gid, Call, CallView, EngineOp, Listing,
    ListingView, OptionsView, Source, SourceView, SubOp, TaskOp,
};
use crate::status::{code_view, total_or_zero};
use crate::task::{status_text, Status, Task};
use crate::text::{chars_of, has_prefix, joined, same_str, starts_with};

verus! {

/// The engine's own side for clients.
pub struct NativeDispatcher {
    /// What requests have to prove to know, if anything.
    pub secret: Option<String>,
    /// Name and version of the engine.
    pub name: String,
    pub version: String,
}

/// Whether a method belongs to the engine's own protocol.
pub open spec fn is_native(m: Seq<char>) -> bool {
    has_prefix(m, "task."@) || has_prefix(m, "engine."@) || has_prefix(m, "events."@)
}

// ---------------------------------------------------------------------------
// Names of methods
// ---------------------------------------------------------------------------

/// What a method does with one task.
pub open spec fn native_task_op(m: Seq<char>) -> Option<TaskOp> {
    if m == "task.pause"@ {
        Some(TaskOp::Pause)
    } else if m == "task.resume"@ {
        Some(TaskOp::Resume)
    } else if m == "task.remove"@ {
        Some(TaskOp::Remove)
    } else if m == "task.removeResult"@ {
        Some(TaskOp::RemoveResult)
    } else if m == "task.getFiles"@ {
        Some(TaskOp::Files)
    } else if m == "task.getUris"@ {
        Some(TaskOp::Uris)
    } else if m == "task.getPeers"@ {
        Some(TaskOp::Peers)
    } else if m == "task.getTrackers"@ {
        Some(TaskOp::Trackers)
    } else if m == "task.getOption"@ {
        Some(TaskOp::Options)
    } else {
        None
    }
}

/// What a method does with the engine.
pub open spec fn native_engine_op(m: Seq<char>) -> Option<EngineOp> {
    if m == "task.purgeResults"@ {
        Some(EngineOp::Purge)
    } else if m == "engine.saveSession"@ {
        Some(EngineOp::Save)
    } else if m == "engine.globalStat"@ {
        Some(EngineOp::Stat)
    } else if m == "engine.getOptions"@ {
        Some(EngineOp::Options)
    } else if m == "engine.getTrackers"@ {
        Some(EngineOp::Trackers)
    } else if m == "engine.getSubscriptions"@ {
        Some(EngineOp::Subscriptions)
    } else if m == "engine.refreshAllSubscriptions"@ {
        Some(EngineOp::RefreshAll)
    } else if m == "engine.getAutoUpdateTrackers"@ {
        Some(EngineOp::AutoUpdate)
    } else if m == "engine.shutdown"@ || m == "engine.forceShutdown"@ {
        Some(EngineOp::Shutdown)
    } else {
        None
    }
}

/// What a method does with a subscription.
pub open spec fn native_sub_op(m: Seq<char>) -> Option<SubOp> {
    if m == "engine.removeSubscription"@ {
        Some(SubOp::Remove)
    } else if m == "engine.toggleSubscription"@ {
        Some(SubOp::Toggle)
    } else if m == "engine.refreshSubscription"@ {
        Some(SubOp::Refresh)
    } else {
        None
    }
}

fn read_task_op(m: &str) -> (r: Option<TaskOp>)
    ensures
        r == native_task_op(m@),
{
    if same_str(m, "task.pause") {
        Some(TaskOp::Pause)
    } else if same_str(m, "task.resume") {
        Some(TaskOp::Resume)
    } else if same_str(m, "task.remove") {
        Some(TaskOp::Remove)
    } else if same_str(m, "task.removeResult") {
        Some(TaskOp::RemoveResult)
    } else if same_str(m, "task.getFiles") {
        Some(TaskOp::Files)
    } else if same_str(m, "task.getUris") {
        Some(TaskOp::Uris)
    } else if same_str(m, "task.getPeers") {
        Some(TaskOp::Peers)
    } else if same_str(m, "task.getTrackers") {
        Some(TaskOp::Trackers)
    } else if same_str(m, "task.getOption") {
        Some(TaskOp::Options)
    } else {
        None
    }
}

fn read_engine_op(m: &str) -> (r: Option<EngineOp>)
    ensures
        r == native_engine_op(m@),
{
    if same_str(m, "task.purgeResults") {
        Some(EngineOp::Purge)
    } else if same_str(m, "engine.saveSession") {
        Some(EngineOp::Save)
    } else if same_str(m, "engine.globalStat") {
        Some(EngineOp::Stat)
    } else if same_str(m, "engine.getOptions") {
        Some(EngineOp::Options)
    } else if same_str(m, "engine.getTrackers") {
        Some(EngineOp::Trackers)
    } else if same_str(m, "engine.getSubscriptions") {
        Some(EngineOp::Subscriptions)
    } else if same_str(m, "engine.refreshAllSubscriptions") {
        Some(EngineOp::RefreshAll)
    } else if same_str(m, "engine.getAutoUpdateTrackers") {
        Some(EngineOp::AutoUpdate)
    } else if same_str(m, "engine.shutdown") || same_str(m, "engine.forceShutdown") {
        Some(EngineOp::Shutdown)
    } else {
        None
    }
}

fn read_sub_op(m: &str) -> (r: Option<SubOp>)
    ensures
        r == native_sub_op(m@),
{
    if same_str(m, "engine.removeSubscription") {
        Some(SubOp::Remove)
    } else if same_str(m, "engine.toggleSubscription") {
        Some(SubOp::Toggle)
    } else if same_str(m, "engine.refreshSubscription") {
        Some(SubOp::Refresh)
    } else {
        None
    }
}

// ---------------------------------------------------------------------------
// Parameters
// ---------------------------------------------------------------------------

/// An entry with the text of its value.
pub open spec fn entry_said(f: Field) -> (Seq<char>, JsonView, Seq<char>) {
    (f.key@, f.value@, f.text@)
}

/// The entries of some keys, in the order of the keys.
pub open spec fn chosen_entries(f: Seq<Field>, keys: Seq<Seq<char>>) -> Seq<(
    Seq<char>,
    JsonView,
    Seq<char>,
)>
    decreases keys.len(),
{
    if keys.len() == 0 {
        Seq::empty()
    } else {
        let rest = chosen_entries(f, keys.drop_last());
        match entry_of(f, keys.last()) {
            Some(e) => rest.push(entry_said(e)),
            None => rest,
        }
    }
}

/// The entries of all but some keys.
pub open spec fn other_entries(f: Seq<Field>, keys: Seq<Seq<char>>) -> Seq<(
    Seq<char>,
    JsonView,
    Seq<char>,
)>
    decreases f.len(),
{
    if f.len() == 0 {
        Seq::empty()
    } else {
        let rest = other_entries(f.drop_last(), keys);
        if keys.contains(f.last().key@) { rest } else { rest.push(entry_said(f.last())) }
    }
}

/// Options made of some entries.
pub open spec fn options_of(e: Seq<(Seq<char>, JsonView, Seq<char>)>) -> OptionsView {
    OptionsView {
        value: JsonView::Obj(Seq::new(e.len(), |i: int| (e[i].0, e[i].1))),
        entries: e,
    }
}

/// Options made of some entries.
fn make_options(f: Vec<Field>) -> (r: Json)
    ensures
        options_view(r) == options_of(said(f@)),
{
    proof {
        lemma_obj_view(f);
        let e = said(f@);
        assert(field_views(f@) =~= Seq::new(e.len(), |i: int| (e[i].0, e[i].1)));
    }
    Json::Obj(f)
}

fn choose_entries(params: &Json, keys: &Vec<String>) -> (r: Json)
    ensures
        options_view(r) == options_of(chosen_entries(params.entries(), string_texts(keys@))),
{
    let ghost all = string_texts(keys@);
    let mut out: Vec<Field> = Vec::new();
    let mut i: usize = 0;
    proof {
        assert(all.take(0) =~= Seq::<Seq<char>>::empty());
        assert(said(out@) =~= Seq::<(Seq<char>, JsonView, Seq<char>)>::empty());
    }
    while i < keys.len()
        invariant
            i <= keys@.len(),
            all == string_texts(keys@),
            said(out@) == chosen_entries(params.entries(), all.take(i as int)),
        decreases keys@.len() - i,
    {
        proof {
            assert(all.take(i + 1).drop_last() =~= all.take(i as int));
            assert(all.take(i + 1).last() == keys@[i as int]@);
        }
        match params.entry(keys[i].as_str()) {
            Some(f) => {
                let ghost before = out@;
                let c = copy_field(f);
                out.push(c);
                assert(said(out@) =~= said(before).push(entry_said(*f)));
            },
            None => {},
        }
        i = i + 1;
    }
    assert(all.take(i as int) =~= all);
    make_options(out)
}

fn drop_entries(params: &Json, keys: &Vec<String>) -> (r: Json)
    ensures
        options_view(r) == options_of(other_entries(params.entries(), string_texts(keys@))),
{
    let mut out: Vec<Field> = Vec::new();
    assert(said(out@) =~= Seq::<(Seq<char>, JsonView, Seq<char>)>::empty());
    match params {
        Json::Obj(f) => {
            let mut i: usize = 0;
            assert(f@.take(0) =~= Seq::<Field>::empty());
            while i < f.len()
                invariant
                    i <= f@.len(),
                    said(out@) == other_entries(f@.take(i as int), string_texts(keys@)),
                decreases f@.len() - i,
            {
                proof {
                    assert(f@.take(i + 1).drop_last() =~= f@.take(i as int));
                    assert(f@.take(i + 1).last() == f@[i as int]);
                }
                if !holds(keys, f[i].key.as_str()) {
                    let ghost before = out@;
                    let c = copy_field(&f[i]);
                    out.push(c);
                    assert(said(out@) =~= said(before).push(entry_said(f@[i as int])));
                }
                i = i + 1;
            }
            assert(f@.take(i as int) =~= f@);
        },
        _ => {},
    }
    make_options(out)
}

/// The keys that a new task takes its options from.
pub open spec fn task_keys(checksum: bool) -> Seq<Seq<char>> {
    if checksum {
        seq!["dir"@, "out"@, "checksum"@]
    } else {
        seq!["dir"@, "out"@]
    }
}

fn task_key_list(checksum: bool) -> (r: Vec<String>)
    ensures
        string_texts(r@) == task_keys(checksum),
{
    let mut v: Vec<String> = Vec::new();
    v.push("dir".to_owned());
    v.push("out".to_owned());
    if checksum {
        v.push("checksum".to_owned());
    }
    assert(string_texts(v@) =~= task_keys(checksum));
    v
}

/// What a request for a new task asks for.
pub open spec fn add_call(params: Json) -> Result<CallView, Seq<char>> {
    let o = params@;
    let position = o.at("position"@).signed();
    match o.at("magnet"@).text() {
        Some(link) => Ok(
            CallView::Add {
                source: SourceView::Magnet(link),
                options: options_of(chosen_entries(params.entries(), task_keys(false))),
                position,
            },
        ),
        None => match o.at("torrent"@).text() {
            Some(text) => Ok(
                CallView::Add {
                    source: SourceView::Torrent(text),
                    options: options_of(chosen_entries(params.entries(), task_keys(false))),
                    position,
                },
            ),
            None => match text_array(o.get("uris"@)) {
                Some(uris) => Ok(
                    CallView::Add {
                        source: SourceView::Uris(uris),
                        options: options_of(chosen_entries(params.entries(), task_keys(true))),
                        position,
                    },
                ),
                None => Err("参数 uris（数组）缺失"@),
            },
        },
    }
}

/// The task that a request names.
pub open spec fn named_gid(params: Json) -> Result<Seq<char>, Seq<char>> {
    gid_or(params@.at("gid"@).text(), "参数 gid（gid）缺失"@)
}

/// A required text.
pub open spec fn text_or(params: Json, key: Seq<char>, missing: Seq<char>) -> Result<
    Seq<char>,
    Seq<char>,
> {
    match params@.at(key).text() {
        Some(s) => Ok(s),
        None => Err(missing),
    }
}

/// Whether a request was read as it is meant.
pub open spec fn reads_as(r: Result<Call, String>, v: Result<CallView, Seq<char>>) -> bool {
    match r {
        Ok(c) => v == Ok::<CallView, Seq<char>>(c@),
        Err(e) => v == Err::<CallView, Seq<char>>(e@),
    }
}

fn read_named(params: &Json) -> (r: Result<String, String>)
    ensures
        match r {
            Ok(g) => named_gid(*params) == Ok::<Seq<char>, Seq<char>>(g@),
            Err(e) => named_gid(*params) == Err::<Seq<char>, Seq<char>>(e@),
        },
{
    read_gid(params.text_of("gid"), "参数 gid（gid）缺失")
}

fn read_text_or(params: &Json, key: &str, missing: &str) -> (r: Result<String, String>)
    ensures
        match r {
            Ok(s) => text_or(*params, key@, missing@) == Ok::<Seq<char>, Seq<char>>(s@),
            Err(e) => text_or(*params, key@, missing@) == Err::<Seq<char>, Seq<char>>(e@),
        },
{
    match params.text_of(key) {
        Some(s) => Ok(s.clone()),
        None => Err(missing.to_owned()),
    }
}

fn read_add(params: &Json) -> (r: Result<Call, String>)
    ensures
        reads_as(r, add_call(*params)),
{
    let position = params.i64_of("position");
    match params.text_of("magnet") {
        Some(link) => {
            return Ok(
                Call::Add {
                    source: Source::Magnet(link.clone()),
                    options: choose_entries(params, &task_key_list(false)),
                    position,
                },
            );
        },
        None => {},
    }
    match params.text_of("torrent") {
        Some(text) => {
            return Ok(
                Call::Add {
                    source: Source::Torrent(text.clone()),
                    options: choose_entries(params, &task_key_list(false)),
                    position,
                },
            );
        },
        None => {},
    }
    match params.texts_of("uris") {
        Some(uris) => Ok(
            Call::Add {
                source: Source::Uris(uris),
                options: choose_entries(params, &task_key_list(true)),
                position,
            },
        ),
        None => Err("参数 uris（数组）缺失".to_owned()),
    }
}

// ---------------------------------------------------------------------------
// Dispatch
// ---------------------------------------------------------------------------

/// What the engine says of itself.
pub open spec fn about_view(name: Seq<char>, version: Seq<char>) -> JsonView {
    JsonView::Obj(
        seq![
            ("name"@, JsonView::Str(name)),
            ("version"@, JsonView::Str(version)),
            (
                "features"@,
                text_list_view(seq!["http"@, "resume"@, "checksum"@, "bt"@, "events"@]),
            ),
        ],
    )
}

fn about_json(name: &str, version: &str) -> (r: Json)
    ensures
        r@ == about_view(name@, version@),
{
    let mut features: Vec<String> = Vec::new();
    features.push("http".to_owned());
    features.push("resume".to_owned());
    features.push("checksum".to_owned());
    features.push("bt".to_owned());
    features.push("events".to_owned());
    assert(string_texts(features@) =~= seq!["http"@, "resume"@, "checksum"@, "bt"@, "events"@]);
    let mut b = ObjectBuilder::new();
    b.put("name", Json::text(name));
    b.put("version", Json::text(version));
    b.put("features", Json::text_list(&features));
    assert(b@ =~= about_view(name@, version@)->Obj_0);
    b.done()
}

/// What a method about tasks asks for.
pub open spec fn native_task_call(m: Seq<char>, params: Json) -> Option<Result<CallView, Seq<char>>> {
    let o = params@;
    if m == "task.add"@ {
        Some(add_call(params))
    } else if m == "task.tell"@ {
        Some(
            match named_gid(params) {
                Ok(gid) => Ok(CallView::Tell { gid, keys: text_array(o.get("keys"@)) }),
                Err(e) => Err(e),
            },
        )
    } else if m == "task.list"@ {
        Some(
            Ok(
                CallView::List {
                    listing: ListingView::Scope(
                        match o.at("scope"@).text() {
                            Some(s) => s,
                            None => "all"@,
                        },
                    ),
                    offset: match o.at("offset"@).signed() {
                        Some(n) => n,
                        None => 0,
                    },
                    num: match o.at("num"@).signed() {
                        Some(n) => n,
                        None => -1i64,
                    },
                    keys: text_array(o.get("keys"@)),
                },
            ),
        )
    } else if native_task_op(m) is Some {
        Some(
            match named_gid(params) {
                Ok(gid) => Ok(CallView::Task { op: native_task_op(m)->0, gid }),
                Err(e) => Err(e),
            },
        )
    } else if m == "task.addTrackers"@ {
        Some(
            match named_gid(params) {
                Ok(gid) => match text_array(o.get("trackers"@)) {
                    Some(list) => if list.len() == 0 {
                        Err("trackers 不能为空"@)
                    } else {
                        Ok(CallView::AddTrackers { gid, trackers: list })
                    },
                    None => Err("参数 trackers（数组）缺失"@),
                },
                Err(e) => Err(e),
            },
        )
    } else if m == "task.changeOption"@ {
        Some(
            match named_gid(params) {
                Ok(gid) => Ok(
                    CallView::ChangeOption {
                        gid,
                        options: options_of(
                            other_entries(params.entries(), seq!["gid"@, "token"@]),
                        ),
                    },
                ),
                Err(e) => Err(e),
            },
        )
    } else {
        None
    }
}

/// What a method about trackers asks for.
pub open spec fn native_tracker_call(m: Seq<char>, params: Json) -> Option<
    Result<CallView, Seq<char>>,
> {
    let o = params@;
    if m == "engine.addTracker"@ || m == "engine.removeTracker"@ {
        Some(
            match text_or(params, "tracker"@, "参数 tracker 缺失"@) {
                Ok(url) => Ok(CallView::Tracker { add: m == "engine.addTracker"@, url }),
                Err(e) => Err(e),
            },
        )
    } else if m == "engine.addSubscription"@ {
        Some(
            match text_or(params, "url"@, "参数 url 缺失"@) {
                Ok(url) => Ok(
                    CallView::Subscribe {
                        name: match o.at("name"@).text() {
                            Some(n) => n,
                            None => Seq::empty(),
                        },
                        url,
                        enabled: match o.at("enabled"@).flag() {
                            Some(b) => b,
                            None => true,
                        },
                    },
                ),
                Err(e) => Err(e),
            },
        )
    } else if native_sub_op(m) is Some {
        Some(
            match text_or(params, "id"@, "参数 id 缺失"@) {
                Ok(id) => Ok(CallView::Subscription { change: native_sub_op(m)->0, id }),
                Err(e) => Err(e),
            },
        )
    } else if m == "engine.setAutoUpdateTrackers"@ {
        Some(
            match o.at("enabled"@).flag() {
                Some(b) => Ok(CallView::SetAuto(b)),
                None => Err("参数 enabled 缺失"@),
            },
        )
    } else {
        None
    }
}

/// What a method asks for, once the request is let in.
pub open spec fn native_call(
    m: Seq<char>,
    params: Json,
    name: Seq<char>,
    version: Seq<char>,
) -> Result<CallView, Seq<char>> {
    if native_task_call(m, params) is Some {
        native_task_call(m, params)->0
    } else if native_tracker_call(m, params) is Some {
        native_tracker_call(m, params)->0
    } else if native_engine_op(m) is Some {
        Ok(CallView::Engine(native_engine_op(m)->0))
    } else if m == "engine.changeOptions"@ {
        Ok(
            CallView::ChangeGlobal {
                options: options_of(other_entries(params.entries(), seq!["token"@])),
            },
        )
    } else if m == "engine.getVersion"@ {
        Ok(CallView::Answer(about_view(name, version)))
    } else if m == "events.subscribe"@ {
        Ok(CallView::Answer(JsonView::Obj(seq![("ok"@, JsonView::Bool(true))])))
    } else {
        Err("Method not found"@)
    }
}

/// Whether a request knows the secret.
pub open spec fn knows_secret(secret: Option<Seq<char>>, params: Json) -> bool {
    match secret {
        Some(want) => params@.at("token"@).text() == Some(want),
        None => true,
    }
}

/// What a request asks for.
pub open spec fn native_request(d: NativeDispatcher, method: Seq<char>, params: Json) -> Result<
    CallView,
    Seq<char>,
> {
    if knows_secret(opt_view(d.secret), params) {
        native_call(method, params, d.name@, d.version@)
    } else {
        Err("Unauthorized"@)
    }
}

fn read_list(params: &Json) -> (r: Call)
    ensures
        r@ == (CallView::List {
            listing: ListingView::Scope(
                match params@.at("scope"@).text() {
                    Some(s) => s,
                    None => "all"@,
                },
            ),
            offset: match params@.at("offset"@).signed() {
                Some(n) => n,
                None => 0,
            },
            num: match params@.at("num"@).signed() {
                Some(n) => n,
                None => -1i64,
            },
            keys: text_array(params@.get("keys"@)),
        }),
{
    let scope = match params.text_of("scope") {
        Some(s) => s.clone(),
        None => "all".to_owned(),
    };
    let offset: i64 = match params.i64_of("offset") {
        Some(n) => n,
        None => 0,
    };
    let num: i64 = match params.i64_of("num") {
        Some(n) => n,
        None => -1,
    };
    Call::List { listing: Listing::Scope(scope), offset, num, keys: params.texts_of("keys") }
}

fn read_task_call(m: &str, params: &Json) -> (r: Option<Result<Call, String>>)
    ensures
        match r {
            Some(c) => native_task_call(m@, *params) is Some && reads_as(
                c,
                native_task_call(m@, *params)->0,
            ),
            None => native_task_call(m@, *params) is None,
        },
{
    if same_str(m, "task.add") {
        return Some(read_add(params));
    }
    if same_str(m, "task.tell") {
        return Some(
            match read_named(params) {
                Ok(gid) => Ok(Call::Tell { gid, keys: params.texts_of("keys") }),
                Err(e) => Err(e),
            },
        );
    }
    if same_str(m, "task.list") {
        return Some(Ok(read_list(params)));
    }
    match read_task_op(m) {
        Some(op) => {
            return Some(
                match read_named(params) {
                    Ok(gid) => Ok(Call::Task { op, gid }),
                    Err(e) => Err(e),
                },
            );
        },
        None => {},
    }
    if same_str(m, "task.addTrackers") {
        return Some(
            match read_named(params) {
                Ok(gid) => match params.texts_of("trackers") {
                    Some(trackers) => {
                        assert(string_texts(trackers@).len() == trackers@.len());
                        if trackers.len() == 0 {
                            Err("trackers 不能为空".to_owned())
                        } else {
                            Ok(Call::AddTrackers { gid, trackers })
                        }
                    },
                    None => Err("参数 trackers（数组）缺失".to_owned()),
                },
                Err(e) => Err(e),
            },
        );
    }
    if same_str(m, "task.changeOption") {
        return Some(
            match read_named(params) {
                Ok(gid) => {
                    let mut keys: Vec<String> = Vec::new();
                    keys.push("gid".to_owned());
                    keys.push("token".to_owned());
                    assert(string_texts(keys@) =~= seq!["gid"@, "token"@]);
                    Ok(Call::ChangeOption { gid, options: drop_entries(params, &keys) })
                },
                Err(e) => Err(e),
            },
        );
    }
    None
}

fn read_tracker_call(m: &str, params: &Json) -> (r: Option<Result<Call, String>>)
    ensures
        match r {
            Some(c) => native_tracker_call(m@, *params) is Some && reads_as(
                c,
                native_tracker_call(m@, *params)->0,
            ),
            None => native_tracker_call(m@, *params) is None,
        },
{
    let add = same_str(m, "engine.addTracker");
    if add || same_str(m, "engine.removeTracker") {
        return Some(
            match read_text_or(params, "tracker", "参数 tracker 缺失") {
                Ok(url) => Ok(Call::Tracker { add, url }),
                Err(e) => Err(e),
            },
        );
    }
    if same_str(m, "engine.addSubscription") {
        return Some(
            match read_text_or(params, "url", "参数 url 缺失") {
                Ok(url) => {
                    let name = match params.text_of("name") {
                        Some(n) => n.clone(),
                        None => String::new(),
                    };
                    let enabled = match params.bool_of("enabled") {
                        Some(b) => b,
                        None => true,
                    };
                    Ok(Call::Subscribe { name, url, enabled })
                },
                Err(e) => Err(e),
            },
        );
    }
    match read_sub_op(m) {
        Some(change) => {
            return Some(
                match read_text_or(params, "id", "参数 id 缺失") {
                    Ok(id) => Ok(Call::Subscription { change, id }),
                    Err(e) => Err(e),
                },
            );
        },
        None => {},
    }
    if same_str(m, "engine.setAutoUpdateTrackers") {
        return Some(
            match params.bool_of("enabled") {
                Some(b) => Ok(Call::SetAuto(b)),
                None => Err("参数 enabled 缺失".to_owned()),
            },
        );
    }
    None
}

fn read_call(m: &str, params: &Json, name: &str, version: &str) -> (r: Result<Call, String>)
    ensures
        reads_as(r, native_call(m@, *params, name@, version@)),
{
    match read_task_call(m, params) {
        Some(c) => {
            return c;
        },
        None => {},
    }
    match read_tracker_call(m, params) {
        Some(c) => {
            return c;
        },
        None => {},
    }
    match read_engine_op(m) {
        Some(op) => {
            return Ok(Call::Engine(op));
        },
        None => {},
    }
    if same_str(m, "engine.changeOptions") {
        let mut keys: Vec<String> = Vec::new();
        keys.push("token".to_owned());
        assert(string_texts(keys@) =~= seq!["token"@]);
        return Ok(Call::ChangeGlobal { options: drop_entries(params, &keys) });
    }
    if same_str(m, "engine.getVersion") {
        return Ok(Call::Answer(about_json(name, version)));
    }
    if same_str(m, "events.subscribe") {
        return Ok(Call::Answer(one_field("ok", Json::Bool(true))));
    }
    Err("Method not found".to_owned())
}

impl NativeDispatcher {
    pub fn new(secret: Option<String>, name: String, version: String) -> (r: Self)
        ensures
            r == (NativeDispatcher { secret, name, version }),
    {
        NativeDispatcher { secret, name, version }
    }

    /// Whether a method belongs to the engine's own protocol.
    pub fn owns(method: &str) -> (r: bool)
        ensures
            r == is_native(method@),
    {
        let m = chars_of(method);
        starts_with(&m, "task.") || starts_with(&m, "engine.") || starts_with(&m, "events.")
    }

    /// What a request asks for. With a secret every request has it as its `token`.
    pub fn dispatch(&self, method: &str, params: &Json) -> (r: Result<Call, String>)
        ensures
            reads_as(r, native_request(*self, method@, *params)),
    {
        match &self.secret {
            Some(want) => {
                let ok = match params.text_of("token") {
                    Some(t) => same_str(t.as_str(), want.as_str()),
                    None => false,
                };
                if !ok {
                    return Err("Unauthorized".to_owned());
                }
            },
            None => {},
        }
        read_call(method, params, self.name.as_str(), self.version.as_str())
    }
}

/// A request that does not know the secret is never let in, whatever it asks for.
pub proof fn law_secret_is_needed(d: NativeDispatcher, method: Seq<char>, params: Json)
    requires
        d.secret is Some,
        params@.at("token"@).text() != Some(d.secret->0@),
    ensures
        native_request(d, method, params) == Err::<CallView, Seq<char>>("Unauthorized"@),
{
}

/// The secret never becomes an option of the engine or of a task.
pub proof fn law_secret_is_no_option(f: Seq<Field>, keys: Seq<Seq<char>>, i: int)
    requires
        keys.contains("token"@),
        0 <= i < other_entries(f, keys).len(),
    ensures
        other_entries(f, keys)[i].0 != "token"@,
    decreases f.len(),
{
    if f.len() > 0 {
        let rest = other_entries(f.drop_last(), keys);
        if i < rest.len() {
            law_secret_is_no_option(f.drop_last(), keys, i);
        }
    }
}

// ---------------------------------------------------------------------------
// Events
// ---------------------------------------------------------------------------

/// What subscribers are told of a task's progress.
pub open spec fn progress_params(gid: Seq<char>, t: Task) -> JsonView {
    JsonView::Obj(
        seq![
            ("gid"@, JsonView::Str(gid)),
            ("status"@, JsonView::Str(status_text(t.shared.status))),
            ("completedLength"@, JsonView::Unsigned(t.completed_now())),
            ("totalLength"@, JsonView::Unsigned(total_or_zero(t))),
            ("downloadSpeed"@, JsonView::Unsigned(t.speed_now())),
        ],
    )
}

/// What subscribers are told of a task's failure.
pub open spec fn error_params(gid: Seq<char>, t: Task) -> JsonView {
    JsonView::Obj(
        seq![
            ("gid"@, JsonView::Str(gid)),
            ("errorCode"@, code_view(t.shared.error_code, true)),
            ("errorMessage"@, JsonView::Str(t.shared.error_message@)),
        ],
    )
}

/// What subscribers are told of an event; nothing if the task is gone and its state is
/// part of the message.
pub open spec fn event_params(m: TaskManager, e: Event, gid: Seq<char>) -> Option<JsonView> {
    let t = m.tasks@[task_at(m.tasks@, gid)];
    if !is_gid(gid) {
        None
    } else {
        match e {
            Event::Progress => if has_task(m.tasks@, gid) {
                Some(progress_params(gid, t))
            } else {
                None
            },
            Event::Error => if has_task(m.tasks@, gid) { Some(error_params(gid, t)) } else { None },
            _ => Some(JsonView::Obj(seq![("gid"@, JsonView::Str(gid))])),
        }
    }
}

/// An event as it is sent.
pub open spec fn event_view(e: Event, params: JsonView) -> JsonView {
    JsonView::Obj(
        seq![
            ("jsonrpc"@, JsonView::Str("2.0"@)),
            ("method"@, JsonView::Str("task."@ + event_text(e))),
            ("params"@, params),
        ],
    )
}

impl NativeDispatcher {
    /// The message of an event, if subscribers are told of it.
    pub fn event_frame(&self, engine: &TaskManager, event: Event, gid: &str) -> (r: Option<Json>)
        ensures
            match r {
                Some(j) => event_params(*engine, event, gid@) is Some && j@ == event_view(
                    event,
                    event_params(*engine, event, gid@)->0,
                ),
                None => event_params(*engine, event, gid@) is None,
            },
    {
        if !valid_gid(gid) {
            return None;
        }
        let params = match event {
            Event::Progress => match engine.progress_snapshot(gid) {
                Some(p) => {
                    let j = progress_json(gid, p);
                    assert(j@ =~= progress_params(
                        gid@,
                        engine.tasks@[task_at(engine.tasks@, gid@)],
                    ));
                    j
                },
                None => {
                    return None;
                },
            },
            Event::Error => match engine.find(gid) {
                Some(k) => error_json(gid, &engine.tasks[k]),
                None => {
                    return None;
                },
            },
            _ => one_field("gid", Json::text(gid)),
        };
        let ghost p = params@;
        let mut b = ObjectBuilder::new();
        b.put("jsonrpc", Json::text("2.0"));
        b.put("method", Json::Str(joined("task.", event.as_str())));
        b.put("params", params);
        assert(b@ =~= event_view(event, p)->Obj_0);
        Some(b.done())
    }
}

fn progress_json(gid: &str, p: (Status, u64, u64, u64)) -> (r: Json)
    ensures
        r@ == JsonView::Obj(
            seq![
                ("gid"@, JsonView::Str(gid@)),
                ("status"@, JsonView::Str(status_text(p.0))),
                ("completedLength"@, JsonView::Unsigned(p.1)),
                ("totalLength"@, JsonView::Unsigned(p.2)),
                ("downloadSpeed"@, JsonView::Unsigned(p.3)),
            ],
        ),
{
    let mut b = ObjectBuilder::new();
    b.put("gid", Json::text(gid));
    b.put("status", Json::text(p.0.as_str()));
    b.put("completedLength", Json::Unsigned(p.1));
    b.put("totalLength", Json::Unsigned(p.2));
    b.put("downloadSpeed", Json::Unsigned(p.3));
    assert(b@ =~= seq![
        ("gid"@, JsonView::Str(gid@)),
        ("status"@, JsonView::Str(status_text(p.0))),
        ("completedLength"@, JsonView::Unsigned(p.1)),
        ("totalLength"@, JsonView::Unsigned(p.2)),
        ("downloadSpeed"@, JsonView::Unsigned(p.3)),
    ]);
    b.done()
}

fn error_json(gid: &str, t: &Task) -> (r: Json)
    ensures
        r@ == error_params(gid@, *t),
{
    let mut b = ObjectBuilder::new();
    b.put("gid", Json::text(gid));
    b.put("errorCode", Json::signed(t.shared.error_code));
    b.put("errorMessage", Json::text(t.shared.error_message.as_str()));
    assert(b@ =~= error_params(gid@, *t)->Obj_0);
    b.done()
}

// ---------------------------------------------------------------------------
// Which parameters become options
// ---------------------------------------------------------------------------

/// The value of a key in a table that grew by one entry.
proof fn lemma_value_after_push(s: Seq<(Seq<char>, JsonView)>, e: (Seq<char>, JsonView), k: Seq<char>)
    ensures
        value_at(s.push(e), k) == if value_at(s, k) is Some {
            value_at(s, k)
        } else if e.0 == k {
            Some(e.1)
        } else {
            None
        },
{
    let t = s.push(e);
    lemma_key_at_props(s, k);
    let i = key_at(s, k);
    assert forall|j: int| 0 <= j < i implies (#[trigger] t[j]).0 != k by {
        assert(t[j] == s[j]);
    }
    if i < s.len() {
        assert(t[i] == s[i]);
        lemma_key_at(t, k, i);
    } else if e.0 == k {
        lemma_key_at(t, k, i);
    } else {
        assert forall|j: int| 0 <= j < t.len() implies (#[trigger] t[j]).0 != k by {
            if j < s.len() {
                assert(s[j].0 != k);
            }
        }
        lemma_key_at(t, k, t.len() as int);
    }
}

/// The entries of options without their texts.
spec fn plain_entries(e: Seq<(Seq<char>, JsonView, Seq<char>)>) -> Seq<(Seq<char>, JsonView)> {
    Seq::new(e.len(), |i: int| (e[i].0, e[i].1))
}

proof fn lemma_chosen_value(f: Seq<Field>, keys: Seq<Seq<char>>, k: Seq<char>)
    ensures
        value_at(plain_entries(chosen_entries(f, keys)), k) == if keys.contains(k) {
            value_at(field_views(f), k)
        } else {
            None
        },
    decreases keys.len(),
{
    if keys.len() > 0 {
        let front = keys.drop_last();
        let last = keys.last();
        lemma_chosen_value(f, front, k);
        lemma_key_at_props(field_views(f), last);
        let rest = chosen_entries(f, front);
        assert(keys.contains(k) <==> front.contains(k) || k == last) by {
            if keys.contains(k) {
                let j = choose|j: int| 0 <= j < keys.len() && keys[j] == k;
                if j < front.len() {
                    assert(front[j] == k);
                }
            }
            if front.contains(k) {
                let j = choose|j: int| 0 <= j < front.len() && front[j] == k;
                assert(keys[j] == k);
            }
            assert(keys[keys.len() - 1] == last);
        }
        match entry_of(f, last) {
            Some(e) => {
                let i = key_at(field_views(f), last);
                assert(field_views(f)[i] == (e.key@, e.value@));
                assert(plain_entries(rest.push(entry_said(e))) =~= plain_entries(rest).push(
                    (e.key@, e.value@),
                ));
                lemma_value_after_push(plain_entries(rest), (e.key@, e.value@), k);
            },
            None => {},
        }
    } else {
        assert(plain_entries(chosen_entries(f, keys)) =~= Seq::empty());
        assert(!keys.contains(k));
    }
}

proof fn lemma_other_value(f: Seq<Field>, keys: Seq<Seq<char>>, k: Seq<char>)
    ensures
        value_at(plain_entries(other_entries(f, keys)), k) == if keys.contains(k) {
            None
        } else {
            value_at(field_views(f), k)
        },
    decreases f.len(),
{
    if f.len() > 0 {
        let front = f.drop_last();
        let e = f.last();
        lemma_other_value(front, keys, k);
        let rest = other_entries(front, keys);
        assert(field_views(f) =~= field_views(front).push((e.key@, e.value@)));
        lemma_value_after_push(field_views(front), (e.key@, e.value@), k);
        if !keys.contains(e.key@) {
            assert(plain_entries(rest.push(entry_said(e))) =~= plain_entries(rest).push(
                (e.key@, e.value@),
            ));
            lemma_value_after_push(plain_entries(rest), (e.key@, e.value@), k);
        }
    } else {
        assert(plain_entries(other_entries(f, keys)) =~= Seq::empty());
        assert(field_views(f) =~= Seq::empty());
    }
}

proof fn lemma_fields_of(params: Json)
    ensures
        params@.fields() == field_views(params.entries()),
{
    match params {
        Json::Obj(f) => {
            assert(params@.fields() =~= field_views(f@));
        },
        _ => {
            assert(field_views(params.entries()) =~= Seq::empty());
        },
    }
}

proof fn lemma_method_names()
    ensures
        "task.add"@ != "task.changeOption"@,
        "task.tell"@ != "task.changeOption"@,
        "task.list"@ != "task.changeOption"@,
        "task.addTrackers"@ != "task.changeOption"@,
        native_task_op("task.changeOption"@) is None,
        native_task_call("engine.changeOptions"@, Json::Null) is None,
        native_tracker_call("engine.changeOptions"@, Json::Null) is None,
        native_engine_op("engine.changeOptions"@) is None,
{
    reveal_strlit("task.add");
    reveal_strlit("task.tell");
    reveal_strlit("task.list");
    reveal_strlit("task.pause");
    reveal_strlit("task.resume");
    reveal_strlit("task.remove");
    reveal_strlit("task.removeResult");
    reveal_strlit("task.getFiles");
    reveal_strlit("task.getUris");
    reveal_strlit("task.getPeers");
    reveal_strlit("task.getTrackers");
    reveal_strlit("task.getOption");
    reveal_strlit("task.addTrackers");
    reveal_strlit("task.changeOption");
    reveal_strlit("task.purgeResults");
    reveal_strlit("engine.saveSession");
    reveal_strlit("engine.globalStat");
    reveal_strlit("engine.getOptions");
    reveal_strlit("engine.getTrackers");
    reveal_strlit("engine.getSubscriptions");
    reveal_strlit("engine.refreshAllSubscriptions");
    reveal_strlit("engine.getAutoUpdateTrackers");
    reveal_strlit("engine.shutdown");
    reveal_strlit("engine.forceShutdown");
    reveal_strlit("engine.removeSubscription");
    reveal_strlit("engine.toggleSubscription");
    reveal_strlit("engine.refreshSubscription");
    reveal_strlit("engine.addTracker");
    reveal_strlit("engine.removeTracker");
    reveal_strlit("engine.addSubscription");
    reveal_strlit("engine.setAutoUpdateTrackers");
    reveal_strlit("engine.changeOptions");
    let c = "task.changeOption"@;
    let e = "engine.changeOptions"@;
    assert(c.len() == 17 && c[5] == 'c');
    assert("task.removeResult"@[5] == 'r');
    assert(e.len() == 20 && e[7] == 'c');
    assert("engine.forceShutdown"@[7] == 'f');
    assert("engine.removeTracker"@[7] == 'r');
}

/// A request for a new task hands on the directory, the name of the file and, for
/// addresses, the checksum as it names them, and nothing else as an option.
pub proof fn law_new_task_takes_its_own_options(params: Json, k: Seq<char>)
    requires
        add_call(params) is Ok,
    ensures
        ({
            let c = add_call(params)->Ok_0;
            &&& c is Add
            &&& k == "dir"@ || k == "out"@ ==> c->Add_options.value.get(k) == params@.get(k)
            &&& k == "checksum"@ && c->Add_source is Uris ==> c->Add_options.value.get(k) == params@.get(k)
            &&& k != "dir"@ && k != "out"@ && k != "checksum"@ ==> c->Add_options.value.get(k) is None
            &&& c->Add_position == params@.at("position"@).signed()
        }),
{
    let f = params.entries();
    lemma_fields_of(params);
    let two = seq!["dir"@, "out"@];
    let three = seq!["dir"@, "out"@, "checksum"@];
    lemma_chosen_value(f, two, k);
    lemma_chosen_value(f, three, k);
    assert(options_of(chosen_entries(f, two)).value.fields() =~= plain_entries(chosen_entries(f, two)));
    assert(options_of(chosen_entries(f, three)).value.fields() =~= plain_entries(
        chosen_entries(f, three),
    ));
    assert(two[0] == "dir"@ && two[1] == "out"@);
    assert(three[0] == "dir"@ && three[1] == "out"@ && three[2] == "checksum"@);
}

/// A change of a task's options hands on all parameters but the task's name and the
/// secret.
pub proof fn law_changed_options_are_handed_on(
    params: Json,
    name: Seq<char>,
    version: Seq<char>,
    k: Seq<char>,
)
    requires
        named_gid(params) is Ok,
    ensures
        ({
            let c = native_call("task.changeOption"@, params, name, version);
            &&& c is Ok && c->Ok_0 is ChangeOption
            &&& k == "gid"@ || k == "token"@ ==> c->Ok_0->ChangeOption_options.value.get(k) is None
            &&& k != "gid"@ && k != "token"@ ==> c->Ok_0->ChangeOption_options.value.get(k) == params@.get(k)
            &&& Ok::<Seq<char>, Seq<char>>(c->Ok_0->ChangeOption_gid) == named_gid(params)
        }),
{
    let f = params.entries();
    let keys = seq!["gid"@, "token"@];
    lemma_method_names();
    lemma_fields_of(params);
    lemma_other_value(f, keys, k);
    assert(options_of(other_entries(f, keys)).value.fields() =~= plain_entries(other_entries(f, keys)));
    assert(keys[0] == "gid"@ && keys[1] == "token"@);
}

/// A change of the engine's settings hands on all parameters but the secret.
pub proof fn law_changed_settings_are_handed_on(
    params: Json,
    name: Seq<char>,
    version: Seq<char>,
    k: Seq<char>,
)
    ensures
        ({
            let c = native_call("engine.changeOptions"@, params, name, version);
            &&& c is Ok && c->Ok_0 is ChangeGlobal
            &&& k == "token"@ ==> c->Ok_0->ChangeGlobal_options.value.get(k) is None
            &&& k != "token"@ ==> c->Ok_0->ChangeGlobal_options.value.get(k) == params@.get(k)
        }),
{
    let f = params.entries();
    let keys = seq!["token"@];
    lemma_method_names();
    lemma_fields_of(params);
    lemma_other_value(f, keys, k);
    assert(options_of(other_entries(f, keys)).value.fields() =~= plain_entries(other_entries(f, keys)));
    assert(keys[0] == "token"@);
    assert(native_task_call("engine.changeOptions"@, Json::Null) is None);
}

} // verus!
