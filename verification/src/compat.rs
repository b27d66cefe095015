//! The protocol of existing front ends: positional parameters, numbers as text, and a
//! token in front of the parameters.

use vstd::prelude::*;

use crate::json::{
    copy_json, entry_of, full_fields, fulls, json_views, lemma_full_arr, lemma_full_obj,
    lemma_full_says, text_array, text_list_view, Json, JsonView, ObjectBuilder,
};
use crate::manager::{has_task, task_at, Event, TaskManager};
use crate::manifest::string_texts;
use crate::rpc::{
    blank_options, copy_options, gid_or, keys_view, no_options, one_field, options_view, read_gid, Call,
    CallView, EngineOp, Listing, ListingView, OptionsView, Source, SourceView, TaskOp, RPC_ERROR_CODE,
};
use crate::text::{
    chars_of, dec_string, decimal, has_prefix, joined, same_str, starts_with, string_of, strip_prefix,
};

verus! {

/// Why a request failed.
#[derive(Debug)]
pub enum CompatError {
    Unauthorized,
    MethodNotFound,
    Method(String),
}

pub enum CompatErrorView {
    Unauthorized,
    MethodNotFound,
    Method(Seq<char>),
}

impl CompatError {
    pub open spec fn view(&self) -> CompatErrorView {
        match self {
            CompatError::Unauthorized => CompatErrorView::Unauthorized,
            CompatError::MethodNotFound => CompatErrorView::MethodNotFound,
            CompatError::Method(m) => CompatErrorView::Method(m@),
        }
    }

    /// What is said of the failure.
    pub open spec fn words(&self) -> Seq<char> {
        match self {
            CompatError::Unauthorized => "Unauthorized"@,
            CompatError::MethodNotFound => "Method not found"@,
            CompatError::Method(m) => m@,
        }
    }

    /// What is said of the failure.
    pub fn message(&self) -> (r: String)
        ensures
            r@ == self.words(),
    {
        match self {
            CompatError::Unauthorized => "Unauthorized".to_owned(),
            CompatError::MethodNotFound => "Method not found".to_owned(),
            CompatError::Method(m) => m.clone(),
        }
    }
}

/// The front end's side of an engine.
pub struct CompatDispatcher {
    /// What requests have to prove to know, if anything.
    pub secret: Option<String>,
    /// Name and version of the engine.
    pub name: String,
    pub version: String,
}

// ---------------------------------------------------------------------------
// Names of methods
// ---------------------------------------------------------------------------

/// A method's name without the name space that front ends put in front.
pub open spec fn bare_method(method: Seq<char>) -> Seq<char> {
    if has_prefix(method, "aria2."@) {
        method.skip("aria2."@.len() as int)
    } else {
        method
    }
}

/// What a method does with one task.
pub open spec fn compat_task_op(m: Seq<char>) -> Option<TaskOp> {
    if m == "getPeers"@ {
        Some(TaskOp::Peers)
    } else if m == "remove"@ || m == "forceRemove"@ {
        Some(TaskOp::Remove)
    } else if m == "pause"@ || m == "forcePause"@ {
        Some(TaskOp::Pause)
    } else if m == "unpause"@ {
        Some(TaskOp::Resume)
    } else if m == "getFiles"@ {
        Some(TaskOp::Files)
    } else if m == "getURIs"@ {
        Some(TaskOp::Uris)
    } else if m == "getOption"@ {
        Some(TaskOp::Options)
    } else if m == "removeDownloadResult"@ {
        Some(TaskOp::RemoveResult)
    } else {
        None
    }
}

/// What a method does with the engine.
pub open spec fn compat_engine_op(m: Seq<char>) -> Option<EngineOp> {
    if m == "getGlobalStat"@ {
        Some(EngineOp::Stat)
    } else if m == "getGlobalOption"@ {
        Some(EngineOp::Options)
    } else if m == "purgeDownloadResult"@ {
        Some(EngineOp::Purge)
    } else if m == "saveSession"@ {
        Some(EngineOp::Save)
    } else if m == "shutdown"@ || m == "forceShutdown"@ {
        Some(EngineOp::Shutdown)
    } else {
        None
    }
}

fn read_task_op(m: &str) -> (r: Option<TaskOp>)
    ensures
        r == compat_task_op(m@),
{
    if same_str(m, "getPeers") {
        Some(TaskOp::Peers)
    } else if same_str(m, "remove") || same_str(m, "forceRemove") {
        Some(TaskOp::Remove)
    } else if same_str(m, "pause") || same_str(m, "forcePause") {
        Some(TaskOp::Pause)
    } else if same_str(m, "unpause") {
        Some(TaskOp::Resume)
    } else if same_str(m, "getFiles") {
        Some(TaskOp::Files)
    } else if same_str(m, "getURIs") {
        Some(TaskOp::Uris)
    } else if same_str(m, "getOption") {
        Some(TaskOp::Options)
    } else if same_str(m, "removeDownloadResult") {
        Some(TaskOp::RemoveResult)
    } else {
        None
    }
}

fn read_engine_op(m: &str) -> (r: Option<EngineOp>)
    ensures
        r == compat_engine_op(m@),
{
    if same_str(m, "getGlobalStat") {
        Some(EngineOp::Stat)
    } else if same_str(m, "getGlobalOption") {
        Some(EngineOp::Options)
    } else if same_str(m, "purgeDownloadResult") {
        Some(EngineOp::Purge)
    } else if same_str(m, "saveSession") {
        Some(EngineOp::Save)
    } else if same_str(m, "shutdown") || same_str(m, "forceShutdown") {
        Some(EngineOp::Shutdown)
    } else {
        None
    }
}

/// The methods that name a task or the engine, without their name space.
pub open spec fn method_names() -> Seq<Seq<char>> {
    seq![
        "addUri"@,
        "addTorrent"@,
        "getPeers"@,
        "remove"@,
        "forceRemove"@,
        "pause"@,
        "forcePause"@,
        "unpause"@,
        "tellStatus"@,
        "tellActive"@,
        "tellWaiting"@,
        "tellStopped"@,
        "getGlobalStat"@,
        "getVersion"@,
        "getFiles"@,
        "getURIs"@,
        "getOption"@,
        "changeOption"@,
        "getGlobalOption"@,
        "changeGlobalOption"@,
        "purgeDownloadResult"@,
        "removeDownloadResult"@,
        "saveSession"@,
        "shutdown"@,
        "forceShutdown"@,
    ]
}

/// The methods about the protocol itself.
pub open spec fn system_names() -> Seq<Seq<char>> {
    seq!["system.multicall"@, "system.listMethods"@, "system.listNotifications"@]
}

/// The notifications, without their name space.
pub open spec fn notification_names() -> Seq<Seq<char>> {
    seq![
        "onDownloadStart"@,
        "onDownloadPause"@,
        "onDownloadStop"@,
        "onDownloadComplete"@,
        "onDownloadError"@,
        "onBtDownloadComplete"@,
    ]
}

/// Names with the name space of front ends in front.
pub open spec fn spaced(names: Seq<Seq<char>>) -> Seq<Seq<char>> {
    Seq::new(names.len(), |i: int| "aria2."@ + names[i])
}

/// Everything that the protocol offers.
pub open spec fn offered() -> Seq<Seq<char>> {
    spaced(method_names()) + system_names() + spaced(notification_names())
}

fn push_spaced(v: &mut Vec<String>, name: &str)
    ensures
        string_texts(final(v)@) == string_texts(old(v)@).push("aria2."@ + name@),
{
    let ghost before = v@;
    v.push(joined("aria2.", name));
    assert(string_texts(v@) =~= string_texts(before).push("aria2."@ + name@));
}

fn push_name(v: &mut Vec<String>, name: &str)
    ensures
        string_texts(final(v)@) == string_texts(old(v)@).push(name@),
{
    let ghost before = v@;
    v.push(name.to_owned());
    assert(string_texts(v@) =~= string_texts(before).push(name@));
}

/// The notifications that the protocol offers.
pub fn notifications() -> (r: Vec<String>)
    ensures
        string_texts(r@) == spaced(notification_names()),
{
    let mut v: Vec<String> = Vec::new();
    push_spaced(&mut v, "onDownloadStart");
    push_spaced(&mut v, "onDownloadPause");
    push_spaced(&mut v, "onDownloadStop");
    push_spaced(&mut v, "onDownloadComplete");
    push_spaced(&mut v, "onDownloadError");
    push_spaced(&mut v, "onBtDownloadComplete");
    assert(string_texts(v@) =~= spaced(notification_names()));
    v
}

/// Everything that the protocol offers.
pub fn supported_methods() -> (r: Vec<String>)
    ensures
        string_texts(r@) == offered(),
{
    let mut v: Vec<String> = Vec::new();
    push_spaced(&mut v, "addUri");
    push_spaced(&mut v, "addTorrent");
    push_spaced(&mut v, "getPeers");
    push_spaced(&mut v, "remove");
    push_spaced(&mut v, "forceRemove");
    push_spaced(&mut v, "pause");
    push_spaced(&mut v, "forcePause");
    push_spaced(&mut v, "unpause");
    push_spaced(&mut v, "tellStatus");
    push_spaced(&mut v, "tellActive");
    push_spaced(&mut v, "tellWaiting");
    push_spaced(&mut v, "tellStopped");
    push_spaced(&mut v, "getGlobalStat");
    push_spaced(&mut v, "getVersion");
    push_spaced(&mut v, "getFiles");
    push_spaced(&mut v, "getURIs");
    push_spaced(&mut v, "getOption");
    push_spaced(&mut v, "changeOption");
    push_spaced(&mut v, "getGlobalOption");
    push_spaced(&mut v, "changeGlobalOption");
    push_spaced(&mut v, "purgeDownloadResult");
    push_spaced(&mut v, "removeDownloadResult");
    push_spaced(&mut v, "saveSession");
    push_spaced(&mut v, "shutdown");
    push_spaced(&mut v, "forceShutdown");
    assert(string_texts(v@) =~= spaced(method_names()));
    push_name(&mut v, "system.multicall");
    push_name(&mut v, "system.listMethods");
    push_name(&mut v, "system.listNotifications");
    assert(string_texts(v@) =~= spaced(method_names()) + system_names());
    let n = notifications();
    let ghost before = v@;
    let mut i: usize = 0;
    while i < n.len()
        invariant
            i <= n@.len(),
            v@.len() == before.len() + i,
            forall|k: int| 0 <= k < before.len() ==> #[trigger] v@[k] == before[k],
            forall|k: int| 0 <= k < i ==> (#[trigger] v@[before.len() + k])@ == n@[k]@,
        decreases n@.len() - i,
    {
        v.push(n[i].clone());
        i = i + 1;
    }
    proof {
        let a = string_texts(before);
        let b = string_texts(n@);
        assert forall|k: int| 0 <= k < v@.len() implies string_texts(v@)[k] == (a + b)[k] by {
            if k >= before.len() {
                assert(v@[before.len() + (k - before.len())]@ == n@[k - before.len()]@);
            }
        }
        assert(string_texts(v@) =~= a + b);
        assert(a + b =~= offered());
    }
    v
}

// ---------------------------------------------------------------------------
// Parameters
// ---------------------------------------------------------------------------

/// The text of a parameter.
pub open spec fn text_at(p: Seq<Json>, i: int) -> Option<Seq<char>> {
    if 0 <= i < p.len() { p[i]@.text() } else { None }
}

/// The whole number of a parameter.
pub open spec fn number_at(p: Seq<Json>, i: int) -> Option<i64> {
    if 0 <= i < p.len() { p[i]@.signed() } else { None }
}

/// The texts of a parameter that is an array.
pub open spec fn texts_at(p: Seq<Json>, i: int) -> Option<Seq<Seq<char>>> {
    text_array(if 0 <= i < p.len() { Some(p[i]@) } else { None })
}

/// The options of a parameter, none if it is missing.
pub open spec fn options_at(p: Seq<Json>, i: int) -> OptionsView {
    if 0 <= i < p.len() { options_view(p[i]) } else { no_options() }
}

/// What is said of a task that is not named.
pub open spec fn gid_missing(i: nat) -> Seq<char> {
    "参数 "@ + decimal(i) + "（gid）缺失"@
}

/// The task that a parameter names.
pub open spec fn gid_param(p: Seq<Json>, i: int) -> Result<Seq<char>, CompatErrorView> {
    match gid_or(text_at(p, i), gid_missing(i as nat)) {
        Ok(g) => Ok(g),
        Err(m) => Err(CompatErrorView::Method(m)),
    }
}

fn param_text<'a>(p: &'a Vec<Json>, i: usize) -> (r: Option<&'a String>)
    ensures
        match r {
            Some(s) => text_at(p@, i as int) == Some(s@),
            None => text_at(p@, i as int) is None,
        },
{
    if i < p.len() {
        p[i].as_str()
    } else {
        None
    }
}

fn param_number(p: &Vec<Json>, i: usize, default: i64) -> (r: i64)
    ensures
        r == match number_at(p@, i as int) {
            Some(n) => n,
            None => default,
        },
{
    if i < p.len() {
        match p[i].as_i64() {
            Some(n) => n,
            None => default,
        }
    } else {
        default
    }
}

fn param_position(p: &Vec<Json>, i: usize) -> (r: Option<i64>)
    ensures
        r == number_at(p@, i as int),
{
    if i < p.len() {
        p[i].as_i64()
    } else {
        None
    }
}

fn param_texts(p: &Vec<Json>, i: usize) -> (r: Option<Vec<String>>)
    ensures
        keys_view(r) == texts_at(p@, i as int),
{
    if i < p.len() {
        match p[i].as_array() {
            Some(a) => Some(crate::json::collect_texts(a)),
            None => None,
        }
    } else {
        None
    }
}

fn param_options(p: &Vec<Json>, i: usize) -> (r: Json)
    ensures
        options_view(r) == options_at(p@, i as int),
{
    if i < p.len() {
        copy_options(&p[i])
    } else {
        blank_options()
    }
}

fn param_gid(p: &Vec<Json>, i: usize) -> (r: Result<String, CompatError>)
    ensures
        match r {
            Ok(g) => gid_param(p@, i as int) == Ok::<Seq<char>, CompatErrorView>(g@),
            Err(e) => gid_param(p@, i as int) == Err::<Seq<char>, CompatErrorView>(e@),
        },
{
    let head = joined("参数 ", dec_string(i as u64).as_str());
    let missing = joined(head.as_str(), "（gid）缺失");
    match read_gid(param_text(p, i), missing.as_str()) {
        Ok(g) => Ok(g),
        Err(m) => Err(CompatError::Method(m)),
    }
}

/// The parameters behind the token; none if the token is wrong.
pub open spec fn admitted(
    secret: Option<Seq<char>>,
    m: Seq<char>,
    params: Seq<Json>,
) -> Option<Seq<Json>> {
    if has_prefix(m, "system."@) {
        Some(params)
    } else {
        match secret {
            Some(want) => if text_at(params, 0) == Some("token:"@ + want) {
                Some(params.skip(1))
            } else {
                None
            },
            None => Some(params),
        }
    }
}

// ---------------------------------------------------------------------------
// Dispatch
// ---------------------------------------------------------------------------

/// A failed request.
pub open spec fn refused(m: Seq<char>) -> Result<CallView, CompatErrorView> {
    Err(CompatErrorView::Method(m))
}

/// What a method asks for, once the request is let in.
pub open spec fn compat_call(
    m: Seq<char>,
    p: Seq<Json>,
    name: Seq<char>,
    version: Seq<char>,
) -> Result<CallView, CompatErrorView> {
    if m == "getVersion"@ {
        Ok(CallView::Answer(version_view(name, version)))
    } else if m == "addUri"@ {
        match texts_at(p, 0) {
            Some(uris) => Ok(
                CallView::Add {
                    source: SourceView::Uris(uris),
                    options: options_at(p, 1),
                    position: number_at(p, 2),
                },
            ),
            None => refused("参数 0（uris 数组）缺失"@),
        }
    } else if m == "addTorrent"@ {
        match text_at(p, 0) {
            Some(text) => Ok(
                CallView::Add {
                    source: SourceView::Torrent(text),
                    options: options_at(p, 1),
                    position: number_at(p, 2),
                },
            ),
            None => refused("参数 0（torrent base64）缺失"@),
        }
    } else if compat_task_op(m) is Some {
        match gid_param(p, 0) {
            Ok(gid) => Ok(CallView::Task { op: compat_task_op(m)->0, gid }),
            Err(e) => Err(e),
        }
    } else if m == "tellStatus"@ {
        match gid_param(p, 0) {
            Ok(gid) => Ok(CallView::Tell { gid, keys: texts_at(p, 1) }),
            Err(e) => Err(e),
        }
    } else if m == "tellActive"@ {
        Ok(
            CallView::List {
                listing: ListingView::Active,
                offset: 0,
                num: -1i64,
                keys: texts_at(p, 0),
            },
        )
    } else if m == "tellWaiting"@ || m == "tellStopped"@ {
        Ok(
            CallView::List {
                listing: if m == "tellWaiting"@ {
                    ListingView::Waiting
                } else {
                    ListingView::Stopped
                },
                offset: match number_at(p, 0) {
                    Some(n) => n,
                    None => 0,
                },
                num: match number_at(p, 1) {
                    Some(n) => n,
                    None => -1i64,
                },
                keys: texts_at(p, 2),
            },
        )
    } else if m == "changeOption"@ {
        match gid_param(p, 0) {
            Ok(gid) => Ok(CallView::ChangeOption { gid, options: options_at(p, 1) }),
            Err(e) => Err(e),
        }
    } else if m == "changeGlobalOption"@ {
        Ok(CallView::ChangeGlobal { options: options_at(p, 0) })
    } else if compat_engine_op(m) is Some {
        Ok(CallView::Engine(compat_engine_op(m)->0))
    } else if m == "system.multicall"@ {
        if p.len() > 0 && p[0].full() is Arr {
            Ok(CallView::Multicall(p[0].full()->Arr_0))
        } else {
            refused("参数 0（calls 数组）缺失"@)
        }
    } else if m == "system.listMethods"@ {
        Ok(CallView::Answer(text_list_view(offered())))
    } else if m == "system.listNotifications"@ {
        Ok(CallView::Answer(text_list_view(spaced(notification_names()))))
    } else {
        Err(CompatErrorView::MethodNotFound)
    }
}

/// What a request asks for.
pub open spec fn compat_request(
    d: CompatDispatcher,
    method: Seq<char>,
    params: Seq<Json>,
) -> Result<CallView, CompatErrorView> {
    let m = bare_method(method);
    match admitted(crate::config::opt_view(d.secret), m, params) {
        Some(p) => compat_call(m, p, d.name@, d.version@),
        None => Err(CompatErrorView::Unauthorized),
    }
}

/// Whether a request was read as it is meant.
pub open spec fn reads_as(
    r: Result<Call, CompatError>,
    v: Result<CallView, CompatErrorView>,
) -> bool {
    match r {
        Ok(c) => v == Ok::<CallView, CompatErrorView>(c@),
        Err(e) => v == Err::<CallView, CompatErrorView>(e@),
    }
}

/// What the engine says of itself.
pub open spec fn version_view(name: Seq<char>, version: Seq<char>) -> JsonView {
    JsonView::Obj(
        seq![
            ("version"@, JsonView::Str(version)),
            ("enabledFeatures"@, text_list_view(seq![name + " (Rust)"@])),
        ],
    )
}

fn version_json(name: &str, version: &str) -> (r: Json)
    ensures
        r@ == version_view(name@, version@),
{
    let mut features: Vec<String> = Vec::new();
    features.push(joined(name, " (Rust)"));
    assert(string_texts(features@) =~= seq![name@ + " (Rust)"@]);
    let mut b = ObjectBuilder::new();
    b.put("version", Json::text(version));
    b.put("enabledFeatures", Json::text_list(&features));
    assert(b@ =~= version_view(name@, version@)->Obj_0);
    b.done()
}

fn copy_values(v: &Vec<Json>, from: usize) -> (r: Vec<Json>)
    requires
        from <= v@.len(),
    ensures
        r@.len() == v@.len() - from,
        forall|i: int| 0 <= i < r@.len() ==> (#[trigger] r@[i]).full() == v@[from + i].full(),
{
    let mut out: Vec<Json> = Vec::new();
    let mut i: usize = from;
    while i < v.len()
        invariant
            from <= i <= v@.len(),
            out@.len() == i - from,
            forall|k: int| 0 <= k < out@.len() ==> (#[trigger] out@[k]).full() == v@[from + k].full(),
        decreases v@.len() - i,
    {
        out.push(copy_json(&v[i]));
        i = i + 1;
    }
    out
}

/// A request means the same if its parameters say the same.
pub proof fn law_same_parameters_mean_the_same(
    m: Seq<char>,
    a: Seq<Json>,
    b: Seq<Json>,
    name: Seq<char>,
    version: Seq<char>,
)
    requires
        same_params(a, b),
    ensures
        compat_call(m, a, name, version) == compat_call(m, b, name, version),
{
    assert forall|i: int| 0 <= i < a.len() implies (#[trigger] a[i])@ == b[i]@ && options_view(a[i])
        == options_view(b[i]) by {
        lemma_full_says(a[i], b[i]);
    }
    assert(text_at(a, 0) == text_at(b, 0));
    assert(number_at(a, 0) == number_at(b, 0));
    assert(number_at(a, 1) == number_at(b, 1));
    assert(number_at(a, 2) == number_at(b, 2));
    assert(texts_at(a, 0) == texts_at(b, 0));
    assert(texts_at(a, 1) == texts_at(b, 1));
    assert(texts_at(a, 2) == texts_at(b, 2));
    assert(options_at(a, 0) == options_at(b, 0));
    assert(options_at(a, 1) == options_at(b, 1));
    assert(gid_param(a, 0) == gid_param(b, 0));
    if a.len() > 0 {
        assert(a[0].full() == b[0].full());
    }
}

fn read_call(m: &str, p: &Vec<Json>, name: &str, version: &str) -> (r: Result<Call, CompatError>)
    ensures
        reads_as(r, compat_call(m@, p@, name@, version@)),
{
    if same_str(m, "getVersion") {
        return Ok(Call::Answer(version_json(name, version)));
    }
    if same_str(m, "addUri") {
        return match param_texts(p, 0) {
            Some(uris) => Ok(
                Call::Add {
                    source: Source::Uris(uris),
                    options: param_options(p, 1),
                    position: param_position(p, 2),
                },
            ),
            None => Err(CompatError::Method("参数 0（uris 数组）缺失".to_owned())),
        };
    }
    if same_str(m, "addTorrent") {
        return match param_text(p, 0) {
            Some(text) => Ok(
                Call::Add {
                    source: Source::Torrent(text.clone()),
                    options: param_options(p, 1),
                    position: param_position(p, 2),
                },
            ),
            None => Err(CompatError::Method("参数 0（torrent base64）缺失".to_owned())),
        };
    }
    match read_task_op(m) {
        Some(op) => {
            return match param_gid(p, 0) {
                Ok(gid) => Ok(Call::Task { op, gid }),
                Err(e) => Err(e),
            };
        },
        None => {},
    }
    if same_str(m, "tellStatus") {
        return match param_gid(p, 0) {
            Ok(gid) => Ok(Call::Tell { gid, keys: param_texts(p, 1) }),
            Err(e) => Err(e),
        };
    }
    if same_str(m, "tellActive") {
        return Ok(
            Call::List {
                listing: Listing::Active,
                offset: 0,
                num: -1,
                keys: param_texts(p, 0),
            },
        );
    }
    let waiting = same_str(m, "tellWaiting");
    if waiting || same_str(m, "tellStopped") {
        return Ok(
            Call::List {
                listing: if waiting { Listing::Waiting } else { Listing::Stopped },
                offset: param_number(p, 0, 0),
                num: param_number(p, 1, -1),
                keys: param_texts(p, 2),
            },
        );
    }
    if same_str(m, "changeOption") {
        return match param_gid(p, 0) {
            Ok(gid) => Ok(Call::ChangeOption { gid, options: param_options(p, 1) }),
            Err(e) => Err(e),
        };
    }
    if same_str(m, "changeGlobalOption") {
        return Ok(Call::ChangeGlobal { options: param_options(p, 0) });
    }
    match read_engine_op(m) {
        Some(op) => {
            return Ok(Call::Engine(op));
        },
        None => {},
    }
    if same_str(m, "system.multicall") {
        if p.len() > 0 {
            match &p[0] {
                Json::Arr(calls) => {
                    let v = copy_values(calls, 0);
                    proof {
                        lemma_full_arr(*calls);
                        assert(fulls(v@) =~= fulls(calls@));
                    }
                    return Ok(Call::Multicall(v));
                },
                _ => {},
            }
        }
        return Err(CompatError::Method("参数 0（calls 数组）缺失".to_owned()));
    }
    if same_str(m, "system.listMethods") {
        let names = supported_methods();
        return Ok(Call::Answer(Json::text_list(&names)));
    }
    if same_str(m, "system.listNotifications") {
        let names = notifications();
        return Ok(Call::Answer(Json::text_list(&names)));
    }
    Err(CompatError::MethodNotFound)
}

impl CompatDispatcher {
    pub fn new(secret: Option<String>, name: String, version: String) -> (r: Self)
        ensures
            r == (CompatDispatcher { secret, name, version }),
    {
        CompatDispatcher { secret, name, version }
    }

    /// What a request asks for. With a secret the first parameter is `token:` and the
    /// secret; requests about the protocol itself need none.
    pub fn dispatch(&self, method: &str, params: &Vec<Json>) -> (r: Result<Call, CompatError>)
        ensures
            reads_as(r, compat_request(*self, method@, params@)),
    {
        let chars = chars_of(method);
        let m = match strip_prefix(&chars, "aria2.") {
            Some(rest) => string_of(&rest),
            None => method.to_owned(),
        };
        if starts_with(&chars_of(m.as_str()), "system.") {
            return read_call(m.as_str(), params, self.name.as_str(), self.version.as_str());
        }
        match &self.secret {
            Some(want) => {
                let token = joined("token:", want.as_str());
                let ok = match param_text(params, 0) {
                    Some(s) => same_str(s.as_str(), token.as_str()),
                    None => false,
                };
                if !ok {
                    return Err(CompatError::Unauthorized);
                }
                let rest = copy_values(params, 1);
                proof {
                    let s = params@.skip(1);
                    assert forall|i: int| 0 <= i < rest@.len() implies (#[trigger] rest@[i]).full()
                        == s[i].full() by {
                        assert(s[i] == params@[1 + i]);
                    }
                    law_same_parameters_mean_the_same(m@, rest@, s, self.name@, self.version@);
                }
                read_call(m.as_str(), &rest, self.name.as_str(), self.version.as_str())
            },
            None => read_call(m.as_str(), params, self.name.as_str(), self.version.as_str()),
        }
    }
}

/// A request without the right token is never let in, whatever it asks for.
pub proof fn law_token_is_needed(d: CompatDispatcher, method: Seq<char>, params: Seq<Json>)
    requires
        d.secret is Some,
        !has_prefix(bare_method(method), "system."@),
        text_at(params, 0) != Some("token:"@ + d.secret->0@),
    ensures
        compat_request(d, method, params) == Err::<CallView, CompatErrorView>(
            CompatErrorView::Unauthorized,
        ),
{
}

/// Every method that the protocol offers is known.
pub proof fn law_offered_methods_are_known(
    i: int,
    p: Seq<Json>,
    name: Seq<char>,
    version: Seq<char>,
)
    ensures
        0 <= i < method_names().len() ==> compat_call(method_names()[i], p, name, version)
            != Err::<CallView, CompatErrorView>(CompatErrorView::MethodNotFound),
        0 <= i < system_names().len() ==> compat_call(system_names()[i], p, name, version)
            != Err::<CallView, CompatErrorView>(CompatErrorView::MethodNotFound),
{
    if 0 <= i < method_names().len() {
        assert(i == 0 || i == 1 || i == 2 || i == 3 || i == 4 || i == 5 || i == 6 || i == 7 || i == 8 || i == 9 || i == 10 || i == 11 || i == 12 || i == 13 || i == 14 || i == 15 || i == 16 || i == 17 || i == 18 || i == 19 || i == 20 || i == 21 || i == 22 || i == 23 || i == 24);
    }
    if 0 <= i < system_names().len() {
        assert(i == 0 || i == 1 || i == 2);
    }
}

// ---------------------------------------------------------------------------
// Several requests in one
// ---------------------------------------------------------------------------

/// The parameters that one of several requests has, none if they are not an array.
pub open spec fn entry_params(call: Json) -> Seq<Json> {
    match entry_of(call.entries(), "params"@) {
        Some(f) => match f.value {
            Json::Arr(v) => v@,
            _ => Seq::empty(),
        },
        None => Seq::empty(),
    }
}

/// Whether parameters say the same.
pub open spec fn same_params(a: Seq<Json>, b: Seq<Json>) -> bool {
    &&& a.len() == b.len()
    &&& forall|i: int| 0 <= i < a.len() ==> (#[trigger] a[i]).full() == b[i].full()
}

/// The method and the parameters of one of several requests; nothing if it is malformed.
pub fn parse_multicall_entry(call: &Json) -> (r: Option<(String, Vec<Json>)>)
    ensures
        match r {
            Some((name, params)) => call@.at("methodName"@).text() == Some(name@) && same_params(
                params@,
                entry_params(*call),
            ),
            None => call@.at("methodName"@).text() is None,
        },
{
    let name = match call.text_of("methodName") {
        Some(n) => n.clone(),
        None => {
            return None;
        },
    };
    let params: Vec<Json> = match call.get("params") {
        Some(j) => match j {
            Json::Arr(a) => copy_values(a, 0),
            _ => Vec::new(),
        },
        None => Vec::new(),
    };
    Some((name, params))
}

/// What is said of several requests of which one is malformed.
pub fn bad_multicall() -> (r: CompatError)
    ensures
        r@ == CompatErrorView::Method("multicall 条目格式非法"@),
{
    CompatError::Method("multicall 条目格式非法".to_owned())
}

/// A code and what is said of a failure.
pub open spec fn failure_view(message: Seq<char>) -> JsonView {
    JsonView::Obj(
        seq![
            ("code"@, JsonView::Unsigned(RPC_ERROR_CODE as u64)),
            ("message"@, JsonView::Str(message)),
        ],
    )
}

/// A code and what is said of a failure.
pub fn failure_json(message: &str) -> (r: Json)
    ensures
        r@ == failure_view(message@),
{
    let mut b = ObjectBuilder::new();
    b.put("code", Json::Unsigned(1));
    b.put("message", Json::text(message));
    assert(b@ =~= failure_view(message@)->Obj_0);
    b.done()
}

/// The answer to one of several requests: the value in an array of its own, or the
/// failure.
pub fn multicall_result(result: Result<Json, CompatError>) -> (r: Json)
    ensures
        r@ == match result {
            Ok(v) => JsonView::Arr(seq![v@]),
            Err(e) => failure_view(e.words()),
        },
{
    match result {
        Ok(v) => {
            let mut a: Vec<Json> = Vec::new();
            a.push(v);
            assert(json_views(a@) =~= seq![v@]);
            Json::array(a)
        },
        Err(e) => failure_json(e.message().as_str()),
    }
}

/// Several requests that are carried out one after the other.
pub struct Multicall {
    pub calls: Vec<Json>,
    /// Answers so far, one to each request.
    pub answers: Vec<Json>,
}

/// What is to be done next with several requests.
pub enum MulticallStep {
    /// Carry out the request that was read, or note why it could not be read.
    Run(Result<Call, CompatError>),
    /// All is done, or a malformed request ended it.
    Finished(Result<Json, CompatError>),
}

/// The answer to one of several requests.
pub open spec fn answer_view(result: Result<Json, CompatError>) -> JsonView {
    match result {
        Ok(v) => JsonView::Arr(seq![v@]),
        Err(e) => failure_view(e.words()),
    }
}

impl Multicall {
    /// There are no more answers than requests.
    pub open spec fn wf(&self) -> bool {
        self.answers@.len() <= self.calls@.len()
    }

    /// Whether the next step is what the requests ask for: the first one without an
    /// answer is read; a malformed one ends all; after the last one all answers are given
    /// in order.
    pub open spec fn steps(&self, d: CompatDispatcher, r: MulticallStep) -> bool {
        let at = self.answers@.len() as int;
        if at < self.calls@.len() {
            let call = self.calls@[at];
            match call@.at("methodName"@).text() {
                Some(name) => match r {
                    MulticallStep::Run(c) => reads_as(c, compat_request(d, name, entry_params(call))),
                    MulticallStep::Finished(_) => false,
                },
                None => match r {
                    MulticallStep::Finished(Err(e)) => e@ == CompatErrorView::Method(
                        "multicall 条目格式非法"@,
                    ),
                    _ => false,
                },
            }
        } else {
            match r {
                MulticallStep::Finished(Ok(j)) => j@ == JsonView::Arr(json_views(self.answers@)),
                _ => false,
            }
        }
    }

    pub fn start(calls: Vec<Json>) -> (r: Self)
        ensures
            r.wf(),
            r.calls == calls,
            r.answers@.len() == 0,
    {
        Multicall { calls, answers: Vec::new() }
    }

    /// What is to be done next.
    pub fn step(&self, dispatcher: &CompatDispatcher) -> (r: MulticallStep)
        requires
            self.wf(),
        ensures
            self.steps(*dispatcher, r),
    {
        if self.answers.len() < self.calls.len() {
            let call = &self.calls[self.answers.len()];
            match parse_multicall_entry(call) {
                Some((name, params)) => {
                    proof {
                        lemma_same_request(*dispatcher, name@, params@, entry_params(*call));
                    }
                    MulticallStep::Run(dispatcher.dispatch(name.as_str(), &params))
                },
                None => MulticallStep::Finished(Err(bad_multicall())),
            }
        } else {
            let answers = copy_values(&self.answers, 0);
            proof {
                assert forall|i: int| 0 <= i < answers@.len() implies (#[trigger] answers@[i])@
                    == self.answers@[i]@ by {
                    lemma_full_says(answers@[i], self.answers@[i]);
                }
            }
            assert(json_views(answers@) =~= json_views(self.answers@));
            MulticallStep::Finished(Ok(Json::array(answers)))
        }
    }

    /// Takes in what came of the request that was to be done next.
    pub fn take(&mut self, result: Result<Json, CompatError>)
        requires
            old(self).answers@.len() < old(self).calls@.len(),
        ensures
            final(self).wf(),
            final(self).calls == old(self).calls,
            json_views(final(self).answers@) == json_views(old(self).answers@).push(
                answer_view(result),
            ),
    {
        let ghost before = self.answers@;
        let j = multicall_result(result);
        self.answers.push(j);
        assert(json_views(self.answers@) =~= json_views(before).push(j@));
        assert(json_views(self.answers@).len() == json_views(before).len() + 1);
    }
}

/// Parameters that say the same make the same request.
proof fn lemma_same_request(d: CompatDispatcher, method: Seq<char>, a: Seq<Json>, b: Seq<Json>)
    requires
        same_params(a, b),
    ensures
        compat_request(d, method, a) == compat_request(d, method, b),
{
    let m = bare_method(method);
    law_same_parameters_mean_the_same(m, a, b, d.name@, d.version@);
    if a.len() > 0 {
        lemma_full_says(a[0], b[0]);
        let (x, y) = (a.skip(1), b.skip(1));
        assert forall|i: int| 0 <= i < x.len() implies (#[trigger] x[i]).full() == y[i].full() by {
            assert(x[i] == a[i + 1] && y[i] == b[i + 1]);
        }
        law_same_parameters_mean_the_same(m, x, y, d.name@, d.version@);
    }
    assert(text_at(a, 0) == text_at(b, 0));
}

/// A request among several means the same if it says the same, whatever copy of it is
/// read.
pub proof fn law_copied_call_means_the_same(d: CompatDispatcher, a: Json, b: Json)
    requires
        a.full() == b.full(),
    ensures
        a@.at("methodName"@) == b@.at("methodName"@),
        forall|method: Seq<char>| #[trigger]
            compat_request(d, method, entry_params(a)) == compat_request(d, method, entry_params(b)),
{
    lemma_full_says(a, b);
    assert(same_params(entry_params(a), entry_params(b))) by {
        match (a, b) {
            (Json::Obj(v), Json::Obj(w)) => {
                lemma_full_obj(v);
                lemma_full_obj(w);
                crate::json::lemma_obj_view(v);
                crate::json::lemma_obj_view(w);
                assert(full_fields(v@).len() == v@.len() && full_fields(w@).len() == w@.len());
                match entry_of(v@, "params"@) {
                    Some(f) => {
                        let i = crate::lists::key_at(crate::json::field_views(v@), "params"@);
                        assert(full_fields(v@)[i] == full_fields(w@)[i]);
                        let (x, y) = (v@[i].value, w@[i].value);
                        match x {
                            Json::Arr(p) => {
                                lemma_full_arr(p);
                                match y {
                                    Json::Arr(q) => {
                                        lemma_full_arr(q);
                                        assert(fulls(p@).len() == p@.len() && fulls(q@).len() == q@.len());
                                        assert forall|k: int| 0 <= k < p@.len() implies (#[trigger] p@[k]).full()
                                            == q@[k].full() by {
                                            assert(fulls(p@)[k] == fulls(q@)[k]);
                                        }
                                    },
                                    _ => {},
                                }
                            },
                            _ => match y {
                                Json::Arr(q) => {
                                    lemma_full_arr(q);
                                },
                                _ => {},
                            },
                        }
                    },
                    None => {},
                }
            },
            (Json::Obj(v), _) => {
                lemma_full_obj(v);
            },
            (_, Json::Obj(w)) => {
                lemma_full_obj(w);
            },
            _ => {},
        }
    }
    assert forall|method: Seq<char>| #[trigger]
        compat_request(d, method, entry_params(a)) == compat_request(d, method, entry_params(b)) by {
        lemma_same_request(d, method, entry_params(a), entry_params(b));
    }
}

/// Several requests of which none is malformed get one answer each, in their order: when
/// the last one is answered, all that was taken in is given back.
pub proof fn law_every_call_is_answered(m: Multicall, d: CompatDispatcher, r: MulticallStep)
    requires
        m.wf(),
        m.steps(d, r),
        r is Finished,
        r->Finished_0 is Ok,
    ensures
        r->Finished_0->Ok_0@ == JsonView::Arr(json_views(m.answers@)),
        json_views(m.answers@).len() == m.calls@.len(),
{
    assert(json_views(m.answers@).len() == m.answers@.len());
}

// ---------------------------------------------------------------------------
// Notifications
// ---------------------------------------------------------------------------

/// The notification of an event.
pub open spec fn notification_of(e: Event, bt: bool) -> Option<Seq<char>> {
    match e {
        Event::Start => Some("onDownloadStart"@),
        Event::Pause => Some("onDownloadPause"@),
        Event::Stop => Some("onDownloadStop"@),
        Event::Complete => Some(if bt { "onBtDownloadComplete"@ } else { "onDownloadComplete"@ }),
        Event::Error => Some("onDownloadError"@),
        Event::Progress => None,
    }
}

/// A notification as it is sent.
pub open spec fn notification_view(name: Seq<char>, gid: Seq<char>) -> JsonView {
    JsonView::Obj(
        seq![
            ("jsonrpc"@, JsonView::Str("2.0"@)),
            ("method"@, JsonView::Str("aria2."@ + name)),
            ("params"@, JsonView::Arr(seq![JsonView::Obj(seq![("gid"@, JsonView::Str(gid))])])),
        ],
    )
}

/// Whether a task of the manager is a BitTorrent task.
pub open spec fn is_bt_gid(m: TaskManager, gid: Seq<char>) -> bool {
    has_task(m.tasks@, gid) && m.tasks@[task_at(m.tasks@, gid)].is_bt_spec()
}

impl CompatDispatcher {
    /// The notification of an event, if front ends are told of it.
    pub fn event_frame(&self, engine: &TaskManager, event: Event, gid: &str) -> (r: Option<Json>)
        ensures
            match r {
                Some(j) => notification_of(event, is_bt_gid(*engine, gid@)) is Some && j@
                    == notification_view(notification_of(event, is_bt_gid(*engine, gid@))->0, gid@),
                None => notification_of(event, is_bt_gid(*engine, gid@)) is None,
            },
    {
        let name: &str = match event {
            Event::Start => "onDownloadStart",
            Event::Pause => "onDownloadPause",
            Event::Stop => "onDownloadStop",
            Event::Complete => if engine.is_bt_task(gid) {
                "onBtDownloadComplete"
            } else {
                "onDownloadComplete"
            },
            Event::Error => "onDownloadError",
            Event::Progress => {
                return None;
            },
        };
        let mut a: Vec<Json> = Vec::new();
        a.push(one_field("gid", Json::text(gid)));
        assert(json_views(a@) =~= seq![JsonView::Obj(seq![("gid"@, JsonView::Str(gid@))])]);
        let mut b = ObjectBuilder::new();
        b.put("jsonrpc", Json::text("2.0"));
        b.put("method", Json::Str(joined("aria2.", name)));
        b.put("params", Json::array(a));
        assert(b@ =~= notification_view(name@, gid@)->Obj_0);
        Some(b.done())
    }
}

/// One of several requests is answered by a list with its result, or by a code and what
/// is said of its failure.
pub proof fn law_each_answer_has_its_form(result: Result<Json, CompatError>)
    ensures
        result is Ok ==> answer_view(result).array() is Some && answer_view(result).array()->0
            == seq![result->Ok_0@],
        result is Err ==> answer_view(result).array() is None && answer_view(result).at("code"@)
            == JsonView::Unsigned(1) && answer_view(result).at("message"@) == JsonView::Str(
            result->Err_0.words(),
        ),
        CompatError::Unauthorized.words() == "Unauthorized"@,
        CompatError::MethodNotFound.words() == "Method not found"@,
{
    if result is Err {
        let f = failure_view(result->Err_0.words())->Obj_0;
        reveal_strlit("code");
        reveal_strlit("message");
        assert("code"@.len() != "message"@.len());
        crate::session::lemma_field(f, 0);
        crate::session::lemma_field(f, 1);
    }
}

} // verus!
