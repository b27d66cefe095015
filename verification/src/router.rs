//! Frames: which protocol a request speaks, how it is answered, and what a connection is
//! told of events.

use vstd::prelude::*;

use crate::compat::{
    compat_request, failure_json, failure_view, notification_of, notification_view, reads_as,
    CompatDispatcher, CompatError,
};
use crate::json::{copy_json, json_views, Json, JsonView, ObjectBuilder};
use crate::lists::{lemma_key_at, unique_keys};
use crate::manager::{has_task, Event, TaskManager};
use crate::native::{event_params, event_view, is_native, native_request, NativeDispatcher};
use crate::rpc::{is_gid, Call, Proto};
use crate::session::lemma_field;
use crate::text::same_str;

verus! {

/// Reads requests of both protocols.
pub struct Router {
    pub native: NativeDispatcher,
    pub compat: CompatDispatcher,
}

/// A request as it was read.
pub enum Request {
    /// It names no method.
    Invalid { id: Option<Json> },
    /// It speaks the engine's own protocol. `subscribes` tells whether it asks for
    /// events.
    Native { id: Option<Json>, subscribes: bool, call: Result<Call, String> },
    /// It speaks the protocol of front ends.
    Compat { id: Option<Json>, wanted: Result<Call, CompatError> },
}

/// What came of a frame.
pub struct HandleOutcome {
    /// The answer; none to a frame that wants none.
    pub response: Option<Json>,
    /// The protocol that the frame spoke.
    pub proto_used: Proto,
    /// Whether the frame asked for events.
    pub native_subscribed: bool,
}

/// What an optional value says.
pub open spec fn opt_json(j: Option<Json>) -> Option<JsonView> {
    match j {
        Some(v) => Some(v@),
        None => None,
    }
}

// ---------------------------------------------------------------------------
// Answers
// ---------------------------------------------------------------------------

/// An answer as it is sent.
pub open spec fn frame_view(id: JsonView, result: Result<JsonView, Seq<char>>) -> JsonView {
    match result {
        Ok(v) => JsonView::Obj(
            seq![("jsonrpc"@, JsonView::Str("2.0"@)), ("id"@, id), ("result"@, v)],
        ),
        Err(m) => JsonView::Obj(
            seq![
                ("jsonrpc"@, JsonView::Str("2.0"@)),
                ("id"@, id),
                ("error"@, failure_view(m)),
            ],
        ),
    }
}

/// What a result says.
pub open spec fn result_view(r: Result<Json, String>) -> Result<JsonView, Seq<char>> {
    match r {
        Ok(v) => Ok(v@),
        Err(e) => Err(e@),
    }
}

/// An answer as it is sent.
pub fn frame(id: Json, result: Result<Json, String>) -> (r: Json)
    ensures
        r@ == frame_view(id@, result_view(result)),
{
    let ghost i = id@;
    let ghost v = result_view(result);
    let mut b = ObjectBuilder::new();
    b.put("jsonrpc", Json::text("2.0"));
    b.put("id", id);
    match result {
        Ok(j) => {
            b.put("result", j);
        },
        Err(e) => {
            b.put("error", failure_json(e.as_str()));
        },
    }
    assert(b@ =~= frame_view(i, v)->Obj_0);
    b.done()
}

/// The answer to a request; none to one without an identifier.
pub open spec fn response_view(id: Option<JsonView>, result: Result<JsonView, Seq<char>>) -> Option<
    JsonView,
> {
    match id {
        Some(i) => Some(frame_view(i, result)),
        None => None,
    }
}

/// The answer to a request; none to one without an identifier.
pub fn respond(id: Option<Json>, result: Result<Json, String>) -> (r: Option<Json>)
    ensures
        opt_json(r) == response_view(opt_json(id), result_view(result)),
{
    match id {
        Some(i) => Some(frame(i, result)),
        None => None,
    }
}

/// Whether an outcome answers a request with this identifier by this result.
pub open spec fn outcome_is(
    o: HandleOutcome,
    id: Option<JsonView>,
    result: Result<JsonView, Seq<char>>,
    proto: Proto,
    subscribed: bool,
) -> bool {
    &&& opt_json(o.response) == response_view(id, result)
    &&& o.proto_used == proto
    &&& o.native_subscribed == subscribed
}

/// What came of a frame that is not JSON.
pub fn parse_error() -> (r: HandleOutcome)
    ensures
        opt_json(r.response) == Some(
            frame_view(JsonView::Null, Err::<JsonView, Seq<char>>("Parse error"@)),
        ),
        r.proto_used is Unknown,
        !r.native_subscribed,
{
    HandleOutcome {
        response: Some(frame(Json::Null, Err("Parse error".to_owned()))),
        proto_used: Proto::Unknown,
        native_subscribed: false,
    }
}

/// What came of a request that names no method.
pub fn invalid_request(id: Option<Json>) -> (r: HandleOutcome)
    ensures
        outcome_is(
            r,
            opt_json(id),
            Err::<JsonView, Seq<char>>("Invalid request"@),
            Proto::Unknown,
            false,
        ),
{
    HandleOutcome {
        response: respond(id, Err("Invalid request".to_owned())),
        proto_used: Proto::Unknown,
        native_subscribed: false,
    }
}

/// What came of a request in the engine's own protocol.
pub fn native_outcome(id: Option<Json>, subscribes: bool, result: Result<Json, String>) -> (r: HandleOutcome)
    ensures
        outcome_is(
            r,
            opt_json(id),
            result_view(result),
            Proto::Native,
            subscribes && result is Ok,
        ),
{
    let native_subscribed = subscribes && result.is_ok();
    HandleOutcome { response: respond(id, result), proto_used: Proto::Native, native_subscribed }
}

/// What a result in the protocol of front ends says.
pub open spec fn compat_result_view(r: Result<Json, CompatError>) -> Result<JsonView, Seq<char>> {
    match r {
        Ok(v) => Ok(v@),
        Err(e) => Err(e.words()),
    }
}

/// What came of a request in the protocol of front ends.
pub fn compat_outcome(id: Option<Json>, result: Result<Json, CompatError>) -> (r: HandleOutcome)
    ensures
        outcome_is(r, opt_json(id), compat_result_view(result), Proto::Compat, false),
{
    let plain = match result {
        Ok(v) => Ok(v),
        Err(e) => Err(e.message()),
    };
    HandleOutcome {
        response: respond(id, plain),
        proto_used: Proto::Compat,
        native_subscribed: false,
    }
}

// ---------------------------------------------------------------------------
// Requests
// ---------------------------------------------------------------------------

/// The parameters of a request, null if there are none.
pub open spec fn params_of(req: Json) -> Json {
    match crate::json::entry_of(req.entries(), "params"@) {
        Some(f) => f.value,
        None => Json::Null,
    }
}

/// Positional parameters; none if they are not an array.
pub open spec fn positional(params: Json) -> Seq<Json> {
    match params {
        Json::Arr(v) => v@,
        _ => Seq::empty(),
    }
}

impl Router {
    pub fn new(native: NativeDispatcher, compat: CompatDispatcher) -> (r: Self)
        ensures
            r == (Router { native, compat }),
    {
        Router { native, compat }
    }

    /// Whether a request was read as it is meant: by its method it speaks one of the two
    /// protocols, and the dispatcher of that protocol says what it asks for.
    pub open spec fn reads(&self, req: Json, r: Request) -> bool {
        let id = req@.get("id"@);
        let params = params_of(req);
        match req@.at("method"@).text() {
            None => match r {
                Request::Invalid { id: i } => opt_json(i) == id,
                _ => false,
            },
            Some(m) => if is_native(m) {
                match r {
                    Request::Native { id: i, subscribes, call } => {
                        &&& opt_json(i) == id
                        &&& subscribes == (m == "events.subscribe"@)
                        &&& crate::native::reads_as(call, native_request(self.native, m, params))
                    },
                    _ => false,
                }
            } else {
                match r {
                    Request::Compat { id: i, wanted } => opt_json(i) == id && reads_as(
                        wanted,
                        compat_request(self.compat, m, positional(params)),
                    ),
                    _ => false,
                }
            },
        }
    }

    /// Reads a request.
    pub fn read(&self, req: &Json) -> (r: Request)
        ensures
            self.reads(*req, r),
    {
        let id = match req.get("id") {
            Some(j) => Some(copy_json(j)),
            None => None,
        };
        let method = match req.text_of("method") {
            Some(m) => m,
            None => {
                return Request::Invalid { id };
            },
        };
        let null = Json::Null;
        let params: &Json = match req.get("params") {
            Some(j) => j,
            None => &null,
        };
        if NativeDispatcher::owns(method.as_str()) {
            Request::Native {
                id,
                subscribes: same_str(method.as_str(), "events.subscribe"),
                call: self.native.dispatch(method.as_str(), params),
            }
        } else {
            let none: Vec<Json> = Vec::new();
            let list: &Vec<Json> = match params {
                Json::Arr(v) => v,
                _ => &none,
            };
            assert(list@ =~= positional(*params));
            Request::Compat { id, wanted: self.compat.dispatch(method.as_str(), list) }
        }
    }
}

// ---------------------------------------------------------------------------
// Several requests in one frame
// ---------------------------------------------------------------------------

/// What came of the requests of a frame so far.
pub struct Batch {
    pub responses: Vec<Json>,
    pub proto: Proto,
    pub subscribed: bool,
}

pub struct BatchView {
    pub responses: Seq<JsonView>,
    pub proto: Proto,
    pub subscribed: bool,
}

/// What came of a frame after one more of its requests.
pub open spec fn batch_step(b: BatchView, o: HandleOutcome) -> BatchView {
    BatchView {
        responses: match o.response {
            Some(r) => b.responses.push(r@),
            None => b.responses,
        },
        proto: if b.proto is Unknown { o.proto_used } else { b.proto },
        subscribed: b.subscribed || o.native_subscribed,
    }
}

impl Batch {
    pub open spec fn view(&self) -> BatchView {
        BatchView {
            responses: json_views(self.responses@),
            proto: self.proto,
            subscribed: self.subscribed,
        }
    }

    pub fn new() -> (r: Self)
        ensures
            r@ == (BatchView {
                responses: Seq::empty(),
                proto: Proto::Unknown,
                subscribed: false,
            }),
    {
        let b = Batch { responses: Vec::new(), proto: Proto::Unknown, subscribed: false };
        assert(b@.responses =~= Seq::<JsonView>::empty());
        b
    }

    /// Takes in what came of one more request. The first known protocol is that of the
    /// frame.
    pub fn add(&mut self, o: HandleOutcome)
        ensures
            final(self)@ == batch_step(old(self)@, o),
    {
        let ghost before = self.responses@;
        if self.proto == Proto::Unknown {
            self.proto = o.proto_used;
        }
        self.subscribed = self.subscribed || o.native_subscribed;
        match o.response {
            Some(r) => {
                self.responses.push(r);
                assert(json_views(self.responses@) =~= json_views(before).push(r@));
            },
            None => {},
        }
    }

    /// Whether an outcome is that of the whole frame: all answers in one array, if there
    /// are any.
    pub open spec fn sums_up(&self, o: HandleOutcome) -> bool {
        &&& opt_json(o.response) == if self@.responses.len() == 0 {
            None
        } else {
            Some(JsonView::Arr(self@.responses))
        }
        &&& o.proto_used == self@.proto
        &&& o.native_subscribed == self@.subscribed
    }

    /// What came of the frame: all answers in one array, if there are any.
    pub fn done(self) -> (r: HandleOutcome)
        ensures
            self.sums_up(r),
    {
        assert(self@.responses.len() == self.responses@.len());
        let response = if self.responses.len() == 0 {
            None
        } else {
            Some(Json::array(self.responses))
        };
        HandleOutcome {
            response,
            proto_used: self.proto,
            native_subscribed: self.subscribed,
        }
    }
}

// ---------------------------------------------------------------------------
// What is answered
// ---------------------------------------------------------------------------

/// The outcome of a request that was read as `r` and carried out with this result.
pub open spec fn outcome_of(r: Request, result: Result<JsonView, Seq<char>>, o: HandleOutcome) -> bool {
    match r {
        Request::Invalid { id } => outcome_is(
            o,
            opt_json(id),
            Err::<JsonView, Seq<char>>("Invalid request"@),
            Proto::Unknown,
            false,
        ),
        Request::Native { id, subscribes, call } => outcome_is(
            o,
            opt_json(id),
            result,
            Proto::Native,
            subscribes && result is Ok,
        ),
        Request::Compat { id, wanted } => outcome_is(o, opt_json(id), result, Proto::Compat, false),
    }
}

/// What a request is answered: its result, or that it names no method.
pub open spec fn answer_to(item: Json, result: Result<JsonView, Seq<char>>) -> Result<JsonView, Seq<char>> {
    if item@.at("method"@).text() is None { Err("Invalid request"@) } else { result }
}

/// Whether a request with this result subscribes to events.
pub open spec fn subscribed_by(item: Json, result: Result<JsonView, Seq<char>>) -> bool {
    match item@.at("method"@).text() {
        Some(m) => is_native(m) && m == "events.subscribe"@ && result is Ok,
        None => false,
    }
}

/// Whether an outcome is what a request that stands alone is answered.
pub open spec fn answered(item: Json, result: Result<JsonView, Seq<char>>, o: HandleOutcome) -> bool {
    &&& opt_json(o.response) == response_view(item@.get("id"@), answer_to(item, result))
    &&& o.native_subscribed == subscribed_by(item, result)
}

/// A request is answered under its own identifier, with its result; without identifier
/// it gets no answer.
pub proof fn law_request_is_answered(
    router: Router,
    item: Json,
    r: Request,
    result: Result<JsonView, Seq<char>>,
    o: HandleOutcome,
)
    requires
        router.reads(item, r),
        outcome_of(r, result, o),
    ensures
        answered(item, result, o),
{
}

/// What came of a frame after the requests with these outcomes.
pub open spec fn batch_of(outs: Seq<HandleOutcome>) -> BatchView
    decreases outs.len(),
{
    if outs.len() == 0 {
        BatchView { responses: Seq::empty(), proto: Proto::Unknown, subscribed: false }
    } else {
        batch_step(batch_of(outs.drop_last()), outs.last())
    }
}

/// The answers to several requests: one for each that has an identifier, in order.
pub open spec fn answers_to(items: Seq<Json>, results: Seq<Result<JsonView, Seq<char>>>) -> Seq<JsonView>
    decreases items.len(),
{
    if items.len() == 0 {
        Seq::empty()
    } else {
        let rest = answers_to(items.drop_last(), results.drop_last());
        match items.last()@.get("id"@) {
            Some(id) => rest.push(frame_view(id, answer_to(items.last(), results.last()))),
            None => rest,
        }
    }
}

/// A frame of several requests is answered by one array that holds, in order, exactly the
/// answers to those with an identifier, each as it would be alone; without any it gets no
/// answer. It subscribes if and only if one of its requests does.
pub proof fn law_every_request_of_a_frame_is_answered(
    items: Seq<Json>,
    results: Seq<Result<JsonView, Seq<char>>>,
    outs: Seq<HandleOutcome>,
    b: Batch,
    o: HandleOutcome,
)
    requires
        results.len() == items.len(),
        outs.len() == items.len(),
        forall|i: int| 0 <= i < items.len() ==> #[trigger] answered(items[i], results[i], outs[i]),
        b@ == batch_of(outs),
        b.sums_up(o),
    ensures
        o.response is None <==> (forall|i: int|
            0 <= i < items.len() ==> (#[trigger] items[i])@.get("id"@) is None),
        o.response is Some ==> opt_json(o.response) == Some(JsonView::Arr(answers_to(items, results))),
        o.native_subscribed <==> (exists|i: int|
            0 <= i < items.len() && #[trigger] subscribed_by(items[i], results[i])),
{
    lemma_batch_answers(items, results, outs);
    lemma_answers_none(items, results);
}

proof fn lemma_batch_answers(
    items: Seq<Json>,
    results: Seq<Result<JsonView, Seq<char>>>,
    outs: Seq<HandleOutcome>,
)
    requires
        results.len() == items.len(),
        outs.len() == items.len(),
        forall|i: int| 0 <= i < items.len() ==> #[trigger] answered(items[i], results[i], outs[i]),
    ensures
        batch_of(outs).responses == answers_to(items, results),
        batch_of(outs).subscribed <==> (exists|i: int|
            0 <= i < items.len() && #[trigger] subscribed_by(items[i], results[i])),
    decreases items.len(),
{
    if items.len() > 0 {
        let (a, b, c) = (items.drop_last(), results.drop_last(), outs.drop_last());
        let n = items.len() - 1;
        assert forall|i: int| 0 <= i < a.len() implies #[trigger] answered(a[i], b[i], c[i]) by {
            assert(answered(items[i], results[i], outs[i]));
        }
        lemma_batch_answers(a, b, c);
        assert(answered(items[n], results[n], outs[n]));
        if batch_of(outs).subscribed {
            if batch_of(c).subscribed {
                let i = choose|i: int| 0 <= i < a.len() && #[trigger] subscribed_by(a[i], b[i]);
                assert(subscribed_by(items[i], results[i]));
            } else {
                assert(subscribed_by(items[n], results[n]));
            }
        }
        if exists|i: int| 0 <= i < items.len() && #[trigger] subscribed_by(items[i], results[i]) {
            let i = choose|i: int| 0 <= i < items.len() && #[trigger] subscribed_by(items[i], results[i]);
            if i < n {
                assert(subscribed_by(a[i], b[i]));
            }
        }
    }
}

proof fn lemma_answers_none(items: Seq<Json>, results: Seq<Result<JsonView, Seq<char>>>)
    requires
        results.len() == items.len(),
    ensures
        answers_to(items, results).len() == 0 <==> (forall|i: int|
            0 <= i < items.len() ==> (#[trigger] items[i])@.get("id"@) is None),
    decreases items.len(),
{
    if items.len() > 0 {
        let (a, b) = (items.drop_last(), results.drop_last());
        let n = items.len() - 1;
        lemma_answers_none(a, b);
        if forall|i: int| 0 <= i < items.len() ==> (#[trigger] items[i])@.get("id"@) is None {
            assert forall|i: int| 0 <= i < a.len() implies (#[trigger] a[i])@.get("id"@) is None by {
                assert(items[i]@.get("id"@) is None);
            }
            assert(items[n]@.get("id"@) is None);
        }
        if answers_to(items, results).len() == 0 {
            assert forall|i: int| 0 <= i < items.len() implies (#[trigger] items[i])@.get("id"@) is None by {
                if i < n {
                    assert(a[i]@.get("id"@) is None);
                }
            }
        }
    }
}

// ---------------------------------------------------------------------------
// Events
// ---------------------------------------------------------------------------

/// What front ends are told of an event.
pub open spec fn compat_told(m: TaskManager, e: Event, gid: Seq<char>) -> Option<JsonView> {
    match notification_of(e, crate::compat::is_bt_gid(m, gid)) {
        Some(name) => Some(notification_view(name, gid)),
        None => None,
    }
}

/// What is told of an event in the engine's own protocol.
pub open spec fn native_told(m: TaskManager, e: Event, gid: Seq<char>) -> Option<JsonView> {
    match event_params(m, e, gid) {
        Some(p) => Some(event_view(e, p)),
        None => None,
    }
}

impl Router {
    /// What is told of an event in the engine's own protocol.
    pub fn native_event_frame(&self, engine: &TaskManager, event: Event, gid: &str) -> (r: Option<Json>)
        ensures
            opt_json(r) == native_told(*engine, event, gid@),
    {
        self.native.event_frame(engine, event, gid)
    }

    /// What front ends are told of an event.
    pub fn compat_event_frame(&self, engine: &TaskManager, event: Event, gid: &str) -> (r: Option<Json>)
        ensures
            opt_json(r) == compat_told(*engine, event, gid@),
    {
        self.compat.event_frame(engine, event, gid)
    }
}

// ---------------------------------------------------------------------------
// Connections
// ---------------------------------------------------------------------------

/// What is known of a connection.
pub struct Connection {
    /// The protocol that the first request spoke.
    pub proto: Proto,
    /// Whether events in the engine's own protocol were asked for.
    pub native_events: bool,
}

/// What a connection is told of an event.
pub open spec fn told(c: Connection, m: TaskManager, e: Event, gid: Seq<char>) -> Option<JsonView> {
    match c.proto {
        Proto::Compat => compat_told(m, e, gid),
        Proto::Native => if c.native_events { native_told(m, e, gid) } else { None },
        Proto::Unknown => None,
    }
}

impl Connection {
    pub fn new() -> (r: Self)
        ensures
            r == (Connection { proto: Proto::Unknown, native_events: false }),
    {
        Connection { proto: Proto::Unknown, native_events: false }
    }

    /// Notes what came of a frame. The first known protocol is that of the connection.
    pub fn on_outcome(&mut self, o: &HandleOutcome)
        ensures
            *final(self) == (Connection {
                proto: if old(self).proto is Unknown { o.proto_used } else { old(self).proto },
                native_events: old(self).native_events || o.native_subscribed,
            }),
    {
        if self.proto == Proto::Unknown {
            self.proto = o.proto_used;
        }
        self.native_events = self.native_events || o.native_subscribed;
    }

    /// What the connection is told of an event, in its own protocol.
    pub fn event_frame(&self, router: &Router, engine: &TaskManager, event: Event, gid: &str) -> (r: Option<
        Json,
    >)
        ensures
            opt_json(r) == told(*self, *engine, event, gid@),
    {
        match self.proto {
            Proto::Compat => router.compat_event_frame(engine, event, gid),
            Proto::Native => if self.native_events {
                router.native_event_frame(engine, event, gid)
            } else {
                None
            },
            Proto::Unknown => None,
        }
    }
}

/// A connection keeps the protocol of its first request, and is told of events in that
/// protocol only.
pub proof fn law_protocol_is_settled_once(c: Connection, o: HandleOutcome, after: Connection)
    requires
        !(c.proto is Unknown),
        after == (Connection {
            proto: if c.proto is Unknown { o.proto_used } else { c.proto },
            native_events: c.native_events || o.native_subscribed,
        }),
    ensures
        after.proto == c.proto,
{
}

/// A connection that never asked for events in the engine's own protocol gets none.
pub proof fn law_events_need_a_subscription(c: Connection, m: TaskManager, e: Event, gid: Seq<char>)
    requires
        c.proto is Native,
        !c.native_events,
    ensures
        told(c, m, e, gid) is None,
{
}

// ---------------------------------------------------------------------------
// What is sent
// ---------------------------------------------------------------------------

proof fn lemma_frame_keys()
    ensures
        "jsonrpc"@.len() == 7,
        "id"@.len() == 2,
        "result"@.len() == 6 && "result"@[0] == 'r',
        "error"@.len() == 5,
        "method"@.len() == 6 && "method"@[0] == 'm',
        "params"@.len() == 6 && "params"@[0] == 'p',
        "code"@.len() == 4,
        "message"@.len() == 7,
{
    reveal_strlit("jsonrpc");
    reveal_strlit("id");
    reveal_strlit("result");
    reveal_strlit("error");
    reveal_strlit("method");
    reveal_strlit("params");
    reveal_strlit("code");
    reveal_strlit("message");
}

/// An answer names the version of the protocol and the request that it answers, and has
/// either the result or what went wrong, never both.
pub proof fn law_answer_has_result_or_error(id: JsonView, result: Result<JsonView, Seq<char>>)
    ensures
        ({
            let f = frame_view(id, result);
            &&& f.at("jsonrpc"@) == JsonView::Str("2.0"@)
            &&& f.at("id"@) == id
            &&& (result is Ok ==> f.get("result"@) == Some(result->Ok_0) && f.get("error"@) is None)
            &&& (result is Err ==> {
                &&& f.get("result"@) is None
                &&& f.get("error"@) is Some
                &&& f.at("error"@).at("code"@) == JsonView::Unsigned(1)
                &&& f.at("error"@).at("message"@) == JsonView::Str(result->Err_0)
            })
        }),
{
    lemma_frame_keys();
    let f = frame_view(id, result)->Obj_0;
    assert(unique_keys(f));
    lemma_field(f, 0);
    lemma_field(f, 1);
    lemma_field(f, 2);
    assert(result is Ok ==> f[2].0 == "result"@);
    if result is Ok {
        lemma_key_at(f, "error"@, 3);
    } else {
        lemma_key_at(f, "result"@, 3);
        let e = failure_view(result->Err_0)->Obj_0;
        assert(unique_keys(e));
        lemma_field(e, 0);
        lemma_field(e, 1);
    }
}

/// The name by which front ends are told of an event; a torrent that is complete has one
/// of its own, and progress has none.
pub open spec fn is_front_end_name(e: Event, bt: bool, name: Seq<char>) -> bool {
    match e {
        Event::Start => name == "aria2.onDownloadStart"@,
        Event::Pause => name == "aria2.onDownloadPause"@,
        Event::Stop => name == "aria2.onDownloadStop"@,
        Event::Complete => if bt {
            name == "aria2.onBtDownloadComplete"@
        } else {
            name == "aria2.onDownloadComplete"@
        },
        Event::Error => name == "aria2.onDownloadError"@,
        Event::Progress => false,
    }
}

/// A front end is told of every event but progress, by its name and with the task.
pub proof fn law_front_end_is_told_of_events(m: TaskManager, e: Event, gid: Seq<char>)
    ensures
        compat_told(m, e, gid) is None <==> e is Progress,
        compat_told(m, e, gid) is Some ==> {
            let o = compat_told(m, e, gid)->0;
            &&& o.at("jsonrpc"@) == JsonView::Str("2.0"@)
            &&& o.at("method"@) is Str
            &&& is_front_end_name(e, crate::compat::is_bt_gid(m, gid), o.at("method"@)->Str_0)
            &&& o.at("params"@).array() is Some
            &&& o.at("params"@).array()->0.len() == 1
            &&& o.at("params"@).array()->0[0].at("gid"@) == JsonView::Str(gid)
            &&& o.get("id"@) is None
        },
{
    lemma_frame_keys();
    if compat_told(m, e, gid) is Some {
        let f = compat_told(m, e, gid)->0->Obj_0;
        assert(unique_keys(f));
        lemma_field(f, 0);
        lemma_field(f, 1);
        lemma_field(f, 2);
        lemma_key_at(f, "id"@, 3);
        let g = seq![("gid"@, JsonView::Str(gid))];
        lemma_field(g, 0);
        reveal_strlit("aria2.");
        reveal_strlit("onDownloadStart");
        reveal_strlit("onDownloadPause");
        reveal_strlit("onDownloadStop");
        reveal_strlit("onDownloadComplete");
        reveal_strlit("onBtDownloadComplete");
        reveal_strlit("onDownloadError");
        reveal_strlit("aria2.onDownloadStart");
        reveal_strlit("aria2.onDownloadPause");
        reveal_strlit("aria2.onDownloadStop");
        reveal_strlit("aria2.onDownloadComplete");
        reveal_strlit("aria2.onBtDownloadComplete");
        reveal_strlit("aria2.onDownloadError");
        assert("aria2."@ + "onDownloadStart"@ =~= "aria2.onDownloadStart"@);
        assert("aria2."@ + "onDownloadPause"@ =~= "aria2.onDownloadPause"@);
        assert("aria2."@ + "onDownloadStop"@ =~= "aria2.onDownloadStop"@);
        assert("aria2."@ + "onDownloadComplete"@ =~= "aria2.onDownloadComplete"@);
        assert("aria2."@ + "onBtDownloadComplete"@ =~= "aria2.onBtDownloadComplete"@);
        assert("aria2."@ + "onDownloadError"@ =~= "aria2.onDownloadError"@);
    }
}

/// The name of an event in the engine's own protocol.
pub open spec fn is_native_name(e: Event, name: Seq<char>) -> bool {
    match e {
        Event::Start => name == "task.start"@,
        Event::Pause => name == "task.pause"@,
        Event::Stop => name == "task.stop"@,
        Event::Complete => name == "task.complete"@,
        Event::Error => name == "task.error"@,
        Event::Progress => name == "task.progress"@,
    }
}

/// A subscriber is told of every event, by its name and with the task; of progress and of
/// failures only while the task is there.
pub proof fn law_subscriber_is_told_of_events(m: TaskManager, e: Event, gid: Seq<char>)
    requires
        is_gid(gid),
    ensures
        native_told(m, e, gid) is Some <==> has_task(m.tasks@, gid) || !(e is Progress || e is Error),
        native_told(m, e, gid) is Some ==> {
            let o = native_told(m, e, gid)->0;
            &&& o.at("jsonrpc"@) == JsonView::Str("2.0"@)
            &&& o.at("method"@) is Str
            &&& is_native_name(e, o.at("method"@)->Str_0)
            &&& o.at("params"@).at("gid"@) == JsonView::Str(gid)
            &&& o.get("id"@) is None
        },
{
    lemma_frame_keys();
    if native_told(m, e, gid) is Some {
        let f = native_told(m, e, gid)->0->Obj_0;
        assert(unique_keys(f));
        lemma_field(f, 0);
        lemma_field(f, 1);
        lemma_field(f, 2);
        lemma_key_at(f, "id"@, 3);
        let g = event_params(m, e, gid)->0->Obj_0;
        lemma_key_at(g, "gid"@, 0);
        reveal_strlit("task.");
        reveal_strlit("start");
        reveal_strlit("pause");
        reveal_strlit("stop");
        reveal_strlit("complete");
        reveal_strlit("error");
        reveal_strlit("progress");
        reveal_strlit("task.start");
        reveal_strlit("task.pause");
        reveal_strlit("task.stop");
        reveal_strlit("task.complete");
        reveal_strlit("task.error");
        reveal_strlit("task.progress");
        assert("task."@ + "start"@ =~= "task.start"@);
        assert("task."@ + "pause"@ =~= "task.pause"@);
        assert("task."@ + "stop"@ =~= "task.stop"@);
        assert("task."@ + "complete"@ =~= "task.complete"@);
        assert("task."@ + "error"@ =~= "task.error"@);
        assert("task."@ + "progress"@ =~= "task.progress"@);
    }
}

} // verus!
