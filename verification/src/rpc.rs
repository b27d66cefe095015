//! Requests of clients, whichever protocol they speak.

use vstd::prelude::*;

use crate::json::{
    copy_json, field_views, fulls, said, Field, FullView, Json, JsonView, ObjectBuilder,
};
use crate::manifest::string_texts;
use crate::options::options_after;
use crate::text::{chars_of, joined};

verus! {

/// Code of every failed request.
pub const RPC_ERROR_CODE: i64 = 1;

/// What a request does with one task.
#[derive(Debug, Clone, Copy, PartialEq, Eq, Structural)]
pub enum TaskOp {
    Pause,
    Resume,
    Remove,
    RemoveResult,
    Files,
    Uris,
    Peers,
    Trackers,
    Options,
}

/// What a request does with the engine.
#[derive(Debug, Clone, Copy, PartialEq, Eq, Structural)]
pub enum EngineOp {
    Stat,
    Options,
    Purge,
    Save,
    Shutdown,
    Trackers,
    Subscriptions,
    RefreshAll,
    AutoUpdate,
}

/// What a request does with a subscription.
#[derive(Debug, Clone, Copy, PartialEq, Eq, Structural)]
pub enum SubOp {
    Remove,
    Toggle,
    Refresh,
}

/// What is to be downloaded.
pub enum Source {
    Uris(Vec<String>),
    /// A torrent file as Base64 text.
    Torrent(String),
    Magnet(String),
}

/// Which tasks are listed.
pub enum Listing {
    Active,
    Waiting,
    Stopped,
    /// Those that a name stands for.
    Scope(String),
}

/// What a request asks for.
pub enum Call {
    /// It is answered at once.
    Answer(Json),
    Add { source: Source, options: Json, position: Option<i64> },
    Task { op: TaskOp, gid: String },
    Tell { gid: String, keys: Option<Vec<String>> },
    List { listing: Listing, offset: i64, num: i64, keys: Option<Vec<String>> },
    AddTrackers { gid: String, trackers: Vec<String> },
    ChangeOption { gid: String, options: Json },
    ChangeGlobal { options: Json },
    Engine(EngineOp),
    Tracker { add: bool, url: String },
    Subscribe { name: String, url: String, enabled: bool },
    Subscription { change: SubOp, id: String },
    SetAuto(bool),
    /// Several requests, one after the other.
    Multicall(Vec<Json>),
}

pub enum SourceView {
    Uris(Seq<Seq<char>>),
    Torrent(Seq<char>),
    Magnet(Seq<char>),
}

pub enum ListingView {
    Active,
    Waiting,
    Stopped,
    Scope(Seq<char>),
}

/// Options of a request: their value, and their entries with the text of each.
pub struct OptionsView {
    pub value: JsonView,
    pub entries: Seq<(Seq<char>, JsonView, Seq<char>)>,
}

/// What a request asks for.
pub enum CallView {
    Answer(JsonView),
    Add { source: SourceView, options: OptionsView, position: Option<i64> },
    Task { op: TaskOp, gid: Seq<char> },
    Tell { gid: Seq<char>, keys: Option<Seq<Seq<char>>> },
    List { listing: ListingView, offset: i64, num: i64, keys: Option<Seq<Seq<char>>> },
    AddTrackers { gid: Seq<char>, trackers: Seq<Seq<char>> },
    ChangeOption { gid: Seq<char>, options: OptionsView },
    ChangeGlobal { options: OptionsView },
    Engine(EngineOp),
    Tracker { add: bool, url: Seq<char> },
    Subscribe { name: Seq<char>, url: Seq<char>, enabled: bool },
    Subscription { change: SubOp, id: Seq<char> },
    SetAuto(bool),
    Multicall(Seq<FullView>),
}

/// What options say.
pub open spec fn options_view(j: Json) -> OptionsView {
    OptionsView { value: j@, entries: said(j.entries()) }
}

/// No options.
pub open spec fn no_options() -> OptionsView {
    OptionsView { value: JsonView::Obj(Seq::empty()), entries: Seq::empty() }
}

/// What a list of keys says.
pub open spec fn keys_view(k: Option<Vec<String>>) -> Option<Seq<Seq<char>>> {
    match k {
        Some(v) => Some(string_texts(v@)),
        None => None,
    }
}

impl Source {
    pub open spec fn view(&self) -> SourceView {
        match self {
            Source::Uris(v) => SourceView::Uris(string_texts(v@)),
            Source::Torrent(s) => SourceView::Torrent(s@),
            Source::Magnet(s) => SourceView::Magnet(s@),
        }
    }
}

impl Listing {
    pub open spec fn view(&self) -> ListingView {
        match self {
            Listing::Active => ListingView::Active,
            Listing::Waiting => ListingView::Waiting,
            Listing::Stopped => ListingView::Stopped,
            Listing::Scope(s) => ListingView::Scope(s@),
        }
    }
}

impl Call {
    pub open spec fn view(&self) -> CallView {
        match self {
            Call::Answer(j) => CallView::Answer(j@),
            Call::Add { source, options, position } => CallView::Add {
                source: source@,
                options: options_view(*options),
                position: *position,
            },
            Call::Task { op, gid } => CallView::Task { op: *op, gid: gid@ },
            Call::Tell { gid, keys } => CallView::Tell { gid: gid@, keys: keys_view(*keys) },
            Call::List { listing, offset, num, keys } => CallView::List {
                listing: listing@,
                offset: *offset,
                num: *num,
                keys: keys_view(*keys),
            },
            Call::AddTrackers { gid, trackers } => CallView::AddTrackers {
                gid: gid@,
                trackers: string_texts(trackers@),
            },
            Call::ChangeOption { gid, options } => CallView::ChangeOption {
                gid: gid@,
                options: options_view(*options),
            },
            Call::ChangeGlobal { options } => CallView::ChangeGlobal {
                options: options_view(*options),
            },
            Call::Engine(op) => CallView::Engine(*op),
            Call::Tracker { add, url } => CallView::Tracker { add: *add, url: url@ },
            Call::Subscribe { name, url, enabled } => CallView::Subscribe {
                name: name@,
                url: url@,
                enabled: *enabled,
            },
            Call::Subscription { change, id } => CallView::Subscription { change: *change, id: id@ },
            Call::SetAuto(on) => CallView::SetAuto(*on),
            Call::Multicall(v) => CallView::Multicall(fulls(v@)),
        }
    }
}

// ---------------------------------------------------------------------------
// Names of tasks
// ---------------------------------------------------------------------------

/// A hexadecimal digit of either case.
pub open spec fn hex_letter(c: char) -> bool {
    ('0' <= c && c <= '9') || ('a' <= c && c <= 'f') || ('A' <= c && c <= 'F')
}

/// A name that a task can have: 16 hexadecimal digits.
pub open spec fn is_gid(s: Seq<char>) -> bool {
    s.len() == 16 && forall|i: int| 0 <= i < s.len() ==> hex_letter(#[trigger] s[i])
}

/// Tests for a name that a task can have.
pub fn valid_gid(s: &str) -> (r: bool)
    ensures
        r == is_gid(s@),
{
    let v = chars_of(s);
    if v.len() != 16 {
        return false;
    }
    let mut i: usize = 0;
    while i < v.len()
        invariant
            i <= v@.len(),
            v@ == s@,
            forall|k: int| 0 <= k < i ==> hex_letter(#[trigger] s@[k]),
        decreases v@.len() - i,
    {
        let c: char = v[i];
        let fine = ('0' <= c && c <= '9') || ('a' <= c && c <= 'f') || ('A' <= c && c <= 'F');
        if !fine {
            assert(!hex_letter(s@[i as int]));
            return false;
        }
        i = i + 1;
    }
    true
}

/// What is said of a name that no task can have.
pub open spec fn bad_gid(s: Seq<char>) -> Seq<char> {
    "GID "@ + s + " 非法"@
}

/// The name that a text is, or what is said of it; `missing` is said if there is no
/// text.
pub open spec fn gid_or(text: Option<Seq<char>>, missing: Seq<char>) -> Result<Seq<char>, Seq<char>> {
    match text {
        Some(s) => if is_gid(s) { Ok(s) } else { Err(bad_gid(s)) },
        None => Err(missing),
    }
}

/// The name that a text is.
pub fn read_gid(text: Option<&String>, missing: &str) -> (r: Result<String, String>)
    ensures
        match r {
            Ok(g) => gid_or(
                match text {
                    Some(s) => Some(s@),
                    None => None,
                },
                missing@,
            ) == Ok::<Seq<char>, Seq<char>>(g@),
            Err(e) => gid_or(
                match text {
                    Some(s) => Some(s@),
                    None => None,
                },
                missing@,
            ) == Err::<Seq<char>, Seq<char>>(e@),
        },
{
    match text {
        Some(s) => if valid_gid(s.as_str()) {
            Ok(s.clone())
        } else {
            let head = joined("GID ", s.as_str());
            Err(joined(head.as_str(), " 非法"))
        },
        None => Err(missing.to_owned()),
    }
}

// ---------------------------------------------------------------------------
// Options that pass through
// ---------------------------------------------------------------------------

/// Options that say the same set the same.
pub proof fn law_options_survive_a_request(start: Seq<(Seq<char>, Seq<char>)>, a: Seq<Field>, b: Seq<Field>)
    requires
        said(a) == said(b),
    ensures
        options_after(start, a) == options_after(start, b),
    decreases a.len(),
{
    assert(said(a).len() == a.len() && said(b).len() == b.len());
    if a.len() > 0 {
        assert(said(a.drop_last()) =~= said(a).drop_last());
        assert(said(b.drop_last()) =~= said(b).drop_last());
        law_options_survive_a_request(start, a.drop_last(), b.drop_last());
        let n = a.len() - 1;
        let x = said(a)[n];
        let y = said(b)[n];
        assert(x == y);
        assert(a.last().key@ == x.0 && a.last().value@ == x.1 && a.last().text@ == x.2);
        assert(b.last().key@ == y.0 && b.last().value@ == y.1 && b.last().text@ == y.2);
    }
}

/// A copy of options.
pub fn copy_options(j: &Json) -> (r: Json)
    ensures
        options_view(r) == options_view(*j),
{
    copy_json(j)
}

/// No options.
pub fn blank_options() -> (r: Json)
    ensures
        options_view(r) == no_options(),
{
    let f: Vec<Field> = Vec::new();
    proof {
        crate::json::lemma_obj_view(f);
        assert(field_views(f@) =~= Seq::<(Seq<char>, JsonView)>::empty());
        assert(said(f@) =~= Seq::<(Seq<char>, JsonView, Seq<char>)>::empty());
    }
    Json::Obj(f)
}

// ---------------------------------------------------------------------------
// Answers
// ---------------------------------------------------------------------------

/// A protocol that clients speak.
#[derive(Debug, Clone, Copy, PartialEq, Eq, Structural)]
pub enum Proto {
    Unknown,
    Native,
    Compat,
}

/// The answer to a request that has nothing to say but that it was carried out.
pub open spec fn done_view(proto: Proto) -> JsonView {
    match proto {
        Proto::Native => JsonView::Obj(seq![("ok"@, JsonView::Bool(true))]),
        _ => JsonView::Str("OK"@),
    }
}

/// The answer to a request that made a task.
pub open spec fn made_view(proto: Proto, gid: Seq<char>) -> JsonView {
    match proto {
        Proto::Native => JsonView::Obj(seq![("gid"@, JsonView::Str(gid))]),
        _ => JsonView::Str(gid),
    }
}

/// The answer to a request that refreshed subscriptions.
pub open spec fn count_view(n: u64) -> JsonView {
    JsonView::Obj(seq![("count"@, JsonView::Unsigned(n))])
}

/// An object of one entry.
pub fn one_field(key: &str, value: Json) -> (r: Json)
    ensures
        r@ == JsonView::Obj(seq![(key@, value@)]),
{
    let mut b = ObjectBuilder::new();
    b.put(key, value);
    assert(b@ =~= seq![(key@, value@)]);
    b.done()
}

/// The answer to a request that has nothing to say but that it was carried out.
pub fn done_json(proto: Proto) -> (r: Json)
    ensures
        r@ == done_view(proto),
{
    match proto {
        Proto::Native => one_field("ok", Json::Bool(true)),
        _ => Json::text("OK"),
    }
}

/// The answer to a request that made a task.
pub fn made_json(proto: Proto, gid: &str) -> (r: Json)
    ensures
        r@ == made_view(proto, gid@),
{
    match proto {
        Proto::Native => one_field("gid", Json::text(gid)),
        _ => Json::text(gid),
    }
}

/// The answer to a request that refreshed subscriptions.
pub fn count_json(n: u64) -> (r: Json)
    ensures
        r@ == count_view(n),
{
    one_field("count", Json::Unsigned(n))
}

/// A name is accepted for a task if it has sixteen hexadecimal digits of either case, and
/// every name that the engine gives is one of those.
pub proof fn law_given_names_are_accepted(s: Seq<char>, i: int)
    ensures
        is_gid(s) ==> s.len() == 16,
        is_gid(s) && 0 <= i < 16 ==> {
            let c = s[i] as int;
            48 <= c <= 57 || 65 <= c <= 70 || 97 <= c <= 102
        },
        s.len() == 16 && (forall|j: int|
            0 <= j < 16 ==> 48 <= (#[trigger] s[j]) as int <= 57 || 65 <= s[j] as int <= 70 || 97 <= s[j] as int
                <= 102) ==> is_gid(s),
        crate::manager::is_hex_name(s) ==> is_gid(s),
{
    if crate::manager::is_hex_name(s) {
        let b = choose|b: Seq<u8>| b.len() == 8 && s == #[trigger] crate::outside::hex_text(b);
        assert forall|j: int| 0 <= j < s.len() implies hex_letter(#[trigger] s[j]) by {
            let d = if j % 2 == 0 { b[j / 2] as int / 16 } else { b[j / 2] as int % 16 };
            assert(0 <= d < 16);
            assert(s[j] == crate::outside::hex_digit(d));
        }
    }
}

} // verus!
