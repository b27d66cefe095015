//! The task manager: which tasks there are, which of them run, and what follows from
//! every request.
//!
//! A request changes the manager at once. What remains to be done outside (to start or
//! stop a worker, to tell clients, to save the session, to delete files) is noted as an
//! effect, in the order in which it is due. Times are nanoseconds of one monotonic
//! clock.

use vstd::prelude::*;

use crate::json::{Field, Json, JsonView};
use crate::lists::{holds, key_at, lemma_key_at, lemma_key_at_props, unique_keys};
use crate::manifest::{pair_texts, string_texts};
use crate::options::{
    checksum_of, collect_task_options, lemma_options_unique, normalize_dir, opt_pair, options_after, parse_checksum_option,
    BtProtocol, EncryptionMode, Place,
};
use crate::outside::{base64_bytes, base64_decode, hex_encode, hex_text, random_bytes};
use crate::task::{is_final, Status, Task};
use crate::text::{chars_of, has_prefix, joined, starts_with, string_of, trim, trimmed};
use crate::torrent::TorrentMeta;
use crate::trackers::TrackerBook;

verus! {

/// Most stopped tasks that are kept.
pub const MAX_RESULTS: usize = 1000;

/// Something that clients are told about a task.
#[derive(Debug, Clone, Copy, PartialEq, Eq, Structural)]
pub enum Event {
    Start,
    Pause,
    Stop,
    Complete,
    Error,
    Progress,
}

/// The name of an event.
pub open spec fn event_text(e: Event) -> Seq<char> {
    match e {
        Event::Start => "start"@,
        Event::Pause => "pause"@,
        Event::Stop => "stop"@,
        Event::Complete => "complete"@,
        Event::Error => "error"@,
        Event::Progress => "progress"@,
    }
}

impl Event {
    /// The name of the event.
    pub fn as_str(self) -> (r: &'static str)
        ensures
            r@ == event_text(self),
    {
        match self {
            Event::Start => "start",
            Event::Pause => "pause",
            Event::Stop => "stop",
            Event::Complete => "complete",
            Event::Error => "error",
            Event::Progress => "progress",
        }
    }
}

/// Something to be done outside.
pub enum Effect {
    /// Fill free slots.
    Kick,
    /// Save the session.
    Save,
    /// Refresh the tracker subscriptions that are due.
    Refresh,
    /// End the engine.
    Shutdown,
    /// Start the worker of a task.
    Run { gid: String },
    /// Tell clients.
    Emit { event: Event, gid: String },
    /// Cancel the worker of a task.
    Cancel { gid: String },
    /// Delete the control file of a task, and with `files` what it downloaded too.
    CleanUp { path: Option<String>, files: bool },
    /// Hand the engine's rate limits to running tasks that have none of their own.
    SetLimits { download: u64, upload: u64 },
    /// Hand the rate limits that hold for a task to its running transfer.
    SetTaskLimits { gid: String, download: u64, upload: u64 },
    /// Hand encryption and protocol to running BitTorrent downloads.
    SetModes { encryption: Option<EncryptionMode>, protocol: Option<BtProtocol> },
}

/// What the engine knows of its surroundings.
pub struct Env {
    pub place: Place,
    /// Spellings of hash algorithms with the name that each stands for.
    pub hash_names: Vec<(String, String)>,
}

/// The tasks of an engine.
pub struct TaskManager {
    /// Every task, in the order of creation.
    pub tasks: Vec<Task>,
    /// Waiting tasks, the next one first.
    pub queue: Vec<String>,
    /// Running tasks.
    pub active: Vec<String>,
    /// Stopped tasks, the oldest first.
    pub stopped_order: Vec<String>,
    /// Tasks that ever stopped.
    pub stopped_total: u64,
    /// Tasks that may run at a time.
    pub max_concurrent: usize,
    /// Files that tasks write to.
    pub claims: Vec<String>,
    pub global_options: Vec<(String, String)>,
    pub download_dir: String,
    /// The session file, if sessions are kept.
    pub session: Option<String>,
    pub trackers: TrackerBook,
    /// What is to be done outside, in order.
    pub effects: Vec<Effect>,
}

/// Tasks by their identifier.
pub open spec fn keyed(tasks: Seq<Task>) -> Seq<(Seq<char>, Task)> {
    Seq::new(tasks.len(), |i: int| (tasks[i].gid@, tasks[i]))
}

/// Place of a task; the number of tasks if there is none of that name.
pub open spec fn task_at(tasks: Seq<Task>, gid: Seq<char>) -> int {
    key_at(keyed(tasks), gid)
}

/// Whether there is a task of that name.
pub open spec fn has_task(tasks: Seq<Task>, gid: Seq<char>) -> bool {
    task_at(tasks, gid) < tasks.len()
}

/// Whether one of the tasks is called `gid`.
pub open spec fn is_named(tasks: Seq<Task>, gid: Seq<char>) -> bool {
    exists|i: int| 0 <= i < tasks.len() && (#[trigger] tasks[i]).gid@ == gid
}

/// `task_at` finds the task of a name.
pub proof fn lemma_task_at(tasks: Seq<Task>, gid: Seq<char>)
    ensures
        0 <= task_at(tasks, gid) <= tasks.len(),
        has_task(tasks, gid) ==> tasks[task_at(tasks, gid)].gid@ == gid,
        has_task(tasks, gid) <==> is_named(tasks, gid),
        forall|j: int| 0 <= j < task_at(tasks, gid) ==> (#[trigger] tasks[j]).gid@ != gid,
{
    lemma_key_at_props(keyed(tasks), gid);
    assert forall|j: int| 0 <= j < task_at(tasks, gid) implies (#[trigger] tasks[j]).gid@ != gid by {
        assert(keyed(tasks)[j].0 != gid);
    }
    if is_named(tasks, gid) {
        let i = choose|i: int| 0 <= i < tasks.len() && (#[trigger] tasks[i]).gid@ == gid;
        if !has_task(tasks, gid) {
            assert(tasks[i].gid@ != gid);
        }
    }
}

/// A task whose parts fit: its clock runs exactly while it is active, and no option
/// occurs twice.
pub open spec fn task_fine(t: Task) -> bool {
    &&& t.wf()
    &&& t.shared.status is Active <==> t.shared.active_since is Some
    &&& unique_keys(pair_texts(t.options@))
}

/// Whether a list names, of the tasks, exactly those whose state satisfies `pred`, and
/// nothing twice.
pub open spec fn lists_those(tasks: Seq<Task>, list: Seq<Seq<char>>, pred: spec_fn(Status) -> bool) -> bool {
    &&& list.no_duplicates()
    &&& forall|i: int|
        0 <= i < tasks.len() ==> (pred((#[trigger] tasks[i]).shared.status) <==> list.contains(
            tasks[i].gid@,
        ))
}

/// Whether a list names all tasks whose state satisfies `pred`.
pub open spec fn lists_all(tasks: Seq<Task>, list: Seq<Seq<char>>, pred: spec_fn(Status) -> bool) -> bool {
    forall|i: int|
        0 <= i < tasks.len() && pred((#[trigger] tasks[i]).shared.status) ==> list.contains(
            tasks[i].gid@,
        )
}

/// Whether a state is `Active`.
pub open spec fn is_active() -> spec_fn(Status) -> bool {
    |s: Status| s is Active
}

/// Whether a state is `Waiting`.
pub open spec fn is_waiting() -> spec_fn(Status) -> bool {
    |s: Status| s is Waiting
}

/// Whether a state is final.
pub open spec fn is_over() -> spec_fn(Status) -> bool {
    |s: Status| is_final(s)
}

/// Tasks and lists fit together: no two tasks share a name, the tasks with a slot are
/// exactly the active ones, every task in a final state is listed as stopped, and every
/// waiting task is queued. The queue and the list of stopped tasks may name a task twice,
/// or one that is gone or in another state: a session that holds two entries of one name
/// leaves them so.
pub open spec fn sound(
    tasks: Seq<Task>,
    queue: Seq<Seq<char>>,
    active: Seq<Seq<char>>,
    stopped: Seq<Seq<char>>,
) -> bool {
    &&& forall|i: int| 0 <= i < tasks.len() ==> task_fine(#[trigger] tasks[i])
    &&& names_differ(tasks)
    &&& lists_those(tasks, active, is_active())
    &&& lists_all(tasks, stopped, is_over())
    &&& lists_all(tasks, queue, is_waiting())
}

/// A list stays right when one task changes.
pub proof fn lemma_lists_update(
    tasks: Seq<Task>,
    list: Seq<Seq<char>>,
    pred: spec_fn(Status) -> bool,
    k: int,
    t: Task,
    list2: Seq<Seq<char>>,
)
    requires
        names_differ(tasks),
        lists_those(tasks, list, pred),
        0 <= k < tasks.len(),
        t.gid@ == tasks[k].gid@,
        list2.no_duplicates(),
        forall|g: Seq<char>| g != t.gid@ ==> (#[trigger] list2.contains(g) <==> list.contains(g)),
        pred(t.shared.status) <==> list2.contains(t.gid@),
    ensures
        lists_those(tasks.update(k, t), list2, pred),
{
    let after = tasks.update(k, t);
    assert forall|i: int| 0 <= i < after.len() implies (pred((#[trigger] after[i]).shared.status)
        <==> list2.contains(after[i].gid@)) by {
        if i != k {
            assert(after[i] == tasks[i]);
            lemma_apart(tasks, i, k);
            assert(list2.contains(tasks[i].gid@) <==> list.contains(tasks[i].gid@));
        }
    }
}

/// A list stays right when a task comes in.
pub proof fn lemma_lists_push(
    tasks: Seq<Task>,
    list: Seq<Seq<char>>,
    pred: spec_fn(Status) -> bool,
    t: Task,
    list2: Seq<Seq<char>>,
)
    requires
        lists_those(tasks, list, pred),
        !is_named(tasks, t.gid@),
        list2.no_duplicates(),
        forall|g: Seq<char>| g != t.gid@ ==> (#[trigger] list2.contains(g) <==> list.contains(g)),
        pred(t.shared.status) <==> list2.contains(t.gid@),
    ensures
        lists_those(tasks.push(t), list2, pred),
{
    let after = tasks.push(t);
    assert forall|i: int| 0 <= i < after.len() implies (pred((#[trigger] after[i]).shared.status)
        <==> list2.contains(after[i].gid@)) by {
        if i < tasks.len() {
            assert(after[i] == tasks[i]);
            assert(list2.contains(tasks[i].gid@) <==> list.contains(tasks[i].gid@));
        }
    }
}

/// A list stays right when a task goes.
pub proof fn lemma_lists_remove(
    tasks: Seq<Task>,
    list: Seq<Seq<char>>,
    pred: spec_fn(Status) -> bool,
    k: int,
    list2: Seq<Seq<char>>,
)
    requires
        names_differ(tasks),
        lists_those(tasks, list, pred),
        0 <= k < tasks.len(),
        list2.no_duplicates(),
        forall|g: Seq<char>|
            g != tasks[k].gid@ ==> (#[trigger] list2.contains(g) <==> list.contains(g)),
    ensures
        lists_those(tasks.remove(k), list2, pred),
{
    let after = tasks.remove(k);
    assert forall|i: int| 0 <= i < after.len() implies (pred((#[trigger] after[i]).shared.status)
        <==> list2.contains(after[i].gid@)) by {
        let o = if i < k { i } else { i + 1 };
        assert(after[i] == tasks[o]);
        lemma_apart(tasks, o, k);
        assert(list2.contains(tasks[o].gid@) <==> list.contains(tasks[o].gid@));
    }
}

/// A list still names all it should when one task changes.
proof fn lemma_all_update(
    tasks: Seq<Task>,
    list: Seq<Seq<char>>,
    pred: spec_fn(Status) -> bool,
    k: int,
    t: Task,
    list2: Seq<Seq<char>>,
)
    requires
        names_differ(tasks),
        lists_all(tasks, list, pred),
        0 <= k < tasks.len(),
        t.gid@ == tasks[k].gid@,
        forall|g: Seq<char>| g != t.gid@ && list.contains(g) ==> #[trigger] list2.contains(g),
        pred(t.shared.status) ==> list2.contains(t.gid@),
    ensures
        lists_all(tasks.update(k, t), list2, pred),
{
    let after = tasks.update(k, t);
    assert forall|i: int|
        0 <= i < after.len() && pred((#[trigger] after[i]).shared.status) implies list2.contains(
        after[i].gid@,
    ) by {
        if i != k {
            assert(after[i] == tasks[i]);
            lemma_apart(tasks, i, k);
            assert(list2.contains(tasks[i].gid@));
        }
    }
}

/// A list still names all it should when a task comes in.
proof fn lemma_all_push(
    tasks: Seq<Task>,
    list: Seq<Seq<char>>,
    pred: spec_fn(Status) -> bool,
    t: Task,
    list2: Seq<Seq<char>>,
)
    requires
        lists_all(tasks, list, pred),
        forall|g: Seq<char>| list.contains(g) ==> #[trigger] list2.contains(g),
        pred(t.shared.status) ==> list2.contains(t.gid@),
    ensures
        lists_all(tasks.push(t), list2, pred),
{
    let after = tasks.push(t);
    assert forall|i: int|
        0 <= i < after.len() && pred((#[trigger] after[i]).shared.status) implies list2.contains(
        after[i].gid@,
    ) by {
        if i < tasks.len() {
            assert(after[i] == tasks[i]);
            assert(list2.contains(tasks[i].gid@));
        }
    }
}

/// A list still names all it should when a task goes.
proof fn lemma_all_remove(
    tasks: Seq<Task>,
    list: Seq<Seq<char>>,
    pred: spec_fn(Status) -> bool,
    k: int,
    list2: Seq<Seq<char>>,
)
    requires
        names_differ(tasks),
        lists_all(tasks, list, pred),
        0 <= k < tasks.len(),
        forall|g: Seq<char>| g != tasks[k].gid@ && list.contains(g) ==> #[trigger] list2.contains(g),
    ensures
        lists_all(tasks.remove(k), list2, pred),
{
    let after = tasks.remove(k);
    assert forall|i: int|
        0 <= i < after.len() && pred((#[trigger] after[i]).shared.status) implies list2.contains(
        after[i].gid@,
    ) by {
        let o = if i < k { i } else { i + 1 };
        assert(after[i] == tasks[o]);
        lemma_apart(tasks, o, k);
        assert(list2.contains(tasks[o].gid@));
    }
}

/// No two tasks share a name.
pub open spec fn names_differ(tasks: Seq<Task>) -> bool {
    forall|i: int, j: int|
        0 <= i < j < tasks.len() ==> (#[trigger] tasks[i]).gid@ != (#[trigger] tasks[j]).gid@
}

proof fn lemma_apart(tasks: Seq<Task>, i: int, k: int)
    requires
        names_differ(tasks),
        0 <= i < tasks.len(),
        0 <= k < tasks.len(),
        i != k,
    ensures
        tasks[i].gid@ != tasks[k].gid@,
{
    if i < k {
        assert(tasks[i].gid@ != tasks[k].gid@);
    } else {
        assert(tasks[k].gid@ != tasks[i].gid@);
    }
}

/// Soundness after one task changed.
pub proof fn lemma_sound_update(
    tasks: Seq<Task>,
    queue: Seq<Seq<char>>,
    active: Seq<Seq<char>>,
    stopped: Seq<Seq<char>>,
    k: int,
    t: Task,
    queue2: Seq<Seq<char>>,
    active2: Seq<Seq<char>>,
    stopped2: Seq<Seq<char>>,
)
    requires
        sound(tasks, queue, active, stopped),
        0 <= k < tasks.len(),
        t.gid@ == tasks[k].gid@,
        task_fine(t),
        active2.no_duplicates(),
        forall|g: Seq<char>|
            g != t.gid@ ==> (#[trigger] active2.contains(g) <==> active.contains(g)),
        t.shared.status is Active <==> active2.contains(t.gid@),
        forall|g: Seq<char>| g != t.gid@ && stopped.contains(g) ==> #[trigger] stopped2.contains(g),
        is_final(t.shared.status) ==> stopped2.contains(t.gid@),
        forall|g: Seq<char>| g != t.gid@ && queue.contains(g) ==> #[trigger] queue2.contains(g),
        t.shared.status is Waiting ==> queue2.contains(t.gid@),
    ensures
        sound(tasks.update(k, t), queue2, active2, stopped2),
{
    let after = tasks.update(k, t);
    lemma_lists_update(tasks, active, is_active(), k, t, active2);
    lemma_all_update(tasks, stopped, is_over(), k, t, stopped2);
    lemma_all_update(tasks, queue, is_waiting(), k, t, queue2);
    assert forall|i: int, j: int| 0 <= i < j < after.len() implies (#[trigger] after[i]).gid@ != (
    #[trigger] after[j]).gid@ by {
        assert(tasks[i].gid@ != tasks[j].gid@);
    }
}

/// Soundness after a task came in.
pub proof fn lemma_sound_push(
    tasks: Seq<Task>,
    queue: Seq<Seq<char>>,
    active: Seq<Seq<char>>,
    stopped: Seq<Seq<char>>,
    t: Task,
    queue2: Seq<Seq<char>>,
    stopped2: Seq<Seq<char>>,
)
    requires
        sound(tasks, queue, active, stopped),
        !is_named(tasks, t.gid@),
        !active.contains(t.gid@),
        task_fine(t),
        !(t.shared.status is Active),
        forall|g: Seq<char>| queue.contains(g) ==> #[trigger] queue2.contains(g),
        t.shared.status is Waiting ==> queue2.contains(t.gid@),
        forall|g: Seq<char>| stopped.contains(g) ==> #[trigger] stopped2.contains(g),
        is_final(t.shared.status) ==> stopped2.contains(t.gid@),
    ensures
        sound(tasks.push(t), queue2, active, stopped2),
{
    let after = tasks.push(t);
    lemma_lists_push(tasks, active, is_active(), t, active);
    lemma_all_push(tasks, stopped, is_over(), t, stopped2);
    lemma_all_push(tasks, queue, is_waiting(), t, queue2);
    assert forall|i: int, j: int| 0 <= i < j < after.len() implies (#[trigger] after[i]).gid@ != (
    #[trigger] after[j]).gid@ by {
        if j < tasks.len() {
            assert(tasks[i].gid@ != tasks[j].gid@);
        } else {
            assert(after[i] == tasks[i]);
        }
    }
}

/// Soundness after a task went.
pub proof fn lemma_sound_remove(
    tasks: Seq<Task>,
    queue: Seq<Seq<char>>,
    active: Seq<Seq<char>>,
    stopped: Seq<Seq<char>>,
    k: int,
    queue2: Seq<Seq<char>>,
    active2: Seq<Seq<char>>,
    stopped2: Seq<Seq<char>>,
)
    requires
        sound(tasks, queue, active, stopped),
        0 <= k < tasks.len(),
        active2.no_duplicates(),
        forall|g: Seq<char>|
            g != tasks[k].gid@ ==> (#[trigger] active2.contains(g) <==> active.contains(g)),
        forall|g: Seq<char>|
            g != tasks[k].gid@ && stopped.contains(g) ==> #[trigger] stopped2.contains(g),
        forall|g: Seq<char>| g != tasks[k].gid@ && queue.contains(g) ==> #[trigger] queue2.contains(g),
    ensures
        sound(tasks.remove(k), queue2, active2, stopped2),
{
    let after = tasks.remove(k);
    lemma_lists_remove(tasks, active, is_active(), k, active2);
    lemma_all_remove(tasks, stopped, is_over(), k, stopped2);
    lemma_all_remove(tasks, queue, is_waiting(), k, queue2);
    assert forall|i: int| 0 <= i < after.len() implies task_fine(#[trigger] after[i]) by {
        let o = if i < k { i } else { i + 1 };
        assert(after[i] == tasks[o]);
    }
    assert forall|i: int, j: int| 0 <= i < j < after.len() implies (#[trigger] after[i]).gid@ != (
    #[trigger] after[j]).gid@ by {
        let oi = if i < k { i } else { i + 1 };
        let oj = if j < k { j } else { j + 1 };
        assert(tasks[oi].gid@ != tasks[oj].gid@);
    }
}

/// What is said of a task that does not exist.
pub open spec fn unknown_gid(gid: Seq<char>) -> Seq<char> {
    "GID "@ + gid + " 不存在"@
}

/// Whether a request failed with a message.
pub open spec fn fails<T>(r: Result<T, String>, m: Seq<char>) -> bool {
    r is Err && r->Err_0@ == m
}

/// A list with an entry at a wished place: from the front, or at the end without a wish.
pub open spec fn placed(q: Seq<String>, gid: String, position: Option<i64>) -> Seq<String> {
    match position {
        Some(p) => if p >= 0 {
            q.insert(if p < q.len() { p as int } else { q.len() as int }, gid)
        } else {
            q.push(gid)
        },
        None => q.push(gid),
    }
}

/// The directory that options name, else the default one.
pub open spec fn chosen_dir(options: JsonView, download_dir: Seq<char>, env: Env) -> Seq<char> {
    match options.at("dir"@).text() {
        Some(d) => env.place.normal(d),
        None => download_dir,
    }
}

/// A name of 16 small hexadecimal digits.
pub open spec fn is_hex_name(s: Seq<char>) -> bool {
    exists|b: Seq<u8>| b.len() == 8 && s == #[trigger] hex_text(b)
}

/// The name that drawn bytes make: two hexadecimal digits each. None if none were drawn.
pub fn name_from(drawn: Result<Vec<u8>, String>) -> (r: Option<String>)
    requires
        drawn is Ok ==> drawn->Ok_0@.len() <= usize::MAX / 4,
    ensures
        match drawn {
            Ok(b) => r is Some && r->0@ == hex_text(b@),
            Err(_) => r is None,
        },
{
    match drawn {
        Ok(b) => Some(hex_encode(&b)),
        Err(_) => None,
    }
}

/// Draws a name of 16 hexadecimal digits. Every call may give another one; none means
/// that the system has no random source.
pub fn generate_id() -> (r: Option<String>)
    ensures
        r is Some ==> is_hex_name(r->0@),
{
    name_from(random_bytes(8))
}

/// The first address that is a magnet link.
pub open spec fn first_magnet(uris: Seq<Seq<char>>) -> Option<Seq<char>>
    decreases uris.len(),
{
    if uris.len() == 0 {
        None
    } else if has_prefix(trimmed(uris[0]), "magnet:"@) {
        Some(uris[0])
    } else {
        first_magnet(uris.skip(1))
    }
}

/// The first address that is a magnet link.
pub fn magnet_among(uris: &Vec<String>) -> (r: Option<String>)
    ensures
        match r {
            Some(m) => first_magnet(string_texts(uris@)) == Some(m@),
            None => first_magnet(string_texts(uris@)) is None,
        },
{
    let ghost all = string_texts(uris@);
    let mut i: usize = 0;
    assert(all.skip(0) =~= all);
    while i < uris.len()
        invariant
            i <= uris@.len(),
            all == string_texts(uris@),
            first_magnet(all) == first_magnet(all.skip(i as int)),
        decreases uris@.len() - i,
    {
        assert(all.skip(i as int)[0] == uris@[i as int]@);
        if starts_with(&trim(&chars_of(uris[i].as_str())), "magnet:") {
            return Some(uris[i].clone());
        }
        assert(all.skip(i as int).skip(1) =~= all.skip(i + 1));
        i = i + 1;
    }
    None
}

/// The bytes of a torrent that was sent as Base64 text.
pub fn decode_torrent(text: &str) -> (r: Result<Vec<u8>, String>)
    ensures
        match base64_bytes(trimmed(text@)) {
            Ok(b) => r is Ok && r->Ok_0@ == b,
            Err(e) => fails(r, "torrent base64 解码失败: "@ + e),
        },
{
    let t = string_of(&trim(&chars_of(text)));
    match base64_decode(t.as_str()) {
        Ok(b) => Ok(b),
        Err(e) => Err(joined("torrent base64 解码失败: ", e.as_str())),
    }
}

impl TaskManager {
    pub open spec fn wf(&self) -> bool {
        &&& sound(
            self.tasks@,
            string_texts(self.queue@),
            string_texts(self.active@),
            string_texts(self.stopped_order@),
        )
        &&& self.max_concurrent >= 1
        &&& unique_keys(pair_texts(self.global_options@))
        &&& self.trackers.wf()
    }

    /// Nothing but what is to be done outside differs.
    pub open spec fn same_but_effects(&self, after: TaskManager) -> bool {
        after == (TaskManager { effects: after.effects, ..*self })
    }

    /// A manager without tasks.
    pub fn new(download_dir: &str, max_concurrent: usize, place: &Place) -> (r: Self)
        ensures
            r.wf(),
            r.tasks@.len() == 0,
            r.queue@.len() == 0,
            r.active@.len() == 0,
            r.stopped_order@.len() == 0,
            r.stopped_total == 0,
            r.max_concurrent == if max_concurrent < 1 { 1 } else { max_concurrent },
            r.claims@.len() == 0,
            r.global_options@.len() == 0,
            r.download_dir@ == place.normal(download_dir@),
            r.session is None,
            r.trackers.is_blank(),
            r.effects@.len() == 0,
    {
        TaskManager {
            tasks: Vec::new(),
            queue: Vec::new(),
            active: Vec::new(),
            stopped_order: Vec::new(),
            stopped_total: 0,
            max_concurrent: if max_concurrent < 1 { 1 } else { max_concurrent },
            claims: Vec::new(),
            global_options: Vec::new(),
            download_dir: normalize_dir(download_dir, place),
            session: None,
            trackers: TrackerBook::new(),
            effects: Vec::new(),
        }
    }

    /// Place of a task.
    pub fn find(&self, gid: &str) -> (r: Option<usize>)
        ensures
            match r {
                Some(k) => k == task_at(self.tasks@, gid@) && k < self.tasks@.len() && self.tasks@[k as int].gid@
                    == gid@,
                None => !has_task(self.tasks@, gid@) && !is_named(self.tasks@, gid@),
            },
    {
        let ghost all = keyed(self.tasks@);
        let mut i: usize = 0;
        while i < self.tasks.len()
            invariant
                i <= self.tasks@.len(),
                all == keyed(self.tasks@),
                forall|j: int| 0 <= j < i ==> (#[trigger] all[j]).0 != gid@,
            decreases self.tasks@.len() - i,
        {
            if crate::text::same_str(self.tasks[i].gid.as_str(), gid) {
                proof {
                    lemma_key_at(all, gid@, i as int);
                }
                return Some(i);
            }
            assert(all[i as int].0 != gid@);
            i = i + 1;
        }
        proof {
            lemma_key_at(all, gid@, i as int);
            lemma_task_at(self.tasks@, gid@);
        }
        None
    }

    /// Place of a task that a request names.
    pub fn task_of(&self, gid: &str) -> (r: Result<usize, String>)
        ensures
            match r {
                Ok(k) => k == task_at(self.tasks@, gid@) && k < self.tasks@.len() && self.tasks@[k as int].gid@
                    == gid@,
                Err(m) => !has_task(self.tasks@, gid@) && !is_named(self.tasks@, gid@) && m@
                    == unknown_gid(gid@),
            },
    {
        match self.find(gid) {
            Some(k) => Ok(k),
            None => {
                let head = joined("GID ", gid);
                Err(joined(head.as_str(), " 不存在"))
            },
        }
    }

    /// Notes something to be done outside.
    pub fn note(&mut self, e: Effect)
        ensures
            final(self).effects@ == old(self).effects@.push(e),
            old(self).same_but_effects(*final(self)),
            old(self).wf() ==> final(self).wf(),
    {
        self.effects.push(e);
    }

    /// Hands over what is to be done outside.
    pub fn take_effects(&mut self) -> (r: Vec<Effect>)
        ensures
            r@ == old(self).effects@,
            final(self).effects@.len() == 0,
            old(self).same_but_effects(*final(self)),
            old(self).wf() ==> final(self).wf(),
    {
        let mut none: Vec<Effect> = Vec::new();
        std::mem::swap(&mut self.effects, &mut none);
        none
    }

    /// Whether neither a task nor a worker has this name.
    pub open spec fn is_free(&self, gid: Seq<char>) -> bool {
        !is_named(self.tasks@, gid) && !string_texts(self.active@).contains(gid)
    }

    /// The name that was drawn, unless a task or a worker has it.
    pub fn unused_gid(&self, drawn: Option<String>) -> (r: Option<String>)
        ensures
            match drawn {
                Some(g) => if self.is_free(g@) {
                    r == Some(g)
                } else {
                    r is None
                },
                None => r is None,
            },
    {
        match drawn {
            Some(g) => match self.find(g.as_str()) {
                Some(k) => {
                    assert(self.tasks@[k as int].gid@ == g@);
                    None
                },
                None => if holds(&self.active, g.as_str()) {
                    None
                } else {
                    Some(g)
                },
            },
            None => None,
        }
    }

    /// A name that no task and no worker has. None means that the system has no random source, or that
    /// the name drawn is taken.
    pub fn fresh_gid(&self) -> (r: Option<String>)
        ensures
            r is Some ==> is_hex_name(r->0@) && self.is_free(r->0@),
    {
        self.unused_gid(generate_id())
    }

    /// What the manager is after a new task came in.
    pub open spec fn gained(&self, after: TaskManager, gid: String, position: Option<i64>) -> bool {
        &&& after.tasks@.len() == self.tasks@.len() + 1
        &&& after.tasks@.drop_last() == self.tasks@
        &&& after.tasks@.last().gid == gid
        &&& after.tasks@.last().is_new(gid, after.tasks@.last().dir, after.tasks@.last().options)
        &&& after.queue@ == placed(self.queue@, gid, position)
        &&& after.effects@ == self.effects@.push(Effect::Kick).push(Effect::Save)
        &&& after == (TaskManager {
            tasks: after.tasks,
            queue: after.queue,
            effects: after.effects,
            ..*self
        })
    }

    /// Takes a new task in and queues it.
    fn take_in(&mut self, t: Task, position: Option<i64>)
        requires
            old(self).wf(),
            old(self).is_free(t.gid@),
            task_fine(t),
            t.is_new(t.gid, t.dir, t.options),
        ensures
            final(self).wf(),
            old(self).gained(*final(self), t.gid, position),
            final(self).tasks@.last() == t,
    {
        let ghost before = *self;
        let gid = t.gid.clone();
        match position {
            Some(p) => {
                if p >= 0 {
                    let n: usize = self.queue.len();
                    let at: usize = if (p as u64) < (n as u64) { p as usize } else { n };
                    self.queue.insert(at, gid);
                } else {
                    self.queue.push(gid);
                }
            },
            None => {
                self.queue.push(gid);
            },
        }
        self.tasks.push(t);
        proof {
            let q1 = string_texts(before.queue@);
            let q2 = string_texts(self.queue@);
            lemma_placed(before.queue@, t.gid, position);
            assert(self.queue@ == placed(before.queue@, t.gid, position));
            let st = string_texts(before.stopped_order@);
            lemma_sound_push(before.tasks@, q1, string_texts(before.active@), st, t, q2, st);
            assert(self.tasks@.drop_last() =~= before.tasks@);
        }
        self.note(Effect::Kick);
        self.note(Effect::Save);
    }

    /// What the manager is after a request to download from some addresses.
    pub open spec fn adds_uris(
        &self,
        after: TaskManager,
        uris: Vec<String>,
        options: Json,
        position: Option<i64>,
        gid: String,
        env: Env,
        r: Result<(), String>,
    ) -> bool {
        &&& uris@.len() == 0 ==> fails(r, "uris 为空"@) && after == *self
        &&& uris@.len() > 0 ==> {
            let t = after.tasks@.last();
            &&& r is Ok
            &&& self.gained(after, gid, position)
            &&& t.uris == uris
            &&& !t.is_bt_spec()
            &&& t.dir@ == chosen_dir(options@, self.download_dir@, env)
            &&& crate::config::opt_view(t.out) == options@.at("out"@).text()
            &&& opt_pair(t.checksum) == match options@.at("checksum"@).text() {
                Some(c) => checksum_of(c, pair_texts(env.hash_names@)),
                None => None,
            }
            &&& pair_texts(t.options@) == options_after(Seq::empty(), options.entries())
            &&& t.uri_states@ == Seq::new(uris@.len(), |i: int| crate::task::UriState::Waiting)
            &&& t.bt_trackers@.len() == 0
            &&& t.shared.total_len is None
            &&& t.shared.file_len == 0
            &&& t.shared.filename is None
        }
    }

    /// Adds a download that can be had at any of some addresses. `gid` is the name of
    /// the new task. A list with a magnet link in it, which `magnet_among` finds, is a
    /// download of that link instead.
    pub fn add_uri(
        &mut self,
        uris: Vec<String>,
        options: &Json,
        position: Option<i64>,
        gid: String,
        env: &Env,
    ) -> (r: Result<(), String>)
        requires
            old(self).wf(),
            old(self).is_free(gid@),
            first_magnet(string_texts(uris@)) is None,
        ensures
            final(self).wf(),
            old(self).adds_uris(*final(self), uris, *options, position, gid, *env, r),
    {
        proof {
            lemma_task_at(self.tasks@, gid@);
        }
        if uris.len() == 0 {
            return Err("uris 为空".to_owned());
        }
        let dir = self.dir_for(options, env);
        let out = match options.text_of("out") {
            Some(o) => Some(o.clone()),
            None => None,
        };
        let checksum = match options.text_of("checksum") {
            Some(c) => parse_checksum_option(c.as_str(), &env.hash_names),
            None => None,
        };
        let opts = options_of(options);
        let t = Task::new(gid, uris, dir, out, checksum, opts);
        self.take_in(t, position);
        Ok(())
    }

    fn dir_for(&self, options: &Json, env: &Env) -> (r: String)
        ensures
            r@ == chosen_dir(options@, self.download_dir@, *env),
    {
        match options.text_of("dir") {
            Some(d) => normalize_dir(d.as_str(), &env.place),
            None => self.download_dir.clone(),
        }
    }

    /// What the manager is after a torrent came in.
    pub open spec fn adds_torrent(
        &self,
        after: TaskManager,
        meta: TorrentMeta,
        options: Json,
        position: Option<i64>,
        gid: String,
        env: Env,
    ) -> bool {
        let t = after.tasks@.last();
        &&& self.gained(after, gid, position)
        &&& t.bt_meta == Some(meta)
        &&& t.bt_info_hash is None
        &&& t.uris@.len() == 0
        &&& t.uri_states@.len() == 0
        &&& t.out is None
        &&& t.checksum is None
        &&& t.bt_trackers@.len() == 0
        &&& t.dir@ == chosen_dir(options@, self.download_dir@, env)
        &&& pair_texts(t.options@) == options_after(Seq::empty(), options.entries())
        &&& t.shared.total_len == Some(meta.info.total() as u64)
        &&& t.shared.file_len == meta.info.total()
        &&& t.shared.filename == Some(meta.info.name)
    }

    /// Adds a download of a torrent.
    pub fn add_torrent(
        &mut self,
        meta: TorrentMeta,
        options: &Json,
        position: Option<i64>,
        gid: String,
        env: &Env,
    )
        requires
            old(self).wf(),
            old(self).is_free(gid@),
            meta.info.wf(),
        ensures
            final(self).wf(),
            old(self).adds_torrent(*final(self), meta, *options, position, gid, *env),
    {
        proof {
            lemma_task_at(self.tasks@, gid@);
        }
        let dir = self.dir_for(options, env);
        let opts = options_of(options);
        let t = Task::new_torrent(gid, dir, meta, opts);
        self.take_in(t, position);
    }

    /// What the manager is after a magnet link came in.
    pub open spec fn adds_magnet(
        &self,
        after: TaskManager,
        info_hash: Vec<u8>,
        trackers: Vec<String>,
        display_name: Option<String>,
        options: Json,
        position: Option<i64>,
        gid: String,
        env: Env,
    ) -> bool {
        let t = after.tasks@.last();
        &&& self.gained(after, gid, position)
        &&& t.bt_meta is None
        &&& t.bt_info_hash == Some(info_hash)
        &&& t.bt_trackers == trackers
        &&& t.uris@.len() == 0
        &&& t.uri_states@.len() == 0
        &&& t.out is None
        &&& t.checksum is None
        &&& t.dir@ == chosen_dir(options@, self.download_dir@, env)
        &&& pair_texts(t.options@) == options_after(Seq::empty(), options.entries())
        &&& t.shared.total_len is None
        &&& t.shared.file_len == 0
        &&& t.shared.filename == display_name
    }

    /// Adds a download of a magnet link.
    pub fn add_magnet(
        &mut self,
        info_hash: Vec<u8>,
        trackers: Vec<String>,
        display_name: Option<String>,
        options: &Json,
        position: Option<i64>,
        gid: String,
        env: &Env,
    )
        requires
            old(self).wf(),
            old(self).is_free(gid@),
        ensures
            final(self).wf(),
            old(self).adds_magnet(*final(self), info_hash, trackers, display_name, *options, position, gid, *env),
    {
        proof {
            lemma_task_at(self.tasks@, gid@);
        }
        let dir = self.dir_for(options, env);
        let opts = options_of(options);
        let t = Task::new_magnet(gid, dir, info_hash, trackers, display_name, opts);
        self.take_in(t, position);
    }
}

/// The options that an object holds for a new task.
fn options_of(options: &Json) -> (r: Vec<(String, String)>)
    ensures
        pair_texts(r@) == options_after(Seq::empty(), options.entries()),
        unique_keys(pair_texts(r@)),
{
    proof {
        lemma_options_unique(Seq::empty(), options.entries());
    }
    match options {
        Json::Obj(f) => collect_task_options(f),
        _ => {
            let none: Vec<Field> = Vec::new();
            assert(none@ =~= Seq::<Field>::empty());
            collect_task_options(&none)
        },
    }
}

proof fn lemma_placed(q: Seq<String>, gid: String, position: Option<i64>)
    ensures
        string_texts(placed(q, gid, position)).contains(gid@),
        forall|g: Seq<char>|
            string_texts(q).contains(g) ==> #[trigger] string_texts(placed(q, gid, position)).contains(g),
{
    let at: int = match position {
        Some(p) => if p >= 0 && p < q.len() {
            p as int
        } else {
            q.len() as int
        },
        None => q.len() as int,
    };
    let after = placed(q, gid, position);
    assert(after =~= q.insert(at, gid));
    assert(string_texts(after)[at] == gid@);
    assert forall|g: Seq<char>| string_texts(q).contains(g) implies #[trigger] string_texts(
        after,
    ).contains(g) by {
        let i = choose|i: int| 0 <= i < string_texts(q).len() && string_texts(q)[i] == g;
        let n = if i < at { i } else { i + 1 };
        assert(string_texts(after)[n] == g);
    }
}

/// A new task stands in the queue where it was asked for: at the wished place counted
/// from the front, and at the end where no place, or none that there is, was named. The
/// others keep their order.
pub proof fn law_new_task_stands_where_it_was_asked_for(
    q: Seq<String>,
    gid: String,
    position: Option<i64>,
    i: int,
)
    ensures
        ({
            let after = placed(q, gid, position);
            let at: int = if position is Some && 0 <= position->0 <= q.len() {
                position->0 as int
            } else {
                q.len() as int
            };
            &&& after.len() == q.len() + 1
            &&& after[at] == gid
            &&& 0 <= i < at ==> after[i] == q[i]
            &&& at <= i < q.len() ==> after[i + 1] == q[i]
        }),
{
}

/// The magnet link of a request is the first of its addresses that begins with the word
/// for such a link, white space aside. There is none if no address does.
pub proof fn law_first_magnet_link_counts(uris: Seq<Seq<char>>, i: int)
    requires
        0 <= i < uris.len(),
    ensures
        has_prefix(trimmed(uris[i]), "magnet:"@) && (forall|j: int|
            0 <= j < i ==> !has_prefix(trimmed(#[trigger] uris[j]), "magnet:"@)) ==> first_magnet(uris)
            == Some(uris[i]),
        has_prefix(trimmed(uris[i]), "magnet:"@) ==> first_magnet(uris) is Some,
        first_magnet(uris) is Some ==> exists|j: int|
            0 <= j < uris.len() && first_magnet(uris) == Some(uris[j]) && has_prefix(
                trimmed(#[trigger] uris[j]),
                "magnet:"@,
            ),
    decreases uris.len(),
{
    let rest = uris.skip(1);
    if !has_prefix(trimmed(uris[0]), "magnet:"@) {
        if i > 0 {
            assert(rest[i - 1] == uris[i]);
            assert forall|j: int| 0 <= j < i - 1 implies #[trigger] rest[j] == uris[j + 1] by {}
            law_first_magnet_link_counts(rest, i - 1);
        } else if rest.len() > 0 {
            law_first_magnet_link_counts(rest, 0);
        }
        if first_magnet(uris) is Some {
            assert(rest.len() > 0);
            let j = choose|j: int|
                0 <= j < rest.len() && first_magnet(rest) == Some(rest[j]) && has_prefix(
                    trimmed(#[trigger] rest[j]),
                    "magnet:"@,
                );
            assert(uris[j + 1] == rest[j]);
        }
    } else if i > 0 {
        assert(!(forall|j: int| 0 <= j < i ==> !has_prefix(trimmed(#[trigger] uris[j]), "magnet:"@))) by {
            assert(has_prefix(trimmed(uris[0]), "magnet:"@));
        }
    }
}

/// A new task of whatever kind waits for its turn, with nothing done and nothing gone
/// wrong. The tasks that were there are not touched, and neither are the slots. Clients
/// are served next, and the session is saved.
pub proof fn law_new_task_waits(m: TaskManager, after: TaskManager, gid: String, position: Option<i64>)
    requires
        m.gained(after, gid, position),
    ensures
        after.tasks@ == m.tasks@.push(after.tasks@.last()),
        after.active == m.active,
        after.stopped_order == m.stopped_order,
        after.stopped_total == m.stopped_total,
        after.global_options == m.global_options,
        after.effects@.last() is Save,
        after.effects@.contains(Effect::Kick),
        ({
            let t = after.tasks@.last();
            &&& t.gid@ == gid@
            &&& t.shared.status is Waiting
            &&& t.shared.completed == 0 && t.live.completed == 0
            &&& t.shared.error_code == 0 && t.shared.error_message@.len() == 0
            &&& t.shared.uploaded == 0 && t.shared.download_speed == 0 && t.shared.upload_speed == 0
            &&& t.shared.active_ms == 0 && t.finished_at == 0
            &&& t.intent is Unset && !t.delete_files && !t.awaiting_selection
            &&& t.selected_files is None
        }),
{
    assert(after.tasks@ =~= m.tasks@.push(after.tasks@.last()));
    assert(after.effects@[m.effects@.len() as int] is Kick);
}

/// A task for some addresses has them all, in their order and none tried. It goes to
/// the directory that its options name, else to that of the engine, and its file is
/// called as they say.
pub proof fn law_new_download_is_what_was_asked_for(
    m: TaskManager,
    after: TaskManager,
    uris: Vec<String>,
    options: Json,
    position: Option<i64>,
    gid: String,
    env: Env,
    r: Result<(), String>,
    i: int,
)
    requires
        m.adds_uris(after, uris, options, position, gid, env, r),
    ensures
        r is Ok <==> uris@.len() > 0,
        r is Err ==> after == m,
        r is Ok ==> {
            let t = after.tasks@.last();
            &&& m.gained(after, gid, position)
            &&& t.bt_meta is None && t.bt_info_hash is None
            &&& t.uris@ == uris@
            &&& t.uri_states@.len() == uris@.len()
            &&& 0 <= i < uris@.len() ==> t.uri_states@[i] is Waiting
            &&& options@.at("dir"@) is Str ==> t.dir@ == env.place.normal(options@.at("dir"@)->Str_0)
            &&& !(options@.at("dir"@) is Str) ==> t.dir@ == m.download_dir@
            &&& t.out is Some <==> options@.at("out"@) is Str
            &&& t.out is Some ==> options@.at("out"@) == JsonView::Str(t.out->0@)
            &&& !(options@.at("checksum"@) is Str) ==> t.checksum is None
            &&& t.shared.total_len is None
            &&& t.shared.filename is None
        },
        r is Ok && options@.at("checksum"@) is Str ==> opt_pair(after.tasks@.last().checksum) == checksum_of(
            options@.at("checksum"@)->Str_0,
            pair_texts(env.hash_names@),
        ),
{
}

/// A task for a torrent has what the torrent says: its name and, from the start, its
/// length. Where its data go is as for any task.
pub proof fn law_new_torrent_is_what_was_sent(
    m: TaskManager,
    after: TaskManager,
    meta: TorrentMeta,
    options: Json,
    position: Option<i64>,
    gid: String,
    env: Env,
)
    requires
        m.adds_torrent(after, meta, options, position, gid, env),
        meta.info.wf(),
    ensures
        ({
            let t = after.tasks@.last();
            &&& m.gained(after, gid, position)
            &&& t.bt_meta == Some(meta)
            &&& t.bt_info_hash is None
            &&& t.uris@.len() == 0
            &&& t.shared.total_len is Some && t.shared.total_len->0 == t.shared.file_len
            &&& t.shared.file_len as int == meta.info.total()
            &&& t.shared.filename is Some && t.shared.filename->0@ == meta.info.name@
            &&& options@.at("dir"@) is Str ==> t.dir@ == env.place.normal(options@.at("dir"@)->Str_0)
            &&& !(options@.at("dir"@) is Str) ==> t.dir@ == m.download_dir@
            &&& t.out is None && t.checksum is None
        }),
{
}

/// A task for a magnet link has the torrent's name and trackers from the link, and
/// learns of the length later.
pub proof fn law_new_magnet_is_what_was_sent(
    m: TaskManager,
    after: TaskManager,
    info_hash: Vec<u8>,
    trackers: Vec<String>,
    display_name: Option<String>,
    options: Json,
    position: Option<i64>,
    gid: String,
    env: Env,
)
    requires
        m.adds_magnet(after, info_hash, trackers, display_name, options, position, gid, env),
    ensures
        ({
            let t = after.tasks@.last();
            &&& m.gained(after, gid, position)
            &&& t.bt_meta is None
            &&& t.bt_info_hash is Some && t.bt_info_hash->0@ == info_hash@
            &&& t.bt_trackers@ == trackers@
            &&& t.uris@.len() == 0
            &&& t.shared.total_len is None
            &&& t.shared.filename == display_name
            &&& options@.at("dir"@) is Str ==> t.dir@ == env.place.normal(options@.at("dir"@)->Str_0)
            &&& !(options@.at("dir"@) is Str) ==> t.dir@ == m.download_dir@
            &&& t.out is None && t.checksum is None
        }),
{
}

} // verus!
