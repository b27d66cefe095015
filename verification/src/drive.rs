//! How an HTTP task runs: which address is tried when, where the file goes, how it is
//! transferred, and what becomes of the task's counters on the way.

use vstd::prelude::*;

use crate::errors::{is_transient_failure, HttpError, TaskFailure};
use crate::lists::holds;
use crate::manager::{has_task, lemma_sound_update, lemma_task_at, task_at, task_fine, TaskManager};
use crate::manifest::{pair_texts, string_texts};
use crate::options::{
    connections_of, counted_name, find_option, join_path, law_switches_are_on, on_by_default, option_of, path_joined,
    read_switch, rename_with_counter, split_options,
};
use crate::pieces::wrap_add;
use crate::pieces::PieceTrack;
use crate::playlist::{path_chars, path_part, PlaylistOptions, DEFAULT_SEGMENT_RETRIES};
use crate::task::{LiveCounters, Status, Task, TaskShared, UriState};
use crate::text::{
    chars_of, contains_text, dec_string, decimal, ends_with, has_suffix, holds_text, joined,
    lowered, stands_at, to_lower,
};

verus! {

/// Tries of one address, the first one counted.
pub const URI_TRANSIENT_ATTEMPTS: u32 = 3;

// ---------------------------------------------------------------------------
// Addresses
// ---------------------------------------------------------------------------

/// What a running download does next.
pub enum UriStep {
    /// Try the address at that place.
    Try(usize),
    /// Wait so many seconds, then try the address at that place again.
    Wait { index: usize, secs: u64 },
    /// End with that outcome.
    Done(Result<(), TaskFailure>),
}

/// A download that works through its addresses.
pub struct UriRun {
    /// Number of addresses.
    pub count: usize,
    /// The address that is tried.
    pub index: usize,
    /// The try that runs, from one.
    pub attempt: u32,
}

/// What is said if there is no address at all.
pub open spec fn no_address() -> Seq<char> {
    "无可用下载地址"@
}

impl UriRun {
    pub open spec fn wf(&self) -> bool {
        self.index < self.count && 1 <= self.attempt <= URI_TRANSIENT_ATTEMPTS
    }

    /// Tries that are left at most.
    pub open spec fn tries_left(&self) -> int {
        (self.count - self.index) * URI_TRANSIENT_ATTEMPTS - self.attempt
    }

    /// Starts with the first address.
    pub fn start(count: usize) -> (r: (Self, UriStep))
        ensures
            r.0 == (UriRun { count, index: 0, attempt: 1 }),
            count > 0 ==> r.1 == UriStep::Try(0) && r.0.wf(),
            count == 0 ==> match r.1 {
                UriStep::Done(Err(TaskFailure::Http(HttpError::Protocol(m)))) => m@ == no_address(),
                _ => false,
            },
    {
        let run = UriRun { count, index: 0, attempt: 1 };
        if count == 0 {
            (
                run,
                UriStep::Done(
                    Err(TaskFailure::Http(HttpError::Protocol("无可用下载地址".to_owned()))),
                ),
            )
        } else {
            (run, UriStep::Try(0))
        }
    }

    /// What the run and the next step are after a try.
    pub open spec fn follows(&self, after: UriRun, outcome: Result<(), TaskFailure>, r: UriStep) -> bool {
        match outcome {
            Ok(_) => r == UriStep::Done(outcome) && after == *self,
            Err(f) => if f.by_user() {
                r == UriStep::Done(outcome) && after == *self
            } else if f.transient() && self.attempt < URI_TRANSIENT_ATTEMPTS {
                &&& after == (UriRun { attempt: (self.attempt + 1) as u32, ..*self })
                &&& r == (UriStep::Wait {
                    index: self.index,
                    secs: if self.attempt == 1 { 1 } else { 3 },
                })
            } else if self.index + 1 < self.count {
                &&& after == (UriRun { index: (self.index + 1) as usize, attempt: 1, ..*self })
                &&& r == UriStep::Try((self.index + 1) as usize)
            } else {
                r == UriStep::Done(outcome) && after == *self
            },
        }
    }

    /// What follows from the outcome of a try. A failure that may pass is tried again
    /// at the same address, after a while; any other moves on to the next address. The
    /// last failure is the download's.
    pub fn on_outcome(&mut self, outcome: Result<(), TaskFailure>) -> (r: UriStep)
        requires
            old(self).wf(),
        ensures
            final(self).count == old(self).count,
            !(r is Done) ==> final(self).wf() && final(self).tries_left() < old(self).tries_left(),
            old(self).follows(*final(self), outcome, r),
    {
        match outcome {
            Ok(_) => UriStep::Done(outcome),
            Err(f) => {
                if f.is_cancelled() {
                    return UriStep::Done(Err(f));
                }
                if is_transient_failure(&f) && self.attempt < URI_TRANSIENT_ATTEMPTS {
                    let secs: u64 = if self.attempt == 1 { 1 } else { 3 };
                    self.attempt = self.attempt + 1;
                    return UriStep::Wait { index: self.index, secs };
                }
                if self.index + 1 < self.count {
                    self.index = self.index + 1;
                    self.attempt = 1;
                    return UriStep::Try(self.index);
                }
                UriStep::Done(Err(f))
            },
        }
    }
}

/// A download of `count` addresses makes at most three tries of each: before every try
/// the number of those left is at least zero, and every outcome lowers it or ends the
/// download.
pub proof fn law_tries_are_bounded(run: UriRun)
    requires
        run.wf(),
    ensures
        0 <= run.tries_left() < run.count * URI_TRANSIENT_ATTEMPTS,
{
}

// ---------------------------------------------------------------------------
// Routes
// ---------------------------------------------------------------------------

/// What a probe of an address found.
pub struct Probe {
    /// Length of the file, if the server says so.
    pub total_len: Option<u64>,
    /// Whether the server serves ranges.
    pub accepts_ranges: bool,
    /// File name that the server suggests.
    pub filename: Option<String>,
    /// Declared type of the content.
    pub content_type: Option<String>,
}

/// Whether playlists are taken as such: the option `hls` of the task, else of the
/// engine, and by default.
pub open spec fn takes_playlists(
    task: Seq<(Seq<char>, Seq<char>)>,
    global: Seq<(Seq<char>, Seq<char>)>,
) -> bool {
    on_by_default(option_of(task, global, "hls"@))
}

/// Whether the path of an address names a playlist.
pub open spec fn names_playlist(url: Seq<char>) -> bool {
    has_suffix(lowered(path_part(url)), ".m3u8"@)
}

/// Whether a type of content declares a playlist.
pub open spec fn declares_playlist(content_type: Option<String>) -> bool {
    match content_type {
        Some(c) => holds_text(lowered(c@), "mpegurl"@),
        None => false,
    }
}

/// Whether an address is downloaded as a playlist without a probe.
pub fn is_playlist_task(url: &str, task: &Vec<(String, String)>, global: &Vec<(String, String)>) -> (r: bool)
    ensures
        r == (takes_playlists(pair_texts(task@), pair_texts(global@)) && names_playlist(url@)),
{
    read_switch(find_option(task, global, "hls")) && ends_with(
        &to_lower(&path_chars(&chars_of(url))),
        ".m3u8",
    )
}

/// Whether what a probe found is tried as a playlist first.
pub fn sniffs_playlist(probe: &Probe, task: &Vec<(String, String)>, global: &Vec<(String, String)>) -> (r: bool)
    ensures
        r == (takes_playlists(pair_texts(task@), pair_texts(global@)) && declares_playlist(
            probe.content_type,
        )),
{
    if !read_switch(find_option(task, global, "hls")) {
        return false;
    }
    match &probe.content_type {
        Some(c) => contains_text(&to_lower(&chars_of(c.as_str())), "mpegurl"),
        None => false,
    }
}

/// Settings of a playlist download.
pub open spec fn playlist_set(
    r: PlaylistOptions,
    task: Seq<(Seq<char>, Seq<char>)>,
    global: Seq<(Seq<char>, Seq<char>)>,
) -> bool {
    &&& r.concurrency == connections_of(task, global)
    &&& r.retries == DEFAULT_SEGMENT_RETRIES
    &&& r.probe_sizes == on_by_default(
        option_of(task, global, "hls-probe-size"@),
    )
    &&& !r.prefer_worst
    &&& r.headers@.len() == 0
}

/// Settings of a playlist download: as many segments at once as a split download has
/// connections; the option `hls-probe-size` turns the probing of sizes off. Headers are
/// left to the caller.
pub fn playlist_options(task: &Vec<(String, String)>, global: &Vec<(String, String)>) -> (r: PlaylistOptions)
    ensures
        playlist_set(r, pair_texts(task@), pair_texts(global@)),
{
    PlaylistOptions {
        concurrency: split_options(task, global).connections,
        retries: DEFAULT_SEGMENT_RETRIES,
        probe_sizes: read_switch(find_option(task, global, "hls-probe-size")),
        prefer_worst: false,
        headers: Vec::new(),
    }
}

/// What comes of the end of a playlist download.
pub open spec fn playlist_ended(
    result: Result<(), HttpError>,
    sniffed: bool,
    r: Option<Result<(), TaskFailure>>,
) -> bool {
    match result {
        Ok(_) => r == Some(Ok::<(), TaskFailure>(())),
        Err(e) => if sniffed && e is NotPlaylist {
            r is None
        } else {
            r == Some(Err::<(), TaskFailure>(TaskFailure::Http(e)))
        },
    }
}

/// What follows from a playlist download: none means that the content is no playlist
/// and is downloaded as it is. That is only so where its type alone suggested a
/// playlist; an address that names one fails.
pub fn after_playlist(result: Result<(), HttpError>, sniffed: bool) -> (r: Option<Result<(), TaskFailure>>)
    ensures
        playlist_ended(result, sniffed, r),
{
    match result {
        Ok(_) => Some(Ok(())),
        Err(e) => match e {
            HttpError::NotPlaylist => if sniffed {
                None
            } else {
                Some(Err(TaskFailure::Http(HttpError::NotPlaylist)))
            },
            other => Some(Err(TaskFailure::Http(other))),
        },
    }
}

// ---------------------------------------------------------------------------
// Where the file goes
// ---------------------------------------------------------------------------

/// The file name that a task starts from: the user's, else the server's.
pub open spec fn wanted_name(out: Option<String>, suggested: Option<String>) -> Seq<char> {
    match out {
        Some(n) => n@,
        None => match suggested {
            Some(n) => n@,
            None => "download"@,
        },
    }
}

/// The `n`-th name that is tried.
pub open spec fn nth_name(base: Seq<char>, n: nat) -> Seq<char> {
    if n == 0 { base } else { counted_name(base, n) }
}

/// Whether a part of a file can be completed.
pub open spec fn can_resume(accepts_ranges: bool, existing: u64, total: Option<u64>) -> bool {
    &&& accepts_ranges
    &&& existing > 0
    &&& match total {
        Some(t) => existing < t,
        None => true,
    }
}

/// Whether a part of a file can be completed.
pub fn resumable(accepts_ranges: bool, existing: u64, total: Option<u64>) -> (r: bool)
    ensures
        r == can_resume(accepts_ranges, existing, total),
{
    accepts_ranges && existing > 0 && match total {
        Some(t) => existing < t,
        None => true,
    }
}

/// The `n`-th name that is tried for a task's file.
pub fn candidate_name(t: &Task, probe: &Probe, n: u64) -> (r: String)
    ensures
        r@ == nth_name(wanted_name(t.out, probe.filename), n as nat),
{
    let base = match &t.out {
        Some(o) => o.clone(),
        None => match &probe.filename {
            Some(f) => f.clone(),
            None => "download".to_owned(),
        },
    };
    if n == 0 {
        base
    } else {
        rename_with_counter(base.as_str(), n)
    }
}

impl TaskManager {
    /// What comes of the wish to write a task's file at a place.
    pub open spec fn claims_place(
        &self,
        after: TaskManager,
        gid: Seq<char>,
        name: String,
        existing: u64,
        probe: Probe,
        r: Option<String>,
    ) -> bool {
        let k = task_at(self.tasks@, gid);
        let t = self.tasks@[k];
        let path = path_joined(t.dir@, name@);
        let free = !string_texts(self.claims@).contains(path) && (existing == 0
            || can_resume(probe.accepts_ranges, existing, probe.total_len));
        &&& !free ==> r is None && after == *self
        &&& free ==> {
            let t2 = after.tasks@[k];
            &&& r is Some && r->0@ == path
            &&& after.tasks@ == self.tasks@.update(
                k,
                Task {
                    shared: TaskShared { path: r, filename: Some(name), ..t.shared },
                    ..t
                },
            )
            &&& string_texts(after.claims@) == string_texts(self.claims@).push(path)
            &&& after == (TaskManager {
                tasks: after.tasks,
                claims: after.claims,
                ..*self
            })
        }
    }

    /// Claims a place for a task's file, if no other task writes there and nothing but
    /// a part of the same file is there already. `existing` is the length of what is
    /// there.
    pub fn claim(&mut self, gid: &str, name: String, existing: u64, probe: &Probe) -> (r: Option<String>)
        requires
            old(self).wf(),
            has_task(old(self).tasks@, gid@),
        ensures
            final(self).wf(),
            old(self).claims_place(*final(self), gid@, name, existing, *probe, r),
    {
        let ghost before = *self;
        proof {
            lemma_task_at(before.tasks@, gid@);
        }
        let k: usize = match self.find(gid) {
            Some(k) => k,
            None => {
                return None;
            },
        };
        let path = join_path(self.tasks[k].dir.as_str(), name.as_str());
        if holds(&self.claims, path.as_str()) {
            return None;
        }
        if existing > 0 && !resumable(probe.accepts_ranges, existing, probe.total_len) {
            return None;
        }
        self.claims.push(path.clone());
        assert(string_texts(self.claims@) =~= string_texts(before.claims@).push(path@));
        self.tasks[k].shared.path = Some(path.clone());
        self.tasks[k].shared.filename = Some(name);
        proof {
            let t = self.tasks@[k as int];
            let q = string_texts(before.queue@);
            let act = string_texts(before.active@);
            let st = string_texts(before.stopped_order@);
            assert(task_fine(before.tasks@[k as int]));
            assert(self.tasks@ =~= before.tasks@.update(k as int, t));
            lemma_sound_update(before.tasks@, q, act, st, k as int, t, q, act, st);
        }
        Some(path)
    }
}

// ---------------------------------------------------------------------------
// The transfer
// ---------------------------------------------------------------------------

/// How a file is transferred.
#[derive(Debug, Clone, Copy, PartialEq, Eq, Structural)]
pub enum Transfer {
    /// The file is there.
    Complete { total: u64 },
    /// Over several connections.
    Split { total: u64 },
    /// Over one connection, behind what is there.
    Resume { from: u64 },
    /// Over one connection, from the start.
    Fresh,
}

/// How a file is transferred. `existing` is the length of what is there, `has_ctrl`
/// whether a control file belongs to it. A server that ignored a range is not trusted
/// with ranges again.
pub open spec fn transfer_of(probe: Probe, existing: u64, has_ctrl: bool, distrusted: bool) -> Transfer {
    if !distrusted && probe.accepts_ranges && probe.total_len is Some && probe.total_len->0 > 0 {
        let total = probe.total_len->0;
        if !has_ctrl && existing == total {
            Transfer::Complete { total }
        } else {
            Transfer::Split { total }
        }
    } else if !distrusted && can_resume(probe.accepts_ranges, existing, probe.total_len) {
        Transfer::Resume { from: existing }
    } else {
        Transfer::Fresh
    }
}

/// How a file is transferred.
pub fn plan_transfer(probe: &Probe, existing: u64, has_ctrl: bool, distrusted: bool) -> (r: Transfer)
    ensures
        r == transfer_of(*probe, existing, has_ctrl, distrusted),
{
    if distrusted {
        return Transfer::Fresh;
    }
    if probe.accepts_ranges {
        match probe.total_len {
            Some(total) => {
                if total > 0 {
                    return if !has_ctrl && existing == total {
                        Transfer::Complete { total }
                    } else {
                        Transfer::Split { total }
                    };
                }
            },
            None => {},
        }
    }
    if resumable(probe.accepts_ranges, existing, probe.total_len) {
        Transfer::Resume { from: existing }
    } else {
        Transfer::Fresh
    }
}

/// What follows a transfer over several connections.
pub enum SplitEnd {
    /// The file is there.
    Finished,
    /// The server does not serve ranges: transfer from the start, over one connection.
    Single,
    Failed(TaskFailure),
}

/// What is said of a transfer that ended too early.
pub open spec fn cut_short(completed: u64, total: u64) -> Seq<char> {
    "传输不完整: "@ + decimal(completed as nat) + "/"@ + decimal(total as nat)
}

/// What a failed comparison with a checksum means for the task.
pub fn checksum_outcome(result: Result<(), String>) -> (r: Result<(), TaskFailure>)
    ensures
        r == match result {
            Ok(_) => Ok::<(), TaskFailure>(()),
            Err(m) => Err::<(), TaskFailure>(TaskFailure::Checksum(m)),
        },
{
    match result {
        Ok(_) => Ok(()),
        Err(m) => Err(TaskFailure::Checksum(m)),
    }
}

/// Whether a task differs from another in nothing that its place in the manager's lists
/// depends on.
pub open spec fn same_standing(a: Task, b: Task) -> bool {
    &&& b.gid == a.gid
    &&& b.options == a.options
    &&& b.shared.status == a.shared.status
    &&& b.shared.active_since == a.shared.active_since
    &&& a.wf() ==> b.wf()
}

/// The length of a task's file, as a transfer finds it.
pub open spec fn length_found(sh: TaskShared, total: Option<u64>) -> TaskShared {
    match total {
        Some(t) => TaskShared { total_len: Some(t), file_len: t, ..sh },
        None => sh,
    }
}

/// Progress of a task as a transfer reports it.
pub open spec fn progressed(t: Task, completed: u64, connections: u64) -> Task {
    Task {
        shared: TaskShared { completed, connections: connections as usize, ..t.shared },
        live: LiveCounters { completed, connections, ..t.live },
        ..t
    }
}

impl Task {
    /// What is known once an address was probed.
    pub open spec fn probed(&self, after: Task, idx: int, probe: Probe) -> bool {
        &&& after == (Task {
            uri_states: after.uri_states,
            shared: length_found(self.shared, probe.total_len),
            ..*self
        })
        &&& after.uri_states@ == if idx < self.uri_states@.len() {
            self.uri_states@.update(idx, UriState::Used)
        } else {
            self.uri_states@
        }
    }

    /// Notes what a probe of the address at place `idx` found.
    pub fn on_probe(&mut self, idx: usize, probe: &Probe)
        ensures
            same_standing(*old(self), *final(self)),
            old(self).probed(*final(self), idx as int, *probe),
    {
        self.mark_uri_used(idx);
        match probe.total_len {
            Some(t) => {
                self.shared.total_len = Some(t);
                self.shared.file_len = t;
            },
            None => {},
        }
    }

    /// Notes that the whole file is there.
    pub fn on_complete_file(&mut self, total: u64)
        ensures
            same_standing(*old(self), *final(self)),
            *final(self) == (Task {
                shared: TaskShared { completed: total, ..old(self).shared },
                live: LiveCounters { completed: total, ..old(self).live },
                ..*old(self)
            }),
    {
        self.shared.completed = total;
        self.live.completed = total;
    }

    /// Notes progress while several connections transfer, with the piece map as it is.
    pub fn on_sample(&mut self, completed: u64, connections: u64, pieces: Option<PieceTrack>)
        requires
            pieces is Some ==> pieces->0.wf(),
        ensures
            same_standing(*old(self), *final(self)),
            *final(self) == (Task {
                live: LiveCounters { completed, connections, ..old(self).live },
                http_pieces: pieces,
                ..*old(self)
            }),
    {
        self.live.completed = completed;
        self.live.connections = connections;
        self.http_pieces = pieces;
    }

    /// What comes of the end of a transfer over several connections.
    pub open spec fn split_ended(
        &self,
        after: Task,
        total: u64,
        done: u64,
        result: Result<(), HttpError>,
        r: SplitEnd,
    ) -> bool {
        match result {
            Ok(_) => r is Finished && after == progressed(*self, total, 0),
            Err(e) => if e is NotSplittable {
                r is Single && after == *self
            } else {
                r == SplitEnd::Failed(TaskFailure::Http(e)) && after == progressed(
                    *self,
                    done,
                    0,
                )
            },
        }
    }

    /// Notes the end of a transfer over several connections, of which `done` bytes are
    /// on disk.
    pub fn on_split_end(&mut self, total: u64, done: u64, result: Result<(), HttpError>) -> (r: SplitEnd)
        ensures
            same_standing(*old(self), *final(self)),
            old(self).split_ended(*final(self), total, done, result, r),
    {
        match result {
            Ok(_) => {
                self.put_progress(total, 0);
                SplitEnd::Finished
            },
            Err(e) => match e {
                HttpError::NotSplittable(_) => SplitEnd::Single,
                other => {
                    self.put_progress(done, 0);
                    SplitEnd::Failed(TaskFailure::Http(other))
                },
            },
        }
    }

    fn put_progress(&mut self, completed: u64, connections: usize)
        ensures
            *final(self) == progressed(*old(self), completed, connections as u64),
    {
        self.shared.completed = completed;
        self.shared.connections = connections;
        self.live.completed = completed;
        self.live.connections = connections as u64;
    }

    /// Notes that a transfer over one connection begins behind `base` bytes.
    pub fn on_begin(&mut self, base: u64)
        ensures
            same_standing(*old(self), *final(self)),
            *final(self) == progressed(*old(self), base, 1),
    {
        self.put_progress(base, 1);
    }

    /// Notes that the file has grown to `position` bytes.
    pub fn on_chunk(&mut self, position: u64)
        ensures
            same_standing(*old(self), *final(self)),
            *final(self) == (Task {
                live: LiveCounters { completed: position, ..old(self).live },
                ..*old(self)
            }),
    {
        self.live.completed = position;
    }

    /// What comes of the end of a transfer over one connection.
    pub open spec fn body_ended(&self, after: Task, total: Option<u64>, r: Result<(), TaskFailure>) -> bool {
        &&& after == (Task {
            shared: TaskShared {
                completed: self.completed_now(),
                ..length_found(self.shared, total)
            },
            ..*self
        })
        &&& match after.shared.total_len {
            Some(t) => if self.completed_now() < t {
                match r {
                    Err(TaskFailure::Http(HttpError::Protocol(m))) => m@ == cut_short(
                        self.completed_now(),
                        t,
                    ),
                    _ => false,
                }
            } else {
                r is Ok
            },
            None => r is Ok,
        }
    }

    /// Notes the end of a transfer over one connection. `total` is the length that the
    /// answer declared. A file that is shorter than its length is a failure.
    pub fn on_body_end(&mut self, total: Option<u64>) -> (r: Result<(), TaskFailure>)
        ensures
            same_standing(*old(self), *final(self)),
            old(self).body_ended(*final(self), total, r),
    {
        let completed: u64 = self.completed_live();
        match total {
            Some(t) => {
                self.shared.total_len = Some(t);
                self.shared.file_len = t;
            },
            None => {},
        }
        self.shared.completed = completed;
        match self.shared.total_len {
            Some(t) => if completed < t {
                let head = joined("传输不完整: ", dec_string(completed).as_str());
                let mid = joined(head.as_str(), "/");
                Err(TaskFailure::Http(HttpError::Protocol(joined(mid.as_str(), dec_string(t).as_str()))))
            } else {
                Ok(())
            },
            None => Ok(()),
        }
    }
}

/// A manager stays sound when the progress of a task is noted.
pub proof fn law_progress_keeps_the_manager_sound(m: TaskManager, after: TaskManager, k: int, t: Task)
    requires
        m.wf(),
        0 <= k < m.tasks@.len(),
        same_standing(m.tasks@[k], t),
        after.tasks@ == m.tasks@.update(k, t),
        after == (TaskManager { tasks: after.tasks, ..m }),
    ensures
        after.wf(),
{
    let q = string_texts(m.queue@);
    let act = string_texts(m.active@);
    let st = string_texts(m.stopped_order@);
    assert(task_fine(m.tasks@[k]));
    lemma_sound_update(m.tasks@, q, act, st, k, t, q, act, st);
}

// ---------------------------------------------------------------------------
// Speed
// ---------------------------------------------------------------------------

/// Seconds that a speed is taken over.
pub const SPEED_WINDOW: u64 = 3;

/// Measures the speed of a task once a second.
pub struct SpeedMeter {
    /// Bytes moved at the start of the window.
    pub moved: u64,
    /// Bytes sent at the start of the window.
    pub sent: u64,
    /// Seconds in the window.
    pub samples: u64,
    /// Bytes completed a second ago.
    pub completed: u64,
}

/// Difference of two counters, zero if the later one is smaller.
pub open spec fn gain(now: u64, before: u64) -> u64 {
    if now > before { (now - before) as u64 } else { 0 }
}

/// Bytes that a task moved: what a BitTorrent task received, since its pieces reach the
/// disk in bursts, and what any other task completed.
pub open spec fn moved_bytes(t: Task) -> u64 {
    if t.is_bt_spec() { t.live.received } else { t.completed_now() }
}

fn moved_by(t: &Task) -> (r: u64)
    ensures
        r == moved_bytes(*t),
{
    if t.is_bt() {
        t.received_live()
    } else {
        t.completed_live()
    }
}

/// A task whose average counts one second more.
pub open spec fn averaged(t: Task, before: u64) -> Task {
    if t.shared.status is Active {
        Task {
            avg_active_ms: wrap_add(t.avg_active_ms as int, 1000) as u64,
            avg_bytes: wrap_add(t.avg_bytes as int, gain(t.completed_now(), before) as int) as u64,
            ..t
        }
    } else {
        t
    }
}

impl SpeedMeter {
    pub open spec fn wf(&self) -> bool {
        self.samples < SPEED_WINDOW
    }

    pub fn new(t: &Task) -> (r: Self)
        ensures
            r.wf(),
            r == (SpeedMeter {
                moved: moved_bytes(*t),
                sent: t.uploaded_now(),
                samples: 1,
                completed: t.completed_now(),
            }),
    {
        SpeedMeter {
            moved: moved_by(t),
            sent: t.uploaded_live(),
            samples: 1,
            completed: t.completed_live(),
        }
    }

    /// What the meter and the task are after a second.
    pub open spec fn ticks(&self, after: SpeedMeter, t: Task, u: Task) -> bool {
        let n = self.samples + 1;
        let base = averaged(t, self.completed);
        &&& after.completed == t.completed_now()
        &&& if n >= SPEED_WINDOW {
            &&& u == (Task {
                live: LiveCounters {
                    speed: (gain(moved_bytes(t), self.moved) as int / n) as u64,
                    upload_speed: (gain(t.uploaded_now(), self.sent) as int / n) as u64,
                    ..base.live
                },
                ..base
            })
            &&& after.moved == moved_bytes(t)
            &&& after.sent == t.uploaded_now()
            &&& after.samples == 0
        } else {
            &&& u == base
            &&& after.moved == self.moved
            &&& after.sent == self.sent
            &&& after.samples == n
        }
    }

    /// A second has passed. At the end of a window the speeds are what was moved and
    /// sent in it, per second.
    pub fn tick(&mut self, t: &mut Task)
        requires
            old(self).wf(),
        ensures
            final(self).wf(),
            same_standing(*old(t), *final(t)),
            old(self).ticks(*final(self), *old(t), *final(t)),
    {
        let completed: u64 = t.completed_live();
        match t.shared.status {
            Status::Active => {
                let more: u64 = if completed > self.completed { completed - self.completed } else { 0 };
                t.avg_active_ms = t.avg_active_ms.wrapping_add(1000);
                t.avg_bytes = t.avg_bytes.wrapping_add(more);
            },
            _ => {},
        }
        self.completed = completed;
        self.samples = self.samples + 1;
        if self.samples >= SPEED_WINDOW {
            let moved: u64 = moved_by(t);
            let sent: u64 = t.uploaded_live();
            let down: u64 = if moved > self.moved { moved - self.moved } else { 0 };
            let up: u64 = if sent > self.sent { sent - self.sent } else { 0 };
            t.live.speed = down / self.samples;
            t.live.upload_speed = up / self.samples;
            self.moved = moved;
            self.sent = sent;
            self.samples = 0;
        }
    }
}

// ---------------------------------------------------------------------------
// What a run does
// ---------------------------------------------------------------------------

/// A failure that may pass is tried again at the same address, twice, after one second and
/// after three; then, and after any other failure, the next address is tried. The run ends
/// with success, when the user stops it, or with the failure of the last address.
pub proof fn law_addresses_are_tried_in_turn(
    run: UriRun,
    after: UriRun,
    outcome: Result<(), TaskFailure>,
    r: UriStep,
)
    requires
        run.wf(),
        run.follows(after, outcome, r),
    ensures
        after.count == run.count,
        outcome is Ok ==> r == UriStep::Done(outcome),
        outcome is Err && outcome->Err_0.by_user() ==> r == UriStep::Done(outcome),
        outcome is Err && !outcome->Err_0.by_user() ==> {
            let again = outcome->Err_0.transient();
            &&& (again && run.attempt == 1 ==> r == (UriStep::Wait { index: run.index, secs: 1 })
                && after.index == run.index && after.attempt == 2)
            &&& (again && run.attempt == 2 ==> r == (UriStep::Wait { index: run.index, secs: 3 })
                && after.index == run.index && after.attempt == 3)
            &&& (!again || run.attempt == 3 ==> if run.index + 1 < run.count {
                r == UriStep::Try((run.index + 1) as usize) && after.index == run.index + 1
                    && after.attempt == 1
            } else {
                r == UriStep::Done(outcome)
            })
        },
{
}

/// Ranges are used where the server serves them, the length is known and nothing speaks
/// against it. A file of the full length without a control file is complete; a part is
/// completed from its end; anything else starts anew. A server that ignored a range is
/// never asked for one again.
pub proof fn law_transfer_fits_the_server(p: Probe, existing: u64, has_ctrl: bool, distrusted: bool)
    ensures
        ({
            let r = transfer_of(p, existing, has_ctrl, distrusted);
            let known = p.total_len is Some && p.total_len->0 > 0;
            &&& (distrusted || !p.accepts_ranges ==> r is Fresh)
            &&& (!distrusted && p.accepts_ranges && known && (has_ctrl || existing != p.total_len->0)
                ==> r == (Transfer::Split { total: p.total_len->0 }))
            &&& (!distrusted && p.accepts_ranges && known && !has_ctrl && existing == p.total_len->0
                ==> r == (Transfer::Complete { total: p.total_len->0 }))
            &&& (!distrusted && p.accepts_ranges && p.total_len is None && existing > 0 ==> r
                == (Transfer::Resume { from: existing }))
            &&& (existing == 0 && !known ==> r is Fresh)
        }),
{
}

/// A part of a file can be completed only where there is a part, the server serves ranges,
/// and the part is shorter than the whole.
pub proof fn law_only_a_part_is_resumed(accepts: bool, existing: u64, total: Option<u64>)
    ensures
        can_resume(accepts, existing, total) ==> accepts && existing > 0,
        can_resume(accepts, existing, total) && total is Some ==> existing < total->0,
        accepts && existing > 0 && total is None ==> can_resume(accepts, existing, total),
        accepts && existing > 0 && total is Some && existing < total->0 ==> can_resume(
            accepts,
            existing,
            total,
        ),
{
}

/// The name that the user asked for goes before the one that the server suggests; without
/// either a file is called a download.
pub proof fn law_users_name_goes_first(out: Option<String>, suggested: Option<String>)
    ensures
        out is Some ==> wanted_name(out, suggested) == out->0@,
        out is None && suggested is Some ==> wanted_name(out, suggested) == suggested->0@,
        out is None && suggested is None ==> wanted_name(out, suggested) == "download"@,
        nth_name(wanted_name(out, suggested), 0) == wanted_name(out, suggested),
{
}

/// An address names a playlist by the end of its path, in either case, whatever query
/// follows it.
pub proof fn law_playlist_is_told_by_its_path(path: Seq<char>, query: Seq<char>)
    requires
        !path.contains('?'),
        !path.contains('#'),
    ensures
        names_playlist(path) <==> has_suffix(lowered(path), ".m3u8"@),
        names_playlist(path + seq!['?'] + query) == names_playlist(path),
        names_playlist(path + seq!['#'] + query) == names_playlist(path),
{
    lemma_path(path, Seq::empty());
    assert(path + Seq::<char>::empty() =~= path);
    let a = seq!['?'] + query;
    let b = seq!['#'] + query;
    assert(path + seq!['?'] + query =~= path + a);
    assert(path + seq!['#'] + query =~= path + b);
    lemma_path(path, a);
    lemma_path(path, b);
}

proof fn lemma_path(path: Seq<char>, rest: Seq<char>)
    requires
        !path.contains('?'),
        !path.contains('#'),
        rest.len() > 0 ==> rest[0] == '?' || rest[0] == '#',
    ensures
        path_part(path + rest) == path,
    decreases path.len(),
{
    let s = path + rest;
    if path.len() == 0 {
        assert(s =~= rest);
        assert(path =~= Seq::<char>::empty());
    } else {
        assert(path[0] != '?' && path[0] != '#');
        let t = path.skip(1);
        assert forall|c: char| t.contains(c) implies path.contains(c) by {
            let i = choose|i: int| 0 <= i < t.len() && t[i] == c;
            assert(path[i + 1] == c);
        }
        lemma_path(t, rest);
        assert(s.skip(1) =~= t + rest);
        assert(s[0] == path[0]);
        assert(seq![path[0]] + t =~= path);
    }
}

/// A task shows the progress that a transfer reports, over as many connections as it
/// reports.
pub proof fn law_progress_is_what_is_reported(t: Task, completed: u64, connections: u64)
    requires
        connections <= usize::MAX,
    ensures
        ({
            let u = progressed(t, completed, connections);
            &&& u.shared.completed == completed && u.live.completed == completed
            &&& u.completed_now() == completed
            &&& u.connections_now() == connections
            &&& u.gid == t.gid && u.shared.total_len == t.shared.total_len && u.shared.status
                == t.shared.status
        }),
{
}

/// The speed at the end of a window is what was moved in it per second, rounded down; so is
/// the speed of what was sent. Within a window the speed stays.
pub proof fn law_speed_is_moved_bytes_per_second(m: SpeedMeter, after: SpeedMeter, t: Task, u: Task)
    requires
        m.wf(),
        m.ticks(after, t, u),
    ensures
        m.samples == 2 ==> {
            let moved = if moved_bytes(t) > m.moved { moved_bytes(t) - m.moved } else { 0 };
            let sent = if t.uploaded_now() > m.sent { t.uploaded_now() - m.sent } else { 0 };
            &&& 3 * u.live.speed <= moved < 3 * (u.live.speed + 1)
            &&& 3 * u.live.upload_speed <= sent < 3 * (u.live.upload_speed + 1)
            &&& after.samples == 0 && after.moved == moved_bytes(t) && after.sent == t.uploaded_now()
        },
        m.samples < 2 ==> u.live == t.live && after.samples == m.samples + 1 && after.moved == m.moved
            && after.sent == m.sent,
        after.completed == t.completed_now(),
        u.shared == t.shared,
{
    if m.samples == 2 {
        let g = gain(moved_bytes(t), m.moved) as int;
        let h = gain(t.uploaded_now(), m.sent) as int;
        let n = m.samples + 1;
        assert(n == 3);
        assert(0 <= g / n <= g && 0 <= h / n <= h) by (nonlinear_arith)
            requires
                n == 3,
                g >= 0,
                h >= 0,
        ;
        assert(3 * (g / n) <= g < 3 * (g / n + 1) && 3 * (h / n) <= h < 3 * (h / n + 1)) by (nonlinear_arith)
            requires
                n == 3,
        ;
    }
}

/// The average counts the seconds that a task is active, and what it completed in each.
pub proof fn law_average_counts_active_seconds(m: SpeedMeter, after: SpeedMeter, t: Task, u: Task)
    requires
        m.wf(),
        m.ticks(after, t, u),
        t.avg_active_ms < 0x8000_0000_0000_0000,
        t.avg_bytes + t.completed_now() <= u64::MAX,
    ensures
        t.shared.status is Active ==> u.avg_active_ms == t.avg_active_ms + 1000,
        t.shared.status is Active && t.completed_now() >= m.completed ==> u.avg_bytes == t.avg_bytes
            + t.completed_now() - m.completed,
        !(t.shared.status is Active) ==> u.avg_active_ms == t.avg_active_ms && u.avg_bytes
            == t.avg_bytes,
{
}

/// A BitTorrent task moves what it receives, any other task what it completes.
pub proof fn law_moved_bytes(t: Task)
    ensures
        t.bt_meta is Some || t.bt_info_hash is Some ==> moved_bytes(t) == t.live.received,
        t.bt_meta is None && t.bt_info_hash is None ==> moved_bytes(t) == t.completed_now(),
{
}

/// A place for a file is claimed by one task only, and only if nothing is there, or a
/// part of the same file that a server can complete. The task then writes there, and the
/// place is taken for every other.
pub proof fn law_place_is_claimed_once(
    m: TaskManager,
    after: TaskManager,
    gid: Seq<char>,
    name: String,
    existing: u64,
    probe: Probe,
    r: Option<String>,
)
    requires
        m.wf(),
        has_task(m.tasks@, gid),
        m.claims_place(after, gid, name, existing, probe, r),
    ensures
        ({
            let k = task_at(m.tasks@, gid);
            let path = path_joined(m.tasks@[k].dir@, name@);
            &&& string_texts(m.claims@).contains(path) ==> r is None
            &&& existing > 0 && !probe.accepts_ranges ==> r is None
            &&& existing > 0 && probe.total_len is Some && existing > probe.total_len->0 ==> r is None
            &&& !string_texts(m.claims@).contains(path) && existing == 0 ==> r is Some
            &&& r is None ==> after == m
            &&& r is Some ==> {
                let u = after.tasks@[k];
                &&& r->0@ == path
                &&& string_texts(after.claims@).contains(path)
                &&& after.tasks@.len() == m.tasks@.len()
                &&& u.shared.path is Some && u.shared.path->0@ == path
                &&& u.shared.filename is Some && u.shared.filename->0@ == name@
                &&& u.shared.status == m.tasks@[k].shared.status && u.dir == m.tasks@[k].dir
            }
        }),
{
    let k = task_at(m.tasks@, gid);
    lemma_task_at(m.tasks@, gid);
    if r is Some {
        let all = string_texts(after.claims@);
        assert(all[all.len() - 1] == path_joined(m.tasks@[k].dir@, name@));
    }
}

/// A transfer over one connection succeeds if and only if as many bytes are there as the
/// answer declared, else as were known of before, or nothing is known. The number that
/// is there is kept in any case.
pub proof fn law_short_body_is_a_failure(t: Task, after: Task, total: Option<u64>, r: Result<(), TaskFailure>)
    requires
        t.body_ended(after, total, r),
    ensures
        after.shared.completed == t.completed_now(),
        total is Some ==> after.shared.total_len == total && after.shared.file_len == total->0,
        total is None ==> after.shared.total_len == t.shared.total_len && after.shared.file_len
            == t.shared.file_len,
        r is Ok <==> after.shared.total_len is None || t.completed_now() >= after.shared.total_len->0,
        r is Err ==> r->Err_0 is Http && r->Err_0->Http_0 is Protocol && holds_text(
            r->Err_0->Http_0->Protocol_0@,
            decimal(t.completed_now() as nat) + "/"@ + decimal(after.shared.total_len->0 as nat),
        ),
        after.shared.status == t.shared.status,
        after.uris == t.uris,
{
    if r is Err {
        let n = after.shared.total_len->0;
        let what = decimal(t.completed_now() as nat) + "/"@ + decimal(n as nat);
        let head = "传输不完整: "@;
        let whole = cut_short(t.completed_now(), n);
        assert(whole =~= head + what);
        assert(whole.subrange(head.len() as int, (head.len() + what.len()) as int) =~= what);
        assert(stands_at(whole, what, head.len() as int));
    }
}

/// A transfer over several connections leaves the whole file if it succeeded and what is
/// there if it failed, in either case without a connection. A file that cannot be split
/// is left as it is for a single one.
pub proof fn law_split_transfer_ends(
    t: Task,
    after: Task,
    total: u64,
    done: u64,
    result: Result<(), HttpError>,
    r: SplitEnd,
)
    requires
        t.split_ended(after, total, done, result, r),
    ensures
        r is Finished <==> result is Ok,
        r is Single <==> result is Err && result->Err_0 is NotSplittable,
        result is Err && !(result->Err_0 is NotSplittable) ==> r == SplitEnd::Failed(
            TaskFailure::Http(result->Err_0),
        ),
        r is Finished ==> after.shared.completed == total && after.live.completed == total,
        r is Failed ==> after.shared.completed == done && after.live.completed == done,
        !(r is Single) ==> after.shared.connections == 0 && after.live.connections == 0,
        r is Single ==> after == t,
        after.shared.status == t.shared.status,
{
}

/// What only looked like a playlist is downloaded as it is. Every other failure of a
/// playlist is one of the task, and so is this one where the address names a playlist.
pub proof fn law_false_playlist_is_downloaded(
    result: Result<(), HttpError>,
    sniffed: bool,
    r: Option<Result<(), TaskFailure>>,
)
    requires
        playlist_ended(result, sniffed, r),
    ensures
        r is None <==> sniffed && result is Err && result->Err_0 is NotPlaylist,
        result is Ok ==> r is Some && r->0 is Ok,
        result is Err && r is Some ==> r->0 == Err::<(), TaskFailure>(TaskFailure::Http(result->Err_0)),
{
}

/// A probe marks the address that answered and tells the length of the file; without a
/// length nothing is forgotten.
pub proof fn law_probe_tells_the_length(t: Task, after: Task, idx: int, probe: Probe, j: int)
    requires
        t.probed(after, idx, probe),
        0 <= idx < t.uri_states@.len(),
        0 <= j < t.uri_states@.len(),
    ensures
        after.uri_states@.len() == t.uri_states@.len(),
        after.uri_states@[idx] is Used,
        j != idx ==> after.uri_states@[j] == t.uri_states@[j],
        probe.total_len is Some ==> after.shared.total_len == probe.total_len && after.shared.file_len
            == probe.total_len->0,
        probe.total_len is None ==> after.shared.total_len == t.shared.total_len,
        after.shared.completed == t.shared.completed,
        after.shared.status == t.shared.status,
{
}

/// Content is taken for a playlist where its type has the word for one in it, whatever
/// the case of its letters. The option that turns this off is that of the task, else that
/// of the engine.
pub proof fn law_playlist_is_told_by_its_type(
    c: String,
    a: Seq<char>,
    b: Seq<char>,
    task: Seq<(Seq<char>, Seq<char>)>,
    global: Seq<(Seq<char>, Seq<char>)>,
)
    ensures
        !declares_playlist(None),
        lowered(c@) == a + "mpegurl"@ + b ==> declares_playlist(Some(c)),
        declares_playlist(Some(c)) ==> c@.len() >= 7,
        option_of(task, global, "hls"@) is None ==> takes_playlists(task, global),
        option_of(task, global, "hls"@) == Some("false"@) ==> !takes_playlists(task, global),
        option_of(task, global, "hls"@) == Some("true"@) ==> takes_playlists(task, global),
{
    reveal_strlit("mpegurl");
    let p = "mpegurl"@;
    if lowered(c@) == a + p + b {
        let s = lowered(c@);
        assert(s.subrange(a.len() as int, (a.len() + p.len()) as int) =~= p);
        assert(stands_at(s, p, a.len() as int));
    }
    if declares_playlist(Some(c)) {
        let i = choose|i: int| #[trigger] stands_at(lowered(c@), p, i);
        assert(lowered(c@).len() == c@.len());
    }
    reveal_strlit("true");
    reveal_strlit("false");
    reveal_strlit("0");
    assert("true"@[0] == 't' && "false"@[0] == 'f' && "0"@[0] == '0');
    law_switches_are_on("true"@);
}

/// A playlist is fetched with as many segments at a time as a split download has
/// connections, each tried again three times, in the best quality. Sizes are asked for
/// unless an option turns that off.
pub proof fn law_playlist_is_fetched_as_asked(
    r: PlaylistOptions,
    task: Seq<(Seq<char>, Seq<char>)>,
    global: Seq<(Seq<char>, Seq<char>)>,
)
    requires
        playlist_set(r, task, global),
    ensures
        r.concurrency == connections_of(task, global),
        r.retries == 3,
        !r.prefer_worst,
        option_of(task, global, "hls-probe-size"@) is None ==> r.probe_sizes,
        option_of(task, global, "hls-probe-size"@) == Some("false"@) ==> !r.probe_sizes,
{
    law_switches_are_on("false"@);
}

} // verus!
