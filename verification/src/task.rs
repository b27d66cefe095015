//! A download task: its state, its clocks and counters, and how it is shown.
//!
//! Times are nanoseconds of one monotonic clock.

use vstd::prelude::*;

use crate::conns::{elapsed, elapsed_since};
use crate::manifest::pair_texts;
use crate::options::{limit_of, limits_from_options};
use crate::pieces::{wrap_add, PieceTrack};
use crate::rate::{RateLimiter, MIN_BURST, TOKENS_PER_BYTE};
use crate::torrent::TorrentMeta;

verus! {

/// State of a task.
#[derive(Debug, Clone, Copy, PartialEq, Eq, Structural)]
pub enum Status {
    Waiting,
    Active,
    /// A finished BitTorrent download that still uploads.
    Seeding,
    Paused,
    Complete,
    Error,
    Removed,
}

/// The name of a state.
pub open spec fn status_text(s: Status) -> Seq<char> {
    match s {
        Status::Waiting => "waiting"@,
        Status::Active => "active"@,
        Status::Seeding => "seeding"@,
        Status::Paused => "paused"@,
        Status::Complete => "complete"@,
        Status::Error => "error"@,
        Status::Removed => "removed"@,
    }
}

/// Whether a state is final.
pub open spec fn is_final(s: Status) -> bool {
    s is Complete || s is Error || s is Removed
}

impl Status {
    /// The name of the state.
    pub fn as_str(self) -> (r: &'static str)
        ensures
            r@ == status_text(self),
    {
        match self {
            Status::Waiting => "waiting",
            Status::Active => "active",
            Status::Seeding => "seeding",
            Status::Paused => "paused",
            Status::Complete => "complete",
            Status::Error => "error",
            Status::Removed => "removed",
        }
    }

    /// Whether the state is final.
    pub fn is_terminal(self) -> (r: bool)
        ensures
            r == is_final(self),
    {
        match self {
            Status::Complete => true,
            Status::Error => true,
            Status::Removed => true,
            _ => false,
        }
    }
}

/// Whether an address of a task was used.
#[derive(Debug, Clone, Copy, PartialEq, Eq, Structural)]
pub enum UriState {
    Used,
    Waiting,
}

/// The name of an address's state.
pub open spec fn uri_state_text(s: UriState) -> Seq<char> {
    match s {
        UriState::Used => "used"@,
        UriState::Waiting => "waiting"@,
    }
}

impl UriState {
    /// The name of the state.
    pub fn as_str(self) -> (r: &'static str)
        ensures
            r@ == uri_state_text(self),
    {
        match self {
            UriState::Used => "used",
            UriState::Waiting => "waiting",
        }
    }
}

/// Why a running task is cancelled.
#[derive(Debug, Clone, Copy, PartialEq, Eq, Structural)]
pub enum Intent {
    /// It is not cancelled.
    Unset,
    Pause,
    Remove,
    /// The user ends seeding.
    StopSeeding,
    /// The task starts again with what is known by now.
    Restart,
}

/// State of a task that changes while it runs.
#[derive(Debug)]
pub struct TaskShared {
    pub status: Status,
    pub total_len: Option<u64>,
    pub completed: u64,
    pub download_speed: u64,
    /// Bytes per second.
    pub upload_speed: u64,
    pub uploaded: u64,
    /// Open connections, or connected peers.
    pub connections: usize,
    pub file_len: u64,
    pub path: Option<String>,
    pub filename: Option<String>,
    pub error_code: i64,
    pub error_message: String,
    /// Time spent active before the present spell, in milliseconds.
    pub active_ms: u64,
    /// Start of the present active spell.
    pub active_since: Option<u64>,
}

/// Counters that the transfer keeps up to date. Zero means that the counter was not
/// touched yet.
#[derive(Clone, Copy)]
pub struct LiveCounters {
    pub completed: u64,
    pub connections: u64,
    pub speed: u64,
    pub uploaded: u64,
    /// Bytes received in this run, whether they are on disk or not.
    pub received: u64,
    pub upload_speed: u64,
}

/// A peer of a BitTorrent task.
pub struct PeerInfo {
    pub addr: String,
    pub peer_id: String,
    pub client: String,
    pub source: String,
    pub choked: bool,
    pub interested: bool,
    pub seed: bool,
    pub downloaded: u64,
    pub connected: bool,
    pub encrypted: bool,
    pub uploaded: u64,
    pub protocol: String,
    pub connected_secs: u64,
    /// Share of the torrent that the peer has, as a number is written.
    pub progress: String,
}

/// A download task.
pub struct Task {
    pub gid: String,
    pub uris: Vec<String>,
    pub dir: String,
    /// File name that the user asked for.
    pub out: Option<String>,
    /// Algorithm and digest that the file must match.
    pub checksum: Option<(String, String)>,
    pub options: Vec<(String, String)>,
    pub bt_meta: Option<TorrentMeta>,
    /// Info hash of a magnet link.
    pub bt_info_hash: Option<Vec<u8>>,
    pub bt_trackers: Vec<String>,
    pub bt_peers: Vec<PeerInfo>,
    /// Finished pieces of a BitTorrent task.
    pub bt_bitfield: Vec<u8>,
    /// Piece map of an HTTP task.
    pub http_pieces: Option<PieceTrack>,
    /// Whether the task waits for the user to select files.
    pub awaiting_selection: bool,
    /// Selected files; all if none are named.
    pub selected_files: Option<Vec<usize>>,
    pub shared: TaskShared,
    pub uri_states: Vec<UriState>,
    pub intent: Intent,
    /// Whether removal takes the downloaded files along.
    pub delete_files: bool,
    pub live: LiveCounters,
    /// Limits of the task's own, in bytes per second; zero follows the engine.
    pub task_dl_limit: u64,
    pub task_ul_limit: u64,
    /// Time of completion or failure in Unix milliseconds; zero if unknown.
    pub finished_at: u64,
    /// Time and bytes that the average speed is taken over.
    pub avg_active_ms: u64,
    pub avg_bytes: u64,
}

/// A duration in milliseconds.
pub open spec fn spell_ms(now: u64, since: u64) -> int {
    elapsed(now, since) / 1_000_000
}

/// Shared state after the status changed: the clock runs while the task is active.
pub open spec fn status_set(sh: TaskShared, s: Status, now: u64) -> TaskShared {
    if s is Active && !(sh.status is Active) {
        TaskShared { status: s, active_since: Some(now), ..sh }
    } else if sh.status is Active && !(s is Active) {
        clock_stopped(TaskShared { status: s, ..sh }, now)
    } else {
        TaskShared { status: s, ..sh }
    }
}

/// Shared state after the active spell ended.
pub open spec fn clock_stopped(sh: TaskShared, now: u64) -> TaskShared {
    match sh.active_since {
        Some(since) => TaskShared {
            active_since: None,
            active_ms: wrap_add(sh.active_ms as int, spell_ms(now, since)) as u64,
            ..sh
        },
        None => sh,
    }
}

/// Time spent active.
pub open spec fn active_time(sh: TaskShared, now: u64) -> u64 {
    wrap_add(
        sh.active_ms as int,
        match sh.active_since {
            Some(since) => spell_ms(now, since),
            None => 0,
        },
    ) as u64
}

/// The counter if it was touched, else what was kept.
pub open spec fn live_or(live: u64, kept: u64) -> u64 {
    if live > 0 { live } else { kept }
}

/// Ends the active spell.
pub fn stop_clock(sh: &mut TaskShared, now: u64)
    ensures
        *final(sh) == clock_stopped(*old(sh), now),
{
    match sh.active_since {
        Some(since) => {
            sh.active_since = None;
            sh.active_ms = sh.active_ms.wrapping_add(elapsed_since(now, since) / 1_000_000);
        },
        None => {},
    }
}

impl TaskShared {
    /// The state of a task that has not run yet.
    pub fn idle(total_len: Option<u64>, filename: Option<String>) -> (r: Self)
        ensures
            r.status is Waiting,
            r.total_len == total_len,
            r.completed == 0,
            r.download_speed == 0,
            r.upload_speed == 0,
            r.uploaded == 0,
            r.connections == 0,
            r.file_len == match total_len {
                Some(t) => t,
                None => 0,
            },
            r.path is None,
            r.filename == filename,
            r.error_code == 0,
            r.error_message@ == Seq::<char>::empty(),
            r.active_ms == 0,
            r.active_since is None,
    {
        TaskShared {
            status: Status::Waiting,
            total_len,
            completed: 0,
            download_speed: 0,
            upload_speed: 0,
            uploaded: 0,
            connections: 0,
            file_len: match total_len {
                Some(t) => t,
                None => 0,
            },
            path: None,
            filename,
            error_code: 0,
            error_message: String::new(),
            active_ms: 0,
            active_since: None,
        }
    }
}

/// Counters that were not touched yet.
pub open spec fn untouched(l: LiveCounters) -> bool {
    l.completed == 0 && l.connections == 0 && l.speed == 0 && l.uploaded == 0 && l.received == 0
        && l.upload_speed == 0
}

impl Task {
    /// The torrent's lengths and the piece map are sound.
    pub open spec fn wf(&self) -> bool {
        &&& self.bt_meta is Some ==> self.bt_meta->0.info.wf()
        &&& self.http_pieces is Some ==> self.http_pieces->0.wf()
    }

    /// Whether the task is a BitTorrent task.
    pub open spec fn is_bt_spec(&self) -> bool {
        self.bt_meta is Some || self.bt_info_hash is Some
    }

    /// Whether the task is a BitTorrent task.
    pub fn is_bt(&self) -> (r: bool)
        ensures
            r == self.is_bt_spec(),
    {
        self.bt_meta.is_some() || self.bt_info_hash.is_some()
    }

    /// What every new task has in common.
    pub open spec fn is_new(
        &self,
        gid: String,
        dir: String,
        options: Vec<(String, String)>,
    ) -> bool {
        &&& self.gid == gid
        &&& self.dir == dir
        &&& self.options == options
        &&& self.bt_peers@.len() == 0
        &&& self.bt_bitfield@.len() == 0
        &&& self.http_pieces is None
        &&& !self.awaiting_selection
        &&& self.selected_files is None
        &&& self.shared.status is Waiting
        &&& self.shared.completed == 0
        &&& self.shared.download_speed == 0
        &&& self.shared.upload_speed == 0
        &&& self.shared.uploaded == 0
        &&& self.shared.connections == 0
        &&& self.shared.path is None
        &&& self.shared.error_code == 0
        &&& self.shared.error_message@.len() == 0
        &&& self.shared.active_ms == 0
        &&& self.shared.active_since is None
        &&& self.intent is Unset
        &&& !self.delete_files
        &&& untouched(self.live)
        &&& self.task_dl_limit == limit_of(pair_texts(options@), "max-download-limit"@)
        &&& self.task_ul_limit == limit_of(pair_texts(options@), "max-upload-limit"@)
        &&& self.finished_at == 0
        &&& self.avg_active_ms == 0
        &&& self.avg_bytes == 0
    }

    fn blank(gid: String, dir: String, options: Vec<(String, String)>, shared: TaskShared) -> (r: Self)
        ensures
            r.gid == gid,
            r.dir == dir,
            r.options == options,
            r.shared == shared,
            r.uris@.len() == 0,
            r.uri_states@.len() == 0,
            r.out is None,
            r.checksum is None,
            r.bt_meta is None,
            r.bt_info_hash is None,
            r.bt_trackers@.len() == 0,
            r.bt_peers@.len() == 0,
            r.bt_bitfield@.len() == 0,
            r.http_pieces is None,
            !r.awaiting_selection,
            r.selected_files is None,
            r.intent is Unset,
            !r.delete_files,
            untouched(r.live),
            r.task_dl_limit == limit_of(pair_texts(options@), "max-download-limit"@),
            r.task_ul_limit == limit_of(pair_texts(options@), "max-upload-limit"@),
            r.finished_at == 0,
            r.avg_active_ms == 0,
            r.avg_bytes == 0,
    {
        let (dl, ul) = limits_from_options(&options);
        Task {
            gid,
            uris: Vec::new(),
            dir,
            out: None,
            checksum: None,
            options,
            bt_meta: None,
            bt_info_hash: None,
            bt_trackers: Vec::new(),
            bt_peers: Vec::new(),
            bt_bitfield: Vec::new(),
            http_pieces: None,
            awaiting_selection: false,
            selected_files: None,
            shared,
            uri_states: Vec::new(),
            intent: Intent::Unset,
            delete_files: false,
            live: LiveCounters {
                completed: 0,
                connections: 0,
                speed: 0,
                uploaded: 0,
                received: 0,
                upload_speed: 0,
            },
            task_dl_limit: dl,
            task_ul_limit: ul,
            finished_at: 0,
            avg_active_ms: 0,
            avg_bytes: 0,
        }
    }

    /// A task for a file that can be had at any of some addresses.
    pub fn new(
        gid: String,
        uris: Vec<String>,
        dir: String,
        out: Option<String>,
        checksum: Option<(String, String)>,
        options: Vec<(String, String)>,
    ) -> (r: Self)
        ensures
            r.wf(),
            r.is_new(gid, dir, options),
            r.uris == uris,
            r.uri_states@ == Seq::new(uris@.len(), |i: int| UriState::Waiting),
            r.out == out,
            r.checksum == checksum,
            !r.is_bt_spec(),
            r.bt_trackers@.len() == 0,
            r.shared.total_len is None,
            r.shared.file_len == 0,
            r.shared.filename is None,
    {
        let mut states: Vec<UriState> = Vec::new();
        while states.len() < uris.len()
            invariant
                states@.len() <= uris@.len(),
                forall|i: int| 0 <= i < states@.len() ==> states@[i] == UriState::Waiting,
            decreases uris@.len() - states@.len(),
        {
            states.push(UriState::Waiting);
        }
        assert(states@ =~= Seq::new(uris@.len(), |i: int| UriState::Waiting));
        let mut t = Task::blank(gid, dir, options, TaskShared::idle(None, None));
        t.uris = uris;
        t.uri_states = states;
        t.out = out;
        t.checksum = checksum;
        t
    }

    /// A task for a torrent.
    pub fn new_torrent(gid: String, dir: String, meta: TorrentMeta, options: Vec<(String, String)>) -> (r:
        Self)
        requires
            meta.info.wf(),
        ensures
            r.wf(),
            r.is_new(gid, dir, options),
            r.uris@.len() == 0,
            r.uri_states@.len() == 0,
            r.out is None,
            r.checksum is None,
            r.bt_meta == Some(meta),
            r.bt_info_hash is None,
            r.bt_trackers@.len() == 0,
            r.shared.total_len == Some(meta.info.total() as u64),
            r.shared.file_len == meta.info.total(),
            r.shared.filename == Some(meta.info.name),
    {
        let total: u64 = meta.info.total_length();
        let name = meta.info.name.clone();
        let mut t = Task::blank(gid, dir, options, TaskShared::idle(Some(total), Some(name)));
        t.bt_meta = Some(meta);
        t
    }

    /// A task for a magnet link, whose torrent is not known yet.
    pub fn new_magnet(
        gid: String,
        dir: String,
        info_hash: Vec<u8>,
        trackers: Vec<String>,
        display_name: Option<String>,
        options: Vec<(String, String)>,
    ) -> (r: Self)
        ensures
            r.wf(),
            r.is_new(gid, dir, options),
            r.uris@.len() == 0,
            r.uri_states@.len() == 0,
            r.out is None,
            r.checksum is None,
            r.bt_meta is None,
            r.bt_info_hash == Some(info_hash),
            r.bt_trackers == trackers,
            r.shared.total_len is None,
            r.shared.file_len == 0,
            r.shared.filename == display_name,
    {
        let mut t = Task::blank(gid, dir, options, TaskShared::idle(None, display_name));
        t.bt_info_hash = Some(info_hash);
        t.bt_trackers = trackers;
        t
    }

    /// The state of the task.
    pub fn status(&self) -> (r: Status)
        ensures
            r == self.shared.status,
    {
        self.shared.status
    }

    /// Changes the state. The clock starts when the task becomes active and stops when
    /// it leaves that state.
    pub fn set_status(&mut self, s: Status, now: u64)
        ensures
            *final(self) == (Task { shared: status_set(old(self).shared, s, now), ..*old(self) }),
    {
        let prev = self.shared.status;
        self.shared.status = s;
        if s == Status::Active && prev != Status::Active {
            self.shared.active_since = Some(now);
        } else if prev == Status::Active && s != Status::Active {
            stop_clock(&mut self.shared, now);
        }
    }

    /// Time spent active, in milliseconds.
    pub fn elapsed_ms(&self, now: u64) -> (r: u64)
        ensures
            r == active_time(self.shared, now),
    {
        match self.shared.active_since {
            Some(since) => self.shared.active_ms.wrapping_add(elapsed_since(now, since) / 1_000_000),
            None => self.shared.active_ms,
        }
    }

    /// Notes that an address was used.
    pub fn mark_uri_used(&mut self, idx: usize)
        ensures
            final(self).uri_states@ == if idx < old(self).uri_states@.len() {
                old(self).uri_states@.update(idx as int, UriState::Used)
            } else {
                old(self).uri_states@
            },
            *final(self) == (Task { uri_states: final(self).uri_states, ..*old(self) }),
    {
        if idx < self.uri_states.len() {
            self.uri_states.set(idx, UriState::Used);
        }
    }

    /// Reads the task's own limits from its options again.
    pub fn sync_task_limits(&mut self)
        ensures
            *final(self) == (Task {
                task_dl_limit: limit_of(
                    pair_texts(old(self).options@),
                    "max-download-limit"@,
                ) as u64,
                task_ul_limit: limit_of(pair_texts(old(self).options@), "max-upload-limit"@) as u64,
                ..*old(self)
            }),
    {
        let (dl, ul) = limits_from_options(&self.options);
        self.task_dl_limit = dl;
        self.task_ul_limit = ul;
    }

    /// The limit that all connections of the task share: its own, else the engine's.
    pub open spec fn http_limit(&self, overall: u64) -> u64 {
        if self.task_dl_limit > 0 { self.task_dl_limit } else { overall }
    }

    /// The limits that hold for the task, download and upload: its own, else the
    /// engine's.
    pub open spec fn limits_over(&self, overall: (u64, u64)) -> (u64, u64) {
        (
            self.http_limit(overall.0),
            if self.task_ul_limit > 0 { self.task_ul_limit } else { overall.1 },
        )
    }

    /// The limits that hold for the task, download and upload.
    pub fn limits(&self, overall: (u64, u64)) -> (r: (u64, u64))
        ensures
            r == self.limits_over(overall),
    {
        (
            if self.task_dl_limit > 0 { self.task_dl_limit } else { overall.0 },
            if self.task_ul_limit > 0 { self.task_ul_limit } else { overall.1 },
        )
    }

    /// A limiter for all connections of the task: the task's own limit goes before the
    /// engine's.
    pub fn http_task_limiter(&self, overall: u64, now: u64) -> (r: RateLimiter)
        ensures
            r.wf(),
            r.rate == self.http_limit(overall),
            r.tokens == MIN_BURST * TOKENS_PER_BYTE,
            r.last == now,
    {
        RateLimiter::new(
            if self.task_dl_limit > 0 { self.task_dl_limit } else { overall },
            now,
        )
    }

    pub open spec fn completed_now(&self) -> u64 {
        live_or(self.live.completed, self.shared.completed)
    }

    pub open spec fn speed_now(&self) -> u64 {
        live_or(self.live.speed, self.shared.download_speed)
    }

    pub open spec fn upload_speed_now(&self) -> u64 {
        live_or(self.live.upload_speed, self.shared.upload_speed)
    }

    pub open spec fn uploaded_now(&self) -> u64 {
        live_or(self.live.uploaded, self.shared.uploaded)
    }

    pub open spec fn connections_now(&self) -> u64 {
        live_or(self.live.connections, self.shared.connections as u64)
    }

    /// Finished bytes.
    pub fn completed_live(&self) -> (r: u64)
        ensures
            r == self.completed_now(),
    {
        if self.live.completed > 0 {
            self.live.completed
        } else {
            self.shared.completed
        }
    }

    /// Download speed in bytes per second.
    pub fn speed_live(&self) -> (r: u64)
        ensures
            r == self.speed_now(),
    {
        if self.live.speed > 0 {
            self.live.speed
        } else {
            self.shared.download_speed
        }
    }

    /// Open connections.
    pub fn connections_live(&self) -> (r: u64)
        ensures
            r == self.connections_now(),
    {
        if self.live.connections > 0 {
            self.live.connections
        } else {
            self.shared.connections as u64
        }
    }

    /// Upload speed in bytes per second.
    pub fn upload_speed_live(&self) -> (r: u64)
        ensures
            r == self.upload_speed_now(),
    {
        if self.live.upload_speed > 0 {
            self.live.upload_speed
        } else {
            self.shared.upload_speed
        }
    }

    /// Uploaded bytes.
    pub fn uploaded_live(&self) -> (r: u64)
        ensures
            r == self.uploaded_now(),
    {
        if self.live.uploaded > 0 {
            self.live.uploaded
        } else {
            self.shared.uploaded
        }
    }

    /// Bytes received in this run.
    pub fn received_live(&self) -> (r: u64)
        ensures
            r == self.live.received,
    {
        self.live.received
    }
}

// ---------------------------------------------------------------------------
// Snapshot
// ---------------------------------------------------------------------------

/// A task at one moment.
pub struct TaskSnapshot {
    pub gid: String,
    pub status: Status,
    pub total_len: Option<u64>,
    pub completed: u64,
    pub download_speed: u64,
    pub upload_speed: u64,
    pub uploaded: u64,
    pub connections: u64,
    pub file_len: u64,
    pub path: String,
    pub dir: String,
    pub filename: Option<String>,
    pub error_code: i64,
    pub error_message: String,
    pub uris: Vec<(String, UriState)>,
    pub elapsed_ms: u64,
    pub finished_at: u64,
}

/// State of the address at place `i`.
pub open spec fn uri_state_at(states: Seq<UriState>, i: int) -> UriState {
    if i < states.len() { states[i] } else { UriState::Waiting }
}

/// The text of a path, empty if there is none.
pub open spec fn path_text(p: Option<String>) -> Seq<char> {
    match p {
        Some(s) => s@,
        None => Seq::empty(),
    }
}

/// Whether a picture shows a task as it is.
pub open spec fn is_snapshot(task: Task, now: u64, r: TaskSnapshot) -> bool {
    &&& r.gid == task.gid
    &&& r.status == task.shared.status
    &&& r.total_len == task.shared.total_len
    &&& r.completed == task.completed_now()
    &&& r.download_speed == task.speed_now()
    &&& r.upload_speed == task.upload_speed_now()
    &&& r.uploaded == task.uploaded_now()
    &&& r.connections == task.connections_now()
    &&& r.file_len == task.shared.file_len
    &&& r.path@ == path_text(task.shared.path)
    &&& r.dir == task.dir
    &&& r.filename == task.shared.filename
    &&& r.error_code == task.shared.error_code
    &&& r.error_message == task.shared.error_message
    &&& r.elapsed_ms == active_time(task.shared, now)
    &&& r.finished_at == task.finished_at
    &&& r.uris@ == Seq::new(
        task.uris@.len(),
        |i: int| (task.uris@[i], uri_state_at(task.uri_states@, i)),
    )
}

/// A consistent picture of a task.
pub fn snapshot(task: &Task, now: u64) -> (r: TaskSnapshot)
    ensures
        is_snapshot(*task, now, r),
{
    let mut uris: Vec<(String, UriState)> = Vec::new();
    let mut i: usize = 0;
    while i < task.uris.len()
        invariant
            i <= task.uris@.len(),
            uris@.len() == i,
            forall|k: int|
                0 <= k < i ==> #[trigger] uris@[k] == (
                    task.uris@[k],
                    uri_state_at(task.uri_states@, k),
                ),
        decreases task.uris@.len() - i,
    {
        let st = if i < task.uri_states.len() { task.uri_states[i] } else { UriState::Waiting };
        uris.push((task.uris[i].clone(), st));
        i = i + 1;
    }
    assert(uris@ =~= Seq::new(
        task.uris@.len(),
        |i: int| (task.uris@[i], uri_state_at(task.uri_states@, i)),
    ));
    TaskSnapshot {
        gid: task.gid.clone(),
        status: task.shared.status,
        total_len: task.shared.total_len,
        completed: task.completed_live(),
        download_speed: task.speed_live(),
        upload_speed: task.upload_speed_live(),
        uploaded: task.uploaded_live(),
        connections: task.connections_live(),
        file_len: task.shared.file_len,
        path: match &task.shared.path {
            Some(p) => p.clone(),
            None => String::new(),
        },
        dir: task.dir.clone(),
        filename: match &task.shared.filename {
            Some(f) => Some(f.clone()),
            None => None,
        },
        error_code: task.shared.error_code,
        error_message: task.shared.error_message.clone(),
        uris,
        elapsed_ms: task.elapsed_ms(now),
        finished_at: task.finished_at,
    }
}

// ---------------------------------------------------------------------------
// Laws of the clock
// ---------------------------------------------------------------------------

/// While a task is not active, its clock stands still.
pub proof fn law_paused_clock_stands(sh: TaskShared, s: Status, now: u64, later: u64)
    requires
        sh.status is Active ==> sh.active_since is Some,
        !(sh.status is Active) ==> sh.active_since is None,
        !(s is Active),
    ensures
        active_time(status_set(sh, s, now), later) == active_time(sh, now),
{
}

/// Starting the clock adds exactly the time that passes until it is stopped.
pub proof fn law_active_time_adds_up(sh: TaskShared, s: Status, start: u64, stop: u64)
    requires
        !(sh.status is Active),
        !(s is Active),
        sh.active_since is None,
    ensures
        ({
            let done = status_set(status_set(sh, Status::Active, start), s, stop);
            &&& done.active_since is None
            &&& done.active_ms == wrap_add(sh.active_ms as int, spell_ms(stop, start))
        }),
{
}

/// A limit of the task's own goes before the engine's; the other direction is not
/// touched by it.
pub proof fn law_own_limit_goes_first(t: Task, overall: (u64, u64))
    ensures
        ({
            let l = t.limits_over(overall);
            &&& (t.task_dl_limit > 0 ==> l.0 == t.task_dl_limit && t.http_limit(overall.0)
                == t.task_dl_limit)
            &&& (t.task_dl_limit == 0 ==> l.0 == overall.0 && t.http_limit(overall.0) == overall.0)
            &&& (t.task_ul_limit > 0 ==> l.1 == t.task_ul_limit)
            &&& (t.task_ul_limit == 0 ==> l.1 == overall.1)
        }),
{
}

/// The time that a task was active is told in milliseconds: what was kept, and the spell
/// that still runs.
pub proof fn law_active_time_is_told_in_milliseconds(sh: TaskShared, now: u64)
    requires
        sh.active_ms < 0x8000_0000_0000_0000,
    ensures
        sh.active_since is None ==> active_time(sh, now) == sh.active_ms,
        sh.active_since is Some && sh.active_since->0 <= now ==> active_time(sh, now) == sh.active_ms + (
        now - sh.active_since->0) / 1_000_000,
        sh.active_since is Some && sh.active_since->0 > now ==> active_time(sh, now) == sh.active_ms,
{
}

/// The clock runs from the moment a task becomes active until it stops being so; a
/// change between other states leaves it alone.
pub proof fn law_clock_runs_while_active(sh: TaskShared, s: Status, now: u64)
    requires
        sh.status is Active <==> sh.active_since is Some,
    ensures
        ({
            let after = status_set(sh, s, now);
            &&& after.status == s
            &&& (s is Active <==> after.active_since is Some)
            &&& (s is Active && !(sh.status is Active) ==> after.active_since == Some(now)
                && after.active_ms == sh.active_ms)
            &&& (s is Active && sh.status is Active ==> after.active_since == sh.active_since)
            &&& active_time(after, now) == active_time(sh, now)
            &&& after.completed == sh.completed && after.total_len == sh.total_len
            &&& after.error_code == sh.error_code && after.path == sh.path
        }),
{
}

/// A picture of a task has its name and state, the counters of its worker where they
/// moved and what was kept where they did not, and each address with its state.
pub proof fn law_picture_shows_the_task(t: Task, now: u64, r: TaskSnapshot, i: int)
    requires
        is_snapshot(t, now, r),
    ensures
        r.gid@ == t.gid@,
        r.status == t.shared.status,
        r.total_len == t.shared.total_len,
        t.live.completed > 0 ==> r.completed == t.live.completed,
        t.live.completed == 0 ==> r.completed == t.shared.completed,
        t.live.speed > 0 ==> r.download_speed == t.live.speed,
        t.live.speed == 0 ==> r.download_speed == t.shared.download_speed,
        t.live.uploaded > 0 ==> r.uploaded == t.live.uploaded,
        t.live.uploaded == 0 ==> r.uploaded == t.shared.uploaded,
        t.live.upload_speed > 0 ==> r.upload_speed == t.live.upload_speed,
        t.live.upload_speed == 0 ==> r.upload_speed == t.shared.upload_speed,
        r.file_len == t.shared.file_len,
        r.dir@ == t.dir@,
        r.filename == t.shared.filename,
        r.error_code == t.shared.error_code,
        r.error_message@ == t.shared.error_message@,
        r.finished_at == t.finished_at,
        t.shared.path is Some ==> r.path@ == t.shared.path->0@,
        t.shared.path is None ==> r.path@.len() == 0,
        r.uris@.len() == t.uris@.len(),
        0 <= i < t.uris@.len() ==> r.uris@[i].0 == t.uris@[i],
        0 <= i < t.uris@.len() && i < t.uri_states@.len() ==> r.uris@[i].1 == t.uri_states@[i],
{
}

} // verus!
