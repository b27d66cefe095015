//! How a BitTorrent task runs: what the peer engine is told, and what becomes of its
//! reports.

use vstd::prelude::*;

use crate::drive::same_standing;
use crate::errors::TaskFailure;
use crate::lists::value_at;
use crate::manager::{
    fails, has_task, lemma_sound_update, lemma_task_at, task_at, task_fine, unknown_gid, Effect,
    TaskManager,
};
use crate::manifest::{pair_texts, string_texts};
use crate::options::{
    bounded, bt_modes, bt_options, encryption_of, find_option, join_path, on_by_default, option_of,
    path_joined, positive_or, protocol_of, rate_limits, rate_of, BtProtocol, EncryptionMode,
    DEFAULT_BT_MAX_PEERS, MAX_BT_MAX_PEERS,
};
use crate::outside::random_bytes;
use crate::task::{Intent, LiveCounters, PeerInfo, Task, TaskShared};
use crate::text::{chars_of, contains_text, has_prefix, holds_text, joined, same_str};
use crate::torrent::{announce_list, announce_urls, by_kind, TorrentMeta};

verus! {

/// Peers asked for in one announce.
pub const NUMWANT: u32 = 50;

/// Random bytes in a peer's name.
pub const PEER_SEED_LEN: usize = 12;

/// What the peer engine is told.
pub struct BtConfig {
    pub dir: String,
    /// Random part of the name that peers see.
    pub peer_seed: Vec<u8>,
    pub max_peers: usize,
    /// Whether the number of peers adapts.
    pub adaptive: bool,
    pub numwant: u32,
    pub announce_urls: Vec<String>,
    pub udp_announce_urls: Vec<String>,
    pub enable_dht: bool,
    pub encryption: EncryptionMode,
    pub protocol: BtProtocol,
    /// Bytes per second; zero is no limit.
    pub download_limit: u64,
    pub upload_limit: u64,
    /// Selected files; all if none are named.
    pub selected_files: Option<Vec<usize>>,
}

/// A limit of the task's own, else the engine's.
pub open spec fn limit_or(own: u64, overall: int) -> int {
    if own > 0 { own as int } else { overall }
}

/// Whether the peer engine is told what the options say.
pub open spec fn is_config(c: BtConfig, m: TaskManager, t: Task, seed: Vec<u8>) -> bool {
    let task = pair_texts(t.options@);
    let global = pair_texts(m.global_options@);
    let all = announce_list(t.bt_meta, string_texts(t.bt_trackers@), m.trackers.urls());
    &&& c.dir == t.dir
    &&& c.peer_seed == seed
    &&& c.max_peers == bounded(
        positive_or(option_of(task, global, "bt-max-peers"@), DEFAULT_BT_MAX_PEERS as int),
        1,
        MAX_BT_MAX_PEERS as int,
    )
    &&& c.adaptive == on_by_default(option_of(task, global, "bt-adaptive"@))
    &&& c.numwant == NUMWANT
    &&& string_texts(c.announce_urls@) == by_kind(all, false)
    &&& string_texts(c.udp_announce_urls@) == by_kind(all, true)
    &&& c.enable_dht == match t.bt_meta {
        Some(meta) => !meta.info.private,
        None => true,
    }
    &&& c.encryption == match option_of(task, global, "bt-encryption"@) {
        Some(v) => match encryption_of(v) {
            Some(e) => e,
            None => EncryptionMode::Adaptive,
        },
        None => EncryptionMode::Adaptive,
    }
    &&& c.protocol == match option_of(task, global, "bt-protocol"@) {
        Some(v) => match protocol_of(v) {
            Some(p) => p,
            None => BtProtocol::TcpUtp,
        },
        None => BtProtocol::TcpUtp,
    }
    &&& c.download_limit == limit_or(t.task_dl_limit, rate_of(global, "max-overall-download-limit"@))
    &&& c.upload_limit == limit_or(t.task_ul_limit, rate_of(global, "max-overall-upload-limit"@))
    &&& same_selection(c.selected_files, t.selected_files)
}

/// Whether two selections name the same files.
pub open spec fn same_selection(a: Option<Vec<usize>>, b: Option<Vec<usize>>) -> bool {
    match a {
        Some(x) => b is Some && x@ == b->0@,
        None => b is None,
    }
}

/// Draws the random part of a peer's name. Every call may give other bytes; an error
/// means that the system has no random source.
pub fn peer_seed() -> (r: Result<Vec<u8>, String>)
    ensures
        r is Ok ==> r->Ok_0@.len() == PEER_SEED_LEN,
{
    random_bytes(PEER_SEED_LEN)
}

fn copy_selection(s: &Option<Vec<usize>>) -> (r: Option<Vec<usize>>)
    ensures
        same_selection(r, *s),
{
    match s {
        Some(v) => {
            let c = v.clone();
            assert(c@ =~= v@);
            Some(c)
        },
        None => None,
    }
}

impl TaskManager {
    /// What the peer engine is told for a task. `seed` is the random part of the peer's
    /// name, or why there is none.
    pub fn bt_config(&self, t: &Task, seed: Result<Vec<u8>, String>) -> (r: Result<BtConfig, TaskFailure>)
        ensures
            match seed {
                Err(e) => match r {
                    Err(TaskFailure::Bt(m)) => m@ == "随机源失败: "@ + e@,
                    _ => false,
                },
                Ok(s) => if t.is_bt_spec() {
                    r is Ok && is_config(r->Ok_0, *self, *t, s)
                } else {
                    match r {
                        Err(TaskFailure::Bt(m)) => m@ == "BT 任务缺少元信息或磁力 info_hash"@,
                        _ => false,
                    }
                },
            },
    {
        let peer_seed = match seed {
            Ok(s) => s,
            Err(e) => {
                return Err(TaskFailure::Bt(joined("随机源失败: ", e.as_str())));
            },
        };
        if !t.is_bt() {
            return Err(TaskFailure::Bt("BT 任务缺少元信息或磁力 info_hash".to_owned()));
        }
        let global = self.trackers.url_list();
        let (announce_urls, udp_announce_urls) = announce_urls(&t.bt_meta, &t.bt_trackers, &global);
        let (max_peers, adaptive) = bt_options(&t.options, &self.global_options);
        let (encryption, protocol) = bt_modes(&t.options, &self.global_options);
        let (down, up) = rate_limits(&self.global_options);
        let enable_dht = match &t.bt_meta {
            Some(m) => !m.info.private,
            None => true,
        };
        Ok(
            BtConfig {
                dir: t.dir.clone(),
                peer_seed,
                max_peers,
                adaptive,
                numwant: NUMWANT,
                announce_urls,
                udp_announce_urls,
                enable_dht,
                encryption,
                protocol,
                download_limit: if t.task_dl_limit > 0 { t.task_dl_limit } else { down },
                upload_limit: if t.task_ul_limit > 0 { t.task_ul_limit } else { up },
                selected_files: copy_selection(&t.selected_files),
            },
        )
    }
}

/// A report of the peer engine.
pub struct BtReport {
    pub done: u64,
    pub total: u64,
    pub uploaded: u64,
    /// Bytes received, whether they are on disk or not.
    pub received: u64,
    pub peers: Vec<PeerInfo>,
    /// Finished pieces.
    pub bitfield: Vec<u8>,
}

/// Connected peers.
pub open spec fn connected_count(p: Seq<PeerInfo>) -> int
    decreases p.len(),
{
    if p.len() == 0 {
        0
    } else {
        connected_count(p.drop_last()) + if p.last().connected { 1int } else { 0 }
    }
}

fn count_connected(p: &Vec<PeerInfo>) -> (r: usize)
    ensures
        r == connected_count(p@),
{
    let mut n: usize = 0;
    let mut i: usize = 0;
    assert(p@.take(0) =~= Seq::<PeerInfo>::empty());
    while i < p.len()
        invariant
            i <= p@.len(),
            n <= i,
            n == connected_count(p@.take(i as int)),
        decreases p@.len() - i,
    {
        assert(p@.take(i + 1).drop_last() =~= p@.take(i as int));
        if p[i].connected {
            n = n + 1;
        }
        i = i + 1;
    }
    assert(p@.take(i as int) =~= p@);
    n
}

/// The path of a task's data: where it is, else below the task's directory.
pub open spec fn data_path(t: Task, name: Option<Seq<char>>) -> Option<Seq<char>> {
    match t.shared.path {
        Some(p) => Some(p@),
        None => match name {
            Some(n) => Some(path_joined(t.dir@, n)),
            None => None,
        },
    }
}

/// The words by which the peer engine says that it was cancelled.
pub open spec fn says_cancelled(e: Seq<char>) -> bool {
    holds_text(e, "已取消"@)
}

impl Task {
    /// Notes where the data of a torrent goes, if that is not known yet.
    pub fn settle_path(&mut self, name: Option<&String>)
        ensures
            same_standing(*old(self), *final(self)),
            *final(self) == (Task {
                shared: TaskShared { path: final(self).shared.path, ..old(self).shared },
                ..*old(self)
            }),
            old(self).shared.path is Some ==> final(self).shared.path == old(self).shared.path,
            crate::config::opt_view(final(self).shared.path) == data_path(
                *old(self),
                match name {
                    Some(n) => Some(n@),
                    None => None,
                },
            ),
    {
        if self.shared.path.is_none() {
            match name {
                Some(n) => {
                    self.shared.path = Some(join_path(self.dir.as_str(), n.as_str()));
                },
                None => {},
            }
        }
    }

    /// Notes a report of the peer engine. True means that the download is complete.
    pub fn on_bt_report(&mut self, rep: BtReport) -> (complete: bool)
        ensures
            same_standing(*old(self), *final(self)),
            complete == (rep.done >= rep.total && rep.total > 0),
            *final(self) == told_by_peers(*old(self), rep),
    {
        let conns: usize = count_connected(&rep.peers);
        self.shared.completed = rep.done;
        self.shared.total_len = Some(rep.total);
        self.shared.file_len = rep.total;
        self.shared.connections = conns;
        self.live.completed = rep.done;
        self.live.connections = conns as u64;
        self.live.uploaded = rep.uploaded;
        self.live.received = rep.received;
        self.bt_peers = rep.peers;
        self.bt_bitfield = rep.bitfield;
        rep.done >= rep.total && rep.total > 0
    }

    /// What comes of the end of a run of the peer engine.
    pub open spec fn bt_ended(
        &self,
        after: Task,
        done: u64,
        uploaded: u64,
        peers: Vec<PeerInfo>,
        name: Option<String>,
        result: Result<(), String>,
        r: Result<(), TaskFailure>,
    ) -> bool {
        &&& after == (Task {
            bt_peers: peers,
            shared: TaskShared {
                completed: done,
                path: after.shared.path,
                ..self.shared
            },
            live: LiveCounters { completed: done, uploaded, ..self.live },
            ..*self
        })
        &&& crate::config::opt_view(after.shared.path) == data_path(
            *self,
            crate::config::opt_view(name),
        )
        &&& r == match result {
            Ok(_) => Ok::<(), TaskFailure>(()),
            Err(e) => if says_cancelled(e@) {
                Err::<(), TaskFailure>(TaskFailure::Cancelled)
            } else {
                Err::<(), TaskFailure>(TaskFailure::Bt(e))
            },
        }
    }

    /// Notes the end of a run of the peer engine. `name` is the torrent's name, if it is
    /// known by now.
    pub fn on_bt_end(
        &mut self,
        done: u64,
        uploaded: u64,
        peers: Vec<PeerInfo>,
        name: Option<String>,
        result: Result<(), String>,
    ) -> (r: Result<(), TaskFailure>)
        ensures
            same_standing(*old(self), *final(self)),
            old(self).bt_ended(*final(self), done, uploaded, peers, name, result, r),
    {
        self.shared.completed = done;
        self.live.completed = done;
        self.live.uploaded = uploaded;
        self.bt_peers = peers;
        match &name {
            Some(n) => {
                self.settle_path(Some(n));
            },
            None => {},
        }
        match result {
            Ok(_) => Ok(()),
            Err(e) => if contains_text(&chars_of(e.as_str()), "已取消") {
                Err(TaskFailure::Cancelled)
            } else {
                Err(TaskFailure::Bt(e))
            },
        }
    }
}

// ---------------------------------------------------------------------------
// Selection of files
// ---------------------------------------------------------------------------

/// Whether the user wants to select files before they are downloaded.
pub open spec fn asks_for_files(t: Task, global: Seq<(Seq<char>, Seq<char>)>) -> bool {
    &&& t.selected_files is None
    &&& option_of(pair_texts(t.options@), global, "bt-file-selection"@) == Some("true"@)
}

/// A task whose torrent has become known.
pub open spec fn with_meta(t: Task, meta: TorrentMeta, asks: bool) -> Task {
    let several = meta.info.multi_file;
    Task {
        bt_meta: Some(meta),
        shared: TaskShared {
            total_len: Some(meta.info.total() as u64),
            file_len: meta.info.total() as u64,
            ..t.shared
        },
        awaiting_selection: asks && several,
        intent: if !asks {
            t.intent
        } else if several {
            Intent::Pause
        } else {
            Intent::Restart
        },
        ..t
    }
}

impl TaskManager {
    /// What follows once the torrent of a task has become known.
    pub open spec fn learns(&self, after: TaskManager, gid: Seq<char>, meta: TorrentMeta) -> bool {
        let k = task_at(self.tasks@, gid);
        let t = self.tasks@[k];
        let asks = asks_for_files(t, pair_texts(self.global_options@));
        &&& after.tasks@ == self.tasks@.update(k, with_meta(t, meta, asks))
        &&& after.effects@ == if asks {
            self.effects@.push(Effect::Cancel { gid: t.gid })
        } else {
            self.effects@
        }
        &&& after == (TaskManager {
            tasks: after.tasks,
            effects: after.effects,
            ..*self
        })
    }

    /// Notes that the torrent of a running magnet link has become known. If the user
    /// wants to select files, the task is cancelled: for a directory of files it pauses
    /// until they are selected, for a single file it starts over at once.
    pub fn on_metadata(&mut self, gid: &str, meta: TorrentMeta)
        requires
            old(self).wf(),
            has_task(old(self).tasks@, gid@),
            meta.info.wf(),
        ensures
            final(self).wf(),
            old(self).learns(*final(self), gid@, meta),
    {
        let ghost before = *self;
        proof {
            lemma_task_at(before.tasks@, gid@);
        }
        let k: usize = match self.find(gid) {
            Some(k) => k,
            None => {
                return;
            },
        };
        let wanted = match find_option(
            &self.tasks[k].options,
            &self.global_options,
            "bt-file-selection",
        ) {
            Some(v) => same_str(v.as_str(), "true"),
            None => false,
        };
        let asks = wanted && self.tasks[k].selected_files.is_none();
        let several = meta.info.multi_file;
        let total: u64 = meta.info.total_length();
        let g = self.tasks[k].gid.clone();
        self.tasks[k].bt_meta = Some(meta);
        self.tasks[k].shared.total_len = Some(total);
        self.tasks[k].shared.file_len = total;
        self.tasks[k].awaiting_selection = asks && several;
        if asks {
            self.tasks[k].intent = if several { Intent::Pause } else { Intent::Restart };
        }
        proof {
            let t = with_meta(before.tasks@[k as int], meta, asks);
            let q = string_texts(before.queue@);
            let act = string_texts(before.active@);
            let st = string_texts(before.stopped_order@);
            assert(task_fine(before.tasks@[k as int]));
            assert(self.tasks@ =~= before.tasks@.update(k as int, t));
            lemma_sound_update(before.tasks@, q, act, st, k as int, t, q, act, st);
        }
        if asks {
            self.note(Effect::Cancel { gid: g });
        }
    }

    /// What comes of a selection of files.
    pub open spec fn selects(
        &self,
        after: TaskManager,
        gid: Seq<char>,
        files: Vec<usize>,
        r: Result<(), String>,
    ) -> bool {
        &&& !has_task(self.tasks@, gid) ==> fails(r, unknown_gid(gid)) && after
            == *self
        &&& has_task(self.tasks@, gid) ==> {
            let k = task_at(self.tasks@, gid);
            let t = self.tasks@[k];
            &&& r is Ok
            &&& after.tasks@ == self.tasks@.update(
                k,
                Task { selected_files: Some(files), awaiting_selection: false, ..t },
            )
            &&& after.effects@ == self.effects@.push(Effect::Save)
            &&& after == (TaskManager {
                tasks: after.tasks,
                effects: after.effects,
                ..*self
            })
        }
    }

    /// Selects the files of a task that are downloaded.
    pub fn select_files(&mut self, gid: &str, files: Vec<usize>) -> (r: Result<(), String>)
        requires
            old(self).wf(),
        ensures
            final(self).wf(),
            old(self).selects(*final(self), gid@, files, r),
    {
        let ghost before = *self;
        let k: usize = match self.task_of(gid) {
            Ok(k) => k,
            Err(e) => {
                return Err(e);
            },
        };
        self.tasks[k].selected_files = Some(files);
        self.tasks[k].awaiting_selection = false;
        proof {
            let t = self.tasks@[k as int];
            let q = string_texts(before.queue@);
            let act = string_texts(before.active@);
            let st = string_texts(before.stopped_order@);
            assert(task_fine(before.tasks@[k as int]));
            assert(self.tasks@ =~= before.tasks@.update(k as int, t));
            lemma_sound_update(before.tasks@, q, act, st, k as int, t, q, act, st);
        }
        self.note(Effect::Save);
        Ok(())
    }
}

/// Once files are selected, the torrent becoming known does not stop the task again.
pub proof fn law_selection_is_asked_once(
    t: Task,
    files: Vec<usize>,
    global: Seq<(Seq<char>, Seq<char>)>,
    meta: TorrentMeta,
)
    ensures
        ({
            let selected = Task { selected_files: Some(files), awaiting_selection: false, ..t };
            &&& !asks_for_files(selected, global)
            &&& with_meta(selected, meta, asks_for_files(selected, global)).intent == t.intent
        }),
{
}

/// A task after a report of the peer engine.
pub open spec fn told_by_peers(t: Task, rep: BtReport) -> Task {
    let conns = connected_count(rep.peers@);
    Task {
        bt_peers: rep.peers,
        bt_bitfield: rep.bitfield,
        shared: TaskShared {
            completed: rep.done,
            total_len: Some(rep.total),
            file_len: rep.total,
            connections: conns as usize,
            ..t.shared
        },
        live: LiveCounters {
            completed: rep.done,
            connections: conns as u64,
            uploaded: rep.uploaded,
            received: rep.received,
            ..t.live
        },
        ..t
    }
}

/// After a report of the peer engine the task shows what was reported: bytes, length,
/// peers, finished pieces, and one connection for each peer that is connected.
pub proof fn law_report_of_peers_is_shown(t: Task, rep: BtReport)
    requires
        rep.done > 0,
        rep.uploaded > 0,
    ensures
        ({
            let u = told_by_peers(t, rep);
            &&& u.completed_now() == rep.done
            &&& u.shared.total_len == Some(rep.total)
            &&& u.uploaded_now() == rep.uploaded
            &&& u.live.received == rep.received
            &&& u.bt_peers == rep.peers && u.bt_bitfield == rep.bitfield
            &&& u.shared.connections == rep.peers@.filter(|p: PeerInfo| p.connected).len()
            &&& u.gid == t.gid && u.shared.status == t.shared.status && u.bt_meta == t.bt_meta
        }),
{
    lemma_connected(rep.peers@);
    assert(rep.peers.len() == rep.peers@.len());
}

proof fn lemma_connected(p: Seq<PeerInfo>)
    ensures
        connected_count(p) == p.filter(|x: PeerInfo| x.connected).len(),
        0 <= connected_count(p) <= p.len(),
    decreases p.len(),
{
    reveal(Seq::filter);
    if p.len() > 0 {
        lemma_connected(p.drop_last());
    }
}

/// The peer engine is told the limits that hold for the task, from one peer up to two
/// hundred, fifty where nothing is said; peers of a private torrent come from its trackers
/// alone; every tracker is announced to in the way it is reached.
pub proof fn law_peer_engine_is_told_what_holds(
    c: BtConfig,
    m: TaskManager,
    t: Task,
    seed: Vec<u8>,
    u: Seq<char>,
)
    requires
        is_config(c, m, t, seed),
    ensures
        ({
            let task = pair_texts(t.options@);
            let global = pair_texts(m.global_options@);
            &&& 1 <= c.max_peers <= 200
            &&& (option_of(task, global, "bt-max-peers"@) is None ==> c.max_peers == 50)
            &&& c.numwant == 50
            &&& c.dir == t.dir
            &&& (t.task_dl_limit > 0 ==> c.download_limit == t.task_dl_limit)
            &&& (t.task_ul_limit > 0 ==> c.upload_limit == t.task_ul_limit)
            &&& (t.task_dl_limit == 0 && value_at(global, "max-overall-download-limit"@) is None
                ==> c.download_limit == 0)
            &&& (t.bt_meta is Some && t.bt_meta->0.info.private ==> !c.enable_dht)
            &&& (t.bt_meta is Some && !t.bt_meta->0.info.private ==> c.enable_dht)
            &&& (t.bt_meta is None ==> c.enable_dht)
            &&& (option_of(task, global, "bt-encryption"@) is None ==> c.encryption
                == EncryptionMode::Adaptive)
            &&& (option_of(task, global, "bt-protocol"@) is None ==> c.protocol == BtProtocol::TcpUtp)
            &&& ({
                let known = string_texts(t.bt_trackers@).contains(u) || m.trackers.urls().contains(u)
                    || (t.bt_meta is Some && crate::torrent::own_trackers(t.bt_meta->0).contains(u));
                let udp = has_prefix(u, "udp://"@);
                &&& string_texts(c.udp_announce_urls@).contains(u) <==> known && udp
                &&& string_texts(c.announce_urls@).contains(u) <==> known && !udp
            })
        }),
{
    let all = announce_list(t.bt_meta, string_texts(t.bt_trackers@), m.trackers.urls());
    crate::torrent::law_every_tracker_once(
        t.bt_meta,
        string_texts(t.bt_trackers@),
        m.trackers.urls(),
        u,
    );
    crate::torrent::law_trackers_are_parted_by_kind(all, u);
}

/// A torrent that has become known gives the task its length. Where the user wants to
/// select files, a task of several files pauses for it and one of a single file starts
/// over; else the task goes on.
pub proof fn law_known_torrent_gives_the_length(t: Task, meta: TorrentMeta, asks: bool)
    requires
        meta.info.wf(),
    ensures
        ({
            let u = with_meta(t, meta, asks);
            &&& u.bt_meta == Some(meta)
            &&& u.shared.total_len is Some && u.shared.total_len->0 == meta.info.total()
            &&& u.shared.file_len == meta.info.total()
            &&& (asks && meta.info.multi_file ==> u.awaiting_selection && u.intent is Pause)
            &&& (asks && !meta.info.multi_file ==> !u.awaiting_selection && u.intent is Restart)
            &&& (!asks ==> !u.awaiting_selection && u.intent == t.intent)
            &&& u.gid == t.gid && u.shared.status == t.shared.status
        }),
{
    lemma_total_nonneg(meta.info.files@, meta.info.files@.len() as int);
}

proof fn lemma_total_nonneg(files: Seq<crate::torrent::FileEntry>, n: int)
    ensures
        crate::torrent::file_start(files, n) >= 0,
    decreases n,
{
    if n > 0 {
        lemma_total_nonneg(files, n - 1);
    }
}

/// The data of a task stay where they are; without a place they go below the directory of
/// the task.
pub proof fn law_data_stay_where_they_are(t: Task, name: Seq<char>)
    ensures
        t.shared.path is Some ==> data_path(t, Some(name)) == Some(t.shared.path->0@),
        t.shared.path is None ==> data_path(t, Some(name)) == Some(path_joined(t.dir@, name)),
        t.shared.path is None ==> data_path(t, None) is None,
{
}

/// A run of the peer engine ends as the engine says; its word for a cancelled run is one
/// for the user's wish, and any other one a failure. What it moved is kept.
pub proof fn law_peer_engine_has_the_last_word(
    t: Task,
    after: Task,
    done: u64,
    uploaded: u64,
    peers: Vec<PeerInfo>,
    name: Option<String>,
    result: Result<(), String>,
    r: Result<(), TaskFailure>,
    a: Seq<char>,
    b: Seq<char>,
)
    requires
        t.bt_ended(after, done, uploaded, peers, name, result, r),
    ensures
        r is Ok <==> result is Ok,
        result is Err && result->Err_0@ == a + "已取消"@ + b ==> r == Err::<(), TaskFailure>(
            TaskFailure::Cancelled,
        ),
        result is Err && r->Err_0 != TaskFailure::Cancelled ==> r->Err_0 == TaskFailure::Bt(result->Err_0),
        after.shared.completed == done && after.live.completed == done,
        after.live.uploaded == uploaded,
        after.bt_peers == peers,
        after.shared.status == t.shared.status,
        after.bt_meta == t.bt_meta,
{
    if result is Err && result->Err_0@ == a + "已取消"@ + b {
        let p = "已取消"@;
        let e = result->Err_0@;
        assert(e.subrange(a.len() as int, (a.len() + p.len()) as int) =~= p);
        assert(crate::text::stands_at(e, p, a.len() as int));
    }
}

/// Selected files are those of the task, which no longer waits for a selection. Every
/// other task is left alone, and the session is saved. A task that does not exist changes
/// nothing.
pub proof fn law_selected_files_are_the_tasks(
    m: TaskManager,
    after: TaskManager,
    gid: Seq<char>,
    files: Vec<usize>,
    r: Result<(), String>,
    j: int,
)
    requires
        m.wf(),
        m.selects(after, gid, files, r),
        0 <= j < m.tasks@.len(),
    ensures
        r is Ok <==> has_task(m.tasks@, gid),
        r is Err ==> after == m,
        r is Ok ==> {
            &&& after.tasks@.len() == m.tasks@.len()
            &&& after.effects@.last() is Save
            &&& m.tasks@[j].gid@ == gid ==> after.tasks@[j].selected_files is Some
                && after.tasks@[j].selected_files->0@ == files@ && !after.tasks@[j].awaiting_selection
                && after.tasks@[j].shared == m.tasks@[j].shared
            &&& m.tasks@[j].gid@ != gid ==> after.tasks@[j] == m.tasks@[j]
        },
{
    lemma_task_at(m.tasks@, gid);
    let k = task_at(m.tasks@, gid);
    if has_task(m.tasks@, gid) && m.tasks@[j].gid@ == gid && j != k {
        assert(crate::manager::names_differ(m.tasks@));
        if j < k {
            assert(m.tasks@[j].gid@ != m.tasks@[k].gid@);
        } else {
            assert(m.tasks@[k].gid@ != m.tasks@[j].gid@);
        }
    }
}

/// A magnet link whose torrent became known has its length. Only where the user wants to
/// select files, and has not yet, is it stopped: to wait for that if there are several
/// files, and to begin anew if there is one.
pub proof fn law_known_torrent_waits_for_its_selection(
    m: TaskManager,
    after: TaskManager,
    gid: Seq<char>,
    meta: TorrentMeta,
)
    requires
        m.wf(),
        has_task(m.tasks@, gid),
        meta.info.wf(),
        m.learns(after, gid, meta),
    ensures
        ({
            let k = task_at(m.tasks@, gid);
            let t = m.tasks@[k];
            let u = after.tasks@[k];
            let wish = option_of(pair_texts(t.options@), pair_texts(m.global_options@), "bt-file-selection"@);
            let asks = wish == Some("true"@) && t.selected_files is None;
            &&& u.bt_meta == Some(meta)
            &&& u.shared.total_len is Some && u.shared.total_len->0 as int == meta.info.total()
            &&& asks ==> after.effects@ == m.effects@.push(Effect::Cancel { gid: t.gid })
            &&& !asks ==> after.effects@ == m.effects@ && u.intent == t.intent && !u.awaiting_selection
            &&& asks && meta.info.multi_file ==> u.awaiting_selection && u.intent is Pause
            &&& asks && !meta.info.multi_file ==> !u.awaiting_selection && u.intent is Restart
        }),
{
    lemma_task_at(m.tasks@, gid);
    crate::torrent::lemma_file_start_le(meta.info.files@, 0, meta.info.files@.len() as int);
}

} // verus!
