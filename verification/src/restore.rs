//! Starting from a session, and writing one.

use vstd::prelude::*;

use crate::config::opt_view;
use crate::json::{json_views, Json, JsonView};
use crate::lists::{unique_keys, without};
use crate::manager::{
    decode_torrent, has_task, is_named, lemma_sound_push, lemma_sound_remove, lemma_task_at,
    names_differ, sound, task_at, task_fine, Effect, Env, TaskManager,
};
use crate::manifest::{pair_texts, string_texts};
use crate::options::{
    base_name, checksum_of, file_name, limit_of, normalize_dir, opt_pair, parse_checksum_option,
};
use crate::outcome::evicted;
use crate::session::{
    hex_bytes, kept_status, kept_torrent, law_hex_round_trip, or_zero, read_hex, read_saved,
    read_view, saved_of, SavedTask, SavedView,
};
use crate::task::{
    active_time, is_final, path_text, LiveCounters, Status, Task, TaskShared, UriState,
};
use crate::torrent::TorrentMeta;

verus! {

// ---------------------------------------------------------------------------
// One task
// ---------------------------------------------------------------------------

/// What was found outside for a kept task.
pub struct Found {
    /// The torrent, if the task has a torrent file that can be read.
    pub meta: Option<TorrentMeta>,
    /// Bytes that are on disk under the task's path.
    pub existing: u64,
}

/// The torrent file of a kept task, to be read outside.
pub fn torrent_of(s: &SavedTask) -> (r: Option<Vec<u8>>)
    ensures
        match r {
            Some(b) => kept_torrent(s@) == Some(b@),
            None => kept_torrent(s@) is None,
        },
{
    match &s.torrent {
        Some(text) => match decode_torrent(text.as_str()) {
            Ok(b) => Some(b),
            Err(_) => None,
        },
        None => None,
    }
}

/// The info hash that a text spells; none if it does not have 40 bytes.
pub open spec fn hash_of(text: Option<Seq<char>>) -> Option<Seq<u8>> {
    match text {
        Some(t) => {
            let b = vstd::utf8::encode_utf8(t);
            if b.len() == 40 { Some(hex_bytes(b)) } else { None }
        },
        None => None,
    }
}

/// Bytes on disk that count for a kept task.
pub open spec fn on_disk(s: SavedTask, f: Found) -> u64 {
    if s.status is Waiting && s.path is Some { f.existing } else { 0 }
}

/// Whether a task is what a kept one starts again as.
pub open spec fn is_revived(t: Task, s: SavedTask, f: Found, default_dir: Seq<char>, env: Env) -> bool {
    let disk = on_disk(s, f);
    &&& t == (Task {
        gid: s.gid,
        uris: s.uris,
        dir: t.dir,
        out: s.out,
        checksum: t.checksum,
        options: s.options,
        bt_meta: f.meta,
        bt_info_hash: t.bt_info_hash,
        bt_trackers: s.trackers,
        bt_peers: t.bt_peers,
        bt_bitfield: t.bt_bitfield,
        http_pieces: None,
        awaiting_selection: false,
        selected_files: None,
        shared: TaskShared {
            status: s.status,
            total_len: s.total,
            completed: if disk > 0 { disk } else { s.completed },
            download_speed: 0,
            upload_speed: 0,
            uploaded: 0,
            connections: 0,
            file_len: or_zero(s.total),
            path: s.path,
            filename: t.shared.filename,
            error_code: s.error_code,
            error_message: s.error_message,
            active_ms: s.elapsed_ms,
            active_since: None,
        },
        uri_states: t.uri_states,
        intent: crate::task::Intent::Unset,
        delete_files: false,
        live: LiveCounters {
            completed: disk,
            connections: 0,
            speed: 0,
            uploaded: 0,
            received: 0,
            upload_speed: 0,
        },
        task_dl_limit: limit_of(pair_texts(s.options@), "max-download-limit"@) as u64,
        task_ul_limit: limit_of(pair_texts(s.options@), "max-upload-limit"@) as u64,
        finished_at: s.finished_at,
        avg_active_ms: s.avg_active_ms,
        avg_bytes: s.avg_bytes,
    })
    &&& t.dir@ == match opt_view(s.dir) {
        Some(d) => env.place.normal(d),
        None => default_dir,
    }
    &&& opt_pair(t.checksum) == match opt_view(s.checksum) {
        Some(c) => checksum_of(c, pair_texts(env.hash_names@)),
        None => None,
    }
    &&& match t.bt_info_hash {
        Some(h) => hash_of(opt_view(s.info_hash)) == Some(h@),
        None => hash_of(opt_view(s.info_hash)) is None,
    }
    &&& t.bt_peers@.len() == 0
    &&& t.bt_bitfield@ == match opt_view(s.bitfield) {
        Some(b) => hex_bytes(vstd::utf8::encode_utf8(b)),
        None => Seq::empty(),
    }
    &&& opt_view(t.shared.filename) == match opt_view(s.path) {
        Some(p) => Some(base_name(p)),
        None => None,
    }
    &&& t.uri_states@ == Seq::new(s.uris@.len(), |i: int| UriState::Waiting)
}

/// The task that a kept one starts again as.
pub fn revive(s: SavedTask, f: Found, default_dir: &str, env: &Env) -> (t: Task)
    requires
        f.meta is Some ==> f.meta->0.info.wf(),
    ensures
        is_revived(t, s, f, default_dir@, *env),
        t.wf(),
{
    let dir = match &s.dir {
        Some(d) => normalize_dir(d.as_str(), &env.place),
        None => default_dir.to_owned(),
    };
    let checksum = match &s.checksum {
        Some(c) => parse_checksum_option(c.as_str(), &env.hash_names),
        None => None,
    };
    let disk: u64 = match s.status {
        Status::Waiting => if s.path.is_some() {
            f.existing
        } else {
            0
        },
        _ => 0,
    };
    let hash = match &s.info_hash {
        Some(h) => {
            if h.as_str().as_bytes().len() == 40 {
                Some(read_hex(h.as_str()))
            } else {
                None
            }
        },
        None => None,
    };
    let bitfield: Vec<u8> = match &s.bitfield {
        Some(b) => read_hex(b.as_str()),
        None => Vec::new(),
    };
    let filename = match &s.path {
        Some(p) => Some(file_name(p.as_str())),
        None => None,
    };
    let mut t = Task::new(s.gid, s.uris, dir, s.out, checksum, s.options);
    t.bt_trackers = s.trackers;
    t.bt_info_hash = hash;
    t.bt_bitfield = bitfield;
    t.bt_meta = f.meta;
    t.shared.completed = if disk > 0 { disk } else { s.completed };
    t.live.completed = disk;
    t.shared.total_len = s.total;
    t.shared.file_len = match s.total {
        Some(n) => n,
        None => 0,
    };
    t.shared.active_ms = s.elapsed_ms;
    t.shared.path = s.path;
    t.shared.filename = filename;
    t.shared.error_code = s.error_code;
    t.shared.error_message = s.error_message;
    t.shared.status = s.status;
    t.finished_at = s.finished_at;
    t.avg_active_ms = s.avg_active_ms;
    t.avg_bytes = s.avg_bytes;
    assert(t.bt_bitfield@ =~= match opt_view(s.bitfield) {
        Some(b) => hex_bytes(vstd::utf8::encode_utf8(b)),
        None => Seq::empty(),
    });
    t
}

// ---------------------------------------------------------------------------
// All tasks
// ---------------------------------------------------------------------------

/// The kept tasks of a session, as far as they have a name.
pub open spec fn kept_tasks(v: Seq<JsonView>) -> Seq<SavedView>
    decreases v.len(),
{
    if v.len() == 0 {
        Seq::empty()
    } else {
        let rest = kept_tasks(v.drop_last());
        match read_view(v.last()) {
            Some(s) => rest.push(s),
            None => rest,
        }
    }
}

/// What some kept tasks say.
pub open spec fn saved_views(v: Seq<SavedTask>) -> Seq<SavedView> {
    Seq::new(v.len(), |i: int| v[i]@)
}

/// A kept task that can start again: it does not run, and no option occurs twice.
pub open spec fn fit(s: SavedTask) -> bool {
    !(s.status is Active) && unique_keys(pair_texts(s.options@))
}

/// Whether kept tasks can start again.
pub open spec fn all_fit(v: Seq<SavedTask>) -> bool {
    forall|i: int| 0 <= i < v.len() ==> fit(#[trigger] v[i])
}

/// Whether the torrents that were found are sound.
pub open spec fn found_fit(f: Seq<Found>) -> bool {
    forall|i: int| 0 <= i < f.len() && (#[trigger] f[i]).meta is Some ==> f[i].meta->0.info.wf()
}

/// Reads the tasks of a session.
pub fn read_tasks(doc: &Json) -> (r: Vec<SavedTask>)
    ensures
        saved_views(r@) == kept_tasks(
            match doc@.at("tasks"@).array() {
                Some(a) => a,
                None => Seq::empty(),
            },
        ),
        all_fit(r@),
{
    let mut out: Vec<SavedTask> = Vec::new();
    assert(saved_views(out@) =~= Seq::<SavedView>::empty());
    match doc.get("tasks") {
        Some(j) => match j.as_array() {
            Some(a) => {
                let ghost all = json_views(a@);
                let mut i: usize = 0;
                assert(all.take(0) =~= Seq::<JsonView>::empty());
                while i < a.len()
                    invariant
                        i <= a@.len(),
                        all == json_views(a@),
                        saved_views(out@) == kept_tasks(all.take(i as int)),
                        all_fit(out@),
                    decreases a@.len() - i,
                {
                    proof {
                        assert(all.take(i + 1).drop_last() =~= all.take(i as int));
                        assert(all.take(i + 1).last() == a@[i as int]@);
                    }
                    match read_saved(&a[i]) {
                        Some(s) => {
                            let ghost before = out@;
                            out.push(s);
                            assert(saved_views(out@) =~= saved_views(before).push(s@));
                        },
                        None => {},
                    }
                    i = i + 1;
                }
                assert(all.take(i as int) =~= all);
            },
            None => {},
        },
        None => {},
    }
    out
}

/// Names of tasks, of waiting and of stopped ones.
pub struct LineUp {
    pub names: Seq<Seq<char>>,
    pub queue: Seq<Seq<char>>,
    pub stopped: Seq<Seq<char>>,
}

/// The names of some tasks.
pub open spec fn names_of(tasks: Seq<Task>) -> Seq<Seq<char>> {
    Seq::new(tasks.len(), |i: int| tasks[i].gid@)
}

/// A list with `g` at its end if `listed`.
pub open spec fn lengthened(list: Seq<Seq<char>>, g: Seq<char>, listed: bool) -> Seq<Seq<char>> {
    if listed { list.push(g) } else { list }
}

/// The lists after a kept task came back. It takes the place of an earlier one of the
/// same name, which stays queued or listed as stopped nevertheless.
pub open spec fn lined_up(l: LineUp, s: SavedTask) -> LineUp {
    LineUp {
        names: without(l.names, s.gid@).push(s.gid@),
        queue: lengthened(l.queue, s.gid@, s.status is Waiting),
        stopped: lengthened(l.stopped, s.gid@, is_final(s.status)),
    }
}

/// The lists after some kept tasks came back.
pub open spec fn all_lined_up(l: LineUp, saved: Seq<SavedTask>) -> LineUp
    decreases saved.len(),
{
    if saved.len() == 0 {
        l
    } else {
        lined_up(all_lined_up(l, saved.drop_last()), saved.last())
    }
}

/// Place of the last kept task of a name; -1 if there is none.
pub open spec fn last_named(saved: Seq<SavedTask>, gid: Seq<char>) -> int
    decreases saved.len(),
{
    if saved.len() == 0 {
        -1
    } else if saved.last().gid@ == gid {
        saved.len() - 1
    } else {
        last_named(saved.drop_last(), gid)
    }
}

/// Whether a task was there before or is what the last kept one of its name starts
/// again as.
pub open spec fn comes_from(
    t: Task,
    before: Seq<Task>,
    saved: Seq<SavedTask>,
    found: Seq<Found>,
    default_dir: Seq<char>,
    env: Env,
) -> bool {
    let j = last_named(saved, t.gid@);
    if j >= 0 {
        is_revived(t, saved[j], found[j], default_dir, env)
    } else {
        before.contains(t)
    }
}

/// Tasks without the one of a name.
pub open spec fn others(tasks: Seq<Task>, gid: Seq<char>) -> Seq<Task> {
    if has_task(tasks, gid) { tasks.remove(task_at(tasks, gid)) } else { tasks }
}

/// The names of the other tasks.
proof fn lemma_others(tasks: Seq<Task>, gid: Seq<char>)
    requires
        names_differ(tasks),
    ensures
        names_of(others(tasks, gid)) == without(names_of(tasks), gid),
        !is_named(others(tasks, gid), gid),
        forall|i: int|
            0 <= i < others(tasks, gid).len() ==> (#[trigger] others(tasks, gid)[i]).gid@ != gid
                && tasks.contains(others(tasks, gid)[i]),
{
    lemma_task_at(tasks, gid);
    let k = task_at(tasks, gid);
    let o = others(tasks, gid);
    assert forall|i: int| 0 <= i < o.len() implies (#[trigger] o[i]).gid@ != gid && tasks.contains(o[i]) by {
        if has_task(tasks, gid) {
            let n = if i < k { i } else { i + 1 };
            assert(o[i] == tasks[n]);
            if i < k {
                assert(tasks[i].gid@ != tasks[k].gid@);
            } else {
                assert(tasks[k].gid@ != tasks[n].gid@);
            }
        } else {
            assert(tasks[i] == o[i]);
            assert(tasks[i].gid@ != gid);
        }
    }
    if has_task(tasks, gid) {
        lemma_without_one(names_of(tasks), gid, k);
        assert(names_of(o) =~= names_of(tasks).remove(k));
    } else {
        lemma_without_none(names_of(tasks), gid);
    }
}

/// What is not in a list need not be taken out.
proof fn lemma_without_none(s: Seq<Seq<char>>, x: Seq<char>)
    requires
        forall|i: int| 0 <= i < s.len() ==> #[trigger] s[i] != x,
    ensures
        without(s, x) == s,
    decreases s.len(),
{
    if s.len() > 0 {
        lemma_without_none(s.drop_last(), x);
        assert(s[s.len() - 1] != x);
        assert(s.drop_last().push(s.last()) =~= s);
    }
}

/// What is in a list once is taken out at its place.
proof fn lemma_without_one(s: Seq<Seq<char>>, x: Seq<char>, k: int)
    requires
        0 <= k < s.len(),
        s[k] == x,
        forall|i: int| 0 <= i < s.len() && i != k ==> #[trigger] s[i] != x,
    ensures
        without(s, x) == s.remove(k),
    decreases s.len(),
{
    let front = s.drop_last();
    if k == s.len() - 1 {
        lemma_without_none(front, x);
        assert(s.remove(k) =~= front);
    } else {
        lemma_without_one(front, x, k);
        assert(s[s.len() - 1] != x);
        assert(s.remove(k) =~= front.remove(k).push(s.last()));
    }
}

/// Lists a name at the end of a list, if it is to be listed.
fn lengthen(v: &mut Vec<String>, gid: &str, listed: bool)
    ensures
        string_texts(final(v)@) == lengthened(string_texts(old(v)@), gid@, listed),
        forall|x: Seq<char>|
            string_texts(old(v)@).contains(x) ==> #[trigger] string_texts(final(v)@).contains(x),
        listed ==> string_texts(final(v)@).contains(gid@),
{
    if listed {
        let ghost before = v@;
        let g = gid.to_owned();
        v.push(g);
        proof {
            crate::lifecycle::lemma_pushed(before, g);
            assert(string_texts(v@) =~= string_texts(before).push(gid@));
        }
    }
}

impl TaskManager {
    /// The names of all, of waiting and of stopped tasks.
    pub open spec fn line_up(&self) -> LineUp {
        LineUp {
            names: names_of(self.tasks@),
            queue: string_texts(self.queue@),
            stopped: string_texts(self.stopped_order@),
        }
    }

    /// Takes a kept task back in, in place of an earlier one of the same name.
    fn take_back(&mut self, s: SavedTask, f: Found, env: &Env)
        requires
            old(self).wf(),
            old(self).active@.len() == 0,
            fit(s),
            f.meta is Some ==> f.meta->0.info.wf(),
        ensures
            final(self).wf(),
            final(self).line_up() == lined_up(old(self).line_up(), s),
            final(self).tasks@.drop_last() == others(old(self).tasks@, s.gid@),
            final(self).tasks@.len() > 0,
            is_revived(final(self).tasks@.last(), s, f, old(self).download_dir@, *env),
            *final(self) == (TaskManager {
                tasks: final(self).tasks,
                queue: final(self).queue,
                stopped_order: final(self).stopped_order,
                ..*old(self)
            }),
    {
        let ghost before = *self;
        let gid = s.gid.clone();
        let waiting = match s.status {
            Status::Waiting => true,
            _ => false,
        };
        let over = s.status.is_terminal();
        let ghost q = string_texts(before.queue@);
        let ghost act = string_texts(before.active@);
        let ghost st = string_texts(before.stopped_order@);
        proof {
            lemma_task_at(before.tasks@, gid@);
            lemma_others(before.tasks@, gid@);
            assert(act =~= Seq::<Seq<char>>::empty());
        }
        match self.find(gid.as_str()) {
            Some(k) => {
                let _old = self.tasks.remove(k);
                proof {
                    lemma_sound_remove(before.tasks@, q, act, st, k as int, q, act, st);
                }
            },
            None => {},
        }
        let ghost mid = self.tasks@;
        assert(mid =~= others(before.tasks@, gid@));
        let t = revive(s, f, self.download_dir.as_str(), env);
        self.tasks.push(t);
        lengthen(&mut self.queue, gid.as_str(), waiting);
        lengthen(&mut self.stopped_order, gid.as_str(), over);
        proof {
            let q2 = string_texts(self.queue@);
            let st2 = string_texts(self.stopped_order@);
            assert(task_fine(t));
            assert(!act.contains(gid@));
            lemma_sound_push(mid, q, act, st, t, q2, st2);
            assert(self.tasks@ =~= mid.push(t));
            assert(self.tasks@.drop_last() =~= mid);
            assert(names_of(self.tasks@) =~= names_of(mid).push(gid@));
        }
    }

    /// What the manager is after some kept tasks came back, before the oldest stopped
    /// ones go.
    pub open spec fn regained(
        &self,
        after: TaskManager,
        saved: Seq<SavedTask>,
        found: Seq<Found>,
        env: Env,
    ) -> bool {
        &&& after.line_up() == all_lined_up(self.line_up(), saved)
        &&& forall|i: int|
            0 <= i < after.tasks@.len() ==> comes_from(
                #[trigger] after.tasks@[i],
                self.tasks@,
                saved,
                found,
                self.download_dir@,
                env,
            )
        &&& after == (TaskManager {
            tasks: after.tasks,
            queue: after.queue,
            stopped_order: after.stopped_order,
            ..*self
        })
    }

    /// Takes the tasks of a session back in. Waiting ones queue again, paused ones stay
    /// paused, and those in a final state count as stopped. `found` says for each task
    /// what was found outside, and `ever` how many tasks the session says ever stopped.
    pub fn restore_tasks(&mut self, saved: Vec<SavedTask>, found: Vec<Found>, ever: u64, env: &Env)
        requires
            old(self).wf(),
            old(self).active@.len() == 0,
            saved@.len() == found@.len(),
            all_fit(saved@),
            found_fit(found@),
        ensures
            final(self).wf(),
            exists|mid: TaskManager|
                {
                    &&& #[trigger] old(self).regained(mid, saved@, found@, *env)
                    &&& (final(self).tasks@, final(self).stopped_order@) == evicted(
                        mid.tasks@,
                        mid.stopped_order@,
                    )
                    &&& final(self).stopped_total == {
                        let a = if old(self).stopped_total > ever { old(self).stopped_total } else { ever };
                        if a > mid.stopped_order@.len() { a as int } else { mid.stopped_order@.len() as int }
                    }
                    &&& final(self).effects@ == mid.effects@.push(Effect::Kick)
                    &&& *final(self) == (TaskManager {
                        tasks: final(self).tasks,
                        stopped_order: final(self).stopped_order,
                        stopped_total: final(self).stopped_total,
                        effects: final(self).effects,
                        ..mid
                    })
                },
    {
        let ghost start = *self;
        let ghost all = saved@;
        let ghost fall = found@;
        let mut saved = saved;
        let mut found = found;
        let n: usize = saved.len();
        let mut i: usize = 0;
        proof {
            assert(all.take(0) =~= Seq::<SavedTask>::empty());
            assert(all.skip(0) =~= all);
            assert(fall.skip(0) =~= fall);
            assert forall|k: int| 0 <= k < start.tasks@.len() implies comes_from(
                #[trigger] start.tasks@[k],
                start.tasks@,
                all.take(0),
                fall,
                start.download_dir@,
                *env,
            ) by {
                assert(start.tasks@.contains(start.tasks@[k]));
            }
        }
        while i < n
            invariant
                i <= n,
                n == all.len(),
                n == fall.len(),
                all_fit(all),
                found_fit(fall),
                saved@ == all.skip(i as int),
                found@ == fall.skip(i as int),
                self.wf(),
                start.active@.len() == 0,
                start.regained(*self, all.take(i as int), fall, *env),
            decreases n - i,
        {
            let ghost before = *self;
            let s = saved.remove(0);
            let f = found.remove(0);
            proof {
                assert(s == all[i as int]);
                assert(f == fall[i as int]);
                assert(saved@ =~= all.skip(i + 1));
                assert(found@ =~= fall.skip(i + 1));
                assert(fit(all[i as int]));
                assert(fall[i as int].meta is Some ==> fall[i as int].meta->0.info.wf());
                lemma_others(before.tasks@, s.gid@);
            }
            self.take_back(s, f, env);
            proof {
                let upto = all.take(i + 1);
                assert(upto.drop_last() =~= all.take(i as int));
                assert(upto.last() == s);
                assert forall|k: int| 0 <= k < self.tasks@.len() implies comes_from(
                    #[trigger] self.tasks@[k],
                    start.tasks@,
                    upto,
                    fall,
                    start.download_dir@,
                    *env,
                ) by {
                    let t = self.tasks@[k];
                    if k < self.tasks@.len() - 1 {
                        let o = others(before.tasks@, s.gid@);
                        assert(self.tasks@.drop_last()[k] == t);
                        assert(o[k] == t);
                        assert(before.tasks@.contains(t));
                        let b = choose|b: int| 0 <= b < before.tasks@.len() && before.tasks@[b] == t;
                        assert(comes_from(
                            before.tasks@[b],
                            start.tasks@,
                            all.take(i as int),
                            fall,
                            start.download_dir@,
                            *env,
                        ));
                        lemma_last_named(all.take(i as int), t.gid@);
                        assert(t.gid@ != s.gid@);
                    } else {
                        assert(t == self.tasks@.last());
                        assert(last_named(upto, t.gid@) == i);
                    }
                }
            }
            i = i + 1;
        }
        let ghost mid = *self;
        assert(all.take(i as int) =~= all);
        assert(start.regained(mid, all, fall, *env));
        if self.stopped_total < ever {
            self.stopped_total = ever;
        }
        let stopped: u64 = self.stopped_order.len() as u64;
        if self.stopped_total < stopped {
            self.stopped_total = stopped;
        }
        self.evict();
        self.note(Effect::Kick);
    }
}

/// `last_named` is a place in the list.
proof fn lemma_last_named(saved: Seq<SavedTask>, gid: Seq<char>)
    ensures
        -1 <= last_named(saved, gid) < saved.len(),
    decreases saved.len(),
{
    if saved.len() > 0 {
        lemma_last_named(saved.drop_last(), gid);
    }
}

/// A task that was saved and starts again is the same task: its name, its addresses, its
/// options and trackers, its torrent, its finished pieces, its clocks and the words of
/// its failure. One that ran waits again.
pub proof fn law_task_survives_restart(
    t: Task,
    now: u64,
    s: SavedTask,
    f: Found,
    again: Task,
    default_dir: Seq<char>,
    env: Env,
)
    requires
        s@ == saved_of(t, now),
        is_revived(again, s, f, default_dir, env),
        t.bt_info_hash is Some ==> t.bt_info_hash->0@.len() == 20,
    ensures
        again.gid@ == t.gid@,
        string_texts(again.uris@) == string_texts(t.uris@),
        again.dir@ == env.place.normal(t.dir@),
        opt_view(again.out) == opt_view(t.out),
        pair_texts(again.options@) == pair_texts(t.options@),
        string_texts(again.bt_trackers@) == string_texts(t.bt_trackers@),
        again.bt_meta == f.meta,
        match t.bt_info_hash {
            Some(h) => again.bt_info_hash is Some && again.bt_info_hash->0@ == h@,
            None => again.bt_info_hash is None,
        },
        again.bt_bitfield@ == t.bt_bitfield@,
        again.shared.status == kept_status(t.shared.status),
        again.shared.completed == if on_disk(s, f) > 0 { on_disk(s, f) } else { t.completed_now() },
        active_time(again.shared, now) == active_time(t.shared, now),
        opt_view(again.shared.path) == Some(path_text(t.shared.path)),
        again.shared.error_code == t.shared.error_code,
        again.shared.error_message@ == t.shared.error_message@,
        again.finished_at == t.finished_at,
        again.avg_active_ms == t.avg_active_ms,
        again.avg_bytes == t.avg_bytes,
{
    law_hex_round_trip(t.bt_bitfield@);
    match t.bt_info_hash {
        Some(h) => {
            law_hex_round_trip(h@);
        },
        None => {},
    }
}

/// A task that was saved and starts again has the length and the limits that it had; one
/// that ran or seeded waits, any other one is in its state; nothing moves yet, no file is
/// asked for, and its file is called as the end of its path says.
pub proof fn law_restarted_task_is_at_rest(
    t: Task,
    now: u64,
    s: SavedTask,
    f: Found,
    again: Task,
    default_dir: Seq<char>,
    env: Env,
)
    requires
        s@ == saved_of(t, now),
        is_revived(again, s, f, default_dir, env),
    ensures
        again.shared.total_len == Some(
            match t.shared.total_len {
                Some(n) => n,
                None => 0,
            },
        ),
        again.shared.file_len == again.shared.total_len->0,
        t.shared.status is Active || t.shared.status is Seeding || t.shared.status is Waiting
            ==> again.shared.status is Waiting,
        t.shared.status is Paused ==> again.shared.status is Paused,
        t.shared.status is Complete ==> again.shared.status is Complete,
        t.shared.status is Error ==> again.shared.status is Error,
        t.shared.status is Removed ==> again.shared.status is Removed,
        again.task_dl_limit == limit_of(pair_texts(t.options@), "max-download-limit"@) as u64,
        again.task_ul_limit == limit_of(pair_texts(t.options@), "max-upload-limit"@) as u64,
        again.shared.download_speed == 0 && again.shared.upload_speed == 0 && again.shared.connections
            == 0,
        again.shared.active_since is None,
        again.live.speed == 0 && again.live.connections == 0 && again.live.uploaded == 0,
        !again.awaiting_selection && again.selected_files is None && again.intent is Unset
            && !again.delete_files,
        opt_view(again.shared.filename) == Some(base_name(path_text(t.shared.path))),
        again.uri_states@.len() == t.uris@.len(),
        forall|i: int| 0 <= i < again.uri_states@.len() ==> (#[trigger] again.uri_states@[i]) is Waiting,
        t.checksum is Some ==> opt_pair(again.checksum) == checksum_of(
            crate::settings::checksum_text(t.checksum->0),
            pair_texts(env.hash_names@),
        ),
        t.checksum is None ==> again.checksum is None,
{
    assert(string_texts(s.uris@).len() == string_texts(t.uris@).len());
}

/// What is on disk counts for a task that waits and has a path; else what was kept.
pub proof fn law_disk_counts_for_waiting_tasks(
    s: SavedTask,
    f: Found,
    again: Task,
    default_dir: Seq<char>,
    env: Env,
)
    requires
        is_revived(again, s, f, default_dir, env),
    ensures
        s.status is Waiting && s.path is Some && f.existing > 0 ==> again.completed_now() == f.existing,
        s.status is Waiting && s.path is Some && f.existing == 0 ==> again.completed_now()
            == s.completed,
        !(s.status is Waiting) || s.path is None ==> again.completed_now() == s.completed,
{
}

/// A kept task takes its place in the lists: one that waits in the queue, one that is over
/// among the stopped ones, in the order in which they were kept.
pub proof fn law_kept_tasks_line_up(l: LineUp, saved: Seq<SavedTask>, s: SavedTask)
    ensures
        ({
            let a = all_lined_up(l, saved);
            let b = all_lined_up(l, saved.push(s));
            &&& b.names.len() > 0 && b.names.last() == s.gid@
            &&& (s.status is Waiting ==> b.queue == a.queue.push(s.gid@))
            &&& (!(s.status is Waiting) ==> b.queue == a.queue)
            &&& (s.status is Complete || s.status is Error || s.status is Removed ==> b.stopped
                == a.stopped.push(s.gid@))
            &&& (s.status is Waiting || s.status is Paused ==> b.stopped == a.stopped)
        }),
{
    assert(saved.push(s).drop_last() =~= saved);
}

/// Of several kept tasks of one name the last one counts.
pub proof fn law_last_kept_task_of_a_name(saved: Seq<SavedTask>, gid: Seq<char>, i: int)
    ensures
        ({
            let k = last_named(saved, gid);
            &&& -1 <= k < saved.len()
            &&& k >= 0 ==> saved[k].gid@ == gid
            &&& k < i < saved.len() && 0 <= i ==> saved[i].gid@ != gid
        }),
    decreases saved.len(),
{
    if saved.len() > 0 && saved.last().gid@ != gid {
        law_last_kept_task_of_a_name(saved.drop_last(), gid, i);
        if 0 <= i < saved.len() - 1 {
            assert(saved.drop_last()[i] == saved[i]);
        }
    }
}

} // verus!
