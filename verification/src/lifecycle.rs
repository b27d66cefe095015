//! The life of a task: from the queue into a slot, and from there to rest.

use vstd::prelude::*;

use crate::lists::{lemma_without, take_out, without};
use crate::manager::{
    fails, has_task, is_named, lemma_sound_remove, lemma_sound_update, lemma_task_at, names_differ,
    sound, task_at, unknown_gid, Effect, Event, TaskManager,
};
use crate::manifest::string_texts;
use crate::task::{status_set, Intent, Status, Task};

verus! {

/// A task with another state.
pub open spec fn moved(t: Task, s: Status, now: u64) -> Task {
    Task { shared: status_set(t.shared, s, now), ..t }
}

/// A copy of an optional path.
pub fn copy_path(p: &Option<String>) -> (r: Option<String>)
    ensures
        r == *p,
{
    match p {
        Some(s) => Some(s.clone()),
        None => None,
    }
}

/// A list without the entry of a path, if there is one.
pub open spec fn released(claims: Seq<Seq<char>>, path: Option<String>) -> Seq<Seq<char>> {
    match path {
        Some(p) => without(claims, p@),
        None => claims,
    }
}

/// Takes a path out of the claims.
pub fn release(claims: &mut Vec<String>, path: &Option<String>)
    ensures
        string_texts(final(claims)@) == released(string_texts(old(claims)@), *path),
{
    match path {
        Some(p) => {
            take_out(claims, p.as_str());
        },
        None => {},
    }
}

/// A list without one entry still names nothing twice.
pub proof fn lemma_lost(s: Seq<Seq<char>>, x: Seq<char>)
    requires
        s.no_duplicates(),
    ensures
        without(s, x).no_duplicates(),
    decreases s.len(),
{
    if s.len() > 0 {
        let front = s.drop_last();
        assert(front.no_duplicates()) by {
            assert forall|i: int, j: int| 0 <= i < front.len() && 0 <= j < front.len() && i != j implies front[i]
                != front[j] by {
                assert(s[i] != s[j]);
            }
        }
        lemma_lost(front, x);
        lemma_without(front, x);
        if s.last() != x {
            let rest = without(front, x);
            if rest.contains(s.last()) {
                assert(front.contains(s.last()));
                let k = choose|k: int| 0 <= k < front.len() && front[k] == s.last();
                assert(s[k] == s[s.len() - 1]);
            }
            let all = rest.push(s.last());
            assert forall|i: int, j: int| 0 <= i < all.len() && 0 <= j < all.len() && i != j implies all[i]
                != all[j] by {
                if i < rest.len() && j < rest.len() {
                    assert(rest[i] != rest[j]);
                } else if i < rest.len() {
                    assert(rest.contains(rest[i]));
                } else {
                    assert(rest.contains(rest[j]));
                }
            }
        }
    }
}

impl TaskManager {
    /// What the manager is after a request to pause a task.
    pub open spec fn pauses(
        &self,
        after: TaskManager,
        gid: Seq<char>,
        now: u64,
        r: Result<(), String>,
    ) -> bool {
        &&& after == (TaskManager {
            tasks: after.tasks,
            queue: after.queue,
            effects: after.effects,
            ..*self
        })
        &&& !has_task(self.tasks@, gid) ==> fails(r, unknown_gid(gid)) && after
            == *self
        &&& has_task(self.tasks@, gid) ==> {
            let k = task_at(self.tasks@, gid);
            let t = self.tasks@[k];
            match t.shared.status {
                Status::Waiting => {
                    &&& r is Ok
                    &&& after.tasks@ == self.tasks@.update(
                        k,
                        moved(t, Status::Paused, now),
                    )
                    &&& string_texts(after.queue@) == without(
                        string_texts(self.queue@),
                        gid,
                    )
                    &&& after.effects@ == self.effects@.push(
                        Effect::Emit { event: Event::Pause, gid: t.gid },
                    ).push(Effect::Kick).push(Effect::Save)
                },
                Status::Active | Status::Seeding => {
                    &&& r is Ok
                    &&& after.tasks@ == self.tasks@.update(
                        k,
                        Task { intent: Intent::Pause, ..t },
                    )
                    &&& after.queue == self.queue
                    &&& after.effects@ == self.effects@.push(
                        Effect::Cancel { gid: t.gid },
                    )
                },
                Status::Paused => fails(r, "任务已暂停"@) && after == *self,
                _ => fails(r, "任务已结束，无法暂停"@) && after == *self,
            }
        }
    }

    /// Pauses a task: a waiting one at once, one that runs or seeds by cancelling its
    /// worker.
    pub fn pause(&mut self, gid: &str, now: u64) -> (r: Result<(), String>)
        requires
            old(self).wf(),
        ensures
            final(self).wf(),
            old(self).pauses(*final(self), gid@, now, r),
    {
        let k: usize = match self.task_of(gid) {
            Ok(k) => k,
            Err(e) => {
                return Err(e);
            },
        };
        let ghost before = *self;
        let ghost q1 = string_texts(self.queue@);
        let ghost act = string_texts(self.active@);
        let ghost st = string_texts(self.stopped_order@);
        let g = self.tasks[k].gid.clone();
        match self.tasks[k].status() {
            Status::Waiting => {
                take_out(&mut self.queue, gid);
                self.tasks[k].set_status(Status::Paused, now);
                proof {
                    let t = moved(before.tasks@[k as int], Status::Paused, now);
                    lemma_without(q1, gid@);
                    assert(self.tasks@ =~= before.tasks@.update(k as int, t));
                    lemma_sound_update(
                        before.tasks@,
                        q1,
                        act,
                        st,
                        k as int,
                        t,
                        string_texts(self.queue@),
                        act,
                        st,
                    );
                }
                let g2 = g.clone();
                self.note(Effect::Emit { event: Event::Pause, gid: g2 });
                self.note(Effect::Kick);
                self.note(Effect::Save);
                Ok(())
            },
            Status::Active | Status::Seeding => {
                self.tasks[k].intent = Intent::Pause;
                proof {
                    let t = Task { intent: Intent::Pause, ..before.tasks@[k as int] };
                    assert(self.tasks@ =~= before.tasks@.update(k as int, t));
                    lemma_sound_update(before.tasks@, q1, act, st, k as int, t, q1, act, st);
                }
                self.note(Effect::Cancel { gid: g });
                Ok(())
            },
            Status::Paused => Err("任务已暂停".to_owned()),
            _ => Err("任务已结束，无法暂停".to_owned()),
        }
    }

    /// What the manager is after a request to queue a paused task again.
    pub open spec fn unpauses(
        &self,
        after: TaskManager,
        gid: Seq<char>,
        now: u64,
        r: Result<(), String>,
    ) -> bool {
        &&& after == (TaskManager {
            tasks: after.tasks,
            queue: after.queue,
            effects: after.effects,
            ..*self
        })
        &&& !has_task(self.tasks@, gid) ==> fails(r, unknown_gid(gid)) && after
            == *self
        &&& has_task(self.tasks@, gid) ==> {
            let k = task_at(self.tasks@, gid);
            let t = self.tasks@[k];
            if t.shared.status is Paused {
                &&& r is Ok
                &&& after.tasks@ == self.tasks@.update(
                    k,
                    moved(
                        Task { intent: Intent::Unset, delete_files: false, ..t },
                        Status::Waiting,
                        now,
                    ),
                )
                &&& after.queue@ == self.queue@.push(t.gid)
                &&& after.effects@ == self.effects@.push(Effect::Kick).push(
                    Effect::Save,
                )
            } else {
                fails(r, "任务未处于暂停状态"@) && after == *self
            }
        }
    }

    /// Queues a paused task again.
    pub fn unpause(&mut self, gid: &str, now: u64) -> (r: Result<(), String>)
        requires
            old(self).wf(),
        ensures
            final(self).wf(),
            old(self).unpauses(*final(self), gid@, now, r),
    {
        let k: usize = match self.task_of(gid) {
            Ok(k) => k,
            Err(e) => {
                return Err(e);
            },
        };
        if self.tasks[k].status() != Status::Paused {
            return Err("任务未处于暂停状态".to_owned());
        }
        let ghost before = *self;
        let ghost q1 = string_texts(self.queue@);
        let ghost act = string_texts(self.active@);
        let ghost st = string_texts(self.stopped_order@);
        let g = self.tasks[k].gid.clone();
        self.tasks[k].intent = Intent::Unset;
        self.tasks[k].delete_files = false;
        self.queue.push(g);
        self.tasks[k].set_status(Status::Waiting, now);
        proof {
            let t = moved(
                Task { intent: Intent::Unset, delete_files: false, ..before.tasks@[k as int] },
                Status::Waiting,
                now,
            );
            assert(self.tasks@ =~= before.tasks@.update(k as int, t));
            lemma_pushed(before.queue@, g);
            lemma_sound_update(
                before.tasks@,
                q1,
                act,
                st,
                k as int,
                t,
                string_texts(self.queue@),
                act,
                st,
            );
        }
        self.note(Effect::Kick);
        self.note(Effect::Save);
        Ok(())
    }

    /// What the manager is after the task at place `k` was taken out for good.
    pub open spec fn dropped(&self, after: TaskManager, k: int, files: bool) -> bool {
        let t = self.tasks@[k];
        &&& after.tasks@ == self.tasks@.remove(k)
        &&& if t.shared.status is Waiting {
            string_texts(after.queue@) == without(string_texts(self.queue@), t.gid@)
        } else {
            after.queue == self.queue
        }
        &&& string_texts(after.stopped_order@) == without(string_texts(self.stopped_order@), t.gid@)
        &&& string_texts(after.claims@) == released(string_texts(self.claims@), t.shared.path)
        &&& after.effects@ == self.effects@.push(
            Effect::CleanUp { path: t.shared.path, files },
        ).push(Effect::Emit { event: Event::Stop, gid: t.gid }).push(Effect::Kick).push(Effect::Save)
        &&& after == (TaskManager {
            tasks: after.tasks,
            queue: after.queue,
            stopped_order: after.stopped_order,
            claims: after.claims,
            effects: after.effects,
            ..*self
        })
    }

    /// What comes of the removal of a task, with or without what it downloaded.
    pub open spec fn removes_all(
        &self,
        after: TaskManager,
        gid: Seq<char>,
        delete_files: bool,
        r: Result<(), String>,
    ) -> bool {
        &&& !has_task(self.tasks@, gid) ==> fails(r, unknown_gid(gid)) && after
            == *self
        &&& has_task(self.tasks@, gid) ==> {
            let k = task_at(self.tasks@, gid);
            let t = self.tasks@[k];
            &&& r is Ok
            &&& if t.shared.status is Active {
                &&& after.tasks@ == self.tasks@.update(
                    k,
                    Task { intent: Intent::Remove, delete_files, ..t },
                )
                &&& after.effects@ == self.effects@.push(
                    Effect::Cancel { gid: t.gid },
                )
                &&& after == (TaskManager {
                    tasks: after.tasks,
                    effects: after.effects,
                    ..*self
                })
            } else {
                self.dropped(after, k, delete_files)
            }
        }
    }

    /// Removes a task; with `delete_files` what it downloaded goes too. A running task
    /// is cancelled first and goes when its worker has ended; any other one goes at
    /// once and leaves no trace.
    pub fn remove_with_files(&mut self, gid: &str, delete_files: bool) -> (r: Result<(), String>)
        requires
            old(self).wf(),
        ensures
            final(self).wf(),
            old(self).removes_all(*final(self), gid@, delete_files, r),
    {
        let k: usize = match self.task_of(gid) {
            Ok(k) => k,
            Err(e) => {
                return Err(e);
            },
        };
        let ghost before = *self;
        let ghost q1 = string_texts(self.queue@);
        let ghost act = string_texts(self.active@);
        let ghost st = string_texts(self.stopped_order@);
        if self.tasks[k].status() == Status::Active {
            let g = self.tasks[k].gid.clone();
            self.tasks[k].delete_files = delete_files;
            self.tasks[k].intent = Intent::Remove;
            proof {
                let t = Task { intent: Intent::Remove, delete_files, ..before.tasks@[k as int] };
                assert(self.tasks@ =~= before.tasks@.update(k as int, t));
                lemma_sound_update(before.tasks@, q1, act, st, k as int, t, q1, act, st);
            }
            self.note(Effect::Cancel { gid: g });
            return Ok(());
        }
        if self.tasks[k].status() == Status::Waiting {
            take_out(&mut self.queue, gid);
        }
        take_out(&mut self.stopped_order, gid);
        let t = self.tasks.remove(k);
        release(&mut self.claims, &t.shared.path);
        proof {
            lemma_without(q1, gid@);
            lemma_without(st, gid@);
            lemma_sound_remove(
                before.tasks@,
                q1,
                act,
                st,
                k as int,
                string_texts(self.queue@),
                act,
                string_texts(self.stopped_order@),
            );
        }
        self.note(Effect::CleanUp { path: t.shared.path, files: delete_files });
        self.note(Effect::Emit { event: Event::Stop, gid: t.gid });
        self.note(Effect::Kick);
        self.note(Effect::Save);
        Ok(())
    }

    /// What the manager is after a request to remove a task.
    pub open spec fn removes(
        &self,
        after: TaskManager,
        gid: Seq<char>,
        r: Result<(), String>,
    ) -> bool {
        &&& !has_task(self.tasks@, gid) ==> fails(r, unknown_gid(gid)) && after
            == *self
        &&& has_task(self.tasks@, gid) ==> {
            let k = task_at(self.tasks@, gid);
            let t = self.tasks@[k];
            &&& r is Ok
            &&& if t.shared.status is Active {
                &&& after.tasks@ == self.tasks@.update(
                    k,
                    Task { intent: Intent::Remove, delete_files: false, ..t },
                )
                &&& after.effects@ == self.effects@.push(
                    Effect::Cancel { gid: t.gid },
                )
                &&& after == (TaskManager {
                    tasks: after.tasks,
                    effects: after.effects,
                    ..*self
                })
            } else {
                self.dropped(after, k, false)
            }
        }
    }

    /// Removes a task and keeps what it downloaded.
    pub fn remove(&mut self, gid: &str) -> (r: Result<(), String>)
        requires
            old(self).wf(),
        ensures
            final(self).wf(),
            old(self).removes(*final(self), gid@, r),
    {
        self.remove_with_files(gid, false)
    }
}

/// What a list holds after an entry was added.
pub proof fn lemma_pushed(q: Seq<String>, g: String)
    ensures
        string_texts(q.push(g)).contains(g@),
        forall|x: Seq<char>| string_texts(q).contains(x) ==> #[trigger] string_texts(q.push(g)).contains(x),
        forall|x: Seq<char>|
            #[trigger] string_texts(q.push(g)).contains(x) ==> string_texts(q).contains(x) || x == g@,
{
    let after = string_texts(q.push(g));
    assert(after[q.len() as int] == g@);
    assert forall|x: Seq<char>| string_texts(q).contains(x) implies #[trigger] after.contains(x) by {
        let i = choose|i: int| 0 <= i < string_texts(q).len() && string_texts(q)[i] == x;
        assert(after[i] == x);
    }
    assert forall|x: Seq<char>| #[trigger] after.contains(x) implies string_texts(q).contains(x) || x
        == g@ by {
        let i = choose|i: int| 0 <= i < after.len() && after[i] == x;
        if i < q.len() {
            assert(string_texts(q)[i] == x);
        }
    }
}

// ---------------------------------------------------------------------------
// Slots
// ---------------------------------------------------------------------------

/// The state that matters for filling slots.
pub struct SlotView {
    pub tasks: Seq<Task>,
    pub queue: Seq<String>,
    pub active: Seq<String>,
    pub effects: Seq<Effect>,
}

/// Slots after the front of the queue moved up, as long as there are free ones. Entries
/// whose task is gone or no longer waits are passed over.
pub open spec fn slots_filled(v: SlotView, max: int, now: u64) -> SlotView
    decreases v.queue.len(),
{
    if v.active.len() >= max || v.queue.len() == 0 {
        v
    } else {
        slots_filled(slot_step(v, now), max, now)
    }
}

/// One entry of the queue moved up.
pub open spec fn slot_step(v: SlotView, now: u64) -> SlotView {
    let g = v.queue[0];
    let k = task_at(v.tasks, g@);
    let rest = v.queue.skip(1);
    if has_task(v.tasks, g@) && v.tasks[k].shared.status is Waiting {
        SlotView {
            tasks: v.tasks.update(k, moved(v.tasks[k], Status::Active, now)),
            queue: rest,
            active: v.active.push(v.tasks[k].gid),
            effects: v.effects.push(Effect::Emit { event: Event::Start, gid: v.tasks[k].gid }).push(
                Effect::Run { gid: v.tasks[k].gid },
            ),
        }
    } else {
        SlotView { queue: rest, ..v }
    }
}

/// The slots of a manager.
pub open spec fn slots_of(m: TaskManager) -> SlotView {
    SlotView { tasks: m.tasks@, queue: m.queue@, active: m.active@, effects: m.effects@ }
}

proof fn lemma_front_gone(q: Seq<String>)
    requires
        q.len() > 0,
    ensures
        string_texts(q.skip(1)) == string_texts(q).skip(1),
        forall|x: Seq<char>|
            x != q[0]@ && string_texts(q).contains(x) ==> #[trigger] string_texts(q.skip(1)).contains(x),
{
    assert(string_texts(q.skip(1)) =~= string_texts(q).skip(1));
    assert forall|x: Seq<char>| x != q[0]@ && string_texts(q).contains(x) implies #[trigger] string_texts(
        q.skip(1),
    ).contains(x) by {
        let i = choose|i: int| 0 <= i < string_texts(q).len() && string_texts(q)[i] == x;
        assert(string_texts(q.skip(1))[i - 1] == x);
    }
}

impl TaskManager {
    /// Starts waiting tasks while there are free slots.
    pub fn fill_slots(&mut self, now: u64)
        requires
            old(self).wf(),
        ensures
            final(self).wf(),
            slots_of(*final(self)) == slots_filled(
                slots_of(*old(self)),
                old(self).max_concurrent as int,
                now,
            ),
            *final(self) == (TaskManager {
                tasks: final(self).tasks,
                queue: final(self).queue,
                active: final(self).active,
                effects: final(self).effects,
                ..*old(self)
            }),
    {
        let ghost start = *self;
        while self.active.len() < self.max_concurrent && self.queue.len() > 0
            invariant
                self.wf(),
                slots_filled(slots_of(start), start.max_concurrent as int, now) == slots_filled(
                    slots_of(*self),
                    self.max_concurrent as int,
                    now,
                ),
                *self == (TaskManager {
                    tasks: self.tasks,
                    queue: self.queue,
                    active: self.active,
                    effects: self.effects,
                    ..start
                }),
            decreases self.queue@.len(),
        {
            let ghost before = *self;
            let g = self.queue.remove(0);
            proof {
                lemma_front_gone(before.queue@);
                lemma_task_at(before.tasks@, g@);
                assert(self.queue@ =~= before.queue@.skip(1));
            }
            match self.find(g.as_str()) {
                Some(k) => {
                    if self.tasks[k].status() == Status::Waiting {
                        let name = self.tasks[k].gid.clone();
                        self.active.push(name);
                        self.tasks[k].set_status(Status::Active, now);
                        let a = self.tasks[k].gid.clone();
                        let b = self.tasks[k].gid.clone();
                        proof {
                            let t = moved(before.tasks@[k as int], Status::Active, now);
                            let act = string_texts(before.active@);
                            assert(self.tasks@ =~= before.tasks@.update(k as int, t));
                            lemma_pushed(before.active@, name);
                            assert(!act.contains(g@));
                            let act2 = string_texts(self.active@);
                            assert(act2 =~= act.push(g@));
                            assert(act2.no_duplicates());
                            let st = string_texts(before.stopped_order@);
                            lemma_sound_update(
                                before.tasks@,
                                string_texts(before.queue@),
                                act,
                                st,
                                k as int,
                                t,
                                string_texts(self.queue@),
                                act2,
                                st,
                            );
                        }
                        self.note(Effect::Emit { event: Event::Start, gid: a });
                        self.note(Effect::Run { gid: b });
                    } else {
                        proof {
                            lemma_queue_loss(before, self.queue@, g@);
                        }
                    }
                },
                None => {
                    proof {
                        lemma_queue_loss(before, self.queue@, g@);
                    }
                },
            }
            proof {
                assert(slots_of(*self) == slot_step(slots_of(before), now));
            }
        }
    }
}

proof fn lemma_queue_loss(m: TaskManager, q: Seq<String>, g: Seq<char>)
    requires
        m.wf(),
        forall|x: Seq<char>|
            x != g && string_texts(m.queue@).contains(x) ==> #[trigger] string_texts(q).contains(x),
        !has_task(m.tasks@, g) || !(m.tasks@[task_at(m.tasks@, g)].shared.status is Waiting),
    ensures
        sound(
            m.tasks@,
            string_texts(q),
            string_texts(m.active@),
            string_texts(m.stopped_order@),
        ),
{
    lemma_task_at(m.tasks@, g);
    assert forall|i: int|
        0 <= i < m.tasks@.len() && (#[trigger] m.tasks@[i]).shared.status is Waiting implies string_texts(
        q,
    ).contains(m.tasks@[i].gid@) by {
        if m.tasks@[i].gid@ == g {
            assert(is_named(m.tasks@, g));
            let k = task_at(m.tasks@, g);
            if i < k {
                assert(m.tasks@[i].gid@ != m.tasks@[k].gid@);
            } else if k < i {
                assert(m.tasks@[k].gid@ != m.tasks@[i].gid@);
            }
        } else {
            assert(string_texts(m.queue@).contains(m.tasks@[i].gid@));
        }
    }
}

/// After filling, either every slot is taken or nobody waits; slots never overflow.
pub proof fn law_slots_are_used(v: SlotView, max: int, now: u64)
    requires
        max >= 0,
    ensures
        ({
            let w = slots_filled(v, max, now);
            &&& w.active.len() >= max || w.queue.len() == 0
            &&& v.active.len() <= max ==> w.active.len() <= max
            &&& v.active.len() > max ==> w == v
        }),
    decreases v.queue.len(),
{
    if v.active.len() < max && v.queue.len() > 0 {
        law_slots_are_used(slot_step(v, now), max, now);
    }
}

/// A running task stays in its slot while others are started.
pub proof fn law_running_tasks_stay(v: SlotView, max: int, now: u64)
    ensures
        v.active.is_prefix_of(slots_filled(v, max, now).active),
    decreases v.queue.len(),
{
    if v.active.len() < max && v.queue.len() > 0 {
        let s = slot_step(v, now);
        law_running_tasks_stay(s, max, now);
        let w = slots_filled(v, max, now).active;
        assert forall|i: int| 0 <= i < v.active.len() implies v.active[i] == w[i] by {
            assert(s.active[i] == v.active[i]);
            assert(s.active.is_prefix_of(w));
            assert(s.active =~= w.take(s.active.len() as int));
            assert(w.take(s.active.len() as int)[i] == w[i]);
        }
        assert(v.active =~= w.take(v.active.len() as int));
    }
}

/// A waiting task that is paused and queued again waits as before, behind all others;
/// no other task is touched.
pub proof fn law_paused_task_queues_again(
    m: TaskManager,
    paused: TaskManager,
    again: TaskManager,
    gid: Seq<char>,
    now: u64,
    later: u64,
    r: Result<(), String>,
    q: Result<(), String>,
)
    requires
        m.wf(),
        has_task(m.tasks@, gid),
        m.tasks@[task_at(m.tasks@, gid)].shared.status is Waiting,
        m.pauses(paused, gid, now, r),
        paused.unpauses(again, gid, later, q),
    ensures
        r is Ok,
        q is Ok,
        ({
            let k = task_at(m.tasks@, gid);
            &&& again.tasks@.len() == m.tasks@.len()
            &&& again.tasks@[k].gid == m.tasks@[k].gid
            &&& again.tasks@[k].options == m.tasks@[k].options
            &&& again.tasks@[k].shared.status is Waiting
            &&& forall|i: int| 0 <= i < m.tasks@.len() && i != k ==> again.tasks@[i] == m.tasks@[i]
        }),
        string_texts(again.queue@) == without(string_texts(m.queue@), gid).push(gid),
        again.active == m.active,
        again.stopped_order == m.stopped_order,
{
    let k = task_at(m.tasks@, gid);
    lemma_task_at(m.tasks@, gid);
    lemma_task_at(paused.tasks@, gid);
    assert(paused.tasks@[k].gid@ == gid);
    assert(is_named(paused.tasks@, gid));
    let j = task_at(paused.tasks@, gid);
    assert(m.tasks@[j].gid@ == gid || j == k);
    assert(j == k);
    assert(string_texts(again.queue@) =~= string_texts(paused.queue@).push(gid));
}

/// Tasks that keep their names keep their places.
pub proof fn lemma_same_place(a: Seq<Task>, b: Seq<Task>, g: Seq<char>)
    requires
        a.len() == b.len(),
        forall|i: int| 0 <= i < a.len() ==> (#[trigger] a[i]).gid@ == b[i].gid@,
    ensures
        task_at(a, g) == task_at(b, g),
        has_task(a, g) == has_task(b, g),
{
    lemma_task_at(a, g);
    lemma_task_at(b, g);
    let i = task_at(a, g);
    let j = task_at(b, g);
    if i < j {
        assert(b[i].gid@ != g);
        assert(a[i].gid@ == b[i].gid@);
    }
    if j < i {
        assert(a[j].gid@ != g);
        assert(a[j].gid@ == b[j].gid@);
    }
}

/// Whether every entry of the queue names another waiting task.
pub open spec fn all_wait(v: SlotView) -> bool {
    &&& string_texts(v.queue).no_duplicates()
    &&& forall|i: int|
        0 <= i < v.queue.len() ==> has_task(v.tasks, #[trigger] v.queue[i]@) && v.tasks[task_at(
            v.tasks,
            v.queue[i]@,
        )].shared.status is Waiting
}

/// How many tasks start: as many as there are free slots, but no more than wait.
pub open spec fn starters(v: SlotView, max: int) -> int {
    let free = max - v.active.len();
    if free <= 0 {
        0
    } else if free < v.queue.len() {
        free
    } else {
        v.queue.len() as int
    }
}

/// Free slots go to the tasks at the front of the queue, in its order: these become
/// active and their clocks start, the others wait on, and no other task is touched.
pub proof fn law_queue_is_served_in_order(v: SlotView, max: int, now: u64)
    requires
        max >= 0,
        all_wait(v),
    ensures
        ({
            let w = slots_filled(v, max, now);
            let n = starters(v, max);
            &&& w.queue == v.queue.skip(n)
            &&& string_texts(w.active) == string_texts(v.active) + string_texts(v.queue).take(n)
            &&& w.tasks.len() == v.tasks.len()
            &&& forall|i: int|
                0 <= i < v.tasks.len() ==> {
                    let t = #[trigger] w.tasks[i];
                    &&& t.gid == v.tasks[i].gid
                    &&& (exists|j: int| 0 <= j < n && task_at(v.tasks, #[trigger] v.queue[j]@) == i)
                        ==> t.shared.status is Active && t.shared.active_since == Some(now)
                    &&& !(exists|j: int| 0 <= j < n && task_at(v.tasks, #[trigger] v.queue[j]@) == i)
                        ==> t == v.tasks[i]
                }
        }),
    decreases v.queue.len(),
{
    let n = starters(v, max);
    let w = slots_filled(v, max, now);
    if n == 0 {
        assert(v.queue.skip(0) =~= v.queue);
        assert(string_texts(v.active) + string_texts(v.queue).take(0) =~= string_texts(v.active));
    } else {
        let s = slot_step(v, now);
        let g = v.queue[0];
        let k = task_at(v.tasks, g@);
        lemma_task_at(v.tasks, g@);
        assert(s.tasks =~= v.tasks.update(k, moved(v.tasks[k], Status::Active, now)));
        assert(string_texts(s.queue) =~= string_texts(v.queue).skip(1));
        assert forall|i: int| 0 <= i < s.queue.len() implies has_task(s.tasks, #[trigger] s.queue[i]@)
            && s.tasks[task_at(s.tasks, s.queue[i]@)].shared.status is Waiting && task_at(
            s.tasks,
            s.queue[i]@,
        ) == task_at(v.tasks, v.queue[i + 1]@) && task_at(v.tasks, v.queue[i + 1]@) != k by {
            assert(s.queue[i] == v.queue[i + 1]);
            lemma_same_place(v.tasks, s.tasks, s.queue[i]@);
            lemma_task_at(v.tasks, s.queue[i]@);
            assert(string_texts(v.queue)[0] != string_texts(v.queue)[i + 1]);
        }
        assert(string_texts(s.queue).no_duplicates()) by {
            let a = string_texts(v.queue);
            let b = string_texts(s.queue);
            assert forall|i: int, j: int| 0 <= i < b.len() && 0 <= j < b.len() && i != j implies b[i]
                != b[j] by {
                assert(a[i + 1] != a[j + 1]);
            }
        }
        law_queue_is_served_in_order(s, max, now);
        assert(starters(s, max) == n - 1);
        assert(s.queue.skip(n - 1) =~= v.queue.skip(n));
        assert(string_texts(s.active) =~= string_texts(v.active).push(g@));
        assert(string_texts(s.active) + string_texts(s.queue).take(n - 1) =~= string_texts(v.active)
            + string_texts(v.queue).take(n)) by {
            assert(string_texts(v.queue)[0] == g@);
        }
        assert forall|i: int| 0 <= i < v.tasks.len() implies ({
            let t = #[trigger] w.tasks[i];
            &&& t.gid == v.tasks[i].gid
            &&& (exists|j: int| 0 <= j < n && task_at(v.tasks, #[trigger] v.queue[j]@) == i)
                ==> t.shared.status is Active && t.shared.active_since == Some(now)
            &&& !(exists|j: int| 0 <= j < n && task_at(v.tasks, #[trigger] v.queue[j]@) == i) ==> t
                == v.tasks[i]
        }) by {
            let t = w.tasks[i];
            if exists|j: int| 0 <= j < n - 1 && task_at(s.tasks, #[trigger] s.queue[j]@) == i {
                let j = choose|j: int| 0 <= j < n - 1 && task_at(s.tasks, #[trigger] s.queue[j]@) == i;
                assert(task_at(v.tasks, v.queue[j + 1]@) == i);
            } else {
                assert(t == s.tasks[i]);
                if i == k {
                    assert(task_at(v.tasks, v.queue[0]@) == i);
                } else if exists|j: int| 0 <= j < n && task_at(v.tasks, #[trigger] v.queue[j]@) == i {
                    let j = choose|j: int| 0 <= j < n && task_at(v.tasks, #[trigger] v.queue[j]@) == i;
                    assert(task_at(s.tasks, s.queue[j - 1]@) == i);
                }
            }
        }
    }
}

/// A task that is removed and does not run is gone at once: from the tasks, from the
/// stopped ones, and from the queue if it waited. Whether its files go is as was asked
/// for. One that runs is stopped first, and remembers what was asked for. Clients are
/// told of a task that is gone.
pub proof fn law_removed_task_leaves_no_trace(
    m: TaskManager,
    after: TaskManager,
    gid: Seq<char>,
    files: bool,
    r: Result<(), String>,
)
    requires
        m.wf(),
        m.removes_all(after, gid, files, r),
    ensures
        r is Ok <==> has_task(m.tasks@, gid),
        r is Err ==> after == m,
        r is Ok ==> {
            let k = task_at(m.tasks@, gid);
            let t = m.tasks@[k];
            if t.shared.status is Active {
                &&& after.tasks@.len() == m.tasks@.len()
                &&& after.tasks@[k].intent is Remove
                &&& after.tasks@[k].delete_files == files
                &&& after.effects@ == m.effects@.push(Effect::Cancel { gid: t.gid })
            } else {
                &&& after.tasks@.len() == m.tasks@.len() - 1
                &&& !has_task(after.tasks@, gid)
                &&& !string_texts(after.stopped_order@).contains(gid)
                &&& t.shared.status is Waiting ==> !string_texts(after.queue@).contains(gid)
                &&& after.effects@.contains(Effect::CleanUp { path: t.shared.path, files })
                &&& after.effects@.contains(Effect::Emit { event: Event::Stop, gid: t.gid })
                &&& after.effects@.last() is Save
            }
        },
{
    lemma_task_at(m.tasks@, gid);
    lemma_task_at(after.tasks@, gid);
    if has_task(m.tasks@, gid) {
        let k = task_at(m.tasks@, gid);
        let t = m.tasks@[k];
        if !(t.shared.status is Active) {
            lemma_without(string_texts(m.stopped_order@), t.gid@);
            lemma_without(string_texts(m.queue@), t.gid@);
            let n = m.effects@.len() as int;
            assert(after.effects@[n] == (Effect::CleanUp { path: t.shared.path, files }));
            assert(after.effects@[n + 1] == (Effect::Emit { event: Event::Stop, gid: t.gid }));
            if has_task(after.tasks@, gid) {
                let j = task_at(after.tasks@, gid);
                assert(names_differ(m.tasks@));
                if j < k {
                    assert(after.tasks@[j] == m.tasks@[j]);
                    assert(m.tasks@[j].gid@ != m.tasks@[k].gid@);
                } else {
                    assert(after.tasks@[j] == m.tasks@[j + 1]);
                    assert(m.tasks@[k].gid@ != m.tasks@[j + 1].gid@);
                }
            }
        }
    }
}

} // verus!
