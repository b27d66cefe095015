//! What becomes of a task when its worker ends, and of stopped tasks after that.

use vstd::prelude::*;

use crate::errors::TaskFailure;
use crate::lifecycle::released;
use crate::lists::{lemma_without, take_out, without};
use crate::manager::{
    fails, has_task, is_named, lemma_sound_remove, lemma_sound_update, lemma_task_at, sound, task_at,
    task_fine, unknown_gid, Effect, Event, TaskManager, MAX_RESULTS,
};
use crate::manifest::string_texts;
use crate::pieces::wrap_add;
use crate::task::{
    clock_stopped, is_final, stop_clock, Intent, LiveCounters, Status, Task, TaskShared,
};

verus! {

/// A task whose worker has ended: no speed, no connections, and the clock stands.
pub open spec fn rested(t: Task, now: u64) -> Task {
    Task {
        shared: clock_stopped(
            TaskShared { download_speed: 0, upload_speed: 0, connections: 0, ..t.shared },
            now,
        ),
        live: LiveCounters { speed: 0, upload_speed: 0, connections: 0, ..t.live },
        ..t
    }
}

/// The state that follows from the outcome of a run and from why it was cancelled.
pub open spec fn next_status(outcome: Result<(), TaskFailure>, intent: Intent) -> Status {
    match outcome {
        Ok(_) => Status::Complete,
        Err(f) => if f.by_user() {
            match intent {
                Intent::Pause => Status::Paused,
                Intent::StopSeeding => Status::Complete,
                Intent::Restart => Status::Waiting,
                _ => Status::Removed,
            }
        } else {
            Status::Error
        },
    }
}

/// Whether a task holds what follows from its run.
pub open spec fn run_over(
    t: Task,
    after: Task,
    outcome: Result<(), TaskFailure>,
    words: Seq<char>,
    now: u64,
    wall_ms: u64,
) -> bool {
    let rest = rested(t, now);
    let s = next_status(outcome, t.intent);
    match s {
        Status::Complete => after == (Task {
            shared: TaskShared { status: s, error_code: 0, ..rest.shared },
            finished_at: wall_ms,
            ..rest
        }),
        Status::Error => {
            &&& after == (Task {
                shared: TaskShared {
                    status: s,
                    error_code: outcome->Err_0.code(),
                    error_message: after.shared.error_message,
                    ..rest.shared
                },
                finished_at: wall_ms,
                ..rest
            })
            &&& after.shared.error_message@ == outcome->Err_0.words(words)
        },
        Status::Waiting => after == (Task {
            shared: TaskShared { status: s, ..rest.shared },
            intent: Intent::Unset,
            ..rest
        }),
        _ => after == (Task { shared: TaskShared { status: s, ..rest.shared }, ..rest }),
    }
}

/// Settles a task after its run.
pub fn settle(
    t: &mut Task,
    outcome: Result<(), TaskFailure>,
    words: &str,
    now: u64,
    wall_ms: u64,
)
    ensures
        run_over(*old(t), *final(t), outcome, words@, now, wall_ms),
{
    t.shared.download_speed = 0;
    t.shared.upload_speed = 0;
    t.shared.connections = 0;
    t.live.speed = 0;
    t.live.upload_speed = 0;
    t.live.connections = 0;
    stop_clock(&mut t.shared, now);
    match outcome {
        Ok(_) => {
            t.shared.status = Status::Complete;
            t.shared.error_code = 0;
            t.finished_at = wall_ms;
        },
        Err(f) => {
            if f.is_cancelled() {
                match t.intent {
                    Intent::Pause => {
                        t.shared.status = Status::Paused;
                    },
                    Intent::StopSeeding => {
                        t.shared.status = Status::Complete;
                        t.shared.error_code = 0;
                        t.finished_at = wall_ms;
                    },
                    Intent::Restart => {
                        t.shared.status = Status::Waiting;
                        t.intent = Intent::Unset;
                    },
                    _ => {
                        t.shared.status = Status::Removed;
                    },
                }
            } else {
                t.shared.status = Status::Error;
                t.shared.error_code = f.error_code();
                t.shared.error_message = f.message(words);
                t.finished_at = wall_ms;
            }
        },
    }
}

/// Tasks and stopped tasks after the oldest stopped ones went, as far as there are too
/// many.
pub open spec fn evicted(tasks: Seq<Task>, stopped: Seq<String>) -> (Seq<Task>, Seq<String>)
    decreases stopped.len(),
{
    if stopped.len() <= MAX_RESULTS {
        (tasks, stopped)
    } else {
        let k = task_at(tasks, stopped[0]@);
        evicted(
            if has_task(tasks, stopped[0]@) { tasks.remove(k) } else { tasks },
            stopped.skip(1),
        )
    }
}

proof fn lemma_first_gone(s: Seq<String>)
    requires
        s.len() > 0,
    ensures
        forall|g: Seq<char>|
            g != s[0]@ && string_texts(s).contains(g) ==> #[trigger] string_texts(s.skip(1)).contains(g),
{
    let a = string_texts(s);
    let b = string_texts(s.skip(1));
    assert forall|g: Seq<char>| g != s[0]@ && a.contains(g) implies #[trigger] b.contains(g) by {
        let i = choose|i: int| 0 <= i < a.len() && a[i] == g;
        assert(b[i - 1] == g);
    }
}

/// Whether a task in this state has a worker.
pub open spec fn has_worker(s: Status) -> bool {
    s is Active || s is Seeding
}

impl TaskManager {
    /// Drops the oldest stopped tasks while there are too many. A name that was listed
    /// twice takes its task along, whatever became of it.
    pub fn evict(&mut self)
        requires
            old(self).wf(),
        ensures
            final(self).wf(),
            (final(self).tasks@, final(self).stopped_order@) == evicted(
                old(self).tasks@,
                old(self).stopped_order@,
            ),
            *final(self) == (TaskManager {
                tasks: final(self).tasks,
                stopped_order: final(self).stopped_order,
                ..*old(self)
            }),
    {
        let ghost start = *self;
        while self.stopped_order.len() > MAX_RESULTS
            invariant
                self.wf(),
                evicted(start.tasks@, start.stopped_order@) == evicted(
                    self.tasks@,
                    self.stopped_order@,
                ),
                *self == (TaskManager {
                    tasks: self.tasks,
                    stopped_order: self.stopped_order,
                    ..start
                }),
            decreases self.stopped_order@.len(),
        {
            let ghost before = *self;
            let g = self.stopped_order.remove(0);
            proof {
                assert(self.stopped_order@ =~= before.stopped_order@.skip(1));
                lemma_first_gone(before.stopped_order@);
                lemma_task_at(before.tasks@, g@);
            }
            match self.find(g.as_str()) {
                Some(k) => {
                    let _old = self.tasks.remove(k);
                    proof {
                        let q = string_texts(before.queue@);
                        let act = string_texts(before.active@);
                        lemma_sound_remove(
                            before.tasks@,
                            q,
                            act,
                            string_texts(before.stopped_order@),
                            k as int,
                            q,
                            act,
                            string_texts(self.stopped_order@),
                        );
                    }
                },
                None => {
                    proof {
                        lemma_unlisted(before, self.stopped_order@, g@);
                    }
                },
            }
        }
    }

    /// What the manager is after the worker of the task at place `k` ended and the task
    /// became `t`.
    pub open spec fn ended(&self, after: TaskManager, k: int, t: Task) -> bool {
        let gid = self.tasks@[k].gid;
        let emit = |event: Event| self.effects@.push(Effect::Emit { event, gid });
        &&& string_texts(after.active@) == without(string_texts(self.active@), gid@)
        &&& match t.shared.status {
            Status::Paused => {
                &&& after.tasks@ == self.tasks@.update(k, t)
                &&& after.effects@ == emit(Event::Pause).push(Effect::Kick)
                &&& after == (TaskManager {
                    tasks: after.tasks,
                    active: after.active,
                    effects: after.effects,
                    ..*self
                })
            },
            Status::Waiting => {
                &&& after.tasks@ == self.tasks@.update(k, t)
                &&& after.queue@ == self.queue@.push(gid)
                &&& after.effects@ == self.effects@.push(Effect::Kick)
                &&& after == (TaskManager {
                    tasks: after.tasks,
                    queue: after.queue,
                    active: after.active,
                    effects: after.effects,
                    ..*self
                })
            },
            Status::Removed => {
                &&& after.tasks@ == self.tasks@.remove(k)
                &&& string_texts(after.stopped_order@) == without(
                    string_texts(self.stopped_order@),
                    gid@,
                )
                &&& string_texts(after.claims@) == released(string_texts(self.claims@), t.shared.path)
                &&& after.effects@ == emit(Event::Stop).push(
                    Effect::CleanUp { path: t.shared.path, files: t.delete_files },
                ).push(Effect::Kick).push(Effect::Save)
                &&& after == (TaskManager {
                    tasks: after.tasks,
                    active: after.active,
                    stopped_order: after.stopped_order,
                    claims: after.claims,
                    effects: after.effects,
                    ..*self
                })
            },
            _ => {
                &&& (after.tasks@, after.stopped_order@) == evicted(
                    self.tasks@.update(k, t),
                    self.stopped_order@.push(gid),
                )
                &&& after.stopped_total == wrap_add(self.stopped_total as int, 1)
                &&& string_texts(after.claims@) == released(string_texts(self.claims@), t.shared.path)
                &&& after.effects@ == emit(
                    if t.shared.status is Error { Event::Error } else { Event::Complete },
                ).push(Effect::Kick).push(Effect::Save)
                &&& after == (TaskManager {
                    tasks: after.tasks,
                    active: after.active,
                    stopped_order: after.stopped_order,
                    stopped_total: after.stopped_total,
                    claims: after.claims,
                    effects: after.effects,
                    ..*self
                })
            },
        }
    }

    /// Takes a task out of its slot when its worker has ended. A cancelled task pauses,
    /// goes, starts over or counts as complete, as was intended; a failed one keeps the
    /// code and the words of its failure. `words` is the transfer layer's wording of an
    /// HTTP failure, `wall_ms` the time of day in Unix milliseconds.
    pub fn finish_task(
        &mut self,
        gid: &str,
        outcome: Result<(), TaskFailure>,
        words: &str,
        now: u64,
        wall_ms: u64,
    )
        requires
            old(self).wf(),
            has_task(old(self).tasks@, gid@),
            has_worker(old(self).tasks@[task_at(old(self).tasks@, gid@)].shared.status),
        ensures
            final(self).wf(),
            ({
                let k = task_at(old(self).tasks@, gid@);
                exists|t: Task|
                    #![auto]
                    run_over(old(self).tasks@[k], t, outcome, words@, now, wall_ms) && old(self).ended(
                        *final(self),
                        k,
                        t,
                    )
            }),
    {
        let ghost before = *self;
        proof {
            lemma_task_at(before.tasks@, gid@);
        }
        let k: usize = match self.find(gid) {
            Some(k) => k,
            None => {
                return;
            },
        };
        let ghost q = string_texts(before.queue@);
        let ghost act = string_texts(before.active@);
        let ghost st = string_texts(before.stopped_order@);
        let g = self.tasks[k].gid.clone();
        settle(&mut self.tasks[k], outcome, words, now, wall_ms);
        take_out(&mut self.active, gid);
        let ghost t = self.tasks@[k as int];
        let ghost act2 = string_texts(self.active@);
        proof {
            assert(self.tasks@ =~= before.tasks@.update(k as int, t));
            lemma_without(act, gid@);
            crate::lifecycle::lemma_lost(act, gid@);
            assert(task_fine(before.tasks@[k as int]));
            assert(task_fine(t));
        }
        match self.tasks[k].status() {
            Status::Paused => {
                proof {
                    lemma_sound_update(before.tasks@, q, act, st, k as int, t, q, act2, st);
                }
                self.note(Effect::Emit { event: Event::Pause, gid: g });
                self.note(Effect::Kick);
            },
            Status::Waiting => {
                self.queue.push(g);
                proof {
                    crate::lifecycle::lemma_pushed(before.queue@, g);
                    lemma_sound_update(
                        before.tasks@,
                        q,
                        act,
                        st,
                        k as int,
                        t,
                        string_texts(self.queue@),
                        act2,
                        st,
                    );
                }
                self.note(Effect::Kick);
            },
            Status::Removed => {
                let gone = self.tasks.remove(k);
                take_out(&mut self.stopped_order, gid);
                crate::lifecycle::release(&mut self.claims, &gone.shared.path);
                proof {
                    lemma_without(st, gid@);
                    assert(before.tasks@.update(k as int, t).remove(k as int) =~= before.tasks@.remove(
                        k as int,
                    ));
                    let st2 = string_texts(self.stopped_order@);
                    lemma_sound_remove(before.tasks@, q, act, st, k as int, q, act2, st2);
                }
                self.note(Effect::Emit { event: Event::Stop, gid: g });
                self.note(Effect::CleanUp { path: gone.shared.path, files: gone.delete_files });
                self.note(Effect::Kick);
                self.note(Effect::Save);
            },
            _ => {
                let event = if self.tasks[k].status() == Status::Error {
                    Event::Error
                } else {
                    Event::Complete
                };
                let path = crate::lifecycle::copy_path(&self.tasks[k].shared.path);
                let name = g.clone();
                self.stopped_order.push(name);
                self.stopped_total = self.stopped_total.wrapping_add(1);
                crate::lifecycle::release(&mut self.claims, &path);
                proof {
                    crate::lifecycle::lemma_pushed(before.stopped_order@, name);
                    let st2 = string_texts(self.stopped_order@);
                    assert(st2 =~= st.push(gid@));
                    lemma_sound_update(before.tasks@, q, act, st, k as int, t, q, act2, st2);
                }
                self.note(Effect::Emit { event, gid: g });
                self.note(Effect::Kick);
                self.note(Effect::Save);
                self.evict();
            },
        }
        proof {
            assert(before.ended(*self, k as int, t));
        }
    }

    /// What the manager is after the worker of a task that is gone ended. What was intended
    /// with the task went with it, so a worker that was cancelled leaves only its slot.
    pub open spec fn lost(&self, after: TaskManager, gid: Seq<char>, outcome: Result<(), TaskFailure>) -> bool {
        &&& string_texts(after.active@) == without(string_texts(self.active@), gid)
        &&& if outcome is Err && outcome->Err_0.by_user() {
            &&& after.effects@ == self.effects@.push(Effect::Kick)
            &&& after == (TaskManager { active: after.active, effects: after.effects, ..*self })
        } else {
            exists|name: String| #![auto]
                name@ == gid && (after.tasks@, after.stopped_order@) == evicted(
                    self.tasks@,
                    self.stopped_order@.push(name),
                ) && after.effects@ == self.effects@.push(
                    Effect::Emit {
                        event: if outcome is Err { Event::Error } else { Event::Complete },
                        gid: name,
                    },
                ).push(Effect::Kick).push(Effect::Save) && after.stopped_total == wrap_add(
                    self.stopped_total as int,
                    1,
                ) && after == (TaskManager {
                    tasks: after.tasks,
                    active: after.active,
                    stopped_order: after.stopped_order,
                    stopped_total: after.stopped_total,
                    effects: after.effects,
                    ..*self
                })
        }
    }

    /// Frees the slot of a worker that has ended though its task is gone: dropped with the
    /// oldest stopped ones because its name was listed twice.
    pub fn finish_lost(&mut self, gid: &str, outcome: Result<(), TaskFailure>)
        requires
            old(self).wf(),
            !has_task(old(self).tasks@, gid@),
            string_texts(old(self).active@).contains(gid@),
        ensures
            final(self).wf(),
            old(self).lost(*final(self), gid@, outcome),
    {
        let ghost before = *self;
        let ghost act = string_texts(before.active@);
        take_out(&mut self.active, gid);
        proof {
            lemma_task_at(before.tasks@, gid@);
            lemma_without(act, gid@);
            crate::lifecycle::lemma_lost(act, gid@);
            assert forall|i: int| 0 <= i < before.tasks@.len() implies (
            (#[trigger] before.tasks@[i]).shared.status is Active <==> without(act, gid@).contains(
                before.tasks@[i].gid@,
            )) by {
                assert(before.tasks@[i].gid@ != gid@);
                assert(before.tasks@[i].shared.status is Active <==> act.contains(before.tasks@[i].gid@));
            }
        }
        let cancelled = match &outcome {
            Ok(_) => false,
            Err(f) => f.is_cancelled(),
        };
        if cancelled {
            self.note(Effect::Kick);
            return;
        }
        let event = if outcome.is_err() { Event::Error } else { Event::Complete };
        let name = gid.to_owned();
        let told = name.clone();
        proof {
            crate::lifecycle::lemma_pushed(before.stopped_order@, name);
        }
        self.stopped_order.push(name);
        self.stopped_total = self.stopped_total.wrapping_add(1);
        self.note(Effect::Emit { event, gid: told });
        self.note(Effect::Kick);
        self.note(Effect::Save);
        self.evict();
    }

    /// What the manager is without its stopped tasks.
    pub open spec fn purges(&self, after: TaskManager) -> bool {
        &&& after.tasks@ == live_tasks(self.tasks@)
        &&& after.stopped_order@.len() == 0
        &&& after.effects@ == purge_effects(self.effects@, self.tasks@).push(
            Effect::Save,
        )
        &&& after == (TaskManager {
            tasks: after.tasks,
            stopped_order: after.stopped_order,
            effects: after.effects,
            ..*self
        })
    }

    /// Forgets every stopped task.
    pub fn purge_download_result(&mut self)
        requires
            old(self).wf(),
        ensures
            final(self).wf(),
            old(self).purges(*final(self)),
    {
        let ghost before = *self;
        let ghost all = before.tasks@;
        let mut rest: Vec<Task> = Vec::new();
        std::mem::swap(&mut rest, &mut self.tasks);
        let mut kept: Vec<Task> = Vec::new();
        let ghost mut done: int = 0;
        let ghost n = all.len() as int;
        assert(rest@ == all);
        assert(all.take(0) =~= Seq::<Task>::empty());
        assert(all.skip(0) =~= all);
        while rest.len() > 0
            invariant
                0 <= done,
                done + rest@.len() == n,
                n == all.len(),
                all == before.tasks@,
                rest@ == all.skip(done),
                kept@ == live_tasks(all.take(done)),
                self.effects@ == purge_effects(before.effects@, all.take(done)),
                *self == (TaskManager {
                    tasks: self.tasks,
                    effects: self.effects,
                    ..before
                }),
            decreases rest@.len(),
        {
            let t = rest.remove(0);
            proof {
                assert(t == all[done]);
                assert(all.take(done + 1).drop_last() =~= all.take(done));
                assert(all.take(done + 1).last() == t);
                assert(rest@ =~= all.skip(done + 1));
            }
            if t.status().is_terminal() {
                self.effects.push(Effect::CleanUp { path: t.shared.path, files: false });
            } else {
                kept.push(t);
            }
            proof {
                done = done + 1;
            }
        }
        proof {
            assert(all.take(done) =~= all);
        }
        self.tasks = kept;
        self.stopped_order = Vec::new();
        proof {
            lemma_purged(before);
            assert(string_texts(self.stopped_order@) =~= Seq::<Seq<char>>::empty());
        }
        self.note(Effect::Save);
    }

    /// What the manager is after a request to forget a stopped task.
    pub open spec fn forgets(
        &self,
        after: TaskManager,
        gid: Seq<char>,
        r: Result<(), String>,
    ) -> bool {
        &&& !has_task(self.tasks@, gid) ==> fails(r, unknown_gid(gid)) && after
            == *self
        &&& has_task(self.tasks@, gid) ==> {
            let k = task_at(self.tasks@, gid);
            let t = self.tasks@[k];
            if is_final(t.shared.status) {
                &&& r is Ok
                &&& after.tasks@ == self.tasks@.remove(k)
                &&& string_texts(after.stopped_order@) == without(
                    string_texts(self.stopped_order@),
                    gid,
                )
                &&& after.effects@ == self.effects@.push(
                    Effect::CleanUp { path: t.shared.path, files: false },
                ).push(Effect::Save)
                &&& after == (TaskManager {
                    tasks: after.tasks,
                    stopped_order: after.stopped_order,
                    effects: after.effects,
                    ..*self
                })
            } else {
                fails(r, "任务未结束，无法移除下载结果"@) && after == *self
            }
        }
    }

    /// Forgets a stopped task.
    pub fn remove_download_result(&mut self, gid: &str) -> (r: Result<(), String>)
        requires
            old(self).wf(),
        ensures
            final(self).wf(),
            old(self).forgets(*final(self), gid@, r),
    {
        let k: usize = match self.task_of(gid) {
            Ok(k) => k,
            Err(e) => {
                return Err(e);
            },
        };
        if !self.tasks[k].status().is_terminal() {
            return Err("任务未结束，无法移除下载结果".to_owned());
        }
        let ghost before = *self;
        let t = self.tasks.remove(k);
        take_out(&mut self.stopped_order, gid);
        proof {
            let q = string_texts(before.queue@);
            let act = string_texts(before.active@);
            let st = string_texts(before.stopped_order@);
            lemma_without(st, gid@);
            lemma_sound_remove(
                before.tasks@,
                q,
                act,
                st,
                k as int,
                q,
                act,
                string_texts(self.stopped_order@),
            );
        }
        self.note(Effect::CleanUp { path: t.shared.path, files: false });
        self.note(Effect::Save);
        Ok(())
    }
}

/// The tasks that are not in a final state.
pub open spec fn live_tasks(tasks: Seq<Task>) -> Seq<Task>
    decreases tasks.len(),
{
    if tasks.len() == 0 {
        tasks
    } else {
        let rest = live_tasks(tasks.drop_last());
        if is_final(tasks.last().shared.status) { rest } else { rest.push(tasks.last()) }
    }
}

/// What is to be done outside for the tasks that go in a purge.
pub open spec fn purge_effects(before: Seq<Effect>, tasks: Seq<Task>) -> Seq<Effect>
    decreases tasks.len(),
{
    if tasks.len() == 0 {
        before
    } else {
        let rest = purge_effects(before, tasks.drop_last());
        if is_final(tasks.last().shared.status) {
            rest.push(Effect::CleanUp { path: tasks.last().shared.path, files: false })
        } else {
            rest
        }
    }
}

/// What is left of some tasks in a purge.
pub proof fn lemma_live_tasks(tasks: Seq<Task>)
    ensures
        forall|i: int|
            0 <= i < live_tasks(tasks).len() ==> !is_final((#[trigger] live_tasks(tasks)[i]).shared.status)
                && tasks.contains(live_tasks(tasks)[i]),
        forall|i: int|
            0 <= i < tasks.len() && !is_final((#[trigger] tasks[i]).shared.status) ==> live_tasks(
                tasks,
            ).contains(tasks[i]),
        crate::manager::names_differ(tasks) ==> crate::manager::names_differ(live_tasks(tasks)),
    decreases tasks.len(),
{
    if tasks.len() > 0 {
        let front = tasks.drop_last();
        lemma_live_tasks(front);
        let rest = live_tasks(front);
        let all = live_tasks(tasks);
        assert forall|x: Task| front.contains(x) implies tasks.contains(x) by {
            let i = choose|i: int| 0 <= i < front.len() && front[i] == x;
            assert(tasks[i] == x);
        }
        assert(tasks[tasks.len() - 1] == tasks.last());
        assert forall|i: int| 0 <= i < all.len() implies !is_final((#[trigger] all[i]).shared.status)
            && tasks.contains(all[i]) by {
            if i < rest.len() {
                assert(all[i] == rest[i]);
            }
        }
        assert forall|i: int| 0 <= i < tasks.len() && !is_final((#[trigger] tasks[i]).shared.status) implies all.contains(
        tasks[i]) by {
            if i < front.len() {
                assert(front[i] == tasks[i]);
                let k = choose|k: int| 0 <= k < rest.len() && rest[k] == tasks[i];
                assert(all[k] == tasks[i]);
            } else {
                assert(all[all.len() - 1] == tasks[i]);
            }
        }
        if crate::manager::names_differ(tasks) {
            assert(crate::manager::names_differ(front)) by {
                assert forall|i: int, j: int| 0 <= i < j < front.len() implies (#[trigger] front[i]).gid@ != (
                #[trigger] front[j]).gid@ by {
                    assert(tasks[i].gid@ != tasks[j].gid@);
                }
            }
            assert forall|i: int, j: int| 0 <= i < j < all.len() implies (#[trigger] all[i]).gid@ != (
            #[trigger] all[j]).gid@ by {
                if j < rest.len() {
                    assert(rest[i].gid@ != rest[j].gid@);
                } else {
                    assert(front.contains(rest[i]));
                    let n = choose|n: int| 0 <= n < front.len() && front[n] == rest[i];
                    assert(tasks[n].gid@ != tasks[tasks.len() - 1].gid@);
                }
            }
        }
    }
}

proof fn lemma_purged(m: TaskManager)
    requires
        m.wf(),
    ensures
        sound(
            live_tasks(m.tasks@),
            string_texts(m.queue@),
            string_texts(m.active@),
            Seq::empty(),
        ),
{
    let all = m.tasks@;
    let live = live_tasks(all);
    let act = string_texts(m.active@);
    let q = string_texts(m.queue@);
    lemma_live_tasks(all);
    assert forall|i: int| 0 <= i < live.len() implies task_fine(#[trigger] live[i]) && (
    live[i].shared.status is Active <==> act.contains(live[i].gid@)) && (
    live[i].shared.status is Waiting ==> q.contains(live[i].gid@)) by {
        let k = choose|k: int| 0 <= k < all.len() && all[k] == live[i];
        assert(all[k].shared.status is Active <==> act.contains(all[k].gid@));
    }
}

/// Taking a name off the list of stopped tasks does no harm once no task has it.
proof fn lemma_unlisted(m: TaskManager, stopped: Seq<String>, g: Seq<char>)
    requires
        m.wf(),
        !is_named(m.tasks@, g),
        forall|x: Seq<char>|
            x != g && string_texts(m.stopped_order@).contains(x) ==> #[trigger] string_texts(
                stopped,
            ).contains(x),
    ensures
        sound(m.tasks@, string_texts(m.queue@), string_texts(m.active@), string_texts(stopped)),
{
    assert forall|i: int|
        0 <= i < m.tasks@.len() && is_final((#[trigger] m.tasks@[i]).shared.status) implies string_texts(
        stopped,
    ).contains(m.tasks@[i].gid@) by {
        assert(m.tasks@[i].gid@ != g);
        assert(string_texts(m.stopped_order@).contains(m.tasks@[i].gid@));
    }
}

/// A task that was removed leaves no trace: it is in no slot and not among the stopped
/// ones, and not in the queue unless a name was left over there from before.
pub proof fn law_removed_leaves_no_trace(before: TaskManager, after: TaskManager, k: int, files: bool)
    requires
        before.wf(),
        0 <= k < before.tasks@.len(),
        !(before.tasks@[k].shared.status is Active),
        before.dropped(after, k, files),
    ensures
        !has_task(after.tasks@, before.tasks@[k].gid@),
        before.tasks@[k].shared.status is Waiting || !string_texts(before.queue@).contains(
            before.tasks@[k].gid@,
        ) ==> !string_texts(after.queue@).contains(before.tasks@[k].gid@),
        !string_texts(after.active@).contains(before.tasks@[k].gid@),
        !string_texts(after.stopped_order@).contains(before.tasks@[k].gid@),
{
    let gid = before.tasks@[k].gid@;
    lemma_without(string_texts(before.queue@), gid);
    lemma_without(string_texts(before.stopped_order@), gid);
    lemma_task_at(after.tasks@, gid);
    if is_named(after.tasks@, gid) {
        let i = choose|i: int| 0 <= i < after.tasks@.len() && (#[trigger] after.tasks@[i]).gid@ == gid;
        let o = if i < k { i } else { i + 1 };
        assert(after.tasks@[i] == before.tasks@[o]);
        if o < k {
            assert(before.tasks@[o].gid@ != before.tasks@[k].gid@);
        } else {
            assert(before.tasks@[k].gid@ != before.tasks@[o].gid@);
        }
    }
}

/// There are never more stopped tasks than are kept.
pub proof fn law_stopped_tasks_are_bounded(tasks: Seq<Task>, stopped: Seq<String>)
    ensures
        evicted(tasks, stopped).1.len() <= MAX_RESULTS,
        stopped.len() <= MAX_RESULTS ==> evicted(tasks, stopped) == (tasks, stopped),
    decreases stopped.len(),
{
    if stopped.len() > MAX_RESULTS {
        let k = task_at(tasks, stopped[0]@);
        law_stopped_tasks_are_bounded(
            if has_task(tasks, stopped[0]@) { tasks.remove(k) } else { tasks },
            stopped.skip(1),
        );
    }
}

/// A run that the user did not stop ends complete or failed, whatever was intended.
pub proof fn law_intent_matters_only_when_cancelled(
    outcome: Result<(), TaskFailure>,
    a: Intent,
    b: Intent,
)
    requires
        outcome is Ok || !outcome->Err_0.by_user(),
    ensures
        next_status(outcome, a) == next_status(outcome, b),
        is_final(next_status(outcome, a)),
{
}

/// What a run leaves: a task that got everything is complete, one that failed has failed
/// with the code and the words of the failure, and one that was cancelled is what it was
/// cancelled for. Whatever came of it, nothing moves any more and the clock stands; name,
/// progress and addresses are as they were.
pub proof fn law_run_decides_the_state(
    t: Task,
    after: Task,
    outcome: Result<(), TaskFailure>,
    words: Seq<char>,
    now: u64,
    wall_ms: u64,
)
    requires
        run_over(t, after, outcome, words, now, wall_ms),
    ensures
        ({
            let s = after.shared;
            let cancelled = outcome is Err && match outcome->Err_0 {
                TaskFailure::Cancelled => true,
                TaskFailure::Http(e) => e is Cancelled,
                _ => false,
            };
            &&& (outcome is Ok ==> s.status is Complete && s.error_code == 0 && after.finished_at
                == wall_ms)
            &&& (outcome is Err && !cancelled ==> s.status is Error && s.error_code
                == outcome->Err_0.code() && s.error_message@ == outcome->Err_0.words(words)
                && after.finished_at == wall_ms)
            &&& (cancelled && t.intent is Pause ==> s.status is Paused)
            &&& (cancelled && t.intent is StopSeeding ==> s.status is Complete && s.error_code == 0
                && after.finished_at == wall_ms)
            &&& (cancelled && t.intent is Restart ==> s.status is Waiting && after.intent is Unset)
            &&& (cancelled && (t.intent is Unset || t.intent is Remove) ==> s.status is Removed)
            &&& s.download_speed == 0 && s.upload_speed == 0 && s.connections == 0
            &&& after.live.speed == 0 && after.live.upload_speed == 0 && after.live.connections == 0
            &&& s.active_since is None
            &&& s.completed == t.shared.completed && s.total_len == t.shared.total_len
            &&& after.live.completed == t.live.completed && after.live.uploaded == t.live.uploaded
            &&& after.gid == t.gid && after.uris == t.uris && after.options == t.options
            &&& s.path == t.shared.path && after.delete_files == t.delete_files
        }),
{
}

/// Of the stopped tasks the latest thousand are kept; the oldest go first.
pub proof fn law_oldest_results_go_first(tasks: Seq<Task>, stopped: Seq<String>)
    ensures
        evicted(tasks, stopped).1 == if stopped.len() > 1000 {
            stopped.skip(stopped.len() - 1000)
        } else {
            stopped
        },
        forall|i: int|
            0 <= i < tasks.len() && (stopped.len() <= 1000 || forall|j: int|
                0 <= j < stopped.len() - 1000 ==> (#[trigger] stopped[j])@ != tasks[i].gid@)
                ==> evicted(tasks, stopped).0.contains(#[trigger] tasks[i]),
        forall|i: int|
            0 <= i < evicted(tasks, stopped).0.len() ==> tasks.contains(
                #[trigger] evicted(tasks, stopped).0[i],
            ),
    decreases stopped.len(),
{
    if stopped.len() > 1000 {
        let k = task_at(tasks, stopped[0]@);
        lemma_task_at(tasks, stopped[0]@);
        let rest = if has_task(tasks, stopped[0]@) { tasks.remove(k) } else { tasks };
        let tail = stopped.skip(1);
        law_oldest_results_go_first(rest, tail);
        if tail.len() > 1000 {
            assert(tail.skip(tail.len() - 1000) =~= stopped.skip(stopped.len() - 1000));
        }
        assert forall|i: int|
            0 <= i < tasks.len() && (forall|j: int|
                0 <= j < stopped.len() - 1000 ==> (#[trigger] stopped[j])@ != tasks[i].gid@) implies evicted(
            tasks,
            stopped,
        ).0.contains(#[trigger] tasks[i]) by {
            assert(stopped[0]@ != tasks[i].gid@);
            let o = if has_task(tasks, stopped[0]@) && i > k { i - 1 } else { i };
            assert(rest[o] == tasks[i]);
            assert forall|j: int| 0 <= j < tail.len() - 1000 implies (#[trigger] tail[j])@
                != rest[o].gid@ by {
                assert(tail[j] == stopped[j + 1]);
            }
        }
        assert forall|i: int| 0 <= i < evicted(tasks, stopped).0.len() implies tasks.contains(
            #[trigger] evicted(tasks, stopped).0[i],
        ) by {
            let x = evicted(rest, tail).0[i];
            assert(rest.contains(x));
            let o = choose|o: int| 0 <= o < rest.len() && rest[o] == x;
            if has_task(tasks, stopped[0]@) && o >= k {
                assert(tasks[o + 1] == x);
            } else {
                assert(tasks[o] == x);
            }
        }
    }
}

/// When the worker of a task has ended its slot is free and the next one may start; what
/// became of the task is told, and a task that is over is the latest of the stopped ones.
pub proof fn law_ended_worker_frees_its_slot(before: TaskManager, after: TaskManager, k: int, t: Task)
    requires
        0 <= k < before.tasks@.len(),
        before.ended(after, k, t),
    ensures
        !string_texts(after.active@).contains(before.tasks@[k].gid@),
        after.effects@.skip(before.effects@.len() as int).contains(Effect::Kick),
        ({
            let gid = before.tasks@[k].gid;
            let news = after.effects@.skip(before.effects@.len() as int);
            &&& (t.shared.status is Complete || t.shared.status is Seeding ==> news.contains(
                Effect::Emit { event: Event::Complete, gid },
            ))
            &&& (t.shared.status is Error ==> news.contains(Effect::Emit { event: Event::Error, gid }))
            &&& (t.shared.status is Paused ==> news.contains(
                Effect::Emit { event: Event::Pause, gid },
            ))
            &&& (t.shared.status is Removed ==> news.contains(
                Effect::Emit { event: Event::Stop, gid },
            ) && news.contains(Effect::CleanUp { path: t.shared.path, files: t.delete_files }))
            &&& (t.shared.status is Complete || t.shared.status is Error ==> {
                &&& after.stopped_order@.len() > 0
                &&& after.stopped_order@.last() == gid
                &&& (before.stopped_total < u64::MAX ==> after.stopped_total == before.stopped_total
                    + 1)
            })
            &&& (t.shared.status is Waiting ==> after.queue@ == before.queue@.push(gid))
        }),
{
    let gid = before.tasks@[k].gid;
    let n = before.effects@.len() as int;
    let news = after.effects@.skip(n);
    lemma_without(string_texts(before.active@), gid@);
    assert(news.len() > 0);
    assert(news[0] == after.effects@[n]);
    if news.len() > 1 {
        assert(news[1] == after.effects@[n + 1]);
    }
    if news.len() > 2 {
        assert(news[2] == after.effects@[n + 2]);
    }
    let pushed = before.stopped_order@.push(gid);
    law_oldest_results_go_first(before.tasks@.update(k, t), pushed);
    if pushed.len() > 1000 {
        assert(pushed.skip(pushed.len() - 1000).last() == pushed.last());
    }
}

/// The worker of a task that is gone leaves its slot for another. Where the user did not
/// stop it, clients are told how it ended, and it counts as stopped.
pub proof fn law_worker_of_a_gone_task(
    m: TaskManager,
    after: TaskManager,
    gid: Seq<char>,
    outcome: Result<(), TaskFailure>,
)
    requires
        m.lost(after, gid, outcome),
    ensures
        !string_texts(after.active@).contains(gid),
        after.effects@.contains(Effect::Kick),
        outcome is Err && outcome->Err_0.by_user() ==> after.tasks == m.tasks && after.stopped_total
            == m.stopped_total && after.effects@.len() == m.effects@.len() + 1,
        !(outcome is Err && outcome->Err_0.by_user()) ==> {
            let told = after.effects@[m.effects@.len() as int];
            &&& told is Emit && told->Emit_gid@ == gid
            &&& outcome is Ok ==> told->Emit_event is Complete
            &&& outcome is Err ==> told->Emit_event is Error
            &&& after.effects@.last() is Save
            &&& m.stopped_total < u64::MAX ==> after.stopped_total == m.stopped_total + 1
        },
{
    lemma_without(string_texts(m.active@), gid);
    let n = m.effects@.len() as int;
    if outcome is Err && outcome->Err_0.by_user() {
        assert(after.effects@[n] is Kick);
    } else {
        assert(after.effects@[n + 1] is Kick);
    }
}

} // verus!
