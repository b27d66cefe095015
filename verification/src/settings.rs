//! Requests about options, of the engine and of a task.

use vstd::prelude::*;

use crate::config::{bool_str, bool_text, switch_on};
use crate::json::{
    text_list_view, text_table_view, Field, Json, JsonView, ObjectBuilder,
};
use crate::lists::{
    lemma_unique_with_value, look_up, put_value, unique_keys, value_at, with_value,
};
use crate::manager::{
    fails, has_task, task_at, task_fine, unknown_gid, Effect, Env, TaskManager,
};
use crate::manifest::{pair_texts, string_texts};
use crate::options::{
    encryption_of, field_text, lemma_options_unique, merge_options, normalize_dir, option_text, options_after,
    protocol_of, rate_limits, rate_of, BtProtocol, EncryptionMode, DEFAULT_BT_MAX_PEERS,
    DEFAULT_SPLIT_CONNECTIONS,
};
use crate::subscriptions::{lemma_sound_same, show_subs, subs_view};
use crate::task::{is_final, Task};
use crate::text::{
    chars_of, dec_string, decimal, joined, lowered, number, number_upto, parse_u64, parse_upto,
    same_str, string_of, to_lower, trim, trimmed,
};

verus! {

/// The engine's settings, and what follows from a change of them.
pub struct SettingsView {
    pub max_concurrent: usize,
    pub dir: Seq<char>,
    pub options: Seq<(Seq<char>, Seq<char>)>,
    /// Whether a rate limit was set.
    pub rates: bool,
    /// Whether encryption or protocol was set.
    pub modes: bool,
    /// What was wrong with an option, if anything.
    pub error: Option<Seq<char>>,
}

/// Whether a key names a rate limit of the engine.
pub open spec fn is_rate_key(k: Seq<char>) -> bool {
    k == "max-overall-download-limit"@ || k == "max-overall-upload-limit"@
}

/// What is wrong with an option's value, if anything.
pub open spec fn option_error(k: Seq<char>, v: Seq<char>) -> Option<Seq<char>> {
    if is_rate_key(k) && number(trimmed(v)) is None {
        Some("限速值必须是非负整数（字节/秒）: "@ + k + "="@ + v)
    } else if k == "bt-encryption"@ && encryption_of(v) is None {
        Some("bt-encryption 取值无效: "@ + v + "（可选 adaptive/force/plain）"@)
    } else if k == "bt-protocol"@ && protocol_of(v) is None {
        Some("bt-protocol 取值无效: "@ + v + "（可选 tcp+utp/tcp/utp）"@)
    } else {
        None
    }
}

/// The settings after one more option.
pub open spec fn setting_set(s: SettingsView, k: Seq<char>, v: Seq<char>, env: Env) -> SettingsView {
    match option_error(k, v) {
        Some(e) => SettingsView { error: Some(e), ..s },
        None => SettingsView {
            max_concurrent: if k == "max-concurrent-downloads"@ {
                match number_upto(v, usize::MAX as int) {
                    Some(n) => if n < 1 { 1 } else { n as usize },
                    None => s.max_concurrent,
                }
            } else {
                s.max_concurrent
            },
            dir: if k == "dir"@ && v.len() > 0 { env.place.normal(v) } else { s.dir },
            options: with_value(s.options, k, v),
            rates: s.rates || is_rate_key(k),
            modes: s.modes || k == "bt-encryption"@ || k == "bt-protocol"@,
            error: None,
        },
    }
}

/// The settings after some options, up to the first one that is wrong.
pub open spec fn settings_after(s: SettingsView, f: Seq<Field>, env: Env) -> SettingsView
    decreases f.len(),
{
    if f.len() == 0 {
        s
    } else {
        let rest = settings_after(s, f.drop_last(), env);
        if rest.error is Some {
            rest
        } else {
            setting_set(rest, f.last().key@, option_text(f.last()), env)
        }
    }
}

proof fn lemma_error_stays(s: SettingsView, f: Seq<Field>, n: int, env: Env)
    requires
        0 <= n <= f.len(),
        settings_after(s, f.take(n), env).error is Some,
    ensures
        settings_after(s, f, env) == settings_after(s, f.take(n), env),
    decreases f.len() - n,
{
    if n < f.len() {
        assert(f.take(n + 1).drop_last() =~= f.take(n));
        lemma_error_stays(s, f, n + 1, env);
    } else {
        assert(f.take(n) =~= f);
    }
}

/// The modes that the global options name.
pub open spec fn named_modes(opts: Seq<(Seq<char>, Seq<char>)>) -> (
    Option<EncryptionMode>,
    Option<BtProtocol>,
) {
    (
        match value_at(opts, "bt-encryption"@) {
            Some(v) => encryption_of(v),
            None => None,
        },
        match value_at(opts, "bt-protocol"@) {
            Some(v) => protocol_of(v),
            None => None,
        },
    )
}

/// What is to be done outside after the settings changed.
pub open spec fn setting_effects(before: Seq<Effect>, s: SettingsView) -> Seq<Effect> {
    let a = if s.rates {
        before.push(
            Effect::SetLimits {
                download: rate_of(s.options, "max-overall-download-limit"@) as u64,
                upload: rate_of(s.options, "max-overall-upload-limit"@) as u64,
            },
        )
    } else {
        before
    };
    let (encryption, protocol) = named_modes(s.options);
    let b = if s.modes && (encryption is Some || protocol is Some) {
        a.push(Effect::SetModes { encryption, protocol })
    } else {
        a
    };
    b.push(Effect::Kick).push(Effect::Save)
}

/// A key with its default where the options do not set it.
pub open spec fn text_or(opts: Seq<(Seq<char>, Seq<char>)>, k: Seq<char>, default: Seq<char>) -> JsonView {
    JsonView::Str(
        match value_at(opts, k) {
            Some(v) => v,
            None => default,
        },
    )
}

fn read_or(opts: &Vec<(String, String)>, k: &str, default: u64) -> (r: Json)
    ensures
        r@ == text_or(pair_texts(opts@), k@, decimal(default as nat)),
{
    match look_up(opts, k) {
        Some(v) => Json::text(v.as_str()),
        None => Json::Str(dec_string(default)),
    }
}

/// A checksum as it is shown.
pub open spec fn checksum_text(c: (String, String)) -> Seq<char> {
    lowered(c.0@ + "="@ + c.1@)
}

/// A checksum as it is shown.
pub fn show_checksum(c: &(String, String)) -> (r: String)
    ensures
        r@ == checksum_text(*c),
{
    let head = joined(c.0.as_str(), "=");
    let all = joined(head.as_str(), c.1.as_str());
    string_of(&to_lower(&chars_of(all.as_str())))
}

/// The options of a task as they are shown: those of the engine with those of the task
/// set over them.
pub open spec fn over(base: Seq<(Seq<char>, JsonView)>, opts: Seq<(Seq<char>, Seq<char>)>) -> Seq<(
    Seq<char>,
    JsonView,
)>
    decreases opts.len(),
{
    if opts.len() == 0 {
        base
    } else {
        with_value(
            over(base, opts.drop_last()),
            opts.last().0,
            JsonView::Str(opts.last().1),
        )
    }
}

impl TaskManager {
    /// The settings of the engine.
    pub open spec fn settings(&self) -> SettingsView {
        SettingsView {
            max_concurrent: self.max_concurrent,
            dir: self.download_dir@,
            options: pair_texts(self.global_options@),
            rates: false,
            modes: false,
            error: None,
        }
    }

    /// What the manager is after a request to change the options of the engine.
    pub open spec fn changes_global(
        &self,
        after: TaskManager,
        options: Json,
        env: Env,
        r: Result<(), String>,
    ) -> bool {
        &&& !(options@ is Obj) ==> fails(r, "options 必须是对象"@) && after == *self
        &&& options@ is Obj ==> {
            let s = settings_after(self.settings(), options.entries(), env);
            &&& after.max_concurrent == s.max_concurrent
            &&& after.download_dir@ == s.dir
            &&& pair_texts(after.global_options@) == s.options
            &&& match s.error {
                Some(e) => fails(r, e) && after.effects == self.effects,
                None => r is Ok && after.effects@ == setting_effects(
                    self.effects@,
                    s,
                ),
            }
            &&& after == (TaskManager {
                max_concurrent: after.max_concurrent,
                download_dir: after.download_dir,
                global_options: after.global_options,
                effects: after.effects,
                ..*self
            })
        }
    }

    /// Changes options of the engine.
    ///
    /// The number of concurrent tasks and the download directory take effect at once,
    /// the latter for new tasks only. Rate limits, encryption and protocol must be
    /// valid and go to running downloads too. Any other option is kept for those who
    /// read it. Options before an invalid one stay changed.
    pub fn change_global_option(&mut self, options: &Json, env: &Env) -> (r: Result<(), String>)
        requires
            old(self).wf(),
        ensures
            final(self).wf(),
            old(self).changes_global(*final(self), *options, *env, r),
    {
        let fields = match options {
            Json::Obj(f) => f,
            _ => {
                return Err("options 必须是对象".to_owned());
            },
        };
        let ghost start = self.settings();
        let ghost all = fields@;
        let mut rates = false;
        let mut modes = false;
        let mut i: usize = 0;
        assert(all.take(0) =~= Seq::<Field>::empty());
        while i < fields.len()
            invariant
                i <= fields@.len(),
                all == fields@,
                options == Json::Obj(*fields),
                start == old(self).settings(),
                self.wf(),
                self.effects == old(self).effects,
                *self == (TaskManager {
                    max_concurrent: self.max_concurrent,
                    download_dir: self.download_dir,
                    global_options: self.global_options,
                    effects: self.effects,
                    ..*old(self)
                }),
                settings_after(start, all.take(i as int), *env) == (SettingsView {
                    rates,
                    modes,
                    ..self.settings()
                }),
            decreases fields@.len() - i,
        {
            let k = fields[i].key.as_str();
            let v = field_text(&fields[i]);
            proof {
                assert(all.take(i + 1).drop_last() =~= all.take(i as int));
                assert(all.take(i + 1).last() == all[i as int]);
            }
            let rate_key = same_str(k, "max-overall-download-limit") || same_str(
                k,
                "max-overall-upload-limit",
            );
            let encryption_key = same_str(k, "bt-encryption");
            let protocol_key = same_str(k, "bt-protocol");
            if rate_key && parse_u64(&trim(&chars_of(v.as_str()))).is_none() {
                proof {
                    lemma_error_stays(start, all, i + 1, *env);
                }
                let a = joined("限速值必须是非负整数（字节/秒）: ", k);
                let b = joined(a.as_str(), "=");
                return Err(joined(b.as_str(), v.as_str()));
            }
            if encryption_key && EncryptionMode::parse(v.as_str()).is_none() {
                proof {
                    reveal_strlit("max-overall-download-limit");
                    reveal_strlit("max-overall-upload-limit");
                    reveal_strlit("bt-encryption");
                    assert("bt-encryption"@[0] == 'b');
                    assert("max-overall-download-limit"@[0] == 'm');
                    assert("max-overall-upload-limit"@[0] == 'm');
                    lemma_error_stays(start, all, i + 1, *env);
                }
                let a = joined("bt-encryption 取值无效: ", v.as_str());
                return Err(joined(a.as_str(), "（可选 adaptive/force/plain）"));
            }
            if protocol_key && BtProtocol::parse(v.as_str()).is_none() {
                proof {
                    reveal_strlit("max-overall-download-limit");
                    reveal_strlit("max-overall-upload-limit");
                    reveal_strlit("bt-protocol");
                    assert("bt-protocol"@[0] == 'b');
                    assert("max-overall-download-limit"@[0] == 'm');
                    assert("max-overall-upload-limit"@[0] == 'm');
                    lemma_error_stays(start, all, i + 1, *env);
                }
                let a = joined("bt-protocol 取值无效: ", v.as_str());
                return Err(joined(a.as_str(), "（可选 tcp+utp/tcp/utp）"));
            }
            if same_str(k, "max-concurrent-downloads") {
                match parse_upto(&chars_of(v.as_str()), usize::MAX as u64) {
                    Some(n) => {
                        self.max_concurrent = if n < 1 { 1 } else { n as usize };
                    },
                    None => {},
                }
            }
            if same_str(k, "dir") && chars_of(v.as_str()).len() > 0 {
                self.download_dir = normalize_dir(v.as_str(), &env.place);
            }
            if rate_key {
                rates = true;
            }
            if encryption_key || protocol_key {
                modes = true;
            }
            proof {
                lemma_unique_with_value(pair_texts(self.global_options@), k@, v@);
            }
            put_value(&mut self.global_options, k, v.as_str());
            proof {
                reveal_strlit("dir");
                reveal_strlit("max-concurrent-downloads");
                assert("dir"@[0] == 'd');
                assert("max-concurrent-downloads"@[0] == 'm');
            }
            i = i + 1;
        }
        assert(all.take(i as int) =~= all);
        if rates {
            let (download, upload) = rate_limits(&self.global_options);
            self.note(Effect::SetLimits { download, upload });
        }
        if modes {
            let encryption = match look_up(&self.global_options, "bt-encryption") {
                Some(v) => EncryptionMode::parse(v.as_str()),
                None => None,
            };
            let protocol = match look_up(&self.global_options, "bt-protocol") {
                Some(v) => BtProtocol::parse(v.as_str()),
                None => None,
            };
            if encryption.is_some() || protocol.is_some() {
                self.note(Effect::SetModes { encryption, protocol });
            }
        }
        self.note(Effect::Kick);
        self.note(Effect::Save);
        Ok(())
    }

    /// The options of the engine as they are shown, with the defaults of those that
    /// clients edit.
    pub open spec fn global_view(&self) -> JsonView {
        let opts = pair_texts(self.global_options@);
        let a = text_table_view(opts).fields();
        let b = with_value(
            a,
            "max-concurrent-downloads"@,
            JsonView::Str(decimal(self.max_concurrent as nat)),
        );
        let c = with_value(b, "dir"@, JsonView::Str(self.download_dir@));
        let d = with_value(
            c,
            "split"@,
            text_or(opts, "split"@, decimal(DEFAULT_SPLIT_CONNECTIONS as nat)),
        );
        let e = with_value(
            d,
            "bt-max-peers"@,
            text_or(opts, "bt-max-peers"@, decimal(DEFAULT_BT_MAX_PEERS as nat)),
        );
        let f = with_value(
            e,
            "bt-adaptive"@,
            JsonView::Str(
                bool_text(crate::options::on_by_default(value_at(opts, "bt-adaptive"@))),
            ),
        );
        let g = with_value(f, "bt-trackers"@, text_list_view(self.trackers.urls()));
        let h = with_value(
            g,
            "tracker-subscriptions"@,
            subs_view(self.trackers.subscriptions@),
        );
        let i = with_value(
            h,
            "auto-update-trackers"@,
            JsonView::Bool(self.trackers.auto_update),
        );
        JsonView::Obj(
            match self.session {
                Some(p) => with_value(i, "session-path"@, JsonView::Str(p@)),
                None => i,
            },
        )
    }

    /// The options of the engine.
    pub fn get_global_option(&self) -> (r: Json)
        ensures
            r@ == self.global_view(),
    {
        let mut b = ObjectBuilder::from_table(&self.global_options);
        b.set("max-concurrent-downloads", Json::Str(dec_string(self.max_concurrent as u64)));
        b.set("dir", Json::text(self.download_dir.as_str()));
        b.set("split", read_or(&self.global_options, "split", DEFAULT_SPLIT_CONNECTIONS as u64));
        b.set(
            "bt-max-peers",
            read_or(&self.global_options, "bt-max-peers", DEFAULT_BT_MAX_PEERS as u64),
        );
        let adaptive = match look_up(&self.global_options, "bt-adaptive") {
            Some(v) => switch_on(&chars_of(v.as_str())),
            None => true,
        };
        b.set("bt-adaptive", Json::Str(bool_str(adaptive)));
        let urls = self.trackers.url_list();
        b.set("bt-trackers", Json::text_list(&urls));
        b.set("tracker-subscriptions", show_subs(&self.trackers.subscriptions));
        b.set("auto-update-trackers", Json::Bool(self.trackers.auto_update));
        match &self.session {
            Some(p) => {
                b.set("session-path", Json::text(p.as_str()));
            },
            None => {},
        }
        b.done()
    }

    /// The options of a task as they are shown.
    pub open spec fn option_view(&self, t: Task) -> JsonView {
        let a = over(
            text_table_view(pair_texts(self.global_options@)).fields(),
            pair_texts(t.options@),
        );
        let b = with_value(a, "dir"@, JsonView::Str(t.dir@));
        let c = match t.out {
            Some(o) => with_value(b, "out"@, JsonView::Str(o@)),
            None => b,
        };
        JsonView::Obj(
            match t.checksum {
                Some(x) => with_value(c, "checksum"@, JsonView::Str(checksum_text(x))),
                None => c,
            },
        )
    }

    /// The options of a task.
    pub fn get_option(&self, gid: &str) -> (r: Result<Json, String>)
        ensures
            if has_task(self.tasks@, gid@) {
                r is Ok && r->Ok_0@ == self.option_view(self.tasks@[task_at(self.tasks@, gid@)])
            } else {
                fails(r, unknown_gid(gid@))
            },
    {
        let k: usize = match self.task_of(gid) {
            Ok(k) => k,
            Err(e) => {
                return Err(e);
            },
        };
        let t = &self.tasks[k];
        let mut b = ObjectBuilder::from_table(&self.global_options);
        let ghost base = b@;
        let ghost all = pair_texts(t.options@);
        let mut i: usize = 0;
        assert(all.take(0) =~= Seq::<(Seq<char>, Seq<char>)>::empty());
        while i < t.options.len()
            invariant
                i <= t.options@.len(),
                all == pair_texts(t.options@),
                b@ == over(base, all.take(i as int)),
            decreases t.options@.len() - i,
        {
            proof {
                assert(all.take(i + 1).drop_last() =~= all.take(i as int));
                assert(all.take(i + 1).last() == all[i as int]);
            }
            let e = &t.options[i];
            b.set(e.0.as_str(), Json::text(e.1.as_str()));
            i = i + 1;
        }
        assert(all.take(i as int) =~= all);
        b.set("dir", Json::text(t.dir.as_str()));
        match &t.out {
            Some(o) => {
                b.set("out", Json::text(o.as_str()));
            },
            None => {},
        }
        match &t.checksum {
            Some(c) => {
                b.set("checksum", Json::Str(show_checksum(c)));
            },
            None => {},
        }
        Ok(b.done())
    }

    /// What the manager is after a request to change the options of a task.
    pub open spec fn changes_option(
        &self,
        after: TaskManager,
        gid: Seq<char>,
        options: Json,
        r: Result<(), String>,
    ) -> bool {
        &&& !has_task(self.tasks@, gid) ==> fails(r, unknown_gid(gid)) && after
            == *self
        &&& has_task(self.tasks@, gid) ==> {
            let k = task_at(self.tasks@, gid);
            let t = self.tasks@[k];
            if !(options@ is Obj) {
                fails(r, "options 必须是对象"@) && after == *self
            } else if is_final(t.shared.status) {
                fails(r, "任务已结束，无法修改选项"@) && after == *self
            } else {
                let t2 = after.tasks@[k];
                let opts = options_after(pair_texts(t.options@), options.entries());
                &&& r is Ok
                &&& pair_texts(t2.options@) == opts
                &&& after.tasks@ == self.tasks@.update(
                    k,
                    Task {
                        options: t2.options,
                        task_dl_limit: crate::options::limit_of(
                            opts,
                            "max-download-limit"@,
                        ) as u64,
                        task_ul_limit: crate::options::limit_of(
                            opts,
                            "max-upload-limit"@,
                        ) as u64,
                        ..t
                    },
                )
                &&& after.effects@ == self.limit_effects(
                    t2,
                    options@.get("max-download-limit"@) is Some || options@.get("max-upload-limit"@) is Some,
                ).push(Effect::Save)
                &&& after == (TaskManager {
                    tasks: after.tasks,
                    effects: after.effects,
                    ..*self
                })
            }
        }
    }

    /// What is to be done outside after the options of `t` changed: if they named a limit,
    /// the limits that hold for the task now are handed to its transfer.
    pub open spec fn limit_effects(&self, t: Task, named: bool) -> Seq<Effect> {
        if named {
            let global = pair_texts(self.global_options@);
            let (download, upload) = t.limits_over(
                (
                    rate_of(global, "max-overall-download-limit"@) as u64,
                    rate_of(global, "max-overall-upload-limit"@) as u64,
                ),
            );
            self.effects@.push(Effect::SetTaskLimits { gid: t.gid, download, upload })
        } else {
            self.effects@
        }
    }

    /// Changes options of a task that has not stopped. Directory, file name and checksum
    /// stay as they are; the task's rate limits follow, and those of its transfer.
    pub fn change_option(&mut self, gid: &str, options: &Json) -> (r: Result<(), String>)
        requires
            old(self).wf(),
        ensures
            final(self).wf(),
            old(self).changes_option(*final(self), gid@, *options, r),
    {
        let k: usize = match self.task_of(gid) {
            Ok(k) => k,
            Err(e) => {
                return Err(e);
            },
        };
        let fields = match options {
            Json::Obj(f) => f,
            _ => {
                return Err("options 必须是对象".to_owned());
            },
        };
        if self.tasks[k].status().is_terminal() {
            return Err("任务已结束，无法修改选项".to_owned());
        }
        let ghost before = *self;
        merge_options(&mut self.tasks[k].options, fields);
        self.tasks[k].sync_task_limits();
        proof {
            let t2 = self.tasks@[k as int];
            let opts = pair_texts(t2.options@);
            assert(self.tasks@ =~= before.tasks@.update(
                k as int,
                Task {
                    options: t2.options,
                    task_dl_limit: crate::options::limit_of(opts, "max-download-limit"@) as u64,
                    task_ul_limit: crate::options::limit_of(opts, "max-upload-limit"@) as u64,
                    ..before.tasks@[k as int]
                },
            ));
            assert forall|i: int| 0 <= i < self.tasks@.len() implies (#[trigger] self.tasks@[i]).wf()
                && unique_keys(pair_texts(self.tasks@[i].options@)) by {
                assert(task_fine(before.tasks@[i]));
                lemma_options_unique(pair_texts(before.tasks@[k as int].options@), fields@);
            }
            lemma_sound_same(
                before.tasks@,
                self.tasks@,
                string_texts(before.queue@),
                string_texts(before.active@),
                string_texts(before.stopped_order@),
            );
        }
        if options.get("max-download-limit").is_some() || options.get("max-upload-limit").is_some() {
            let (download, upload) = self.tasks[k].limits(rate_limits(&self.global_options));
            let g = self.tasks[k].gid.clone();
            self.note(Effect::SetTaskLimits { gid: g, download, upload });
        }
        self.note(Effect::Save);
        Ok(())
    }
}

/// An option that was set, and is not one that the engine shows by itself, is read back
/// as it was set.
pub proof fn law_global_option_is_read_back(
    s: SettingsView,
    k: Seq<char>,
    v: Seq<char>,
    env: Env,
)
    requires
        option_error(k, v) is None,
    ensures
        value_at(setting_set(s, k, v, env).options, k) == Some(v),
{
    crate::lists::law_set_value_is_read(s.options, k, v, k);
}

/// An invalid option changes nothing but that it is reported.
pub proof fn law_invalid_option_changes_nothing(
    s: SettingsView,
    k: Seq<char>,
    v: Seq<char>,
    env: Env,
)
    requires
        option_error(k, v) is Some,
    ensures
        setting_set(s, k, v, env) == (SettingsView { error: option_error(k, v), ..s }),
{
}

// ---------------------------------------------------------------------------
// What a change of options does
// ---------------------------------------------------------------------------

proof fn lemma_setting_names()
    ensures
        "max-concurrent-downloads"@.len() == 24,
        "max-overall-download-limit"@.len() == 26,
        "max-overall-upload-limit"@.len() == 24 && "max-overall-upload-limit"@[4] == 'o',
        "max-concurrent-downloads"@[4] == 'c',
        "dir"@.len() == 3,
        "out"@.len() == 3 && "out"@[0] == 'o' && "dir"@[0] == 'd',
        "checksum"@.len() == 8,
        "bt-encryption"@.len() == 13,
        "bt-protocol"@.len() == 11 && "bt-protocol"@[3] == 'p',
        "split"@.len() == 5,
        "bt-max-peers"@.len() == 12 && "bt-max-peers"@[0] == 'b',
        "bt-adaptive"@.len() == 11 && "bt-adaptive"@[3] == 'a',
        "bt-trackers"@.len() == 11 && "bt-trackers"@[3] == 't',
        "tracker-subscriptions"@.len() == 21,
        "auto-update-trackers"@.len() == 20,
        "session-path"@.len() == 12 && "session-path"@[0] == 's',
{
    reveal_strlit("max-concurrent-downloads");
    reveal_strlit("max-overall-download-limit");
    reveal_strlit("max-overall-upload-limit");
    reveal_strlit("dir");
    reveal_strlit("out");
    reveal_strlit("checksum");
    reveal_strlit("bt-encryption");
    reveal_strlit("bt-protocol");
    reveal_strlit("split");
    reveal_strlit("bt-max-peers");
    reveal_strlit("bt-adaptive");
    reveal_strlit("bt-trackers");
    reveal_strlit("tracker-subscriptions");
    reveal_strlit("auto-update-trackers");
    reveal_strlit("session-path");
}

/// The number of downloads that run at a time is set by the option of that name, at least
/// one; no other option changes it.
pub proof fn law_downloads_at_a_time_are_set(s: SettingsView, k: Seq<char>, v: Seq<char>, n: u64, env: Env)
    requires
        n <= usize::MAX,
        option_error(k, v) is None,
    ensures
        k == "max-concurrent-downloads"@ && v == decimal(n as nat) ==> setting_set(s, k, v, env).max_concurrent
            == if n == 0 { 1 } else { n },
        k != "max-concurrent-downloads"@ ==> setting_set(s, k, v, env).max_concurrent
            == s.max_concurrent,
{
    crate::text::law_decimal_round_trip(n as nat);
    crate::text::lemma_decimal(n as nat);
    assert(crate::text::is_digit(decimal(n as nat)[0]));
}

/// The directory is set by the option of that name, as an absolute path; no other option
/// changes it.
pub proof fn law_directory_is_set(s: SettingsView, k: Seq<char>, v: Seq<char>, env: Env)
    requires
        option_error(k, v) is None,
        v.len() > 0,
    ensures
        k == "dir"@ ==> setting_set(s, k, v, env).dir == env.place.normal(v),
        k == "dir"@ && v[0] == '/' ==> setting_set(s, k, v, env).dir == v,
        k != "dir"@ ==> setting_set(s, k, v, env).dir == s.dir,
{
    if v[0] == '/' {
        crate::options::law_absolute_dir_stays(
            v,
            crate::config::opt_view(env.place.home),
            crate::config::opt_view(env.place.cwd),
        );
    }
}

/// An option is refused if and only if it is a rate that is no number, or a mode that
/// does not exist.
pub proof fn law_what_is_refused(k: Seq<char>, v: Seq<char>)
    ensures
        option_error(k, v) is Some <==> {
            ||| (k == "max-overall-download-limit"@ || k == "max-overall-upload-limit"@) && number(
                trimmed(v),
            ) is None
            ||| k == "bt-encryption"@ && v != "adaptive"@ && v != "force"@ && v != "plain"@
            ||| k == "bt-protocol"@ && v != "tcp+utp"@ && v != "tcp"@ && v != "utp"@
        },
{
    crate::options::law_modes_have_names(v);
}

/// A change of a rate reaches the running tasks, as the number that the options then say,
/// and every change is followed by a look for free slots and a saved session.
pub proof fn law_changed_rates_are_handed_on(before: Seq<Effect>, s: SettingsView, down: u64, up: u64)
    requires
        value_at(s.options, "max-overall-download-limit"@) == Some(decimal(down as nat)),
        value_at(s.options, "max-overall-upload-limit"@) == Some(decimal(up as nat)),
    ensures
        ({
            let after = setting_effects(before, s);
            &&& (s.rates ==> after.contains(Effect::SetLimits { download: down, upload: up }))
            &&& after.len() >= 2
            &&& after[after.len() - 2] == Effect::Kick
            &&& after[after.len() - 1] == Effect::Save
            &&& (!s.rates && !s.modes ==> after == before.push(Effect::Kick).push(Effect::Save))
        }),
{
    crate::options::law_limit_is_what_the_option_says(s.options, "max-overall-download-limit"@, down);
    crate::options::law_limit_is_what_the_option_says(s.options, "max-overall-upload-limit"@, up);
    let after = setting_effects(before, s);
    if s.rates {
        assert(after[before.len() as int] == (Effect::SetLimits { download: down, upload: up }));
    }
}

/// A change of a mode reaches the running downloads, as the modes that the options name.
pub proof fn law_changed_modes_are_handed_on(before: Seq<Effect>, s: SettingsView, e: Seq<char>, p: Seq<char>)
    requires
        s.modes,
        value_at(s.options, "bt-encryption"@) == Some(e),
        value_at(s.options, "bt-protocol"@) == Some(p),
        e == "adaptive"@ || e == "force"@ || e == "plain"@,
        p == "tcp+utp"@ || p == "tcp"@ || p == "utp"@,
    ensures
        setting_effects(before, s).contains(
            Effect::SetModes {
                encryption: Some(
                    if e == "adaptive"@ {
                        EncryptionMode::Adaptive
                    } else if e == "force"@ {
                        EncryptionMode::Force
                    } else {
                        EncryptionMode::Plain
                    },
                ),
                protocol: Some(
                    if p == "tcp+utp"@ {
                        BtProtocol::TcpUtp
                    } else if p == "tcp"@ {
                        BtProtocol::Tcp
                    } else {
                        BtProtocol::Utp
                    },
                ),
            },
        ),
{
    crate::options::law_modes_have_names(e);
    let after = setting_effects(before, s);
    let at = if s.rates { before.len() as int + 1 } else { before.len() as int };
    assert(after[at] == (Effect::SetModes {
        encryption: encryption_of(e),
        protocol: protocol_of(p),
    }));
}

/// Clients are shown the settings that hold, and the defaults of those that are not set.
pub proof fn law_settings_are_shown(m: TaskManager)
    ensures
        ({
            let o = m.global_view();
            let opts = pair_texts(m.global_options@);
            &&& o.at("max-concurrent-downloads"@) == JsonView::Str(decimal(m.max_concurrent as nat))
            &&& o.at("dir"@) == JsonView::Str(m.download_dir@)
            &&& (value_at(opts, "split"@) is None ==> o.at("split"@) == JsonView::Str(decimal(16)))
            &&& (value_at(opts, "split"@) is Some ==> o.at("split"@) == JsonView::Str(
                value_at(opts, "split"@)->0,
            ))
            &&& (value_at(opts, "bt-max-peers"@) is None ==> o.at("bt-max-peers"@) == JsonView::Str(
                decimal(50),
            ))
            &&& (value_at(opts, "bt-adaptive"@) is None ==> o.at("bt-adaptive"@) == JsonView::Str(
                "true"@,
            ))
            &&& o.at("bt-trackers"@) == text_list_view(m.trackers.urls())
            &&& o.at("tracker-subscriptions"@) == subs_view(m.trackers.subscriptions@)
            &&& o.at("auto-update-trackers"@) == JsonView::Bool(m.trackers.auto_update)
            &&& (m.session is Some ==> o.at("session-path"@) == JsonView::Str(m.session->0@))
        }),
{
    lemma_setting_names();
    let opts = pair_texts(m.global_options@);
    let a = text_table_view(opts).fields();
    let b = with_value(
        a,
        "max-concurrent-downloads"@,
        JsonView::Str(decimal(m.max_concurrent as nat)),
    );
    let c = with_value(b, "dir"@, JsonView::Str(m.download_dir@));
    let d = with_value(c, "split"@, text_or(opts, "split"@, decimal(16)));
    let e = with_value(d, "bt-max-peers"@, text_or(opts, "bt-max-peers"@, decimal(50)));
    let f = with_value(
        e,
        "bt-adaptive"@,
        JsonView::Str(bool_text(crate::options::on_by_default(value_at(opts, "bt-adaptive"@)))),
    );
    let g = with_value(f, "bt-trackers"@, text_list_view(m.trackers.urls()));
    let h = with_value(g, "tracker-subscriptions"@, subs_view(m.trackers.subscriptions@));
    let i = with_value(h, "auto-update-trackers"@, JsonView::Bool(m.trackers.auto_update));
    lemma_set(a, "max-concurrent-downloads"@, JsonView::Str(decimal(m.max_concurrent as nat)));
    lemma_set(b, "dir"@, JsonView::Str(m.download_dir@));
    lemma_set(c, "split"@, text_or(opts, "split"@, decimal(16)));
    lemma_set(d, "bt-max-peers"@, text_or(opts, "bt-max-peers"@, decimal(50)));
    lemma_set(
        e,
        "bt-adaptive"@,
        JsonView::Str(bool_text(crate::options::on_by_default(value_at(opts, "bt-adaptive"@)))),
    );
    lemma_set(f, "bt-trackers"@, text_list_view(m.trackers.urls()));
    lemma_set(g, "tracker-subscriptions"@, subs_view(m.trackers.subscriptions@));
    lemma_set(h, "auto-update-trackers"@, JsonView::Bool(m.trackers.auto_update));
    if m.session is Some {
        lemma_set(i, "session-path"@, JsonView::Str(m.session->0@));
    }
}

/// Setting a key gives it its value and leaves every other key alone.
proof fn lemma_set(s: Seq<(Seq<char>, JsonView)>, k: Seq<char>, v: JsonView)
    ensures
        value_at(with_value(s, k, v), k) == Some(v),
        forall|other: Seq<char>|
            other != k ==> #[trigger] value_at(with_value(s, k, v), other) == value_at(s, other),
{
    crate::lists::law_set_value_is_read(s, k, v, k);
    assert forall|other: Seq<char>| other != k implies #[trigger] value_at(with_value(s, k, v), other)
        == value_at(s, other) by {
        crate::lists::law_set_value_is_read(s, k, v, other);
    }
}

/// The options of a task are shown with its directory, its file name and its checksum.
pub proof fn law_task_options_are_shown(m: TaskManager, t: Task)
    ensures
        ({
            let o = m.option_view(t);
            let sum = t.checksum->0;
            &&& o.at("dir"@) == JsonView::Str(t.dir@)
            &&& (t.out is Some ==> o.at("out"@) == JsonView::Str(t.out->0@))
            &&& (t.checksum is Some ==> o.at("checksum"@) == JsonView::Str(
                lowered(sum.0@ + "="@ + sum.1@),
            ))
        }),
{
    lemma_setting_names();
    let a = over(
        text_table_view(pair_texts(m.global_options@)).fields(),
        pair_texts(t.options@),
    );
    let b = with_value(a, "dir"@, JsonView::Str(t.dir@));
    lemma_set(a, "dir"@, JsonView::Str(t.dir@));
    let c = match t.out {
        Some(o) => with_value(b, "out"@, JsonView::Str(o@)),
        None => b,
    };
    if t.out is Some {
        lemma_set(b, "out"@, JsonView::Str(t.out->0@));
    }
    if t.checksum is Some {
        lemma_set(c, "checksum"@, JsonView::Str(checksum_text(t.checksum->0)));
    }
}

proof fn lemma_over(base: Seq<(Seq<char>, JsonView)>, opts: Seq<(Seq<char>, Seq<char>)>, k: Seq<char>)
    requires
        unique_keys(opts),
    ensures
        value_at(over(base, opts), k) == match value_at(opts, k) {
            Some(v) => Some(JsonView::Str(v)),
            None => value_at(base, k),
        },
    decreases opts.len(),
{
    if opts.len() > 0 {
        let front = opts.drop_last();
        assert forall|i: int, j: int| 0 <= i < j < front.len() implies (#[trigger] front[i]).0 != (
        #[trigger] front[j]).0 by {
            assert(opts[i].0 != opts[j].0);
        }
        lemma_over(base, front, k);
        lemma_set(over(base, front), opts.last().0, JsonView::Str(opts.last().1));
        crate::lists::lemma_key_at_props(front, k);
        crate::lists::lemma_key_at_props(opts, k);
        let i = crate::lists::key_at(front, k);
        let j = crate::lists::key_at(opts, k);
        if j < front.len() {
            assert(front[j] == opts[j]);
            assert(opts[j].0 != opts[opts.len() - 1].0);
            if i > j {
                assert(front[j].0 != k);
            }
            if i < j {
                assert(opts[i].0 != k);
                assert(front[i] == opts[i]);
            }
        } else {
            if i < front.len() {
                assert(opts[i].0 != k);
                assert(front[i] == opts[i]);
            }
        }
    }
}

/// An option of a task is shown as the task has it, else as the engine has it.
pub proof fn law_task_option_is_shown_over_the_engines(m: TaskManager, t: Task, k: Seq<char>)
    requires
        unique_keys(pair_texts(t.options@)),
        k != "dir"@ && k != "out"@ && k != "checksum"@,
    ensures
        value_at(pair_texts(t.options@), k) is Some ==> m.option_view(t).at(k) == JsonView::Str(
            value_at(pair_texts(t.options@), k)->0,
        ),
        value_at(pair_texts(t.options@), k) is None ==> m.option_view(t).get(k) == value_at(
            text_table_view(pair_texts(m.global_options@)).fields(),
            k,
        ),
{
    lemma_setting_names();
    let base = text_table_view(pair_texts(m.global_options@)).fields();
    lemma_over(base, pair_texts(t.options@), k);
    let a = over(base, pair_texts(t.options@));
    let b = with_value(a, "dir"@, JsonView::Str(t.dir@));
    lemma_set(a, "dir"@, JsonView::Str(t.dir@));
    let c = match t.out {
        Some(o) => with_value(b, "out"@, JsonView::Str(o@)),
        None => b,
    };
    if t.out is Some {
        lemma_set(b, "out"@, JsonView::Str(t.out->0@));
    }
    if t.checksum is Some {
        lemma_set(c, "checksum"@, JsonView::Str(checksum_text(t.checksum->0)));
    }
}

} // verus!
