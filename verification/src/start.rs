//! The settings of a session: what is written, and what a start makes of it.
//!
//! Settings that were given on the command line hold for one run. What the user saved
//! as an option comes back in a run without them.

use vstd::prelude::*;

use crate::config::opt_view;
use crate::json::{
    json_views, text_list_view, text_table_view, Json, JsonView, ObjectBuilder,
};
use crate::lists::{look_up, unique_keys, value_at};
use crate::manager::{Env, TaskManager};
use crate::manifest::{pair_texts, string_texts};
use crate::options::Place;
use crate::restore::kept_tasks;
use crate::session::{
    keeps_torrent, kept_name, law_session_keeps_tasks, lemma_field, lemma_text_list, lemma_text_table, number_under,
    read_number, read_table, read_text, read_texts, saved_json, saved_of,
    table_under, text_under, texts_under, write_saved,
};
use crate::subscriptions::{show_subs, sub_view, subs_view};
use crate::task::Task;
use crate::text::{chars_of, number_upto, parse_upto};
use crate::trackers::{
    entries_wf, entry_views, has_reason, urls_of, EntryView, TrackerBook, TrackerEntry,
    TrackerSubscription,
};

verus! {

// ---------------------------------------------------------------------------
// Writing
// ---------------------------------------------------------------------------

/// Why a tracker is listed, as it is kept.
pub open spec fn source_view(e: EntryView) -> JsonView {
    JsonView::Obj(
        seq![
            ("url"@, JsonView::Str(e.url)),
            ("manual"@, JsonView::Bool(e.manual)),
            ("subscriptions"@, text_list_view(e.subs)),
        ],
    )
}

/// Why each tracker is listed, as it is kept.
pub open spec fn sources_view(e: Seq<EntryView>) -> JsonView {
    JsonView::Arr(Seq::new(e.len(), |i: int| source_view(e[i])))
}

/// The settings as they are kept.
pub open spec fn settings_view(m: TaskManager) -> JsonView {
    JsonView::Obj(
        seq![
            ("max-concurrent-downloads"@, JsonView::Unsigned(m.max_concurrent as u64)),
            ("dir"@, JsonView::Str(m.download_dir@)),
            ("options"@, text_table_view(pair_texts(m.global_options@))),
            ("btTrackers"@, text_list_view(m.trackers.urls())),
            ("trackerSources"@, sources_view(entry_views(m.trackers.entries@))),
            ("trackerSubscriptions"@, subs_view(m.trackers.subscriptions@)),
            ("autoUpdateTrackers"@, JsonView::Bool(m.trackers.auto_update)),
        ],
    )
}

/// The tasks as they are kept.
pub open spec fn tasks_view(tasks: Seq<Task>, now: u64) -> Seq<JsonView> {
    Seq::new(
        tasks.len(),
        |i: int| saved_json(saved_of(tasks[i], now), kept_name(tasks[i].shared.status)),
    )
}

/// The session as it is kept.
pub open spec fn session_view(m: TaskManager, now: u64) -> JsonView {
    JsonView::Obj(
        seq![
            ("version"@, JsonView::Unsigned(1)),
            ("settings"@, settings_view(m)),
            ("stoppedTotal"@, JsonView::Unsigned(m.stopped_total)),
            ("tasks"@, JsonView::Arr(tasks_view(m.tasks@, now))),
        ],
    )
}

fn show_sources(v: &Vec<TrackerEntry>) -> (r: Json)
    ensures
        r@ == sources_view(entry_views(v@)),
{
    let mut out: Vec<Json> = Vec::new();
    let mut i: usize = 0;
    while i < v.len()
        invariant
            i <= v@.len(),
            out@.len() == i,
            forall|k: int| 0 <= k < i ==> (#[trigger] out@[k])@ == source_view(v@[k]@),
        decreases v@.len() - i,
    {
        let mut b = ObjectBuilder::new();
        b.put("url", Json::text(v[i].url.as_str()));
        b.put("manual", Json::Bool(v[i].manual));
        b.put("subscriptions", Json::text_list(&v[i].subs));
        assert(b@ =~= source_view(v@[i as int]@)->Obj_0);
        out.push(b.done());
        i = i + 1;
    }
    assert(json_views(out@) =~= sources_view(entry_views(v@))->Arr_0);
    Json::array(out)
}

impl TaskManager {
    fn settings_json(&self) -> (r: Json)
        ensures
            r@ == settings_view(*self),
    {
        let urls = self.trackers.url_list();
        let mut b = ObjectBuilder::new();
        b.put("max-concurrent-downloads", Json::Unsigned(self.max_concurrent as u64));
        b.put("dir", Json::text(self.download_dir.as_str()));
        b.put("options", Json::text_table(&self.global_options));
        b.put("btTrackers", Json::text_list(&urls));
        b.put("trackerSources", show_sources(&self.trackers.entries));
        b.put("trackerSubscriptions", show_subs(&self.trackers.subscriptions));
        b.put("autoUpdateTrackers", Json::Bool(self.trackers.auto_update));
        assert(b@ =~= settings_view(*self)->Obj_0);
        b.done()
    }

    /// The session: settings and all tasks. The torrent file of a task can be read back
    /// from it.
    pub fn session_json(&self, now: u64) -> (r: Json)
        ensures
            r@ == session_view(*self, now),
            forall|i: int| 0 <= i < self.tasks@.len() ==> keeps_torrent(#[trigger] self.tasks@[i], now),
    {
        let mut tasks: Vec<Json> = Vec::new();
        let mut i: usize = 0;
        while i < self.tasks.len()
            invariant
                i <= self.tasks@.len(),
                tasks@.len() == i,
                forall|k: int|
                    0 <= k < i ==> (#[trigger] tasks@[k])@ == saved_json(
                        saved_of(self.tasks@[k], now),
                        kept_name(self.tasks@[k].shared.status),
                    ),
                forall|k: int| 0 <= k < i ==> keeps_torrent(#[trigger] self.tasks@[k], now),
            decreases self.tasks@.len() - i,
        {
            tasks.push(write_saved(&self.tasks[i], now));
            i = i + 1;
        }
        assert(json_views(tasks@) =~= tasks_view(self.tasks@, now));
        let mut b = ObjectBuilder::new();
        b.put("version", Json::Unsigned(1));
        b.put("settings", self.settings_json());
        b.put("stoppedTotal", Json::Unsigned(self.stopped_total));
        b.put("tasks", Json::array(tasks));
        assert(b@ =~= session_view(*self, now)->Obj_0);
        b.done()
    }
}

// ---------------------------------------------------------------------------
// Reading
// ---------------------------------------------------------------------------

/// Whether a value describes a subscription completely.
pub open spec fn is_sub(e: JsonView) -> bool {
    &&& e.at("id"@).text() is Some
    &&& e.at("name"@).text() is Some
    &&& e.at("url"@).text() is Some
    &&& e.at("enabled"@).flag() is Some
    &&& e.at("last_updated"@).unsigned() is Some
    &&& e.at("last_count"@).unsigned() is Some
    &&& e.at("last_count"@).unsigned()->0 <= usize::MAX
    &&& e.at("last_error"@).text() is Some
}

/// Whether a value describes that subscription.
pub open spec fn says_sub(e: JsonView, s: TrackerSubscription) -> bool {
    &&& e.at("id"@).text() == Some(s.id@)
    &&& e.at("name"@).text() == Some(s.name@)
    &&& e.at("url"@).text() == Some(s.url@)
    &&& e.at("enabled"@).flag() == Some(s.enabled)
    &&& e.at("last_updated"@).unsigned() == Some(s.last_updated)
    &&& e.at("last_count"@).unsigned() == Some(s.last_count as u64)
    &&& e.at("last_error"@).text() == Some(s.last_error@)
}

/// The values that describe a subscription completely.
pub open spec fn sub_entries(v: Seq<JsonView>) -> Seq<JsonView>
    decreases v.len(),
{
    if v.len() == 0 {
        Seq::empty()
    } else if is_sub(v.last()) {
        sub_entries(v.drop_last()).push(v.last())
    } else {
        sub_entries(v.drop_last())
    }
}

/// Whether subscriptions are what some values describe.
pub open spec fn are_subs(v: Seq<JsonView>, s: Seq<TrackerSubscription>) -> bool {
    &&& sub_entries(v).len() == s.len()
    &&& forall|i: int| 0 <= i < s.len() ==> says_sub(sub_entries(v)[i], #[trigger] s[i])
}

fn read_sub(e: &Json) -> (r: Option<TrackerSubscription>)
    ensures
        match r {
            Some(s) => is_sub(e@) && says_sub(e@, s),
            None => !is_sub(e@),
        },
{
    let id = match e.text_of("id") {
        Some(s) => s.clone(),
        None => {
            return None;
        },
    };
    let name = match e.text_of("name") {
        Some(s) => s.clone(),
        None => {
            return None;
        },
    };
    let url = match e.text_of("url") {
        Some(s) => s.clone(),
        None => {
            return None;
        },
    };
    let enabled = match e.bool_of("enabled") {
        Some(b) => b,
        None => {
            return None;
        },
    };
    let last_updated: u64 = match e.u64_of("last_updated") {
        Some(n) => n,
        None => {
            return None;
        },
    };
    let last_count: u64 = match e.u64_of("last_count") {
        Some(n) => n,
        None => {
            return None;
        },
    };
    if last_count > usize::MAX as u64 {
        return None;
    }
    let last_error = match e.text_of("last_error") {
        Some(s) => s.clone(),
        None => {
            return None;
        },
    };
    Some(
        TrackerSubscription {
            id,
            name,
            url,
            enabled,
            last_updated,
            last_count: last_count as usize,
            last_error,
        },
    )
}

fn read_subs(v: &Vec<Json>) -> (r: Vec<TrackerSubscription>)
    ensures
        are_subs(json_views(v@), r@),
{
    let ghost all = json_views(v@);
    let mut out: Vec<TrackerSubscription> = Vec::new();
    let mut i: usize = 0;
    assert(all.take(0) =~= Seq::<JsonView>::empty());
    while i < v.len()
        invariant
            i <= v@.len(),
            all == json_views(v@),
            are_subs(all.take(i as int), out@),
        decreases v@.len() - i,
    {
        proof {
            assert(all.take(i + 1).drop_last() =~= all.take(i as int));
            assert(all.take(i + 1).last() == v@[i as int]@);
        }
        match read_sub(&v[i]) {
            Some(s) => {
                out.push(s);
            },
            None => {},
        }
        i = i + 1;
    }
    assert(all.take(i as int) =~= all);
    out
}

/// The first of some values that speaks of a tracker.
pub open spec fn row_of(rows: Seq<JsonView>, url: Seq<char>) -> Option<JsonView>
    decreases rows.len(),
{
    if rows.len() == 0 {
        None
    } else if text_under(rows[0], "url"@) == Some(url) {
        Some(rows[0])
    } else {
        row_of(rows.skip(1), url)
    }
}

/// The entry of a kept tracker. One whose reasons are not known counts as the user's.
pub open spec fn kept_entry(rows: Seq<JsonView>, url: Seq<char>) -> EntryView {
    match row_of(rows, url) {
        Some(row) => {
            let subs = texts_under(row, "subscriptions"@);
            EntryView {
                url,
                manual: row.at("manual"@).flag() == Some(true) || subs.len() == 0,
                subs,
            }
        },
        None => EntryView { url, manual: true, subs: Seq::empty() },
    }
}

/// The entries of kept trackers, in the order in which they were kept.
pub open spec fn kept_entries(rows: Seq<JsonView>, urls: Seq<Seq<char>>) -> Seq<EntryView> {
    Seq::new(urls.len(), |i: int| kept_entry(rows, urls[i]))
}

fn find_row<'a>(rows: &'a Vec<Json>, url: &str) -> (r: Option<&'a Json>)
    ensures
        match r {
            Some(j) => row_of(json_views(rows@), url@) == Some(j@),
            None => row_of(json_views(rows@), url@) is None,
        },
{
    let ghost all = json_views(rows@);
    let mut i: usize = 0;
    assert(all.skip(0) =~= all);
    while i < rows.len()
        invariant
            i <= rows@.len(),
            all == json_views(rows@),
            row_of(all, url@) == row_of(all.skip(i as int), url@),
        decreases rows@.len() - i,
    {
        assert(all.skip(i as int)[0] == rows@[i as int]@);
        match read_text(&rows[i], "url") {
            Some(u) => {
                if crate::text::same_str(u.as_str(), url) {
                    return Some(&rows[i]);
                }
            },
            None => {},
        }
        assert(all.skip(i as int).skip(1) =~= all.skip(i + 1));
        i = i + 1;
    }
    None
}

fn restore_entry(rows: &Vec<Json>, url: &str) -> (r: TrackerEntry)
    ensures
        r@ == kept_entry(json_views(rows@), url@),
        has_reason(r@),
{
    match find_row(rows, url) {
        Some(row) => {
            let subs = read_texts(row, "subscriptions");
            let manual = match row.bool_of("manual") {
                Some(b) => b,
                None => false,
            };
            TrackerEntry { url: url.to_owned(), manual: manual || subs.len() == 0, subs }
        },
        None => {
            let e = TrackerEntry { url: url.to_owned(), manual: true, subs: Vec::new() };
            assert(e@.subs =~= Seq::<Seq<char>>::empty());
            e
        },
    }
}

fn restore_entries(rows: &Vec<Json>, urls: &Vec<String>) -> (r: TrackerBook)
    ensures
        r.wf(),
        entry_views(r.entries@) == kept_entries(json_views(rows@), string_texts(urls@)),
        r.subscriptions@.len() == 0,
        r.auto_update,
{
    let ghost doc = json_views(rows@);
    let mut book = TrackerBook::new();
    let mut i: usize = 0;
    while i < urls.len()
        invariant
            i <= urls@.len(),
            doc == json_views(rows@),
            book.entries@.len() == i,
            forall|k: int|
                0 <= k < i ==> (#[trigger] book.entries@[k])@ == kept_entry(doc, urls@[k]@) && has_reason(
                    book.entries@[k]@,
                ),
            book.subscriptions@.len() == 0,
            book.auto_update,
        decreases urls@.len() - i,
    {
        let e = restore_entry(rows, urls[i].as_str());
        book.entries.push(e);
        i = i + 1;
    }
    proof {
        let all = entry_views(book.entries@);
        assert(all =~= kept_entries(doc, string_texts(urls@)));
        assert forall|a: int| 0 <= a < all.len() implies has_reason(#[trigger] all[a]) by {
            assert(has_reason(book.entries@[a]@));
        }
        assert forall|a: int, b: int|
            0 <= a < b < all.len() && (#[trigger] all[a]).url == (#[trigger] all[b]).url implies all[a]
            == all[b] by {
            assert(all[a] == kept_entry(doc, urls@[a]@));
            assert(all[b] == kept_entry(doc, urls@[b]@));
        }
    }
    book
}

/// The settings of a session.
pub open spec fn settings_of(doc: JsonView) -> JsonView {
    doc.at("settings"@)
}

/// At least one.
pub open spec fn at_least_one(n: int) -> int {
    if n < 1 { 1 } else { n }
}

/// Tasks that may run at a time: what the command line says, else what the user saved
/// as an option, else what the last run had.
pub open spec fn start_conc(cli: Option<usize>, st: JsonView) -> int {
    at_least_one(
        match cli {
            Some(n) => n as int,
            None => match saved_conc(st) {
                Some(n) => n,
                None => match number_under(st, "max-concurrent-downloads"@) {
                    Some(n) => (n as usize) as int,
                    None => 3,
                },
            },
        },
    )
}

/// The number of tasks at a time that the user saved as an option.
pub open spec fn saved_conc(st: JsonView) -> Option<int> {
    match value_at(table_under(st, "options"@), "max-concurrent-downloads"@) {
        Some(t) => number_upto(t, usize::MAX as int),
        None => None,
    }
}

/// The download directory: what the command line says, else what the user saved as an
/// option, else what the last run had.
pub open spec fn start_dir(cli: Option<Seq<char>>, st: JsonView, place: Place) -> Seq<char> {
    place.normal(
        match cli {
            Some(d) => d,
            None => match saved_dir(st) {
                Some(d) => d,
                None => match text_under(st, "dir"@) {
                    Some(d) => d,
                    None => "."@,
                },
            },
        },
    )
}

/// The download directory that the user saved as an option.
pub open spec fn saved_dir(st: JsonView) -> Option<Seq<char>> {
    match value_at(table_under(st, "options"@), "dir"@) {
        Some(d) => if d.len() > 0 { Some(d) } else { None },
        None => None,
    }
}

/// The values of an array, none if there is no array.
pub open spec fn values_of(v: JsonView) -> Seq<JsonView> {
    match v.array() {
        Some(a) => a,
        None => Seq::empty(),
    }
}

/// Whether subscriptions are refreshed by themselves.
pub open spec fn start_auto(st: JsonView) -> bool {
    match st.at("autoUpdateTrackers"@).flag() {
        Some(b) => b,
        None => true,
    }
}

impl TaskManager {
    /// A manager that keeps a session, with the settings of that session and without
    /// tasks. `doc` is what the session file holds, null if there is none.
    pub fn start_with_session(
        dir: Option<String>,
        conc: Option<usize>,
        session: String,
        doc: &Json,
        env: &Env,
    ) -> (r: Self)
        ensures
            r.wf(),
            r.tasks@.len() == 0,
            r.queue@.len() == 0,
            r.active@.len() == 0,
            r.stopped_order@.len() == 0,
            r.stopped_total == 0,
            r.claims@.len() == 0,
            r.effects@.len() == 0,
            r.session == Some(session),
            r.max_concurrent == start_conc(conc, settings_of(doc@)),
            r.download_dir@ == start_dir(opt_view(dir), settings_of(doc@), env.place),
            pair_texts(r.global_options@) == table_under(settings_of(doc@), "options"@),
            entry_views(r.trackers.entries@) == kept_entries(
                values_of(settings_of(doc@).at("trackerSources"@)),
                texts_under(settings_of(doc@), "btTrackers"@),
            ),
            are_subs(
                values_of(settings_of(doc@).at("trackerSubscriptions"@)),
                r.trackers.subscriptions@,
            ),
            r.trackers.auto_update == start_auto(settings_of(doc@)),
    {
        let null = Json::Null;
        let st: &Json = match doc.get("settings") {
            Some(j) => j,
            None => &null,
        };
        assert(st@ == settings_of(doc@));
        let options = read_table(st.get("options"));
        assert(pair_texts(options@) == table_under(st@, "options"@)) by {
            reveal(table_under);
        }
        let max: usize = match conc {
            Some(n) => n,
            None => {
                let named = match look_up(&options, "max-concurrent-downloads") {
                    Some(t) => parse_upto(&chars_of(t.as_str()), usize::MAX as u64),
                    None => None,
                };
                match named {
                    Some(n) => n as usize,
                    None => match read_number(st, "max-concurrent-downloads") {
                        Some(n) => n as usize,
                        None => 3,
                    },
                }
            },
        };
        let chosen = match dir {
            Some(d) => d,
            None => {
                let named = match look_up(&options, "dir") {
                    Some(d) => if d.as_str().as_bytes().len() > 0 {
                        Some(d.clone())
                    } else {
                        None
                    },
                    None => None,
                };
                proof {
                    match value_at(pair_texts(options@), "dir"@) {
                        Some(d) => {
                            lemma_bytes_of_text(d);
                        },
                        None => {},
                    }
                }
                match named {
                    Some(d) => d,
                    None => match read_text(st, "dir") {
                        Some(d) => d,
                        None => ".".to_owned(),
                    },
                }
            },
        };
        let urls = read_texts(st, "btTrackers");
        let none: Vec<Json> = Vec::new();
        assert(json_views(none@) =~= Seq::<JsonView>::empty());
        let rows: &Vec<Json> = match st.get("trackerSources") {
            Some(j) => match j.as_array() {
                Some(a) => a,
                None => &none,
            },
            None => &none,
        };
        let subs: &Vec<Json> = match st.get("trackerSubscriptions") {
            Some(j) => match j.as_array() {
                Some(a) => a,
                None => &none,
            },
            None => &none,
        };
        let mut book = restore_entries(rows, &urls);
        book.subscriptions = read_subs(subs);
        book.auto_update = match st.bool_of("autoUpdateTrackers") {
            Some(b) => b,
            None => true,
        };
        let mut m = TaskManager::new(chosen.as_str(), max, &env.place);
        m.session = Some(session);
        m.global_options = options;
        m.trackers = book;
        m
    }
}

/// A text without characters is one without bytes.
proof fn lemma_bytes_of_text(s: Seq<char>)
    ensures
        vstd::utf8::encode_utf8(s).len() == 0 <==> s.len() == 0,
{
    reveal_with_fuel(vstd::utf8::encode_utf8, 2);
}

// ---------------------------------------------------------------------------
// Round trip
// ---------------------------------------------------------------------------

/// No key occurs twice in a session.
proof fn lemma_session_keys(m: TaskManager, now: u64)
    ensures
        unique_keys(session_view(m, now).fields()),
{
    let f = session_view(m, now).fields();
    assert(f[0].0.len() == 7) by {
        reveal_strlit("version");
    }
    assert(f[1].0.len() == 8) by {
        reveal_strlit("settings");
    }
    assert(f[2].0.len() == 12) by {
        reveal_strlit("stoppedTotal");
    }
    assert(f[3].0.len() == 5) by {
        reveal_strlit("tasks");
    }
    assert forall|i: int, j: int| 0 <= i < j < f.len() implies (#[trigger] f[i]).0 != (#[trigger] f[j]).0 by {
        assert(i == 0 || i == 1 || i == 2 || i == 3);
        assert(j == 0 || j == 1 || j == 2 || j == 3);
    }
}

/// No key occurs twice in the settings.
proof fn lemma_settings_keys(m: TaskManager)
    ensures
        unique_keys(settings_view(m).fields()),
{
    let f = settings_view(m).fields();
    assert(f[0].0.len() == 24) by {
        reveal_strlit("max-concurrent-downloads");
    }
    assert(f[1].0.len() == 3) by {
        reveal_strlit("dir");
    }
    assert(f[2].0.len() == 7) by {
        reveal_strlit("options");
    }
    assert(f[3].0.len() == 10) by {
        reveal_strlit("btTrackers");
    }
    assert(f[4].0.len() == 14) by {
        reveal_strlit("trackerSources");
    }
    assert(f[5].0.len() == 20) by {
        reveal_strlit("trackerSubscriptions");
    }
    assert(f[6].0.len() == 18) by {
        reveal_strlit("autoUpdateTrackers");
    }
    assert forall|i: int, j: int| 0 <= i < j < f.len() implies (#[trigger] f[i]).0 != (#[trigger] f[j]).0 by {
        assert(i == 0 || i == 1 || i == 2 || i == 3 || i == 4 || i == 5 || i == 6);
        assert(j == 0 || j == 1 || j == 2 || j == 3 || j == 4 || j == 5 || j == 6);
    }
}

/// No key occurs twice in the reasons of a tracker.
proof fn lemma_source_keys(e: EntryView)
    ensures
        unique_keys(source_view(e).fields()),
{
    let f = source_view(e).fields();
    assert(f[0].0.len() == 3) by {
        reveal_strlit("url");
    }
    assert(f[1].0.len() == 6) by {
        reveal_strlit("manual");
    }
    assert(f[2].0.len() == 13) by {
        reveal_strlit("subscriptions");
    }
    assert forall|i: int, j: int| 0 <= i < j < f.len() implies (#[trigger] f[i]).0 != (#[trigger] f[j]).0 by {
        assert(i == 0 || i == 1 || i == 2);
        assert(j == 0 || j == 1 || j == 2);
    }
}

/// No key occurs twice in a subscription.
proof fn lemma_sub_keys(s: TrackerSubscription)
    ensures
        unique_keys(sub_view(s).fields()),
{
    let f = sub_view(s).fields();
    assert(f[0].0.len() == 2 && f[0].0.last() == 'd') by {
        reveal_strlit("id");
    }
    assert(f[1].0.len() == 4 && f[1].0.last() == 'e') by {
        reveal_strlit("name");
    }
    assert(f[2].0.len() == 3 && f[2].0.last() == 'l') by {
        reveal_strlit("url");
    }
    assert(f[3].0.len() == 7 && f[3].0.last() == 'd') by {
        reveal_strlit("enabled");
    }
    assert(f[4].0.len() == 12 && f[4].0.last() == 'd') by {
        reveal_strlit("last_updated");
    }
    assert(f[5].0.len() == 10 && f[5].0.last() == 't') by {
        reveal_strlit("last_count");
    }
    assert(f[6].0.len() == 10 && f[6].0.last() == 'r') by {
        reveal_strlit("last_error");
    }
    assert forall|i: int, j: int| 0 <= i < j < f.len() implies (#[trigger] f[i]).0 != (#[trigger] f[j]).0 by {
        assert(i == 0 || i == 1 || i == 2 || i == 3 || i == 4 || i == 5 || i == 6);
        assert(j == 0 || j == 1 || j == 2 || j == 3 || j == 4 || j == 5 || j == 6);
    }
}

/// What is written of a subscription describes it.
proof fn lemma_sub_round_trip(s: TrackerSubscription)
    ensures
        is_sub(sub_view(s)),
        says_sub(sub_view(s), s),
{
    let f = sub_view(s).fields();
    lemma_sub_keys(s);
    lemma_field(f, 0);
    lemma_field(f, 1);
    lemma_field(f, 2);
    lemma_field(f, 3);
    lemma_field(f, 4);
    lemma_field(f, 5);
    lemma_field(f, 6);
}

proof fn lemma_subs_round_trip(s: Seq<TrackerSubscription>)
    ensures
        sub_entries(subs_view(s)->Arr_0) == subs_view(s)->Arr_0,
    decreases s.len(),
{
    let v = subs_view(s)->Arr_0;
    if s.len() > 0 {
        lemma_subs_round_trip(s.drop_last());
        assert(v.drop_last() =~= subs_view(s.drop_last())->Arr_0);
        lemma_sub_round_trip(s.last());
        assert(v.last() == sub_view(s.last()));
        assert(v.drop_last().push(v.last()) =~= v);
    } else {
        assert(sub_entries(v) =~= v);
    }
}

/// What is written of a tracker is found again.
proof fn lemma_row(e: Seq<EntryView>, k: int)
    requires
        entries_wf(e),
        0 <= k < e.len(),
    ensures
        kept_entry(sources_view(e)->Arr_0, e[k].url) == e[k],
{
    let rows = sources_view(e)->Arr_0;
    lemma_row_from(e, k, 0);
    assert(rows.skip(0) =~= rows);
    let f = source_view(e[k]).fields();
    lemma_source_keys(e[k]);
    lemma_field(f, 1);
    lemma_field(f, 2);
    lemma_text_list(e[k].subs);
    reveal(texts_under);
    assert(has_reason(e[k]));
}

proof fn lemma_row_from(e: Seq<EntryView>, k: int, i: int)
    requires
        entries_wf(e),
        0 <= i <= k < e.len(),
    ensures
        row_of(sources_view(e)->Arr_0.skip(i), e[k].url) == Some(source_view(e[k])),
    decreases k - i,
{
    let rows = sources_view(e)->Arr_0;
    assert(rows.skip(i)[0] == source_view(e[i]));
    lemma_source_keys(e[i]);
    lemma_field(source_view(e[i]).fields(), 0);
    reveal(text_under);
    if i < k && e[i].url == e[k].url {
        assert(e[i] == e[k]);
    } else if i < k {
        lemma_row_from(e, k, i + 1);
        assert(rows.skip(i).skip(1) =~= rows.skip(i + 1));
    }
}

proof fn lemma_entries(e: Seq<EntryView>)
    requires
        entries_wf(e),
    ensures
        kept_entries(sources_view(e)->Arr_0, urls_of(e)) == e,
{
    let rows = sources_view(e)->Arr_0;
    assert forall|i: int| 0 <= i < e.len() implies kept_entries(rows, urls_of(e))[i] == e[i] by {
        lemma_row(e, i);
    }
    assert(kept_entries(rows, urls_of(e)) =~= e);
}

proof fn lemma_tasks_upto(tasks: Seq<Task>, now: u64, n: int)
    requires
        0 <= n <= tasks.len(),
        forall|i: int| 0 <= i < tasks.len() ==> unique_keys(pair_texts((#[trigger] tasks[i]).options@)),
    ensures
        kept_tasks(tasks_view(tasks, now).take(n)) == Seq::new(n as nat, |i: int| saved_of(tasks[i], now)),
    decreases n,
{
    let v = tasks_view(tasks, now);
    if n > 0 {
        lemma_tasks_upto(tasks, now, n - 1);
        assert(v.take(n).drop_last() =~= v.take(n - 1));
        assert(v.take(n).last() == v[n - 1]);
        law_session_keeps_tasks(tasks[n - 1], now);
        assert(kept_tasks(v.take(n)) =~= Seq::new(n as nat, |i: int| saved_of(tasks[i], now)));
    } else {
        assert(kept_tasks(v.take(0)) =~= Seq::new(0, |i: int| saved_of(tasks[i], now)));
    }
}

/// A session that was written holds, when it is read, the options, the trackers with
/// their reasons, the subscriptions, the number of tasks that ever stopped, and every
/// task.
pub proof fn law_session_round_trip(m: TaskManager, now: u64)
    requires
        m.wf(),
    ensures
        ({
            let doc = session_view(m, now);
            let st = settings_of(doc);
            let subs = values_of(st.at("trackerSubscriptions"@));
            &&& table_under(st, "options"@) == pair_texts(m.global_options@)
            &&& kept_entries(
                values_of(st.at("trackerSources"@)),
                texts_under(st, "btTrackers"@),
            ) == entry_views(m.trackers.entries@)
            &&& are_subs(subs, m.trackers.subscriptions@)
            &&& start_auto(st) == m.trackers.auto_update
            &&& number_under(doc, "stoppedTotal"@) == Some(m.stopped_total)
            &&& kept_tasks(values_of(doc.at("tasks"@))) == Seq::new(
                m.tasks@.len(),
                |i: int| saved_of(m.tasks@[i], now),
            )
        }),
{
    let doc = session_view(m, now);
    let st = settings_view(m);
    lemma_session_keys(m, now);
    lemma_settings_keys(m);
    lemma_field(doc.fields(), 1);
    lemma_field(doc.fields(), 2);
    lemma_field(doc.fields(), 3);
    assert(settings_of(doc) == st);
    lemma_field(st.fields(), 2);
    lemma_field(st.fields(), 3);
    lemma_field(st.fields(), 4);
    lemma_field(st.fields(), 5);
    lemma_field(st.fields(), 6);
    reveal(table_under);
    reveal(texts_under);
    reveal(number_under);
    lemma_text_table(pair_texts(m.global_options@));
    let e = entry_views(m.trackers.entries@);
    lemma_text_list(urls_of(e));
    lemma_entries(e);
    lemma_subs_round_trip(m.trackers.subscriptions@);
    assert forall|i: int| 0 <= i < m.trackers.subscriptions@.len() implies says_sub(
        sub_view(m.trackers.subscriptions@[i]),
        #[trigger] m.trackers.subscriptions@[i],
    ) by {
        lemma_sub_round_trip(m.trackers.subscriptions@[i]);
    }
    let v = tasks_view(m.tasks@, now);
    assert forall|i: int| 0 <= i < m.tasks@.len() implies unique_keys(
        pair_texts((#[trigger] m.tasks@[i]).options@),
    ) by {
        assert(crate::manager::task_fine(m.tasks@[i]));
    }
    lemma_tasks_upto(m.tasks@, now, v.len() as int);
    assert(v.take(v.len() as int) =~= v);
}

/// What the command line says holds for one run: it decides where it is given, and the
/// session that such a run writes brings back what the user saved as an option.
pub proof fn law_command_line_is_temporary(
    m: TaskManager,
    now: u64,
    n: usize,
    dir: Seq<char>,
    place: Place,
)
    requires
        m.wf(),
    ensures
        ({
            let st = settings_of(session_view(m, now));
            let saved_n = match value_at(pair_texts(m.global_options@), "max-concurrent-downloads"@) {
                Some(t) => number_upto(t, usize::MAX as int),
                None => None,
            };
            let saved_d = match value_at(pair_texts(m.global_options@), "dir"@) {
                Some(d) => if d.len() > 0 { Some(d) } else { None },
                None => None,
            };
            &&& start_conc(Some(n), st) == at_least_one(n as int)
            &&& start_dir(Some(dir), st, place) == place.normal(dir)
            &&& start_conc(None, st) == match saved_n {
                Some(k) => at_least_one(k),
                None => m.max_concurrent as int,
            }
            &&& start_dir(None, st, place) == match saved_d {
                Some(d) => place.normal(d),
                None => place.normal(m.download_dir@),
            }
        }),
{
    law_session_round_trip(m, now);
    let doc = session_view(m, now);
    let st = settings_view(m);
    lemma_session_keys(m, now);
    lemma_settings_keys(m);
    lemma_field(doc.fields(), 1);
    lemma_field(st.fields(), 0);
    lemma_field(st.fields(), 1);
    reveal(number_under);
    reveal(text_under);
}

/// The first start, without a session and without arguments, runs three tasks at a time,
/// keeps its files in the working directory and refreshes subscriptions by itself. At
/// least one task may always run.
pub proof fn law_first_start(place: Place, cli: Option<usize>, st: JsonView)
    ensures
        start_conc(None, JsonView::Null) == 3,
        start_dir(None, JsonView::Null, place) == place.normal("."@),
        start_auto(JsonView::Null),
        start_conc(cli, st) >= 1,
{
    reveal(number_under);
    reveal(text_under);
    reveal(table_under);
    let none = JsonView::Null;
    assert(none.fields().len() == 0);
    crate::lists::lemma_key_at(none.fields(), "max-concurrent-downloads"@, 0);
    crate::lists::lemma_key_at(none.fields(), "options"@, 0);
    crate::lists::lemma_key_at(none.fields(), "dir"@, 0);
    crate::lists::lemma_key_at(none.fields(), "autoUpdateTrackers"@, 0);
}

} // verus!
