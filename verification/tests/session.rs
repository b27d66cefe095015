//! Sessions.

use xfer::drive::{candidate_name, Probe, SplitEnd};
use xfer::errors::{HttpError, TaskFailure};
use xfer::json::{Field, Json};
use xfer::manager::{decode_torrent, Effect, Env, Event, TaskManager, MAX_RESULTS};
use xfer::options::Place;
use xfer::restore::{read_tasks, torrent_of, Found};
use xfer::session::read_hex;
use xfer::task::Status;
use xfer::torrent::{FileEntry, Info, TorrentMeta};

fn env() -> Env {
    Env {
        place: Place { home: Some("/home/u".to_string()), cwd: Some("/work".to_string()) },
        hash_names: vec![("sha-256".to_string(), "sha256".to_string()), ("sha256".to_string(), "sha256".to_string())],
    }
}

fn field(key: &str, value: Json) -> Field {
    Field { key: key.to_string(), value, text: String::new() }
}

fn text(s: &str) -> Json {
    Json::Str(s.to_string())
}

fn options(list: &[(&str, &str)]) -> Json {
    Json::Obj(list.iter().map(|(k, v)| field(k, text(v))).collect())
}

fn nothing(n: usize) -> Vec<Found> {
    (0..n).map(|_| Found { meta: None, existing: 0 }).collect()
}

fn gid(n: u8) -> String {
    format!("00000000000000{n:02x}")
}

fn add(m: &mut TaskManager, n: u8, opts: &Json) {
    let uris = vec![format!("http://x/{n}.bin")];
    m.add_uri(uris, opts, None, gid(n), &env()).unwrap_or_else(|e| panic!("{e}"));
}

fn restart(doc: &Json, found: Option<Vec<Found>>) -> TaskManager {
    let mut m = TaskManager::start_with_session(None, None, "/s.json".to_string(), doc, &env());
    let saved = read_tasks(doc);
    let found = found.unwrap_or_else(|| nothing(saved.len()));
    let ever = doc.u64_of("stoppedTotal").unwrap_or(0);
    m.restore_tasks(saved, found, ever, &env());
    m
}

#[test]
fn everything_about_a_task_comes_back() {
    let mut m = TaskManager::start_with_session(
        Some("/dl".to_string()),
        Some(1),
        "/s.json".to_string(),
        &Json::Null,
        &env(),
    );
    add(&mut m, 1, &options(&[("split", "4"), ("out", "a.bin"), ("checksum", "sha-256=ff00")]));
    add(&mut m, 2, &options(&[]));
    add(&mut m, 3, &options(&[]));
    m.fill_slots(0);
    assert_eq!(m.active, vec![gid(1)]);
    m.pause(&gid(3), 5).unwrap();
    m.tasks[0].shared.path = Some("/dl/a.bin".to_string());
    m.tasks[0].live.completed = 77;

    let doc = m.session_json(2_000_000_000);
    let again = restart(&doc, None);
    assert_eq!(again.download_dir, "/dl");
    assert_eq!(again.max_concurrent, 1);
    assert_eq!(again.queue, vec![gid(1), gid(2)]);
    assert!(again.active.is_empty());
    let t = &again.tasks[0];
    assert!(matches!(t.status(), Status::Waiting));
    assert_eq!(t.uris, vec!["http://x/1.bin"]);
    assert_eq!(t.out.as_deref(), Some("a.bin"));
    assert_eq!(t.checksum, Some(("sha256".to_string(), "ff00".to_string())));
    assert_eq!(t.options, vec![("split".to_string(), "4".to_string())]);
    assert_eq!(t.shared.completed, 77);
    assert_eq!(t.shared.filename.as_deref(), Some("a.bin"));
    assert_eq!(t.elapsed_ms(0), 2000);
    assert!(matches!(again.tasks[2].status(), Status::Paused));
}

fn option(m: &TaskManager, key: &str) -> String {
    m.get_global_option().text_of(key).unwrap_or_else(|| panic!("{key} is shown")).clone()
}

const DATA_LEN: u64 = 256 * 1024;

/// Starts the first waiting task and finds its file.
fn begin(m: &mut TaskManager, g: &str) -> String {
    m.fill_slots(0);
    assert_eq!(m.active, vec![g.to_string()]);
    let probe = Probe {
        total_len: Some(DATA_LEN),
        accepts_ranges: true,
        filename: None,
        content_type: None,
    };
    let k = m.find(g).unwrap_or_else(|| panic!("the task is there"));
    m.tasks[k].on_probe(0, &probe);
    match m.tasks[k].shared.path.clone() {
        Some(p) => p,
        None => {
            let name = candidate_name(&m.tasks[k], &probe, 0);
            m.claim(g, name, 0, &probe).unwrap_or_else(|| panic!("the name is free"))
        }
    }
}

fn complete(m: &mut TaskManager, g: &str) {
    let k = m.find(g).unwrap_or_else(|| panic!("the task is there"));
    let end = m.tasks[k].on_split_end(DATA_LEN, DATA_LEN, Ok(()));
    assert!(matches!(end, SplitEnd::Finished));
    m.finish_task(g, Ok(()), "", 9, 9);
}

#[test]
fn session_persistence_and_restore() {
    let mut m = TaskManager::start_with_session(
        Some("/root/dl".to_string()),
        Some(1),
        "/root/session.json".to_string(),
        &Json::Null,
        &env(),
    );
    add(&mut m, 1, &options(&[("dir", "/root/dl"), ("out", "done.bin")]));
    assert_eq!(begin(&mut m, &gid(1)), "/root/dl/done.bin");
    complete(&mut m, &gid(1));
    assert!(matches!(m.tasks[0].status(), Status::Complete));

    add(&mut m, 2, &options(&[("dir", "/root/dl"), ("out", "paused.bin")]));
    begin(&mut m, &gid(2));
    m.tasks[1].on_sample(DATA_LEN / 4, 4, None);
    let st = m.tell_status(&gid(2), None, 0).unwrap_or_else(|e| panic!("{e}"));
    assert_eq!(st.text_of("status").unwrap(), "active");
    assert_eq!(st.text_of("completedLength").unwrap(), "65536");
    m.pause(&gid(2), 5).unwrap();
    let _ = m.tasks[1].on_split_end(DATA_LEN, DATA_LEN / 4, Err(HttpError::Cancelled));
    m.finish_task(&gid(2), Err(TaskFailure::Cancelled), "", 6, 6);
    assert!(matches!(m.tasks[1].status(), Status::Paused));
    m.change_global_option(&options(&[("max-concurrent-downloads", "7")]), &env()).unwrap();
    let doc = m.session_json(0);

    let mut again = restart(&doc, None);
    assert_eq!(option(&again, "max-concurrent-downloads"), "7");
    assert_eq!(option(&again, "dir"), "/root/dl");
    let st = again.tell_status(&gid(1), None, 0).unwrap_or_else(|e| panic!("{e}"));
    assert_eq!(st.text_of("status").unwrap(), "complete");
    assert_eq!(st.text_of("completedLength").unwrap().as_str(), DATA_LEN.to_string());
    let files = st.get("files").and_then(|f| f.as_array()).unwrap_or_else(|| panic!("files"));
    assert_eq!(files[0].text_of("path").unwrap(), "/root/dl/done.bin");
    let stopped = again.tell_stopped(0, 10, None, 0);
    let stopped = stopped.as_array().unwrap_or_else(|| panic!("a list"));
    assert!(stopped.iter().any(|t| t.text_of("gid") == Some(&gid(1))));

    let st = again.tell_status(&gid(2), None, 0).unwrap_or_else(|e| panic!("{e}"));
    assert_eq!(st.text_of("status").unwrap(), "paused");
    again.unpause(&gid(2), 10).unwrap();
    assert_eq!(begin(&mut again, &gid(2)), "/root/dl/paused.bin");
    complete(&mut again, &gid(2));
    let st = again.tell_status(&gid(2), None, 0).unwrap_or_else(|e| panic!("{e}"));
    assert_eq!(st.text_of("status").unwrap(), "complete");
}

#[test]
fn settings_survive_cli_override() {
    let start = |dir: Option<&str>, conc: Option<usize>, doc: &Json| {
        TaskManager::start_with_session(
            dir.map(|d| d.to_string()),
            conc,
            "/s.json".to_string(),
            doc,
            &env(),
        )
    };
    let mut m = start(Some("/root/dl"), Some(3), &Json::Null);
    let change = options(&[("max-concurrent-downloads", "8"), ("dir", "/root/saved")]);
    m.change_global_option(&change, &env()).unwrap();
    let doc = m.session_json(0);

    let m = start(Some("/root/dl"), Some(1), &doc);
    assert_eq!(option(&m, "max-concurrent-downloads"), "1");
    assert_eq!(m.max_concurrent, 1);
    assert_eq!(m.download_dir, "/root/dl");
    let doc = m.session_json(0);

    let m = start(None, None, &doc);
    assert_eq!(option(&m, "max-concurrent-downloads"), "8");
    assert_eq!(option(&m, "dir"), "/root/saved");
    assert_eq!(m.max_concurrent, 8);
    assert_eq!(m.download_dir, "/root/saved");
}

#[test]
fn a_start_without_a_session_has_defaults() {
    let m = TaskManager::start_with_session(None, None, "/s.json".to_string(), &Json::Null, &env());
    assert_eq!(m.max_concurrent, 3);
    assert_eq!(m.download_dir, "/work/.");
    assert!(m.trackers.auto_update);
}

#[test]
fn entries_without_a_name_are_passed_over() {
    let doc = Json::Obj(vec![field(
        "tasks",
        Json::Arr(vec![
            options(&[("status", "paused")]),
            Json::Obj(vec![field("gid", text("00000000000000bb")), field("status", text("error"))]),
        ]),
    )]);
    let m = restart(&doc, None);
    assert_eq!(m.tasks.len(), 1);
    assert!(matches!(m.tasks[0].status(), Status::Error));
    assert_eq!(m.stopped_order, vec!["00000000000000bb"]);
    assert_eq!(m.stopped_total, 1);
    assert_eq!(m.tasks[0].dir, "/work/.");
}

#[test]
fn a_later_entry_replaces_an_earlier_one_of_the_same_name() {
    let entry = |status: &str| {
        Json::Obj(vec![field("gid", text("00000000000000bb")), field("status", text(status))])
    };
    let doc = Json::Obj(vec![field(
        "tasks",
        Json::Arr(vec![entry("complete"), entry("waiting")]),
    )]);
    let m = restart(&doc, None);
    assert_eq!(m.tasks.len(), 1);
    assert!(matches!(m.tasks[0].status(), Status::Waiting));
    // The lists name it as often as it was kept.
    assert_eq!(m.stopped_order, vec!["00000000000000bb"]);
    assert_eq!(m.queue, vec!["00000000000000bb"]);
    assert_eq!(m.stopped_total, 1);
}

#[test]
fn a_task_kept_twice_is_queued_twice_and_runs_once() {
    let name = "00000000000000bb";
    let entry = || Json::Obj(vec![field("gid", text(name)), field("status", text("waiting"))]);
    let doc = Json::Obj(vec![field("tasks", Json::Arr(vec![entry(), entry()]))]);
    let mut m = restart(&doc, None);
    assert_eq!(m.tasks.len(), 1);
    assert_eq!(m.queue, vec![name, name]);
    m.fill_slots(0);
    assert_eq!(m.active, vec![name]);
    assert!(m.queue.is_empty());
    let runs = m.take_effects().iter().filter(|e| matches!(e, Effect::Run { .. })).count();
    assert_eq!(runs, 1);
    m.remove(name).unwrap();
    m.finish_task(name, Err(TaskFailure::Cancelled), "", 1, 1);
    assert!(m.tasks.is_empty() && m.active.is_empty() && m.stopped_order.is_empty());
}

#[test]
fn a_name_listed_twice_takes_its_running_task_along() {
    let name = "00000000000000bb";
    let entry = |gid: &str, status: &str| {
        Json::Obj(vec![field("gid", text(gid)), field("status", text(status))])
    };
    let mut entries = vec![entry(name, "complete"), entry(name, "waiting")];
    for i in 1..MAX_RESULTS {
        entries.push(entry(&format!("{:016x}", 0x1000 + i), "complete"));
    }
    let doc = Json::Obj(vec![field("tasks", Json::Arr(entries))]);
    let mut m = restart(&doc, None);
    assert_eq!(m.stopped_order.len(), MAX_RESULTS);
    m.add_uri(vec!["http://h/a".to_string()], &options(&[]), None, gid(1), &env()).unwrap();
    m.fill_slots(0);
    assert_eq!(m.active, vec![name.to_string(), gid(1)]);
    m.finish_task(&gid(1), Ok(()), "", 1, 1);
    // The oldest stopped name was that of the running task.
    assert_eq!(m.find(name), None);
    assert_eq!(m.active, vec![name]);
    let total = m.stopped_total;
    m.take_effects();
    m.finish_lost(name, Ok(()));
    assert!(m.active.is_empty());
    assert_eq!(m.stopped_total, total + 1);
    assert_eq!(m.stopped_order.last().map(|s| s.as_str()), Some(name));
    assert!(matches!(m.take_effects()[0], Effect::Emit { event: Event::Complete, .. }));
}

fn meta(raw: Vec<u8>) -> TorrentMeta {
    TorrentMeta {
        info: Info {
            name: "t".to_string(),
            piece_length: 10,
            pieces: 1,
            files: vec![FileEntry { path: "t".to_string(), length: 10 }],
            multi_file: false,
            private: false,
        },
        info_hash: vec![1u8; 20],
        announce: None,
        announce_list: vec![],
        raw: Some(raw),
    }
}

#[test]
fn torrents_and_magnet_links_come_back() {
    let mut m = TaskManager::new("/dl", 2, &env().place);
    let none = options(&[]);
    m.add_torrent(meta(b"d4:infoe".to_vec()), &none, None, gid(1), &env());
    m.add_magnet(vec![0xab; 20], vec!["udp://a/ann".to_string()], None, &none, None, gid(2), &env());
    m.tasks[1].bt_bitfield = vec![0xe0, 0x01];
    let doc = m.session_json(0);
    let saved = read_tasks(&doc);
    assert_eq!(saved[0].torrent.as_deref(), Some("ZDQ6aW5mb2U="));
    assert_eq!(torrent_of(&saved[0]), Some(b"d4:infoe".to_vec()));
    assert_eq!(saved[1].info_hash.as_deref(), Some("abababababababababababababababababababab"));
    let again = restart(
        &doc,
        Some(vec![
            Found { meta: Some(meta(b"d4:infoe".to_vec())), existing: 4 },
            Found { meta: None, existing: 0 },
        ]),
    );
    assert!(again.tasks[0].bt_meta.is_some());
    assert_eq!(again.tasks[0].shared.completed, 4);
    assert_eq!(again.tasks[1].bt_info_hash, Some(vec![0xab; 20]));
    assert_eq!(again.tasks[1].bt_trackers, vec!["udp://a/ann"]);
    assert_eq!(again.tasks[1].bt_bitfield, vec![0xe0, 0x01]);
}

#[test]
fn hexadecimal_text() {
    assert_eq!(read_hex("00ffAb"), vec![0, 255, 0xab]);
    assert_eq!(read_hex("+fzz1"), vec![15, 0]);
}

#[test]
fn torrent_text_is_base64() {
    assert_eq!(decode_torrent(" aGVsbG8= ").unwrap(), b"hello".to_vec());
    assert!(decode_torrent("!!").unwrap_err().starts_with("torrent base64 解码失败: "));
}
