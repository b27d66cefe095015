//! The life of tasks.

use xfer::errors::{HttpError, TaskFailure};
use xfer::json::{Field, Json};
use xfer::manager::{generate_id, name_from, Effect, Env, Event, TaskManager, MAX_RESULTS};
use xfer::options::Place;
use xfer::task::{Intent, Status};

fn env() -> Env {
    Env {
        place: Place { home: Some("/home/u".to_string()), cwd: Some("/work".to_string()) },
        hash_names: vec![],
    }
}

fn gid(n: u32) -> String {
    format!("{n:016x}")
}

fn options(list: &[(&str, &str)]) -> Json {
    Json::Obj(
        list.iter()
            .map(|(k, v)| Field {
                key: k.to_string(),
                value: Json::Str(v.to_string()),
                text: String::new(),
            })
            .collect(),
    )
}

fn add(m: &mut TaskManager, n: u32, position: Option<i64>) {
    m.add_uri(vec![format!("http://x/{n}")], &options(&[]), position, gid(n), &env())
        .unwrap_or_else(|e| panic!("{e}"));
}

fn manager(slots: usize, n: u32) -> TaskManager {
    let mut m = TaskManager::new("/dl", slots, &env().place);
    for i in 1..=n {
        add(&mut m, i, None);
    }
    m
}

#[test]
fn slots_are_filled_in_order() {
    let mut m = manager(2, 3);
    m.fill_slots(0);
    assert_eq!(m.active, vec![gid(1), gid(2)]);
    assert_eq!(m.queue, vec![gid(3)]);
    m.finish_task(&gid(1), Ok(()), "", 5, 6);
    m.fill_slots(7);
    assert_eq!(m.active, vec![gid(2), gid(3)]);
    assert_eq!(m.stopped_order, vec![gid(1)]);
    assert_eq!(m.stopped_total, 1);
}

#[test]
fn a_position_goes_before_others() {
    let mut m = manager(1, 2);
    add(&mut m, 3, Some(0));
    add(&mut m, 4, Some(99));
    add(&mut m, 5, Some(-1));
    assert_eq!(m.queue, vec![gid(3), gid(1), gid(2), gid(4), gid(5)]);
}

#[test]
fn pause_and_resume() {
    let mut m = manager(1, 2);
    m.fill_slots(0);
    m.take_effects();
    m.pause(&gid(1), 3).unwrap();
    assert!(matches!(m.take_effects()[0], Effect::Cancel { .. }));
    m.finish_task(&gid(1), Err(TaskFailure::Http(HttpError::Cancelled)), "", 2_000_000_000, 9);
    assert!(matches!(m.tasks[0].status(), Status::Paused));
    assert_eq!(m.tasks[0].elapsed_ms(9_000_000_000), 2000);
    assert!(matches!(
        m.take_effects()[0],
        Effect::Emit { event: Event::Pause, .. }
    ));
    assert_eq!(m.pause(&gid(1), 4).unwrap_err(), "任务已暂停");
    m.unpause(&gid(1), 5).unwrap();
    assert_eq!(m.unpause(&gid(1), 5).unwrap_err(), "任务未处于暂停状态");
    assert_eq!(m.queue, vec![gid(2), gid(1)]);
    assert_eq!(m.pause("zz", 4).unwrap_err(), "GID zz 不存在");
}

#[test]
fn a_seeding_task_can_be_paused() {
    let mut m = manager(1, 1);
    m.tasks[0].shared.status = Status::Seeding;
    m.queue.clear();
    m.take_effects();
    m.pause(&gid(1), 3).unwrap();
    assert!(matches!(m.tasks[0].intent, Intent::Pause));
    assert!(matches!(m.take_effects()[..], [Effect::Cancel { .. }]));
    m.finish_task(&gid(1), Err(TaskFailure::Cancelled), "", 4, 4);
    assert!(matches!(m.tasks[0].status(), Status::Paused));
}

#[test]
fn a_new_limit_reaches_the_running_task() {
    let mut m = manager(1, 1);
    m.fill_slots(0);
    m.change_global_option(&options(&[("max-overall-upload-limit", "500")]), &env()).unwrap();
    m.take_effects();
    m.change_option(&gid(1), &options(&[("max-download-limit", "64K")])).unwrap();
    match &m.take_effects()[..] {
        [Effect::SetTaskLimits { gid: g, download, upload }, Effect::Save] => {
            assert_eq!(*g, gid(1));
            assert_eq!((*download, *upload), (65_536, 500));
        }
        _ => panic!("the limits are handed on"),
    }
    m.change_option(&gid(1), &options(&[("split", "2")])).unwrap();
    assert!(matches!(m.take_effects()[..], [Effect::Save]));
    assert_eq!(m.tasks[0].limits((7, 8)), (65_536, 8));
}

#[test]
fn paused_elapsed_freezes() {
    let mut m = manager(1, 1);
    m.fill_slots(0);
    assert_eq!(m.tasks[0].elapsed_ms(1_500_000_000), 1500);
    m.pause(&gid(1), 0).unwrap();
    m.finish_task(&gid(1), Err(TaskFailure::Cancelled), "", 2_000_000_000, 9);
    assert_eq!(m.tasks[0].elapsed_ms(5_000_000_000), 2000);
}

#[test]
fn remove_cleans_ctrl_and_optional_files() {
    let mut m = manager(1, 2);
    m.fill_slots(0);
    m.tasks[0].shared.path = Some("/dl/f".to_string());
    m.remove_with_files(&gid(1), true).unwrap();
    assert!(matches!(m.tasks[0].intent, Intent::Remove));
    m.take_effects();
    m.finish_task(&gid(1), Err(TaskFailure::Cancelled), "", 1, 1);
    assert_eq!(m.tasks.len(), 1);
    let effects = m.take_effects();
    assert!(effects.iter().any(|e| match e {
        Effect::CleanUp { path, files } => path.as_deref() == Some("/dl/f") && *files,
        _ => false,
    }));
    m.remove(&gid(2)).unwrap();
    assert!(m.tasks.is_empty());
    assert_eq!(m.remove(&gid(2)).unwrap_err(), "GID 0000000000000002 不存在");
}

#[test]
fn failures_keep_their_words() {
    let mut m = manager(1, 1);
    m.fill_slots(0);
    m.finish_task(&gid(1), Err(TaskFailure::Http(HttpError::Http(404))), "HTTP 404", 1, 42);
    let t = &m.tasks[0];
    assert!(matches!(t.status(), Status::Error));
    assert_eq!(t.shared.error_code, 3);
    assert_eq!(t.shared.error_message, "HTTP 404");
    assert_eq!(t.finished_at, 42);
    assert_eq!(m.pause(&gid(1), 1).unwrap_err(), "任务已结束，无法暂停");
}

#[test]
fn stopped_tasks_are_bounded() {
    let n = MAX_RESULTS as u32 + 2;
    let mut m = TaskManager::new("/dl", 1, &env().place);
    for i in 1..=n {
        add(&mut m, i, None);
        m.fill_slots(0);
        m.finish_task(&gid(i), Ok(()), "", 0, 0);
    }
    assert_eq!(m.stopped_order.len(), MAX_RESULTS);
    assert_eq!(m.stopped_order[0], gid(3));
    assert_eq!(m.stopped_total, n as u64);
    m.remove_download_result(&gid(5)).unwrap();
    assert_eq!(m.stopped_order.len(), MAX_RESULTS - 1);
    m.purge_download_result();
    assert!(m.tasks.is_empty());
}

#[test]
fn lists_and_their_slices() {
    let mut m = manager(1, 4);
    m.fill_slots(0);
    let keys = vec!["gid".to_string()];
    let len = |j: &Json| j.as_array().map(|a| a.len()).unwrap_or(99);
    assert_eq!(len(&m.tell_active(Some(&keys), 0)), 1);
    assert_eq!(len(&m.tell_waiting(0, -1, None, 0)), 3);
    let w = m.tell_waiting(1, 1, Some(&keys), 0);
    assert_eq!(w.as_array().unwrap()[0].text_of("gid").unwrap(), &gid(3));
    assert_eq!(len(&m.tell_waiting(7, 1, None, 0)), 0);
    assert_eq!(len(&m.list_native("all", 0, -1, None, 0)), 4);
    assert_eq!(len(&m.list_native("active", 0, -1, None, 0)), 1);
    m.pause(&gid(2), 0).unwrap();
    assert_eq!(len(&m.list_native("stopped", 0, -1, None, 0)), 1);
    let stat = m.global_stat();
    assert_eq!(stat.text_of("numActive").unwrap(), "1");
    assert_eq!(stat.text_of("numWaiting").unwrap(), "2");
}

#[test]
fn options_of_tasks_and_of_the_engine() {
    let mut m = manager(1, 1);
    m.change_option(&gid(1), &options(&[("max-download-limit", "1k"), ("split", "3")])).unwrap();
    assert_eq!(m.tasks[0].task_dl_limit, 1024);
    let o = m.get_option(&gid(1)).unwrap_or_else(|e| panic!("{e}"));
    assert_eq!(o.text_of("split").unwrap(), "3");
    assert_eq!(m.change_option(&gid(1), &Json::Null).unwrap_err(), "options 必须是对象");
    m.take_effects();
    let change = options(&[("max-overall-download-limit", "1048576"), ("max-concurrent-downloads", "9")]);
    m.change_global_option(&change, &env()).unwrap();
    assert_eq!(m.max_concurrent, 9);
    assert!(m
        .take_effects()
        .iter()
        .any(|e| matches!(e, Effect::SetLimits { download: 1_048_576, upload: 0 })));
    assert!(m
        .change_global_option(&options(&[("max-overall-download-limit", "fast")]), &env())
        .is_err());
}

#[test]
fn names_are_drawn() {
    let a = generate_id().unwrap();
    let b = generate_id().unwrap();
    assert_eq!(a.len(), 16);
    assert!(a.chars().all(|c| c.is_ascii_hexdigit()));
    assert_ne!(a, b);
}

#[test]
fn a_drawn_name_is_used_unless_a_task_or_a_worker_has_it() {
    assert_eq!(
        name_from(Ok(vec![0, 1, 0x2f, 0xff, 16, 9, 0xa0, 7])).as_deref(),
        Some("00012fff1009a007")
    );
    assert_eq!(name_from(Err("no source".to_string())), None);
    let mut m = manager(1, 2);
    assert_eq!(m.unused_gid(Some(gid(3))), Some(gid(3)));
    assert_eq!(m.unused_gid(Some(gid(2))), None);
    assert_eq!(m.unused_gid(None), None);
    m.active.push(gid(3));
    assert_eq!(m.unused_gid(Some(gid(3))), None);
    let g = m.fresh_gid().unwrap();
    assert_eq!(g.len(), 16);
    assert!(m.find(&g).is_none());
}

#[test]
fn the_status_of_a_task_as_text_and_as_numbers() {
    let m = manager(1, 1);
    let s = m.tell_status(&gid(1), None, 0).unwrap_or_else(|e| panic!("{e}"));
    assert_eq!(s.text_of("status").unwrap(), "waiting");
    assert_eq!(s.text_of("totalLength").unwrap(), "0");
    assert_eq!(s.text_of("dir").unwrap(), "/dl");
    let n = m.tell_status_native(&gid(1), None, 0).unwrap_or_else(|e| panic!("{e}"));
    assert_eq!(n.u64_of("totalLength"), Some(0));
    assert!(m.tell_status("nope", None, 0).is_err());
}
