//! Global trackers and subscriptions.

use xfer::manager::{Effect, Env, TaskManager};
use xfer::options::Place;
use xfer::json::{Field, Json};

fn env() -> Env {
    Env {
        place: Place { home: Some("/home/u".to_string()), cwd: Some("/work".to_string()) },
        hash_names: vec![],
    }
}

fn manager() -> TaskManager {
    TaskManager::new("/dl", 2, &env().place)
}

fn list(urls: &[&str]) -> Result<Vec<String>, String> {
    Ok(urls.iter().map(|s| s.to_string()).collect())
}

fn subscribe(m: &mut TaskManager, id: &str, url: &str) {
    m.add_subscription(id, url, true, id.to_string()).unwrap_or_else(|e| panic!("{e}"));
}

fn refresh(m: &mut TaskManager, id: &str, urls: &[&str]) -> usize {
    m.refresh_subscription(id, list(urls), DAY).unwrap_or_else(|e| panic!("{e}"))
}

const DAY: u64 = 86_400;

fn due(m: &TaskManager, due_only: bool, secs: u64) -> Vec<String> {
    m.subscriptions_to_refresh(due_only, secs)
        .into_iter()
        .map(|(id, url)| format!("{id} {url}"))
        .collect()
}

#[test]
fn add_subscription_kicks_immediate_refresh() {
    let mut m = manager();
    subscribe(&mut m, "s1", "http://h/list.txt");
    assert!(m.get_subscriptions()[0].enabled);
    let effects = m.take_effects();
    assert!(effects.iter().any(|e| matches!(e, Effect::Refresh)));
    assert_eq!(due(&m, true, DAY), vec!["s1 http://h/list.txt"]);
    let urls = ["udp://tracker.example.com:1337/announce", "http://tracker.example.com/announce"];
    m.refresh_all_subscriptions(vec![("s1".to_string(), list(&urls))], DAY);
    let trackers = m.get_global_trackers();
    assert_eq!(trackers.len(), 2);
    assert!(trackers.contains(&"udp://tracker.example.com:1337/announce".to_string()));
    assert!(trackers.contains(&"http://tracker.example.com/announce".to_string()));
    let subs = m.get_subscriptions();
    assert_eq!(subs.len(), 1);
    assert_eq!(subs[0].last_count, 2);
    assert!(subs[0].last_error.is_empty());
    assert!(subs[0].last_updated > 0);
}

#[test]
fn refresh_syncs_remote_add_and_removal() {
    let mut m = manager();
    subscribe(&mut m, "s1", "http://h/list.txt");
    let first = ["udp://a.example/ann", "udp://b.example/ann", "udp://c.example/ann"];
    assert_eq!(refresh(&mut m, "s1", &first), 3);
    assert_eq!(m.get_global_trackers().len(), 3);
    refresh(&mut m, "s1", &["udp://a.example/ann", "udp://b.example/ann", "udp://d.example/ann"]);
    let trackers = m.get_global_trackers();
    assert_eq!(trackers.len(), 3);
    assert!(!trackers.contains(&"udp://c.example/ann".to_string()));
    assert!(trackers.contains(&"udp://d.example/ann".to_string()));
}

#[test]
fn manual_tracker_survives_subscription_sync() {
    let mut m = manager();
    m.add_global_tracker("udp://manual.example/ann").unwrap();
    subscribe(&mut m, "s1", "http://h/list.txt");
    refresh(&mut m, "s1", &["udp://manual.example/ann", "udp://sub.example/ann"]);
    assert_eq!(m.get_global_trackers().len(), 2);
    refresh(&mut m, "s1", &["udp://sub.example/ann"]);
    let t = m.get_global_trackers();
    assert!(t.contains(&"udp://manual.example/ann".to_string()));
    assert!(t.contains(&"udp://sub.example/ann".to_string()));
}

#[test]
fn shared_tracker_survives_when_one_sub_drops() {
    let mut m = manager();
    let shared = "udp://shared.example/ann";
    subscribe(&mut m, "a", "http://h/a.txt");
    subscribe(&mut m, "b", "http://h/b.txt");
    refresh(&mut m, "a", &[shared, "udp://only-a.example/ann"]);
    refresh(&mut m, "b", &[shared, "udp://only-b.example/ann"]);
    assert_eq!(m.get_global_trackers().len(), 3);

    refresh(&mut m, "a", &[shared]);
    let trackers = m.get_global_trackers();
    assert_eq!(trackers.len(), 2);
    assert!(trackers.contains(&shared.to_string()));
    assert!(trackers.contains(&"udp://only-b.example/ann".to_string()));

    refresh(&mut m, "a", &["udp://only-a2.example/ann"]);
    let trackers = m.get_global_trackers();
    assert!(trackers.contains(&shared.to_string()));
    assert!(trackers.contains(&"udp://only-b.example/ann".to_string()));
    assert!(trackers.contains(&"udp://only-a2.example/ann".to_string()));
    assert_eq!(trackers.len(), 3);
}

#[test]
fn empty_remote_list_preserves_trackers() {
    let mut m = manager();
    subscribe(&mut m, "s1", "http://h/list.txt");
    refresh(&mut m, "s1", &["udp://keep-1.example/ann", "udp://keep-2.example/ann"]);
    assert_eq!(m.get_global_trackers().len(), 2);
    let r = m.refresh_subscription("s1", list(&[]), 2000);
    assert_eq!(r.unwrap_err(), "订阅源返回空列表");
    assert_eq!(m.get_global_trackers().len(), 2);
    assert!(!m.get_subscriptions()[0].last_error.is_empty());
}

#[test]
fn disable_and_reenable_subscription() {
    let mut m = manager();
    m.add_global_tracker("udp://manual.example/ann").unwrap();
    subscribe(&mut m, "s1", "http://h/list.txt");
    refresh(&mut m, "s1", &["udp://s1.example/ann", "udp://s2.example/ann"]);
    assert_eq!(m.get_global_trackers().len(), 3);

    m.toggle_subscription("s1").unwrap();
    let trackers = m.get_global_trackers();
    assert_eq!(trackers.len(), 1);
    assert!(trackers.contains(&"udp://manual.example/ann".to_string()));
    assert!(!m.get_subscriptions()[0].enabled);

    m.take_effects();
    m.toggle_subscription("s1").unwrap();
    assert!(m.take_effects().iter().any(|e| matches!(e, Effect::Refresh)));
    refresh(&mut m, "s1", &["udp://s1.example/ann", "udp://s2.example/ann"]);
    assert_eq!(m.get_global_trackers().len(), 3);
}

#[test]
fn remove_subscription_reclaims_trackers() {
    let mut m = manager();
    subscribe(&mut m, "s1", "http://h/list.txt");
    refresh(&mut m, "s1", &["udp://x.example/ann", "udp://y.example/ann"]);
    assert_eq!(m.get_global_trackers().len(), 2);
    m.remove_subscription("s1").unwrap();
    assert!(m.get_global_trackers().is_empty());
    assert_eq!(m.remove_subscription("s1").unwrap_err(), "订阅源不存在: s1");
}

#[test]
fn ttl_refresh_skips_fresh_subscriptions() {
    let mut m = manager();
    subscribe(&mut m, "fresh", "http://h/1.txt");
    refresh(&mut m, "fresh", &["udp://fresh.example/ann"]);
    assert_eq!(m.get_global_trackers().len(), 1);
    subscribe(&mut m, "stale", "http://h/2.txt");
    assert_eq!(due(&m, true, DAY + 1), vec!["stale http://h/2.txt"]);
    assert_eq!(due(&m, false, DAY + 1), vec!["fresh http://h/1.txt", "stale http://h/2.txt"]);
    assert_eq!(m.subscriptions_to_refresh(true, 2 * DAY).len(), 2);
    let fetched = vec![("stale".to_string(), list(&["udp://stale.example/ann"]))];
    assert_eq!(m.refresh_all_subscriptions(fetched, DAY + 1), 1);
    let trackers = m.get_global_trackers();
    assert!(trackers.contains(&"udp://fresh.example/ann".to_string()));
    assert!(trackers.contains(&"udp://stale.example/ann".to_string()));
}

#[test]
fn tracker_sources_persist_across_restart() {
    let mut m = manager();
    m.add_global_tracker("udp://manual.example/ann").unwrap();
    subscribe(&mut m, "s1", "http://h/list.txt");
    refresh(&mut m, "s1", &["udp://sub-a.example/ann", "udp://sub-b.example/ann"]);
    assert_eq!(m.get_global_trackers().len(), 3);

    let doc = m.session_json(0);
    let mut m = TaskManager::start_with_session(None, None, "/s.json".to_string(), &doc, &env());
    assert_eq!(m.get_global_trackers().len(), 3);
    assert_eq!(m.get_subscriptions().len(), 1);

    refresh(&mut m, "s1", &["udp://sub-a.example/ann"]);
    let trackers = m.get_global_trackers();
    assert_eq!(trackers.len(), 2);
    assert!(trackers.contains(&"udp://manual.example/ann".to_string()));
    assert!(trackers.contains(&"udp://sub-a.example/ann".to_string()));
    assert!(!trackers.contains(&"udp://sub-b.example/ann".to_string()));
}

#[test]
fn bad_subscriptions_and_trackers_are_refused() {
    let mut m = manager();
    assert_eq!(m.add_subscription("n", "  ", true, "x".to_string()).err().unwrap(), "订阅 URL 不能为空");
    assert_eq!(
        m.add_subscription("n", "ftp://h", true, "x".to_string()).err().unwrap(),
        "订阅 URL 必须以 http:// 或 https:// 开头"
    );
    subscribe(&mut m, "s1", "http://h/1.txt");
    assert_eq!(
        m.add_subscription("n", "http://h/1.txt", true, "y".to_string()).err().unwrap(),
        "订阅源已存在: http://h/1.txt"
    );
    assert_eq!(m.add_global_tracker(" ").unwrap_err(), "tracker URL 不能为空");
    m.add_global_tracker("udp://a/ann").unwrap();
    assert_eq!(m.add_global_tracker("udp://a/ann").unwrap_err(), "tracker 已存在: udp://a/ann");
    assert_eq!(m.remove_global_tracker("udp://b/ann").unwrap_err(), "tracker 不存在: udp://b/ann");
    assert_eq!(m.toggle_subscription("zz").unwrap_err(), "订阅源不存在: zz");
}

#[test]
fn a_subscription_is_named_after_its_address_by_default() {
    let mut m = manager();
    let s = m.add_subscription("  ", "http://h/1.txt", false, "x".to_string());
    let s = s.unwrap_or_else(|e| panic!("{e}"));
    assert_eq!(s.name, "http://h/1.txt");
    assert!(!s.enabled);
    assert!(m.subscriptions_to_refresh(true, 0).is_empty());
}

#[test]
fn global_trackers_reach_running_magnet_links() {
    let mut m = manager();
    let none = Json::Obj(vec![]);
    let gid = "00000000000000aa".to_string();
    m.add_magnet(vec![7u8; 20], vec!["udp://own/ann".to_string()], None, &none, None, gid, &env());
    m.add_global_tracker("udp://new/ann").unwrap();
    assert_eq!(m.tasks[0].bt_trackers, vec!["udp://own/ann", "udp://new/ann"]);
    m.remove_global_tracker("udp://new/ann").unwrap();
    assert_eq!(m.tasks[0].bt_trackers, vec!["udp://own/ann"]);
}

#[test]
fn several_subscriptions_are_refreshed_together() {
    let mut m = manager();
    subscribe(&mut m, "s1", "http://h/1.txt");
    subscribe(&mut m, "s2", "http://h/2.txt");
    subscribe(&mut m, "s3", "http://h/3.txt");
    m.take_effects();
    let fetched = vec![
        ("s1".to_string(), list(&["udp://a/ann", "udp://b/ann"])),
        ("s2".to_string(), Err("请求失败: x".to_string())),
        ("s3".to_string(), list(&["udp://b/ann"])),
    ];
    assert_eq!(m.refresh_all_subscriptions(fetched, DAY), 3);
    assert_eq!(m.get_global_trackers(), vec!["udp://a/ann", "udp://b/ann"]);
    let subs = m.get_subscriptions();
    assert_eq!(subs[0].last_count, 2);
    assert_eq!(subs[1].last_error, "请求失败: x");
    assert_eq!((subs[1].last_updated, subs[2].last_updated), (0, DAY));
    assert!(matches!(m.take_effects()[..], [Effect::Save]));
    assert_eq!(m.refresh_all_subscriptions(vec![], DAY), 0);
    assert!(m.take_effects().is_empty());
}

#[test]
fn a_list_counts_though_its_subscription_is_gone() {
    let mut m = manager();
    m.refresh_subscription("gone", list(&["udp://late.example/ann"]), DAY)
        .unwrap_or_else(|e| panic!("{e}"));
    assert_eq!(m.get_global_trackers(), vec!["udp://late.example/ann"]);
    assert!(m.trackers.subscriptions.is_empty());
    let fetched = vec![("gone".to_string(), list(&["udp://late.example/ann", "udp://b/ann"]))];
    assert_eq!(m.refresh_all_subscriptions(fetched, DAY), 2);
    assert_eq!(m.get_global_trackers().len(), 2);
    assert_eq!(
        m.refresh_subscription("gone", list(&[]), DAY).unwrap_err(),
        "订阅源返回空列表"
    );
    assert_eq!(m.refresh_all_subscriptions(vec![("gone".to_string(), Err("x".to_string()))], DAY), 0);
    assert_eq!(m.get_global_trackers().len(), 2);
    // Without the subscription nothing is fetched in the first place.
    assert!(m.subscription_url("gone").is_err());
}

#[test]
fn a_tracker_saved_twice_is_kept_twice() {
    let url = "udp://twice.example/ann".to_string();
    let addresses = Json::Arr(vec![Json::Str(url.clone()), Json::Str(url.clone())]);
    let settings = Json::Obj(vec![Field {
        key: "btTrackers".to_string(),
        value: addresses,
        text: String::new(),
    }]);
    let doc = Json::Obj(vec![Field {
        key: "settings".to_string(),
        value: settings,
        text: String::new(),
    }]);
    let start =
        |doc: &Json| TaskManager::start_with_session(None, None, "/s.json".to_string(), doc, &env());
    let m = start(&doc);
    assert_eq!(m.get_global_trackers(), vec![url.clone(), url.clone()]);
    let mut m = start(&m.session_json(0));
    assert_eq!(m.get_global_trackers(), vec![url.clone(), url.clone()]);
    assert!(m.add_global_tracker(&url).is_err());
    // A subscription that provides it does so wherever it is listed.
    subscribe(&mut m, "s1", "http://h/list.txt");
    refresh(&mut m, "s1", &[url.as_str()]);
    assert_eq!(m.get_global_trackers().len(), 2);
    assert!(m.trackers.entries.iter().all(|e| e.manual && e.subs == vec!["s1"]));
    m.remove_global_tracker(&url).unwrap();
    assert!(m.get_global_trackers().is_empty());
}
