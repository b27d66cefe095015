//! Both protocols, from a frame to its answer.

use serde_json::Value;

use xfer::compat::{CompatDispatcher, CompatError, Multicall, MulticallStep};
use xfer::json::{Field, Json};
use xfer::manager::{Effect, Env, Event, TaskManager};
use xfer::native::NativeDispatcher;
use xfer::options::Place;
use xfer::perform::{need_of, Given, Magnet, Need};
use xfer::router::{
    compat_outcome, invalid_request, native_outcome, parse_error, Batch, Connection, HandleOutcome,
    Request, Router,
};
use xfer::rpc::{Call, Proto, RPC_ERROR_CODE};
use xfer::torrent::{FileEntry, Info, TorrentMeta};

const NAME: &str = "xfer";
const VERSION: &str = "1.2.3";

fn read(v: &Value) -> Json {
    match v {
        Value::Null => Json::Null,
        Value::Bool(b) => Json::Bool(*b),
        Value::Number(n) => {
            if let Some(u) = n.as_u64() {
                Json::Unsigned(u)
            } else if let Some(i) = n.as_i64() {
                Json::Negative(i)
            } else {
                Json::Float(n.to_string())
            }
        }
        Value::String(s) => Json::Str(s.clone()),
        Value::Array(a) => Json::Arr(a.iter().map(read).collect()),
        Value::Object(o) => Json::Obj(
            o.iter()
                .map(|(k, v)| Field { key: k.clone(), value: read(v), text: v.to_string() })
                .collect(),
        ),
    }
}

fn show(j: &Json) -> Value {
    match j {
        Json::Null => Value::Null,
        Json::Bool(b) => Value::from(*b),
        Json::Unsigned(n) => Value::from(*n),
        Json::Negative(n) => Value::from(*n),
        Json::Float(t) => serde_json::from_str(t).unwrap_or(Value::Null),
        Json::Quotient { num, den } => Value::from(*num as f64 / *den as f64),
        Json::QuotientText { num, den } => Value::from(format!("{:.3}", *num as f64 / *den as f64)),
        Json::Str(s) => Value::from(s.as_str()),
        Json::Arr(a) => Value::Array(a.iter().map(show).collect()),
        Json::Obj(f) => Value::Object(f.iter().map(|e| (e.key.clone(), show(&e.value))).collect()),
    }
}

struct Engine {
    m: TaskManager,
    router: Router,
    env: Env,
    next: u8,
}

fn engine(secret: Option<&str>) -> Engine {
    let env = Env {
        place: Place { home: Some("/home/u".to_string()), cwd: Some("/work".to_string()) },
        hash_names: vec![],
    };
    let secret = secret.map(|s| s.to_string());
    Engine {
        m: TaskManager::new("/dl", 2, &env.place),
        router: Router::new(
            NativeDispatcher::new(secret.clone(), NAME.to_string(), VERSION.to_string()),
            CompatDispatcher::new(secret, NAME.to_string(), VERSION.to_string()),
        ),
        env,
        next: 1,
    }
}

fn torrent(bytes: &[u8]) -> Result<TorrentMeta, String> {
    if bytes != b"torrent" {
        return Err("malformed".to_string());
    }
    Ok(TorrentMeta {
        info: Info {
            name: "t".to_string(),
            piece_length: 10,
            pieces: 1,
            files: vec![FileEntry { path: "t".to_string(), length: 10 }],
            multi_file: false,
            private: false,
        },
        info_hash: vec![1u8; 20],
        announce: None,
        announce_list: vec![],
        raw: None,
    })
}

impl Engine {
    fn carry_out(&mut self, call: Call, proto: Proto) -> Result<Json, String> {
        let given = match need_of(&call)? {
            Need::Nothing => Given::Nothing,
            Need::Torrent(b) => Given::Torrent(torrent(&b)),
            Need::Magnet(text) => Given::Magnet(if text.contains("xt=") {
                Ok(Magnet { info_hash: vec![2u8; 20], trackers: vec![], display_name: None })
            } else {
                Err("no hash".to_string())
            }),
            Need::Refresh(_) => Given::Count(Ok(4)),
            Need::RefreshAll => Given::Count(Ok(5)),
            Need::Calls => unreachable!(),
        };
        let fresh = format!("{:016x}", self.next);
        self.next += 1;
        self.m.perform(call, given, fresh, proto, &self.env, 0)
    }

    fn compat(&mut self, call: Result<Call, CompatError>) -> Result<Json, CompatError> {
        match call? {
            Call::Multicall(calls) => {
                let mut all = Multicall::start(calls);
                loop {
                    match all.step(&self.router.compat) {
                        MulticallStep::Run(one) => {
                            let r = self.compat(one);
                            all.take(r);
                        }
                        MulticallStep::Finished(r) => return r,
                    }
                }
            }
            call => self.carry_out(call, Proto::Compat).map_err(CompatError::Method),
        }
    }

    fn one(&mut self, req: &Json) -> HandleOutcome {
        match self.router.read(req) {
            Request::Invalid { id } => invalid_request(id),
            Request::Native { id, subscribes, call } => {
                let r = match call {
                    Ok(c) => self.carry_out(c, Proto::Native),
                    Err(e) => Err(e),
                };
                native_outcome(id, subscribes, r)
            }
            Request::Compat { id, wanted } => {
                let r = self.compat(wanted);
                compat_outcome(id, r)
            }
        }
    }

    fn handle(&mut self, body: &str) -> HandleOutcome {
        let doc = match serde_json::from_str::<Value>(body) {
            Ok(v) => read(&v),
            Err(_) => return parse_error(),
        };
        match &doc {
            Json::Arr(items) => {
                let mut batch = Batch::new();
                for i in items {
                    let o = self.one(i);
                    batch.add(o);
                }
                batch.done()
            }
            _ => self.one(&doc),
        }
    }

    fn ask(&mut self, body: &str) -> Value {
        show(&self.handle(body).response.expect("an answer"))
    }
}

#[test]
fn native_get_version_and_stat() {
    let mut e = engine(None);
    let v = e.ask(r#"{"jsonrpc":"2.0","id":1,"method":"engine.getVersion","params":{}}"#);
    assert_eq!(v["result"]["version"], VERSION);
    assert_eq!(v["result"]["name"], NAME);
    let s = e.ask(r#"{"jsonrpc":"2.0","id":2,"method":"engine.globalStat","params":{}}"#);
    assert_eq!(s["result"]["numActive"], 0);
    assert_eq!(s["result"]["downloadSpeed"], 0);
}

#[test]
fn malformed_request_returns_error_not_hang() {
    let mut e = engine(None);
    let resp = e.ask("{ not json");
    assert_eq!(resp["error"]["code"], RPC_ERROR_CODE);
    assert!(resp["error"]["message"].as_str().unwrap().contains("Parse"));

    let resp = e.ask(r#"{"jsonrpc":"2.0","id":7}"#);
    assert_eq!(resp["id"], 7);
    assert_eq!(resp["error"]["code"], RPC_ERROR_CODE);

    assert!(e.handle(r#"{"jsonrpc":"2.0"}"#).response.is_none());
}

#[test]
fn native_task_lifecycle_schema() {
    let mut e = engine(None);
    let add = e.ask(
        r#"{"jsonrpc":"2.0","id":1,"method":"task.add","params":{"uris":["http://127.0.0.1:9/x.zip"],"dir":"/tmp"}}"#,
    );
    let gid = add["result"]["gid"].as_str().unwrap().to_string();
    let tell = e.ask(&format!(
        r#"{{"jsonrpc":"2.0","id":2,"method":"task.tell","params":{{"gid":"{gid}"}}}}"#
    ));
    assert_eq!(tell["result"]["gid"], gid.as_str());
    assert!(tell["result"]["totalLength"].is_number());
    assert!(tell["result"]["completedLength"].is_number());
    assert_eq!(tell["result"]["errorCode"], 0);
    let tell = e.ask(&format!(
        r#"{{"jsonrpc":"2.0","id":3,"method":"task.tell","params":{{"gid":"{gid}","keys":["gid","status"]}}}}"#
    ));
    assert_eq!(tell["result"].as_object().unwrap().len(), 2);
    let list = e.ask(r#"{"jsonrpc":"2.0","id":4,"method":"task.list","params":{"scope":"all"}}"#);
    assert_eq!(list["result"].as_array().unwrap().len(), 1);
    assert!(list["result"].as_array().unwrap().iter().any(|t| t["gid"] == gid.as_str()));
    let r = e.ask(&format!(
        r#"{{"jsonrpc":"2.0","id":5,"method":"task.removeResult","params":{{"gid":"{gid}"}}}}"#
    ));
    assert!(r.get("error").is_some());
    let r = e.ask(r#"{"jsonrpc":"2.0","id":6,"method":"task.tell","params":{"gid":"zz"}}"#);
    assert_eq!(r["error"]["message"], "GID zz 非法");
}

#[test]
fn native_auth_and_batch() {
    let mut e = engine(Some("s3cret"));
    let r = e.ask(r#"{"jsonrpc":"2.0","id":1,"method":"engine.getVersion","params":{}}"#);
    assert_eq!(r["error"]["message"], "Unauthorized");
    let r = e.ask(
        r#"{"jsonrpc":"2.0","id":2,"method":"engine.getVersion","params":{"token":"s3cret"}}"#,
    );
    assert_eq!(r["result"]["version"], VERSION);
    let r = e.ask(
        r#"[
            {"jsonrpc":"2.0","id":10,"method":"engine.getVersion","params":{"token":"s3cret"}},
            {"jsonrpc":"2.0","id":11,"method":"aria2.getVersion","params":["token:s3cret"]}
        ]"#,
    );
    let arr = r.as_array().unwrap();
    assert_eq!(arr.len(), 2);
    assert_eq!(arr[0]["result"]["version"], VERSION);
    assert_eq!(arr[1]["result"]["version"], VERSION);
}

#[test]
fn a_frame_answers_those_requests_that_have_an_identifier() {
    let mut e = engine(None);
    let out = e.handle(
        r#"[{"jsonrpc":"2.0","id":1,"method":"aria2.getVersion","params":[]},
            {"jsonrpc":"2.0","method":"events.subscribe","params":{}},
            {"jsonrpc":"2.0","id":"x"},
            {"jsonrpc":"2.0"},
            {"jsonrpc":"2.0","id":null,"method":"engine.getVersion","params":{}}]"#,
    );
    assert!(out.native_subscribed);
    let shown = out.response.as_ref().map(show).unwrap();
    let arr = shown.as_array().unwrap();
    assert_eq!(arr.len(), 3);
    assert_eq!(arr[0], e.ask(r#"{"jsonrpc":"2.0","id":1,"method":"aria2.getVersion","params":[]}"#));
    assert_eq!(arr[1], e.ask(r#"{"jsonrpc":"2.0","id":"x"}"#));
    assert_eq!(arr[1]["error"]["message"], "Invalid request");
    assert!(arr[2]["id"].is_null());
    assert_eq!(arr[2]["result"]["version"], VERSION);

    let out = e.handle(r#"[{"jsonrpc":"2.0","method":"engine.getVersion","params":{}}]"#);
    assert!(out.response.is_none());
    assert!(!out.native_subscribed);
    assert!(e.handle("[]").response.is_none());
}

#[test]
fn native_events_subscribe_flag() {
    let mut e = engine(None);
    let out = e.handle(r#"{"jsonrpc":"2.0","id":1,"method":"events.subscribe","params":{}}"#);
    assert!(out.native_subscribed);
    assert!(matches!(out.proto_used, Proto::Native));
    let mut e = engine(Some("x"));
    let out = e.handle(r#"{"jsonrpc":"2.0","id":1,"method":"events.subscribe","params":{}}"#);
    assert!(!out.native_subscribed);
}

#[test]
fn compat_get_version_and_auth() {
    let mut e = engine(None);
    let v = e.ask(r#"{"jsonrpc":"2.0","id":1,"method":"aria2.getVersion","params":[]}"#);
    assert_eq!(v["result"]["version"], VERSION);
    let v = e.ask(r#"{"jsonrpc":"2.0","id":2,"method":"getVersion","params":[]}"#);
    assert_eq!(v["result"]["version"], VERSION);
    assert_eq!(v["result"]["enabledFeatures"][0], "xfer (Rust)");

    let mut e = engine(Some("s3cret"));
    let r = e.ask(r#"{"jsonrpc":"2.0","id":1,"method":"aria2.getVersion","params":[]}"#);
    assert_eq!(r["error"]["message"], "Unauthorized");
    let r = e.ask(r#"{"jsonrpc":"2.0","id":1,"method":"aria2.getVersion","params":["token:no"]}"#);
    assert_eq!(r["error"]["message"], "Unauthorized");
    let r = e.ask(
        r#"{"jsonrpc":"2.0","id":2,"method":"aria2.getVersion","params":["token:s3cret"]}"#,
    );
    assert_eq!(r["result"]["version"], VERSION);
}

#[test]
fn compat_add_uri_status_and_multicall() {
    let mut e = engine(None);
    let r = e.ask(
        r#"{"jsonrpc":"2.0","id":1,"method":"aria2.addUri","params":[["http://127.0.0.1:9/f.zip"],{"dir":"/tmp","out":"f.zip"}]}"#,
    );
    let gid = r["result"].as_str().unwrap().to_string();
    assert_eq!(gid.len(), 16);
    let st = e.ask(&format!(
        r#"{{"jsonrpc":"2.0","id":2,"method":"aria2.tellStatus","params":["{gid}"]}}"#
    ));
    assert!(st["result"]["totalLength"].is_string());
    assert_eq!(st["result"]["errorCode"], "0");
    let r = e.ask(
        r#"{"jsonrpc":"2.0","id":3,"method":"system.multicall","params":[[
            {"methodName":"aria2.getVersion","params":[]},
            {"methodName":"aria2.tellStatus","params":["bbbbbbbbbbbbbbbb"]},
            {"methodName":"aria2.nope","params":[]}]]}"#,
    );
    let arr = r["result"].as_array().unwrap();
    assert_eq!(arr[0][0]["version"], VERSION);
    assert_eq!(arr[1]["code"], 1);
    assert_eq!(arr[2]["message"], "Method not found");
    let r = e.ask(r#"{"jsonrpc":"2.0","id":4,"method":"aria2.addTorrent","params":[]}"#);
    assert_eq!(r["error"]["message"], "参数 0（torrent base64）缺失");
    let r = e.ask(r#"{"jsonrpc":"2.0","id":5,"method":"system.multicall","params":[[{}]]}"#);
    assert_eq!(r["error"]["message"], "multicall 条目格式非法");
}

#[test]
fn options_of_any_kind_are_kept_as_text() {
    let mut e = engine(None);
    e.ask(
        r#"{"jsonrpc":"2.0","id":1,"method":"aria2.addUri","params":[["http://127.0.0.1:9/f.zip"],{"split":4,"header":["a"]}]}"#,
    );
    assert_eq!(
        e.m.tasks[0].options,
        vec![
            ("header".to_string(), "[\"a\"]".to_string()),
            ("split".to_string(), "4".to_string())
        ]
    );
}

#[test]
fn event_frames_both_protocols() {
    let e = engine(None);
    let gid = "aaaaaaaaaaaaaaaa";
    let compat = show(&e.router.compat.event_frame(&e.m, Event::Start, gid).unwrap());
    assert_eq!(compat["method"], "aria2.onDownloadStart");
    assert_eq!(compat["params"][0]["gid"], "aaaaaaaaaaaaaaaa");
    assert!(compat.get("id").is_none());
    let native = show(&e.router.native.event_frame(&e.m, Event::Start, gid).unwrap());
    assert_eq!(native["method"], "task.start");
    assert_eq!(native["params"]["gid"], "aaaaaaaaaaaaaaaa");
    assert!(e.router.native_event_frame(&e.m, Event::Progress, gid).is_none());
    assert!(e.router.compat_event_frame(&e.m, Event::Progress, gid).is_none());
}

#[test]
fn native_task_add_torrent_and_get_peers() {
    let mut e = engine(None);
    let add = e.ask(
        r#"{"jsonrpc":"2.0","id":1,"method":"task.add","params":{"torrent":"dG9ycmVudA=="}}"#,
    );
    let gid = add["result"]["gid"].as_str().unwrap().to_string();
    let peers = e.ask(&format!(
        r#"{{"jsonrpc":"2.0","id":2,"method":"task.getPeers","params":{{"gid":"{gid}"}}}}"#
    ));
    assert!(peers["result"].as_array().unwrap().is_empty());
}

#[test]
fn compat_add_torrent_and_get_peers() {
    let mut e = engine(None);
    let add = e.ask(r#"{"jsonrpc":"2.0","id":1,"method":"aria2.addTorrent","params":["dG9ycmVudA=="]}"#);
    let gid = add["result"].as_str().unwrap().to_string();
    let peers =
        e.ask(&format!(r#"{{"jsonrpc":"2.0","id":2,"method":"aria2.getPeers","params":["{gid}"]}}"#));
    assert!(peers["result"].as_array().unwrap().is_empty());
}

#[test]
fn task_add_torrent_invalid_base64_rejected() {
    let mut e = engine(None);
    let r = e.ask(r#"{"jsonrpc":"2.0","id":1,"method":"task.add","params":{"torrent":"***"}}"#);
    assert!(r["error"]["message"].as_str().unwrap().starts_with("torrent base64 解码失败: "));
    let r = e.ask(r#"{"jsonrpc":"2.0","id":1,"method":"task.add","params":{"torrent":"AAAA"}}"#);
    assert_eq!(r["error"]["message"], "torrent 解析失败: malformed");
    assert!(e.m.tasks.is_empty());
}

#[test]
fn magnet_links_among_addresses_become_magnet_tasks() {
    let mut e = engine(None);
    e.ask(r#"{"id":1,"method":"aria2.addUri","params":[["http://x/a"," magnet:?xt=urn:btih:ab"]]}"#);
    assert_eq!(e.m.tasks[0].bt_info_hash, Some(vec![2u8; 20]));
    let r = e.ask(r#"{"id":1,"method":"task.add","params":{"magnet":"magnet:?dn=x"}}"#);
    assert_eq!(r["error"]["message"], "磁力链接解析失败: no hash");
    let r = e.ask(r#"{"id":1,"method":"aria2.addUri","params":[[]]}"#);
    assert_eq!(r["error"]["message"], "uris 为空");
}

#[test]
fn the_secret_does_not_become_an_option() {
    let mut e = engine(Some("k"));
    let r = e.ask(
        r#"{"id":1,"method":"engine.changeOptions","params":{"token":"k","split":"8"}}"#,
    );
    assert_eq!(r["result"]["ok"], true);
    assert_eq!(e.m.global_options, vec![("split".to_string(), "8".to_string())]);
    let r = e.ask(r#"{"id":1,"method":"engine.getOptions","params":{"token":"k"}}"#);
    assert_eq!(r["result"]["split"], "8");
}

#[test]
fn every_request_about_the_engine_is_answered() {
    let mut e = engine(None);
    for (method, key) in [
        ("engine.getTrackers", "trackers"),
        ("engine.getAutoUpdateTrackers", "enabled"),
        ("engine.refreshAllSubscriptions", "count"),
        ("engine.saveSession", "ok"),
        ("task.purgeResults", "ok"),
    ] {
        let r = e.ask(&format!(r#"{{"id":1,"method":"{method}","params":{{}}}}"#));
        assert!(r["result"].get(key).is_some(), "{method}");
    }
    let r = e.ask(
        r#"{"id":1,"method":"engine.addSubscription","params":{"name":"n","url":"http://h/l"}}"#,
    );
    assert_eq!(r["result"]["name"], "n");
    let id = r["result"]["id"].as_str().unwrap().to_string();
    let r = e.ask(&format!(
        r#"{{"id":1,"method":"engine.refreshSubscription","params":{{"id":"{id}"}}}}"#
    ));
    assert_eq!(r["result"]["count"], 4);
    for method in ["engine.toggleSubscription", "engine.removeSubscription"] {
        let r = e.ask(&format!(r#"{{"id":1,"method":"{method}","params":{{"id":"{id}"}}}}"#));
        assert_eq!(r["result"]["ok"], true);
    }
    let r = e.ask(r#"{"id":1,"method":"engine.setAutoUpdateTrackers","params":{"enabled":false}}"#);
    assert_eq!(r["result"]["ok"], true);
    assert!(!e.m.trackers.auto_update);
    let r = e.ask(r#"{"id":1,"method":"engine.addTracker","params":{"tracker":"udp://a"}}"#);
    assert_eq!(r["result"]["ok"], true);
    let r = e.ask(r#"{"id":1,"method":"engine.removeTracker","params":{"tracker":"udp://a"}}"#);
    assert_eq!(r["result"]["ok"], true);
    e.m.take_effects();
    e.ask(r#"{"id":1,"method":"engine.shutdown","params":{}}"#);
    assert!(matches!(e.m.take_effects()[0], Effect::Shutdown));
}

#[test]
fn missing_parameters_are_named() {
    let mut e = engine(None);
    for (body, message) in [
        (r#"{"id":1,"method":"task.add","params":{}}"#, "参数 uris（数组）缺失"),
        (r#"{"id":1,"method":"task.pause","params":{}}"#, "参数 gid（gid）缺失"),
        (r#"{"id":1,"method":"engine.addTracker"}"#, "参数 tracker 缺失"),
        (r#"{"id":1,"method":"engine.addSubscription"}"#, "参数 url 缺失"),
        (r#"{"id":1,"method":"engine.toggleSubscription"}"#, "参数 id 缺失"),
        (r#"{"id":1,"method":"engine.setAutoUpdateTrackers"}"#, "参数 enabled 缺失"),
        (r#"{"id":1,"method":"task.nope"}"#, "Method not found"),
        (r#"{"id":1,"method":"aria2.addUri","params":[]}"#, "参数 0（uris 数组）缺失"),
        (r#"{"id":1,"method":"aria2.pause","params":[]}"#, "参数 0（gid）缺失"),
        (r#"{"id":1,"method":"system.multicall","params":[]}"#, "参数 0（calls 数组）缺失"),
        (
            r#"{"id":1,"method":"task.addTrackers","params":{"gid":"00000000000000aa","trackers":[]}}"#,
            "trackers 不能为空",
        ),
        (
            r#"{"id":1,"method":"task.addTrackers","params":{"gid":"00000000000000aa"}}"#,
            "参数 trackers（数组）缺失",
        ),
    ] {
        assert_eq!(e.ask(body)["error"]["message"], message, "{body}");
    }
}

#[test]
fn the_lists_of_the_protocol() {
    let mut e = engine(Some("s"));
    let r = e.ask(r#"{"id":1,"method":"system.listMethods","params":[]}"#);
    let names = r["result"].as_array().unwrap();
    assert_eq!(names.len(), 34);
    assert_eq!(names[0], "aria2.addUri");
    assert_eq!(names[25], "system.multicall");
    let r = e.ask(r#"{"id":1,"method":"system.listNotifications","params":[]}"#);
    assert_eq!(r["result"].as_array().unwrap().len(), 6);
}

#[test]
fn a_connection_hears_of_events_in_its_own_protocol() {
    let mut e = engine(None);
    let gid = "aaaaaaaaaaaaaaaa";
    let mut c = Connection::new();
    assert!(c.event_frame(&e.router, &e.m, Event::Start, gid).is_none());
    let o = e.handle(r#"{"id":1,"method":"engine.getVersion"}"#);
    c.on_outcome(&o);
    assert!(c.event_frame(&e.router, &e.m, Event::Start, gid).is_none());
    let o = e.handle(r#"{"id":1,"method":"events.subscribe"}"#);
    c.on_outcome(&o);
    let o = e.handle(r#"{"id":1,"method":"aria2.getVersion"}"#);
    c.on_outcome(&o);
    let f = show(&c.event_frame(&e.router, &e.m, Event::Start, gid).unwrap());
    assert_eq!(f["method"], "task.start");

    let mut c = Connection::new();
    c.on_outcome(&o);
    let f = show(&c.event_frame(&e.router, &e.m, Event::Start, gid).unwrap());
    assert_eq!(f["method"], "aria2.onDownloadStart");
}

#[test]
fn options_of_requests_among_several_keep_their_text() {
    let mut e = engine(None);
    let inner = r#"{"methodName":"aria2.addUri","params":[["http://h/a.bin"],{"split":7,"out":"b.bin"}]}"#;
    let nested = format!(
        r#"{{"jsonrpc":"2.0","id":1,"method":"system.multicall","params":[[{{"methodName":"system.multicall","params":[[{inner}]]}}]]}}"#
    );
    let r = e.ask(&nested);
    let gid = r["result"][0][0][0][0].as_str().expect("a task").to_owned();
    let shown = e.ask(&format!(
        r#"{{"jsonrpc":"2.0","id":2,"method":"aria2.getOption","params":["{gid}"]}}"#
    ));
    assert_eq!(shown["result"]["split"], "7");
    assert_eq!(shown["result"]["out"], "b.bin");
}
