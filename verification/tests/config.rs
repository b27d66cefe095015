//! Command line arguments.

use xfer::config::{parse_args, EngineConfig};

fn args(list: &[&str]) -> Vec<String> {
    list.iter().map(|s| s.to_string()).collect()
}

fn has(config: &EngineConfig, key: &str, value: &str) -> bool {
    config
        .initial_options
        .contains(&(key.to_string(), value.to_string()))
}

#[test]
fn parses_engine_style_args() {
    let p = parse_args(args(&[
        "--rpc-listen-port=21301",
        "--rpc-secret=abc",
        "--dir=/tmp/dl",
        "--max-concurrent-downloads=10",
        "--log=/tmp/x.log",
        "--log-level=warn",
        "--listen-port=21301",
        "--bt-max-peers=128",
        "--enable-dht=true",
    ]));
    assert_eq!(p.config.rpc_listen_port, 21301);
    assert_eq!(p.config.rpc_secret.as_deref(), Some("abc"));
    assert_eq!(p.config.download_dir, "/tmp/dl");
    assert_eq!(p.config.max_concurrent, 10);
    assert_eq!(p.config.log_file.as_deref(), Some("/tmp/x.log"));
    assert_eq!(p.config.log_level.as_deref(), Some("warn"));
    assert!(p.ignored.is_empty());
    assert!(has(&p.config, "bt-max-peers", "128"));
    assert!(has(&p.config, "listen-port", "21301"));
    assert!(has(&p.config, "enable-dht", "true"));
}

#[test]
fn positional_args_are_ignored() {
    let p = parse_args(args(&["stray", "--bt-seed-mode=true"]));
    assert_eq!(p.ignored, vec!["stray"]);
    assert!(has(&p.config, "bt-seed-mode", "true"));
}

#[test]
fn maps_app_toggles() {
    let p = parse_args(args(&[
        "--enable-upnp=true",
        "--enable-utp=false",
        "--enable-nat-pmp=true",
    ]));
    assert!(p.ignored.is_empty());
    assert!(has(&p.config, "bt-port-mapping", "true"));
    assert!(has(&p.config, "bt-protocol", "tcp"));
}

#[test]
fn defaults_when_empty() {
    let p = parse_args(Vec::new());
    assert_eq!(p.config.rpc_listen_port, 6800);
    assert!(p.config.rpc_secret.is_none());
    assert_eq!(p.config.max_concurrent, 5);
    assert!(p.ignored.is_empty());
}

#[test]
fn session_options_and_bad_numbers() {
    let p = parse_args(args(&["--save-session=/tmp/s.json", "--max-concurrent-downloads=x"]));
    assert_eq!(p.config.session.as_deref(), Some("/tmp/s.json"));
    assert_eq!(p.config.max_concurrent, 5);
}

#[test]
fn a_named_session_file_stays() {
    let p = parse_args(args(&["--save-session=/a", "--input-file=/b"]));
    assert_eq!(p.config.session.as_deref(), Some("/a"));
    let p = parse_args(args(&["--input-file=/b", "--save-session=/a"]));
    assert_eq!(p.config.session.as_deref(), Some("/a"));
    let p = parse_args(args(&["--input-file=/b"]));
    assert_eq!(p.config.session.as_deref(), Some("/b"));
}
