//! Options, paths and names.

use xfer::options::{
    bt_modes, bt_options, default_session_path, file_name, normalize_dir, parse_checksum_option,
    parse_size_bytes, parse_tracker_list, rate_limits, rename_with_counter, split_options, BtProtocol,
    EncryptionMode, Place,
};

fn place() -> Place {
    Place { home: Some("/home/u".to_string()), cwd: Some("/work".to_string()) }
}

fn table(list: &[(&str, &str)]) -> Vec<(String, String)> {
    list.iter().map(|(k, v)| (k.to_string(), v.to_string())).collect()
}

#[test]
fn normalize_dir_keeps_absolute() {
    assert_eq!(normalize_dir("/tmp/a/b", &place()), "/tmp/a/b");
}

#[test]
fn normalize_dir_expands_tilde() {
    assert_eq!(normalize_dir("~", &place()), "/home/u");
    assert_eq!(normalize_dir("~/Downloads", &place()), "/home/u/Downloads");
}

#[test]
fn normalize_dir_resolves_relative_to_cwd() {
    assert_eq!(normalize_dir("rel/dir", &place()), "/work/rel/dir");
}

#[test]
fn sizes_have_units() {
    assert_eq!(parse_size_bytes("4M"), Some(4 * 1024 * 1024));
    assert_eq!(parse_size_bytes(" 512k "), Some(512 * 1024));
    assert_eq!(parse_size_bytes("1G"), Some(1024 * 1024 * 1024));
    assert_eq!(parse_size_bytes("1048576"), Some(1048576));
    assert_eq!(parse_size_bytes("18446744073709551615G"), Some(u64::MAX));
    assert_eq!(parse_size_bytes("4 M"), Some(4 * 1024 * 1024));
    assert_eq!(parse_size_bytes("M"), None);
    assert_eq!(parse_size_bytes(""), None);
    assert_eq!(parse_size_bytes("-1"), None);
}

#[test]
fn task_options_come_before_global_ones() {
    let global = table(&[("split", "8"), ("min-split-size", "1M"), ("bt-max-peers", "100")]);
    let task = table(&[("split", "4")]);
    let opts = split_options(&task, &global);
    assert_eq!(opts.connections, 4);
    assert_eq!(opts.min_split_size, 1024 * 1024);
    assert_eq!(bt_options(&task, &global).0, 100);
    let none = table(&[]);
    assert_eq!(bt_options(&none, &none), (50, true));
    assert_eq!(split_options(&none, &none).connections, 16);
}

#[test]
fn modes_and_limits() {
    let none = table(&[]);
    let modes = bt_modes(&none, &none);
    assert!(matches!(modes.0, EncryptionMode::Adaptive));
    assert!(matches!(modes.1, BtProtocol::TcpUtp));
    let g = table(&[("max-overall-download-limit", "1048576"), ("max-overall-upload-limit", "x")]);
    assert_eq!(rate_limits(&g), (1024 * 1024, 0));
}

#[test]
fn names_get_a_counter_before_the_extension() {
    assert_eq!(rename_with_counter("file.zip", 1), "file.1.zip");
    assert_eq!(rename_with_counter("a.tar.gz", 12), "a.tar.12.gz");
    assert_eq!(rename_with_counter("file", 1), "file.1");
    assert_eq!(rename_with_counter(".bashrc", 2), ".bashrc.2");
}

#[test]
fn the_last_part_of_a_path() {
    assert_eq!(file_name("/a/b/c.bin"), "c.bin");
    assert_eq!(file_name("C:\\x\\y.bin"), "y.bin");
    assert_eq!(file_name("/a/"), "");
}

#[test]
fn checksums_name_a_known_algorithm() {
    let names = table(&[("sha-256", "sha256"), ("sha256", "sha256"), ("md5", "md5")]);
    assert_eq!(
        parse_checksum_option("sha-256=ABCD", &names),
        Some(("sha256".to_string(), "abcd".to_string()))
    );
    assert_eq!(parse_checksum_option("crc=1", &names), None);
    assert_eq!(parse_checksum_option("md5", &names), None);
}

#[test]
fn tracker_lists_skip_comments_and_blank_lines() {
    let list = parse_tracker_list("# list\n\nudp://a/ann\n  http://b/ann  \nftp://c\n");
    assert!(list.contains(&"udp://a/ann".to_string()));
    assert!(list.contains(&"http://b/ann".to_string()));
    assert!(!list.iter().any(|t| t.starts_with('#')));
}

#[test]
fn the_session_lives_below_the_home_directory() {
    let p = default_session_path(Some("/home/u".to_string()));
    assert!(p.starts_with("/home/u/"));
}
