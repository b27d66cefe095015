//! Downloads over several connections.

use xfer::adaptive::{AdaptiveConfig, ScheduleAction};
use xfer::conns::{conn_host, ConnMeter, SplitStats};
use xfer::ctrl::{load_ctrl, CtrlFile, CtrlSeg};
use xfer::errors::HttpError;
use xfer::headers::parse_header_lines;
use xfer::pieces::PieceTrack;
use xfer::segments::{ENDGAME_MIN_SPLIT, ENDGAME_THRESHOLD, STALL_TIMEOUT};
use xfer::worker::{check_status, request_range, SegmentRun, WorkerState, WorkerStep};
use xfer::writer::{display_piece_len, finish_mode, Assignment, FinishMode, SplitOptions, Writer};

const MB: u64 = 1024 * 1024;

fn options(connections: usize, min_split_size: u64) -> SplitOptions {
    SplitOptions { connections, min_split_size, adaptive: None, headers: vec![] }
}

fn start(url: &str, total: u64, opts: &SplitOptions) -> Writer {
    Writer::bootstrap(0, None, url, total, opts, SplitStats::new(0), 0, 0).0
}

#[test]
fn endgame_steal_relaxes_floor() {
    let opts = options(4, 20 * MB);
    let mut w = start("http://x/f.bin", 200 * MB, &opts);
    w.segs[0].queued = false;
    assert!(w.todo > ENDGAME_THRESHOLD);
    assert!(w.try_steal(0).is_none());

    let mut w2 = start("http://x/t.bin", 60 * MB, &opts);
    w2.segs[0].queued = false;
    assert!(w2.todo <= ENDGAME_THRESHOLD);
    let sid = w2.try_steal(0).expect("a range is cut near the end");
    assert_eq!(w2.segs[sid].start, 10 * MB);
    assert_eq!(w2.segs[sid].end, 20 * MB);
    let mut steals = 1usize;
    while w2.try_steal(0).is_some() {
        steals += 1;
    }
    assert!(steals >= 5, "{steals}");
    for s in &w2.segs {
        assert!(s.end - s.start >= ENDGAME_MIN_SPLIT);
    }
}

#[test]
fn released_incomplete_seg_requeues() {
    let opts = options(2, 1024);
    let mut w = start("http://x/s.bin", 8192, &opts);
    let Assignment::Work { seg: sid, from, .. } = w.next_work(None, 0, 0) else {
        panic!("a range is handed out");
    };
    assert_eq!(from, 0);
    w.on_write(sid, 0, 1024, Ok(()), 0);
    assert_eq!(w.segs[sid].written, 1024);
    assert!(!w.segs[sid].queued);
    match w.next_work(Some((sid, false)), 0, 0) {
        Assignment::Work { .. } => {}
        _ => panic!("there is work"),
    }
    assert!(w.segs[sid].queued);
    let mut reassigned = None;
    loop {
        match w.next_work(None, 0, 0) {
            Assignment::Work { seg: s, from, .. } => {
                if s == sid {
                    reassigned = Some(from);
                    break;
                }
            }
            Assignment::Park { .. } => break,
            _ => panic!("the download goes on"),
        }
    }
    assert_eq!(reassigned, Some(1024));
}

#[test]
fn writes_must_be_contiguous_at_watermark() {
    let opts = options(1, 1024);
    let mut w = start("http://x/g.bin", 8192, &opts);
    let Assignment::Work { seg: sid, from, .. } = w.next_work(None, 0, 0) else {
        panic!("a range is handed out");
    };
    assert_eq!(from, 0);
    let todo0 = w.todo;
    w.on_write(sid, 0, 1024, Ok(()), 0);
    assert_eq!(w.segs[sid].written, 1024);
    assert_eq!(w.todo, todo0 - 1024);

    let completed = w.stats.completed;
    assert_eq!(w.plan_write(sid, 2048, 1024), 0);
    w.on_write(sid, 2048, 1024, Ok(()), 0);
    assert_eq!(w.segs[sid].written, 1024);
    assert_eq!(w.todo, todo0 - 1024);
    assert_eq!(w.stats.completed, completed);

    w.on_write(sid, 1024, 1024, Ok(()), 0);
    assert_eq!(w.segs[sid].written, 2048);
    assert_eq!(w.todo, todo0 - 2048);
}

#[test]
fn watchdog_requeues_stranded_segs() {
    let opts = options(2, 1024);
    let mut w = start("http://x/w.bin", 8192, &opts);
    let Assignment::Work { seg: sid, .. } = w.next_work(None, 0, 0) else {
        panic!("a range is handed out");
    };
    w.segs[sid].holders = 1;
    w.on_write(sid, 0, 1024, Ok(()), 0);
    assert!(!w.segs[sid].queued);
    let todo_before = w.todo;
    let end_before = w.segs[sid].end;
    let nsegs_before = w.segs.len();

    w.watchdog_requeue_stalled(0);
    assert!(!w.segs[sid].queued);

    w.watchdog_requeue_stalled(STALL_TIMEOUT + 1_000_000_000);
    assert_eq!(w.todo, todo_before);
    assert!(w.segs.len() > nsegs_before);
    let nsid = w.segs.len() - 1;
    assert!(w.segs[nsid].queued);
    assert_eq!(w.segs[nsid].start, 1024);
    assert_eq!(w.segs[nsid].end, end_before);
    assert!(w.segs[sid].done);
}

#[test]
fn watchdog_serves_a_range_that_nobody_holds() {
    let opts = options(2, 1024);
    let mut w = start("http://x/w.bin", 8192, &opts);
    let Assignment::Work { seg: sid, .. } = w.next_work(None, 0, 0) else {
        panic!("a range is handed out");
    };
    w.segs[sid].holders = 0;
    let (start, end) = (w.segs[sid].start, w.segs[sid].end);
    w.watchdog_requeue_stalled(STALL_TIMEOUT);
    let last = w.segs[w.segs.len() - 1];
    assert!(w.segs[sid].done);
    assert!(last.queued);
    assert_eq!((last.start, last.end), (start, end));
    assert!(w.segs.iter().all(|s| s.done || s.queued || s.holders > 0));
}

#[test]
fn ctrl_roundtrip_preserves_completed_segs() {
    let opts = options(2, 1024);
    let mb = 1024u64;
    let saved = CtrlFile {
        v: 1,
        total: 3 * mb,
        base: 0,
        url: "http://x/c.bin".to_string(),
        segs: vec![
            CtrlSeg { s: 0, w: mb, e: mb },
            CtrlSeg { s: mb, w: mb / 2, e: 2 * mb },
            CtrlSeg { s: 2 * mb, w: mb, e: 3 * mb },
        ],
    };
    let (w, _) = Writer::bootstrap(
        3 * mb,
        load_ctrl(Some(saved)),
        "http://x/c.bin",
        3 * mb,
        &opts,
        SplitStats::new(0),
        0,
        0,
    );
    assert_eq!(w.segs.len(), 3);
    assert_eq!(w.todo, mb / 2);
    assert!(w.segs[0].done && w.segs[2].done && !w.segs[1].done);
    assert!(w.segs.iter().any(|s| s.queued));

    let again = load_ctrl(Some(w.serialize_ctrl()));
    let (w2, _) = Writer::bootstrap(
        3 * mb,
        again,
        "http://x/c.bin",
        3 * mb,
        &opts,
        SplitStats::new(0),
        0,
        0,
    );
    assert_eq!(w2.segs.len(), 3);
    assert_eq!(w2.todo, mb / 2);
    assert!(w2.segs.iter().any(|s| s.queued));
}

#[test]
fn broken_ctrl_falls_back_to_fresh_split() {
    let opts = options(2, MB);
    let total = 3 * MB;
    let saved = CtrlFile {
        v: 1,
        total,
        base: 0,
        url: "http://x/broken.bin".to_string(),
        segs: vec![CtrlSeg { s: 0, w: MB, e: MB }, CtrlSeg { s: 2 * MB, w: 0, e: 3 * MB }],
    };
    let (w, _) = Writer::bootstrap(
        MB,
        load_ctrl(Some(saved)),
        "http://x/broken.bin",
        total,
        &opts,
        SplitStats::new(0),
        0,
        0,
    );
    assert!(!w.finished());
    assert!(!w.segs.is_empty());
    assert_eq!(w.todo, 2 * MB);
    assert_eq!(w.base, MB);
    let covered: u64 = w.segs.iter().map(|s| s.end - s.start).sum();
    assert_eq!(covered, 2 * MB);

    let again = load_ctrl(Some(w.serialize_ctrl()));
    let (w2, _) = Writer::bootstrap(
        MB,
        again,
        "http://x/broken.bin",
        total,
        &opts,
        SplitStats::new(0),
        0,
        0,
    );
    assert!(!w2.finished());
    assert_eq!(w2.todo, 2 * MB);
}

#[test]
fn shrink_targets_identified_seg_with_fallback() {
    let opts = options(2, MB);
    let mut w = start("http://x/t.bin", 8 * MB, &opts);
    assert_eq!(w.segs.len(), 4);
    w.segs[0].done = true;
    w.segs[0].written = 2 * MB;
    w.segs[1].queued = false;

    w.shrink_seg(1, MB, 0);
    assert_eq!(w.segs[1].start, 2 * MB);
    assert_eq!(w.segs[1].end, 3 * MB);
    assert_eq!(w.segs.len(), 5);
    assert_eq!((w.segs[4].start, w.segs[4].end), (3 * MB, 4 * MB));
    assert!(w.segs[4].queued);
    assert!(w.queue.contains(&4));

    w.shrink_seg(0, MB, 0);
    assert_eq!(w.segs[2].end, 5 * MB);
}

#[test]
fn adaptive_retire_hands_off_instead_of_draining_pool() {
    let mut opts = options(4, MB);
    opts.adaptive = Some(AdaptiveConfig {
        enabled: true,
        initial_connections: 4,
        max_connections: 4,
        min_connections: 1,
        ..Default::default()
    });
    let (mut w, _) =
        Writer::bootstrap(0, None, "http://x/t.bin", 8 * MB, &opts, SplitStats::new(0), 0, 0);
    w.alive = 4;
    w.desired_workers = 4;
    let Assignment::Work { seg: sid, .. } = w.next_work(None, 0, 0) else {
        panic!("a range is handed out");
    };
    w.segs[sid].holders = 1;
    w.on_write(sid, 0, 512 * 1024, Ok(()), 0);
    let nsegs_before = w.segs.len();
    let end_before = w.segs[sid].end;
    assert!(!w.segs[sid].done);

    w.apply_adaptive_action(ScheduleAction::Retire { conn_id: sid }, 0);

    assert_eq!(w.alive, 4);
    assert_eq!(w.desired_workers, 4);
    assert!(w.segs.len() > nsegs_before);
    let nsid = w.segs.len() - 1;
    assert!(w.segs[nsid].queued && w.queue.contains(&nsid));
    assert_eq!(w.segs[nsid].start, 512 * 1024);
    assert_eq!(w.segs[nsid].end, end_before);
    assert!(w.segs[sid].done);
}

#[test]
fn a_control_file_of_another_version_counts_as_none() {
    let c = CtrlFile { v: 2, total: 1, base: 0, url: String::new(), segs: vec![] };
    assert!(load_ctrl(Some(c)).is_none());
}

#[test]
fn a_download_of_all_ranges_finishes() {
    let opts = options(2, 1024);
    let mut w = start("http://x/all.bin", 4096, &opts);
    let mut release = None;
    loop {
        match w.next_work(release, 0, 0) {
            Assignment::Work { seg, from, end } => {
                w.on_write(seg, from, end - from, Ok(()), 1);
                release = Some((seg, false));
            }
            Assignment::Done => break,
            _ => panic!("work or the end"),
        }
    }
    assert!(w.finished());
    assert_eq!(w.todo, 0);
    assert_eq!(w.stats.completed, 4096);
    assert_eq!(w.contiguous_prefix(), 4096);
    let plan = w.finish(FinishMode::Success);
    assert_eq!(plan.set_len, Some(4096));
    assert!(plan.remove_ctrl);
}

#[test]
fn how_a_download_ends() {
    assert!(matches!(finish_mode(&None, true), FinishMode::Preserve));
    assert!(matches!(
        finish_mode(&Some(HttpError::NotSplittable(String::new())), false),
        FinishMode::Discard
    ));
    assert!(matches!(finish_mode(&Some(HttpError::Http(404)), false), FinishMode::Preserve));
}

#[test]
fn statuses_of_range_requests() {
    assert!(check_status(206, "206 Partial Content", 10).is_ok());
    assert!(matches!(
        check_status(200, "200 OK", 10),
        Err(HttpError::NotSplittable(_))
    ));
    assert!(matches!(check_status(404, "404 Not Found", 10), Err(HttpError::Http(404))));
}

#[test]
fn a_worker_gives_up_after_repeated_failures() {
    let mut s = WorkerState::new();
    let mut fatal = false;
    for _ in 0..8 {
        if let WorkerStep::Fatal(_) = s.after_segment(Err(HttpError::Timeout)) {
            fatal = true;
            break;
        }
    }
    assert!(fatal);
}

#[test]
fn a_silent_body_is_noticed() {
    let mut run = SegmentRun::new(0, 0);
    assert!(!run.is_silent(1_000_000_000));
    let plan = run.on_chunk(100, 1000, 1_000_000_000);
    assert_eq!(plan.take, 100);
    assert!(run.is_silent(5_000_000_000));
    assert!(matches!(run.finish(1000), Err(HttpError::ShortRead)));
    run.on_chunk(2000, 1000, 1_100_000_000);
    assert!(run.finish(1000).is_ok());
}

#[test]
fn hosts_are_shown_by_name() {
    assert_eq!(conn_host("https://user@cdn.example.com:8443/a/b?c"), "cdn.example.com");
    assert_ne!(conn_host("no address"), "no address");
}

#[test]
fn conn_snapshot_reports_live_connections() {
    let mut stats = SplitStats::new(0);
    let host = conn_host("http://127.0.0.1:9/out.bin");
    let a = stats.conn_open(&host, 0);
    let b = stats.conn_open(&host, 0);
    assert_ne!(a, b);
    stats.conn_bytes(a, 300_000, 100_000_000);
    let snap = stats.conn_snapshot(100_000_000);
    assert_eq!(snap.iter().filter(|c| c.active).count(), 2);
    assert!(snap.iter().all(|c| c.host == "127.0.0.1"));
    assert_eq!(snap[0].downloaded, 300_000);
    assert_eq!(snap[0].speed, 3_000_000);
    assert_eq!(snap[1].speed, 0);
    stats.conn_close(a, 100_000_000);
    stats.conn_close(b, 100_000_000);
    assert!(stats.conn_snapshot(100_000_000).iter().all(|c| !c.active && c.speed == 0));
    assert!(stats.conn_snapshot(3_000_000_000).is_empty());
}

#[test]
fn bytes_of_a_connection_are_booked_in_batches() {
    let mut stats = SplitStats::new(0);
    let id = stats.conn_open("h", 0);
    let mut meter = ConnMeter { id, pending: 0, since: 0 };
    meter.add(&mut stats, 1000, 1);
    assert_eq!((meter.pending, stats.conns[0].downloaded), (1000, 0));
    meter.add(&mut stats, 64 * 1024, 2);
    assert_eq!((meter.pending, stats.conns[0].downloaded), (0, 66_536));
    meter.add(&mut stats, 1, 3);
    meter.flush(&mut stats, 4);
    assert_eq!(stats.conns[0].downloaded, 66_537);
}

#[test]
fn pieces_show_what_is_on_disk() {
    let mut p = PieceTrack::new(250, 100);
    assert_eq!((p.num_pieces(), p.piece_len()), (3, 100));
    p.add_range(0, 150);
    assert_eq!(p.bitfield(), vec![0b1000_0000]);
    assert_eq!(p.partial_bitfield(), vec![0b0100_0000]);
    p.add_range(150, 100);
    assert_eq!(p.bitfield(), vec![0b1110_0000]);
    let s = p.snapshot();
    assert_eq!((s.piece_len, s.num_pieces, s.bitfield), (100, 3, vec![0b1110_0000]));
}

#[test]
fn endless_short_reads_fail_in_the_end() {
    let mut w = WorkerState::new();
    for n in 1..32u32 {
        match w.after_segment(Err(HttpError::ShortRead)) {
            WorkerStep::Retry { .. } => {}
            _ => panic!("short read {n} is forgiven"),
        }
    }
    assert!(matches!(
        w.after_segment(Err(HttpError::ShortRead)),
        WorkerStep::Fatal(HttpError::ShortRead)
    ));
    let mut w = WorkerState::new();
    assert!(matches!(
        w.after_segment(Err(HttpError::NotSplittable("x".to_string()))),
        WorkerStep::Fatal(HttpError::NotSplittable(_))
    ));
}

#[test]
fn ranges_are_asked_for_and_cut_at_their_end() {
    assert_eq!(request_range(100, 200), Some((100, 199)));
    assert_eq!(request_range(200, 200), None);
    let mut run = SegmentRun::new(100, 0);
    let p = run.on_chunk(60, 200, 1);
    assert_eq!((p.offset, p.take, p.stop), (100, 60, false));
    assert!(matches!(run.finish(200), Err(HttpError::ShortRead)));
    let p = run.on_chunk(60, 200, 2);
    assert_eq!((p.offset, p.take, p.stop), (160, 40, true));
    assert!(run.finish(200).is_ok());
}

#[test]
fn pieces_are_shown_finely_for_small_files() {
    assert_eq!(display_piece_len(4 << 20, 1 << 20), 64 * 1024);
    assert_eq!(display_piece_len(4 << 20, 1 << 30), 512 * 1024);
    assert_eq!(display_piece_len(4 << 20, 1 << 40), 4 << 20);
}

#[test]
fn split_requests_carry_custom_headers() {
    let lines: Vec<String> = [
        "Referer: https://example.com/page",
        "Cookie: sid=1",
        "User-Agent: LerxuTest/1.0",
        "Range: bytes=0-1",
    ]
    .iter()
    .map(|s| s.to_string())
    .collect();
    let mut opts = options(3, 32 * 1024);
    opts.headers = parse_header_lines(&lines);
    let want = vec![
        ("Referer".to_string(), "https://example.com/page".to_string()),
        ("Cookie".to_string(), "sid=1".to_string()),
        ("User-Agent".to_string(), "LerxuTest/1.0".to_string()),
    ];
    assert_eq!(opts.headers, want);
    let w = start("http://x/file.bin", 256 * 1024, &opts);
    assert_eq!(w.opts.headers, want);
    assert!(w.segs.len() >= 2);

    let odd: Vec<String> =
        ["no colon", ": empty", "Bad Name: x", "hOsT: h", "X-A:  a:b ", "X-B: a\u{1}"]
            .iter()
            .map(|s| s.to_string())
            .collect();
    assert_eq!(parse_header_lines(&odd), vec![("X-A".to_string(), "a:b".to_string())]);
}

#[test]
fn an_ended_request_is_not_counted() {
    let mut stats = SplitStats::new(0);
    let mut a = stats.begin_request("h", 0).unwrap_or_else(|| panic!("a number is left"));
    let b = stats.begin_request("h", 0).unwrap_or_else(|| panic!("a number is left"));
    assert_eq!(stats.connections, 2);
    assert_ne!(a.id, b.id);
    a.add(&mut stats, 5, 1);
    assert_eq!(stats.conns[0].downloaded, 0);
    stats.end_request(&a, 2);
    assert_eq!(stats.connections, 1);
    assert_eq!(stats.conns[0].downloaded, 5);
    assert!(!stats.conns[0].active);
    stats.end_request(&b, 3);
    assert_eq!(stats.connections, 0);
    stats.next_conn_id = u64::MAX;
    assert!(stats.begin_request("h", 4).is_none());
    assert!(stats.has_room(1, u64::MAX - 5));
    assert!(!stats.has_room(1, u64::MAX));
}

#[test]
fn ranges_add_up() {
    let mut a = PieceTrack::new(100, 10);
    let mut b = PieceTrack::new(100, 10);
    a.add_range(5, 20);
    a.add_range(25, 8);
    b.add_range(5, 28);
    assert_eq!(a.bitfield(), b.bitfield());
    assert_eq!(a.partial_bitfield(), b.partial_bitfield());
    assert_eq!(a.bitfield(), vec![0b0110_0000, 0]);
    b.add_range(40, 0);
    b.add_range(100, 7);
    assert_eq!(a.bitfield(), b.bitfield());
    assert_eq!(a.partial_bitfield(), b.partial_bitfield());
}

#[test]
fn any_least_size_is_taken() {
    let opts = options(2, u64::MAX);
    let mut w = start("http://x/f.bin", 500 * MB, &opts);
    w.segs[0].queued = false;
    assert!(w.try_steal(0).is_none());
    assert_eq!(w.segs.len(), 1);
}
