//! Playlists: parsing, names, fingerprints, decryption and the course of a download.

use aes::cipher::{BlockEncryptMut, KeyIvInit};
use xfer::errors::HttpError;
use xfer::estimate::{estimate_total, measure_total, parse_durations, parse_seconds};
use xfer::manifest::{
    attr, choose_variant, is_master, iv_from_sequence, parse_attributes, parse_iv, parse_variants,
};
use xfer::media::{parse_media, Segment};
use xfer::playlist::{
    check_body, check_key, check_manifest_len, decrypt_segment, default_filename, fingerprint,
    goes_on_probing, load_ctrl, on_init_probe, on_segment_probes, parent_part, part_answer,
    part_range, prefix_pieces, probe_concurrency, probe_segment_sizes, resume_held, resume_point,
    segment_range, segment_retry, sum_sizes, unknown_sizes, worth_probing, PartAnswer, PlanSearch,
    PlaylistBegin, PlaylistCtrl, PlaylistPlan, PlaylistRun,
};

const BASE: &str = "https://cdn.example.com/videos/abc/index.m3u8";

#[test]
fn parses_attributes_with_quotes() {
    let a = parse_attributes(
        r#"BANDWIDTH=800000,RESOLUTION=1280x720,CODECS="avc1,mp4a",NAME="中 文""#,
    );
    assert_eq!(attr(&a, "BANDWIDTH").map(|s| s.as_str()), Some("800000"));
    assert_eq!(attr(&a, "RESOLUTION").map(|s| s.as_str()), Some("1280x720"));
    assert_eq!(attr(&a, "CODECS").map(|s| s.as_str()), Some("avc1,mp4a"));
    assert_eq!(attr(&a, "NAME").map(|s| s.as_str()), Some("中 文"));
}

#[test]
fn parses_media_segments_with_map_and_byterange() {
    let text = "\u{feff}#EXTM3U\n#EXT-X-TARGETDURATION:10\n#EXT-X-MEDIA-SEQUENCE:3\n\
                #EXT-X-MAP:URI=\"init.mp4\",BYTERANGE=\"720@0\"\n\
                #EXTINF:9.0,\nseg0.m4s\n#EXTINF:9.0,\nseg1.m4s\n\
                #EXT-X-BYTERANGE:1000@0\n#EXTINF:1.0,\nsub.ts\n\
                #EXT-X-BYTERANGE:500\n#EXTINF:1.0,\nsub.ts\n#EXT-X-ENDLIST\n";
    let m = parse_media(text, BASE).unwrap();
    assert!(!m.live);
    let init = m.init.unwrap();
    assert_eq!(init.url, "https://cdn.example.com/videos/abc/init.mp4");
    assert_eq!(init.range, Some((0, 720)));
    assert_eq!(m.segments.len(), 4);
    assert_eq!(m.segments[0].url, "https://cdn.example.com/videos/abc/seg0.m4s");
    assert_eq!(m.segments[0].size, None);
    assert_eq!(m.segments[2].range, Some((0, 1000)));
    assert_eq!(m.segments[3].range, Some((1000, 500)));
    assert_eq!(m.segments[3].size, Some(500));
}

#[test]
fn parses_aes128_key_with_iv_rotation() {
    let text = "#EXTM3U\n#EXT-X-MEDIA-SEQUENCE:7\n\
                #EXT-X-KEY:METHOD=AES-128,URI=\"key.bin\",IV=0x00000000000000000000000000000007\n\
                #EXTINF:4,\na.ts\n#EXT-X-KEY:METHOD=AES-128,URI=\"../k2.bin\"\n\
                #EXTINF:4,\nb.ts\n#EXT-X-KEY:METHOD=NONE\n#EXTINF:4,\nc.ts\n#EXT-X-ENDLIST\n";
    let m = parse_media(text, BASE).unwrap();
    let k0 = m.segments[0].key.as_ref().unwrap();
    assert_eq!(k0.url, "https://cdn.example.com/videos/abc/key.bin");
    assert_eq!(k0.iv, iv_from_sequence(7));
    let k1 = m.segments[1].key.as_ref().unwrap();
    assert_eq!(k1.url, "https://cdn.example.com/videos/k2.bin");
    assert_eq!(k1.iv, iv_from_sequence(8));
    assert!(m.segments[2].key.is_none());
}

#[test]
fn rejects_sample_aes() {
    let text =
        "#EXTM3U\n#EXT-X-KEY:METHOD=SAMPLE-AES,URI=\"k\"\n#EXTINF:4,\na.ts\n#EXT-X-ENDLIST\n";
    assert!(parse_media(text, BASE).is_err());
}

#[test]
fn master_playlist_picks_highest_bandwidth() {
    let text = "#EXTM3U\n\
        #EXT-X-STREAM-INF:BANDWIDTH=500000,RESOLUTION=640x360\nlow.m3u8\n\
        #EXT-X-STREAM-INF:BANDWIDTH=2000000,RESOLUTION=1920x1080\nhigh.m3u8\n\
        #EXT-X-STREAM-INF:BANDWIDTH=2000000,RESOLUTION=1280x720\nmid.m3u8\n";
    assert!(is_master(text));
    let v = parse_variants(text, BASE);
    assert_eq!(v.len(), 3);
    let best = choose_variant(&v, false).unwrap();
    assert!(v[best].url.ends_with("high.m3u8"));
    let worst = choose_variant(&v, true).unwrap();
    assert!(v[worst].url.ends_with("low.m3u8"));
}

#[test]
fn default_filename_uses_parent_dir_for_generic_stems() {
    assert_eq!(
        default_filename(
            "index.m3u8",
            &parent_part("https://x/videos/my_movie/index.m3u8?t=1"),
            false
        ),
        "my_movie.ts"
    );
    assert_eq!(
        default_filename("episode01.m3u8", &parent_part("https://x/a/episode01.m3u8"), true),
        "episode01.mp4"
    );
    assert_eq!(parent_part("https://x/%E4%B8%AD%E6%96%87/index.m3u8"), "%E4%B8%AD%E6%96%87");
    assert_eq!(default_filename("index.m3u8", "中文", false), "中文.ts");
}

fn plan(url: &str) -> PlaylistPlan {
    PlaylistPlan {
        source: "https://x/i.m3u8".to_string(),
        chain: vec![],
        init: None,
        segments: vec![Segment { url: url.to_string(), range: None, key: None, size: None }],
        live: true,
        fmp4: false,
        total: None,
    }
}

#[test]
fn fingerprint_changes_with_segment_list() {
    assert_eq!(fingerprint(&plan("a.ts")), fingerprint(&plan("a.ts")));
    assert_ne!(fingerprint(&plan("a.ts")), fingerprint(&plan("b.ts")));
}

#[test]
fn fingerprint_is_hexadecimal_text() {
    let mark = fingerprint(&plan("a.ts"));
    assert_eq!(mark, "0d18d4eb377a2141");
}

#[test]
fn iv_parsing_is_right_aligned() {
    assert_eq!(parse_iv("0x01"), Some(iv_from_sequence(1)));
    let mut v = [0u8; 16];
    v[15] = 0xff;
    assert_eq!(parse_iv("ff"), Some(v));
    assert_eq!(parse_iv("0xabc"), None);
    assert_eq!(parse_iv(""), None);
}

#[test]
fn aes128_cbc_roundtrip() {
    let key = [7u8; 16];
    let iv = iv_from_sequence(42);
    let plain = b"hello hls segment payload".to_vec();
    let mut buf = vec![0u8; plain.len() + 16];
    buf[..plain.len()].copy_from_slice(&plain);
    let enc = cbc::Encryptor::<aes::Aes128>::new(&key.into(), &iv.into());
    let ct = enc
        .encrypt_padded_mut::<aes::cipher::block_padding::Pkcs7>(&mut buf, plain.len())
        .unwrap()
        .to_vec();
    assert_ne!(ct, plain);
    let key = key.to_vec();
    assert_eq!(decrypt_segment(&key, &iv, &ct).unwrap(), plain);
    assert!(decrypt_segment(&key, &iv, &ct[..ct.len() - 1].to_vec()).is_err());
}

#[test]
fn a_master_playlist_leads_to_its_best_variant() {
    let mut search = PlanSearch::new("https://x/show/master.m3u8");
    assert_eq!(search.next_request().unwrap(), "https://x/show/master.m3u8");
    let step = search
        .on_manifest(
            "#EXTM3U\n#EXT-X-STREAM-INF:BANDWIDTH=1\nlo/index.m3u8\n\
             #EXT-X-STREAM-INF:BANDWIDTH=2\nhi/index.m3u8\n",
            "https://x/show/master.m3u8",
            false,
        )
        .unwrap();
    assert!(step.is_none());
    assert_eq!(search.next_request().unwrap(), "https://x/show/hi/index.m3u8");
    let plan = search
        .on_manifest(
            "#EXTM3U\n#EXTINF:1,\ns1.ts\n#EXTINF:1,\ns2.ts\n#EXT-X-ENDLIST\n",
            "https://x/show/hi/index.m3u8",
            false,
        )
        .unwrap()
        .expect("a media playlist ends the search");
    assert_eq!(plan.segments.len(), 2);
    assert_eq!(plan.segments[1].url, "https://x/show/hi/s2.ts");
    assert!(!plan.live);
}

#[test]
fn a_body_that_is_no_playlist_is_told_apart() {
    let mut search = PlanSearch::new("https://x/a.m3u8");
    let r = search.on_manifest("<html></html>", "https://x/a.m3u8", false);
    assert!(matches!(r, Err(HttpError::NotPlaylist)));
}

#[test]
fn sizes_add_up_only_if_all_are_known() {
    let mut p = plan("a.ts");
    assert_eq!(sum_sizes(&p), None);
    p.segments[0].size = Some(7);
    assert_eq!(sum_sizes(&p), Some(7));
}

#[test]
fn a_short_body_and_retries() {
    assert!(check_body(Some(10), 10).is_ok());
    assert!(check_body(Some(10), 9).is_err());
    assert!(check_body(None, 9).is_ok());
    assert!(segment_retry(1, 3, true).is_some());
    assert!(segment_retry(3, 3, true).is_none());
    assert!(segment_retry(1, 3, false).is_none());
}

fn begin_at(p: &PlaylistPlan, resume: (u64, usize), held: Vec<u64>) -> PlaylistBegin {
    PlaylistRun::start(p, resume, held, 65_536).unwrap_or_else(|_| panic!("a plan with segments"))
}

fn begin(p: &PlaylistPlan) -> PlaylistRun {
    begin_at(p, (0, 0), vec![0; p.segment_count()]).run
}

fn ctrl_for(p: &PlaylistPlan, prefix: usize, bytes: u64) -> PlaylistCtrl {
    begin(p).ctrl_of(prefix, bytes)
}

#[test]
fn a_resume_needs_the_same_playlist_and_enough_data() {
    let p = plan("a.ts");
    let c = ctrl_for(&p, 1, 100);
    assert!(load_ctrl(Some(c), &plan("b.ts")).is_none());
    let c = ctrl_for(&p, 1, 100);
    let kept = load_ctrl(Some(c), &p);
    assert!(kept.is_some());
    assert_eq!(resume_point(kept, Some(100), &p), (100, 1));
    let c = load_ctrl(Some(ctrl_for(&p, 1, 100)), &p);
    assert_eq!(resume_point(c, Some(99), &p), (0, 0));
    assert_eq!(resume_point(None, Some(100), &p), (0, 0));
}

fn media_playlist(names: &[&str]) -> String {
    let mut s = String::from("#EXTM3U\n#EXT-X-TARGETDURATION:4\n");
    for n in names {
        s.push_str(&format!("#EXTINF:4.0,\n{n}\n"));
    }
    s.push_str("#EXT-X-ENDLIST\n");
    s
}

fn plan_of(names: &[&str]) -> PlaylistPlan {
    let mut search = PlanSearch::new("https://h/m/index.m3u8");
    match search.on_manifest(&media_playlist(names), "https://h/m/index.m3u8", false) {
        Ok(Some(p)) => p,
        _ => panic!("a media playlist"),
    }
}

#[test]
fn downloads_segments_in_order_with_known_total() {
    let mut plan = plan_of(&["s1.ts", "s2.ts", "s3.ts", "s4.ts"]);
    let lens: Vec<u64> = (1..=4).map(|i| 32 * 1024 + i).collect();
    let expected: u64 = lens.iter().sum();
    let unknown = unknown_sizes(&plan);
    assert_eq!(unknown, vec![0, 1, 2, 3]);
    assert!(worth_probing(unknown.len()));
    assert_eq!(probe_concurrency(4), 4);
    let probes: Vec<Option<(bool, Option<u64>)>> = lens.iter().map(|n| Some((true, Some(*n)))).collect();
    assert!(probes.iter().all(|p| goes_on_probing(*p)));
    probe_segment_sizes(&mut plan, None, &probes);
    assert_eq!(sum_sizes(&plan), plan.total);
    assert_eq!(plan.total, Some(expected));
    assert_eq!(plan.segment_count(), 4);
    assert!(!plan.fmp4);

    let first = begin_at(&plan, (0, 0), vec![0; 4]);
    assert_eq!(first.keep, None);
    let mut run = first.run;
    let mut position = 0;
    for n in &lens {
        position += n;
        run.on_written(position, 0);
    }
    let end = run.finish(Ok(()), None);
    match end.result {
        Ok(d) => assert_eq!((d.bytes, d.segments, d.total_segments), (expected, 4, 4)),
        Err(_) => panic!("all segments are there"),
    }
    assert_eq!(run.stats.completed, expected);
    assert!(end.remove_ctrl);
    assert!(end.save.is_none());
}

#[test]
fn resumes_from_durable_prefix_after_failure() {
    let plan = plan_of(&["s1.ts", "s2.ts", "s3.ts", "s4.ts"]);
    let len = 24 * 1024u64;
    let mut run = begin(&plan);
    assert!(run.on_written(len, 0));
    run.on_flushed(0);
    assert!(!run.on_written(2 * len, 1));
    // The third segment fails as often as the budget allows.
    assert_eq!(segment_retry(1, 3, true), Some(400));
    assert_eq!(segment_retry(2, 3, true), Some(800));
    assert_eq!(segment_retry(3, 3, true), None);
    let end = run.finish(Ok(()), Some(HttpError::Http(500)));
    assert!(matches!(end.result, Err(HttpError::Http(500))));
    assert!(!end.remove_ctrl);
    let kept = load_ctrl(end.save, &plan);
    let resume = resume_point(kept, Some(2 * len), &plan);
    assert_eq!(resume, (2 * len, 2));

    let again = begin_at(&plan, resume, vec![0; 4]);
    assert_eq!(again.keep, Some(2 * len));
    assert_eq!((again.mark.prefix, again.mark.bytes), (2, 2 * len));
    let mut run = again.run;
    assert_eq!(run.stats.completed, 2 * len);
    run.on_written(3 * len, 0);
    run.on_written(4 * len, 0);
    let end = run.finish(Ok(()), None);
    assert!(matches!(end.result, Ok(d) if d.bytes == 4 * len));
    assert!(end.remove_ctrl);
}

#[test]
fn changed_playlist_invalidates_prefix() {
    let a = plan_of(&["a.ts"]);
    let b = plan_of(&["a.ts", "b.ts"]);
    let kept = load_ctrl(Some(ctrl_for(&a, 1, 8 * 1024)), &b);
    assert_eq!(resume_point(kept, Some(8 * 1024), &b), (0, 0));
}

#[test]
fn an_unfinished_playlist_is_a_failure() {
    let plan = plan_of(&["a.ts", "b.ts"]);
    let mut run = begin(&plan);
    run.on_written(10, 0);
    match run.finish(Ok(()), None).result {
        Err(HttpError::Protocol(m)) => assert_eq!(m, "播放列表未下载完整: 1/2 段"),
        _ => panic!("one segment is missing"),
    }
    match run.finish(Err("disk full".to_string()), None).result {
        Err(HttpError::Io(m)) => assert_eq!(m, "disk full"),
        _ => panic!("the file could not be written"),
    }
}

#[test]
fn a_playlist_address_must_be_valid() {
    let mut search = PlanSearch::new("nowhere");
    match search.on_manifest("#EXTM3U\n", "also nowhere", false) {
        Err(HttpError::Protocol(m)) => {
            assert_eq!(m, "清单地址非法: relative URL without a base")
        }
        _ => panic!("no base address"),
    }
}

#[test]
fn playlists_nest_only_so_deep() {
    let mut search = PlanSearch::new("https://h/0.m3u8");
    let master = "#EXTM3U\n#EXT-X-STREAM-INF:BANDWIDTH=1\nnext.m3u8\n";
    for _ in 0..3 {
        assert!(search.next_request().is_ok());
        assert!(matches!(search.on_manifest(master, "https://h/0.m3u8", false), Ok(None)));
    }
    match search.next_request() {
        Err(HttpError::Protocol(m)) => assert_eq!(m, "播放列表层级过深（主清单嵌套超过 3 层）"),
        _ => panic!("too deep"),
    }
}

#[test]
fn keys_and_manifests_have_sane_lengths() {
    assert!(check_key(vec![]).is_err());
    assert!(check_key(vec![0; 16]).is_ok());
    assert!(check_manifest_len(8 * 1024 * 1024).is_ok());
    assert!(check_manifest_len(8 * 1024 * 1024 + 1).is_err());
    assert_eq!(segment_range(Some((100, 50))), Some((100, 149)));
    assert_eq!(segment_range(None), None);
    match decrypt_segment(&vec![1; 15], &[0; 16], &vec![0; 16]) {
        Err(HttpError::Protocol(m)) => assert_eq!(m, "AES-128 密钥长度应为 16 字节，实际 15"),
        _ => panic!("a short key"),
    }
    match decrypt_segment(&vec![1; 16], &[0; 16], &vec![0; 16]) {
        Err(HttpError::Protocol(m)) => assert_eq!(m, "AES-128 解密失败: Unpad Error"),
        _ => panic!("malformed padding"),
    }
}

#[test]
fn a_server_that_ignores_ranges_leaves_the_total_unknown() {
    let mut plan = plan_of(&["s1.ts", "s2.ts"]);
    let ids = unknown_sizes(&plan);
    let ignored: Option<(bool, Option<u64>)> = Some((false, Some(10)));
    assert!(!goes_on_probing(ignored));
    assert!(goes_on_probing(None));
    assert!(goes_on_probing(Some((true, None))));
    on_segment_probes(&mut plan, &ids, &vec![ignored, Some((false, Some(20)))]);
    assert_eq!(plan.total, None);
    assert!(plan.segments.iter().all(|s| s.size.is_none()));
    // Probing ended at the second answer.
    on_segment_probes(&mut plan, &ids, &vec![Some((true, Some(10))), ignored]);
    assert_eq!(plan.total, None);
    probe_segment_sizes(&mut plan, None, &vec![ignored]);
    assert_eq!(plan.total, None);
    assert!(plan.segments.iter().all(|s| s.size.is_none()));
    on_segment_probes(&mut plan, &ids, &vec![Some((true, Some(10))), Some((true, Some(20)))]);
    assert_eq!(plan.total, Some(30));
    // A failed probe, and one that names no length or zero, leave the total unknown too.
    on_segment_probes(&mut plan, &ids, &vec![Some((true, Some(10))), None]);
    assert_eq!(plan.total, None);
    on_segment_probes(&mut plan, &ids, &vec![Some((true, Some(0))), Some((true, None))]);
    assert_eq!(plan.total, None);
}

#[test]
fn the_initialisation_part_is_probed_first() {
    let mut plan = plan_of(&["s1.ts"]);
    plan.init = Some(Segment {
        url: "https://h/m/init.mp4".to_string(),
        range: None,
        key: None,
        size: None,
    });
    assert!(!on_init_probe(&mut plan, Some((false, Some(5)))));
    assert_eq!(plan.total, None);
    probe_segment_sizes(&mut plan, Some((false, Some(5))), &vec![]);
    assert_eq!(plan.total, None);
    probe_segment_sizes(&mut plan, Some((true, Some(5))), &vec![Some((true, Some(7)))]);
    assert_eq!(plan.total, Some(12));
}

#[test]
fn hls_progress_advances_while_head_segment_is_slow() {
    let names: Vec<String> = (1..=6).map(|i| format!("seg{i}.ts")).collect();
    let refs: Vec<&str> = names.iter().map(|n| n.as_str()).collect();
    let plan = plan_of(&refs);
    let mut run = begin(&plan);
    let seg = 512 * 1024u64;
    let mut last = 0;
    // The first segment trickles in while the two behind it become whole.
    for step in 1..=10u64 {
        run.on_part(0, step * 16 * 1024);
        if step == 3 {
            run.on_part(2, seg);
            run.on_whole(2);
        }
        if step == 5 {
            run.on_part(1, seg);
            run.on_whole(1);
        }
        assert!(run.stats.completed > last);
        last = run.stats.completed;
        assert_eq!((run.written, run.base, run.next_join()), (0, 0, None));
    }
    assert_eq!(run.stats.completed, 160 * 1024 + 2 * seg);
    // Once the first is whole, three are joined in order; progress stays what is on disk.
    run.on_part(0, seg);
    run.on_whole(0);
    for i in 0..3u64 {
        assert_eq!(run.next_join(), Some(i as usize));
        run.on_written((i + 1) * seg, 0);
        assert_eq!(run.stats.completed, 3 * seg);
    }
    assert_eq!((run.next_join(), run.spilled), (None, 0));
}

#[test]
fn hls_pause_resume_continues_within_segment() {
    let mut plan = plan_of(&["seg1.ts", "seg2.ts", "seg3.ts", "seg4.ts"]);
    let seg_len = 256 * 1024u64;
    let part = 96 * 1024u64;
    let mut run = begin(&plan);
    run.on_part(0, seg_len);
    run.on_whole(0);
    run.on_written(seg_len, 0);
    run.on_part(1, part);
    let mark = || run.finish(Ok(()), Some(HttpError::Cancelled)).save;
    assert!(matches!(
        run.finish(Ok(()), Some(HttpError::Cancelled)).result,
        Err(HttpError::Cancelled)
    ));
    let disk = Some(seg_len);
    let found = vec![0, part, 0, 0];
    assert_eq!(resume_point(mark(), disk, &plan), (seg_len, 1));
    assert_eq!(resume_held(mark(), disk, &found, &plan), found);
    let again = begin_at(&plan, (seg_len, 1), found.clone());
    assert_eq!(again.keep, disk);
    assert_eq!(again.run.stats.completed, seg_len + part);
    assert_eq!(part_range(plan.segments[1].range, again.run.held[1]), Some((part, None)));
    // The same of an encrypted segment: its file holds what was sent.
    plan.segments[1].key = Some(xfer::media::SegmentKey { url: "k".to_string(), iv: [0; 16] });
    let mark = begin(&plan).ctrl_of(1, seg_len);
    assert_eq!(resume_held(Some(mark), disk, &found, &plan), found);
}

#[test]
fn hls_resume_does_not_rewind_progress() {
    let names: Vec<String> = (1..=12).map(|i| format!("seg{i}.ts")).collect();
    let refs: Vec<&str> = names.iter().map(|n| n.as_str()).collect();
    let plan = plan_of(&refs);
    let seg_len = 96 * 1024u64;
    let mut run = begin(&plan);
    run.on_part(0, 8 * 1024);
    for i in 1..8 {
        run.on_part(i, seg_len);
        run.on_whole(i);
    }
    let paused = run.stats.completed;
    assert_eq!(paused, 8 * 1024 + 7 * seg_len);
    let mark = run.finish(Ok(()), Some(HttpError::Cancelled)).save;
    let mark = || mark.as_ref().map(|c| run.ctrl_of(c.prefix, c.bytes));
    let held = resume_held(mark(), Some(0), &run.held, &plan);
    assert_eq!(held, run.held);
    let resume = resume_point(mark(), Some(0), &plan);
    let mut again = begin_at(&plan, resume, held).run;
    assert_eq!(again.stats.completed, paused);
    // The first segment goes on, the others are found whole.
    again.on_part(0, seg_len);
    for i in 0..8 {
        again.on_whole(i);
    }
    let mut last = paused;
    let mut position = 0;
    while again.next_join().is_some() {
        position += seg_len;
        again.on_written(position, 0);
        assert!(again.stats.completed >= last);
        last = again.stats.completed;
    }
    assert_eq!((again.written, again.stats.completed), (8, 8 * seg_len));
}

#[test]
fn only_parts_of_this_playlist_are_kept() {
    let mut plan = plan_of(&["a.ts", "b.ts", "c.ts"]);
    let found = vec![5, 6, 7];
    assert_eq!(resume_held(None, None, &found, &plan), vec![0, 0, 0]);
    let other = plan_of(&["a.ts", "b.ts", "d.ts"]);
    assert_eq!(resume_held(Some(ctrl_for(&other, 0, 0)), None, &found, &plan), vec![0, 0, 0]);
    assert_eq!(resume_held(Some(ctrl_for(&plan, 0, 0)), None, &found, &plan), found);
    // A joined part is not held, nor one that is too large, nor one without a file.
    let joined = Some(ctrl_for(&plan, 1, 100));
    assert_eq!(resume_held(joined, Some(100), &found, &plan), vec![0, 6, 7]);
    plan.segments[1].size = Some(5);
    assert_eq!(resume_held(Some(ctrl_for(&plan, 0, 0)), None, &found, &plan), vec![5, 0, 7]);
    assert_eq!(resume_held(Some(ctrl_for(&plan, 0, 0)), None, &vec![5], &plan), vec![5, 0, 0]);
    let huge = vec![u64::MAX, 0, 1];
    assert_eq!(resume_held(Some(ctrl_for(&plan, 0, 0)), None, &huge, &plan), vec![0, 0, 0]);
}

#[test]
fn a_record_without_a_whole_part_is_shown_first() {
    let plan = plan_of(&["a.ts", "b.ts"]);
    let first = begin_at(&plan, (700, 0), vec![0, 30]);
    assert_eq!(first.keep, None);
    let mut run = first.run;
    assert_eq!(run.stats.completed, 730);
    assert_eq!((run.base, run.written), (0, 0));
    run.on_part(0, 10);
    assert_eq!(run.stats.completed, 40);
}

#[test]
fn a_failed_flush_saves_only_what_was_safe() {
    let plan = plan_of(&["a.ts", "b.ts", "c.ts"]);
    let mut run = begin(&plan);
    run.on_written(100, 0);
    run.on_part(1, 30);
    let first = run.on_flushed(0);
    assert_eq!((first.prefix, first.bytes), (1, 100));
    run.on_written(200, 1);
    let mark = run.finish(Err("disk full".to_string()), None).save.unwrap_or_else(|| panic!("a mark"));
    assert_eq!((mark.prefix, mark.bytes), (1, 100));
}

#[test]
fn the_rest_of_a_segment_is_asked_for() {
    assert_eq!(part_range(None, 0), None);
    assert_eq!(part_range(None, 7), Some((7, None)));
    assert_eq!(part_range(Some((1000, 500)), 0), Some((1000, Some(1499))));
    assert_eq!(part_range(Some((1000, 500)), 20), Some((1020, Some(1499))));
    assert_eq!(part_answer(None, 0, 200), PartAnswer::Body { skip: 0 });
    assert_eq!(part_answer(None, 7, 206), PartAnswer::Body { skip: 0 });
    assert_eq!(part_answer(None, 7, 200), PartAnswer::Body { skip: 7 });
    assert_eq!(part_answer(None, 7, 416), PartAnswer::Complete);
    assert_eq!(part_answer(Some((0, 9)), 7, 200), PartAnswer::Unusable);
    assert_eq!(part_answer(Some((0, 9)), 7, 206), PartAnswer::Body { skip: 0 });
}

#[test]
fn a_playlist_shows_its_pieces() {
    let mut plan = plan_of(&["s1.ts", "s2.ts"]);
    let mut run = begin(&plan);
    run.attach_pieces(plan.total);
    assert!(run.pieces.is_none());
    plan.total = Some(4 * 65_536);
    run.attach_pieces(plan.total);
    let shown = |r: &PlaylistRun| r.pieces.as_ref().map(|p| (p.num_pieces(), p.bitfield()));
    assert_eq!(shown(&run), Some((4, vec![0])));
    run.on_part(1, 65_536 + 10);
    assert_eq!(shown(&run), Some((4, vec![0b1000_0000])));
    assert_eq!(run.pieces.as_ref().map(|p| p.partial_bitfield()), Some(vec![0b0100_0000]));
    run.on_part(0, 2 * 65_536);
    run.on_written(2 * 65_536, 0);
    run.on_written(4 * 65_536, 0);
    assert_eq!(shown(&run), Some((4, vec![0b1111_0000])));
    assert_eq!(prefix_pieces(9 * 65_536, 65_536, 8 * 65_536).bitfield(), vec![0xff, 0]);
}

#[test]
fn hls_exposes_piece_bitfield_for_unknown_total() {
    let names: Vec<String> = (1..=40).map(|i| format!("s{i}.ts")).collect();
    let refs: Vec<&str> = names.iter().map(|n| n.as_str()).collect();
    let seg_bytes = 64 * 1024u64;
    let mut search = PlanSearch::new("https://h/m/master.m3u8");
    let master = "#EXTM3U\n#EXT-X-STREAM-INF:BANDWIDTH=800000\nv1.m3u8\n";
    assert!(matches!(search.on_manifest(master, "https://h/m/master.m3u8", false), Ok(None)));
    assert_eq!(search.bandwidth, 800_000);
    let plan = match search.on_manifest(&media_playlist(&refs), "https://h/m/v1.m3u8", false) {
        Ok(Some(p)) => p,
        _ => panic!("a media playlist"),
    };
    assert_eq!(plan.total, None);
    // 800000 bits per second over 40 segments of four seconds.
    assert_eq!(search.durations, vec![4000; 40]);
    let expected = search.expected_total(&plan);
    assert_eq!(expected, Some(16_000_000));

    let mut run = begin(&plan);
    run.attach_pieces(expected);
    let lit = |r: &PlaylistRun| {
        r.pieces.as_ref().map_or(0, |p| p.bitfield().iter().map(|b| b.count_ones()).sum())
    };
    assert_eq!(run.stats.completed, 0);
    assert!(run.pieces.as_ref().is_some_and(|p| p.num_pieces() > 1));
    assert_eq!(lit(&run), 0);
    let mut last: u32 = 0;
    for i in 0..40 {
        run.on_part(i, seg_bytes);
        run.on_whole(i);
        run.on_written((i as u64 + 1) * seg_bytes, 0);
        assert!(lit(&run) >= last);
        last = lit(&run);
    }
    assert!(last > 0);
    let end = run.finish(Ok(()), None);
    let pieces = end.pieces.unwrap_or_else(|| panic!("the map of the finished file"));
    assert_eq!((pieces.total, pieces.num_pieces()), (40 * seg_bytes, 40));
    assert_eq!(pieces.bitfield(), vec![0xff; 5]);
}

#[test]
fn a_playlist_without_a_bandwidth_is_measured() {
    let plan = plan_of(&["a.ts", "b.ts", "c.ts", "d.ts"]);
    let mut run = begin(&plan);
    run.attach_pieces(None);
    run.on_part(0, 65_536);
    assert!(run.pieces.is_none());
    run.on_written(65_536, 0);
    let shown = |r: &PlaylistRun| r.pieces.as_ref().map(|p| (p.total, p.num_pieces(), p.bitfield()));
    assert_eq!(shown(&run), Some((4 * 65_536, 4, vec![0b1000_0000])));
    run.on_part(2, 65_536);
    assert_eq!(shown(&run), Some((4 * 65_536, 4, vec![0b1100_0000])));
    assert_eq!(measure_total(0, 1, 4), None);
    assert_eq!(measure_total(10, 0, 4), None);
    assert_eq!(measure_total(10, 3, 4), Some(13));
    assert_eq!(measure_total(u64::MAX, 1, 2), Some(u64::MAX));
}

#[test]
fn playing_times_are_read() {
    let seconds = |t: &str| parse_seconds(&t.chars().collect::<Vec<char>>());
    assert_eq!(seconds("4"), Some(4000));
    assert_eq!(seconds("9.009"), Some(9009));
    assert_eq!(seconds("0.5"), Some(500));
    assert_eq!(seconds("1.23456"), Some(1234));
    assert_eq!(seconds("4."), Some(4000));
    assert_eq!(seconds(".5"), None);
    assert_eq!(seconds("-1"), None);
    assert_eq!(seconds("1.x"), None);
    assert_eq!(seconds("4294967296"), None);
    let text = "#EXTM3U\n#EXTINF:4.0,\na.ts\n#EXTINF: 2.5 ,title, more\r\nb.ts\n#EXTINF:x,\nc.ts\n";
    assert_eq!(parse_durations(text), vec![4000, 2500, 0]);
    assert_eq!(estimate_total(800_000, &vec![4000; 40]), Some(16_000_000));
    assert_eq!(estimate_total(0, &vec![4000]), None);
    assert_eq!(estimate_total(800_000, &vec![]), None);
    assert_eq!(estimate_total(u64::MAX, &vec![u64::MAX, u64::MAX]), Some(u64::MAX));
    let search = PlanSearch::new("https://h/index.m3u8");
    let mut plan = plan_of(&["a.ts"]);
    assert_eq!(search.expected_total(&plan), None);
    plan.total = Some(7);
    assert_eq!(search.expected_total(&plan), Some(7));
}
