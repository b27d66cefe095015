//! What clients find in the answers about tasks.

use vstd::prelude::*;

use crate::json::{signed_view, JsonView};
use crate::lists::unique_keys;
use crate::manager::TaskManager;
use crate::native::{error_params, progress_params};
use crate::outside::hex_text;
use crate::queries::{speed_sum, stat_view, GlobalStat};
use crate::session::lemma_field;
use crate::status::{
    file_view, files_view, native_view, partial_bits, peer_view, seed_count, selection, status_view, uri_view, uris_view, wanted_bits,
};
use crate::task::{active_time, LiveCounters, PeerInfo, Status, Task, UriState};
use crate::text::{decimal, signed_decimal};

verus! {

/// A number that tells the keys of an answer apart.
spec fn mark(k: Seq<char>) -> int {
    k.len() * 1_000_000 + (k[0] as int) * 1000 + (k.last() as int)
}

/// Place of the key with that mark.
spec fn native_place(m: int) -> int {
    if m == 3103100 {
        0
    } else if m == 6115115 {
        1
    } else if m == 11116104 {
        2
    } else if m == 15099104 {
        3
    } else if m == 8102101 {
        4
    } else if m == 12117104 {
        5
    } else if m == 13100100 {
        6
    } else if m == 11117100 {
        7
    } else if m == 12097100 {
        8
    } else if m == 8098100 {
        9
    } else if m == 15112100 {
        10
    } else if m == 14119100 {
        11
    } else if m == 11099115 {
        12
    } else if m == 9101101 {
        13
    } else if m == 12101101 {
        14
    } else if m == 9101115 {
        15
    } else if m == 10102116 {
        16
    } else if m == 3100114 {
        17
    } else if m == 5102115 {
        18
    } else if m == 10110115 {
        19
    } else if m == 6115114 {
        20
    } else if m == 9110115 {
        21
    } else if m == 11112104 {
        22
    } else if m == 17097110 {
        23
    } else if m == 9115111 {
        24
    } else if m == 8105104 {
        25
    } else if m == 10098116 {
        26
    } else {
        27
    }
}

proof fn lemma_native_keys(t: Task, now: u64)
    ensures
        unique_keys(native_view(t, now)->Obj_0),
{
    let f = native_view(t, now)->Obj_0;
    reveal_strlit("gid");
    reveal_strlit("status");
    reveal_strlit("totalLength");
    reveal_strlit("completedLength");
    reveal_strlit("filename");
    reveal_strlit("uploadLength");
    reveal_strlit("downloadSpeed");
    reveal_strlit("uploadSpeed");
    reveal_strlit("averageSpeed");
    reveal_strlit("bitfield");
    reveal_strlit("partialBitfield");
    reveal_strlit("wantedBitfield");
    reveal_strlit("connections");
    reveal_strlit("errorCode");
    reveal_strlit("errorMessage");
    reveal_strlit("elapsedMs");
    reveal_strlit("finishedAt");
    reveal_strlit("dir");
    reveal_strlit("files");
    reveal_strlit("numSeeders");
    reveal_strlit("seeder");
    reveal_strlit("numPieces");
    reveal_strlit("pieceLength");
    reveal_strlit("awaitingSelection");
    reveal_strlit("seedRatio");
    reveal_strlit("infoHash");
    reveal_strlit("bittorrent");
    assert forall|i: int| 0 <= i < f.len() implies native_place(mark(#[trigger] f[i].0)) == i by {
        assert(i == 0 || i == 1 || i == 2 || i == 3 || i == 4 || i == 5 || i == 6 || i == 7 || i == 8 || i == 9 || i == 10 || i == 11 || i == 12 || i == 13 || i == 14 || i == 15 || i == 16 || i == 17 || i == 18 || i == 19 || i == 20 || i == 21 || i == 22 || i == 23 || i == 24 || i == 25 || i == 26);
    }
    assert forall|i: int, j: int| 0 <= i < j < f.len() implies (#[trigger] f[i]).0 != (#[trigger] f[j]).0 by {
        assert(native_place(mark(f[i].0)) == i && native_place(mark(f[j].0)) == j);
    }
}

/// Place of the key with that mark.
spec fn status_place(m: int) -> int {
    if m == 3103100 {
        0
    } else if m == 6115115 {
        1
    } else if m == 11116104 {
        2
    } else if m == 15099104 {
        3
    } else if m == 12117104 {
        4
    } else if m == 13100100 {
        5
    } else if m == 11117100 {
        6
    } else if m == 12097100 {
        7
    } else if m == 8098100 {
        8
    } else if m == 15112100 {
        9
    } else if m == 14119100 {
        10
    } else if m == 11099115 {
        11
    } else if m == 9101101 {
        12
    } else if m == 12101101 {
        13
    } else if m == 9101115 {
        14
    } else if m == 9098111 {
        15
    } else if m == 3100114 {
        16
    } else if m == 5102115 {
        17
    } else if m == 10110115 {
        18
    } else if m == 6115114 {
        19
    } else if m == 9110115 {
        20
    } else if m == 11112104 {
        21
    } else if m == 9115111 {
        22
    } else if m == 10098116 {
        23
    } else if m == 8105104 {
        24
    } else {
        25
    }
}

proof fn lemma_status_keys(t: Task, now: u64)
    ensures
        unique_keys(status_view(t, now)->Obj_0),
{
    let f = status_view(t, now)->Obj_0;
    reveal_strlit("gid");
    reveal_strlit("status");
    reveal_strlit("totalLength");
    reveal_strlit("completedLength");
    reveal_strlit("uploadLength");
    reveal_strlit("downloadSpeed");
    reveal_strlit("uploadSpeed");
    reveal_strlit("averageSpeed");
    reveal_strlit("bitfield");
    reveal_strlit("partialBitfield");
    reveal_strlit("wantedBitfield");
    reveal_strlit("connections");
    reveal_strlit("errorCode");
    reveal_strlit("errorMessage");
    reveal_strlit("elapsedMs");
    reveal_strlit("belongsTo");
    reveal_strlit("dir");
    reveal_strlit("files");
    reveal_strlit("numSeeders");
    reveal_strlit("seeder");
    reveal_strlit("numPieces");
    reveal_strlit("pieceLength");
    reveal_strlit("seedRatio");
    reveal_strlit("bittorrent");
    reveal_strlit("infoHash");
    assert forall|i: int| 0 <= i < f.len() implies status_place(mark(#[trigger] f[i].0)) == i by {
        assert(i == 0 || i == 1 || i == 2 || i == 3 || i == 4 || i == 5 || i == 6 || i == 7 || i == 8 || i == 9 || i == 10 || i == 11 || i == 12 || i == 13 || i == 14 || i == 15 || i == 16 || i == 17 || i == 18 || i == 19 || i == 20 || i == 21 || i == 22 || i == 23 || i == 24);
    }
    assert forall|i: int, j: int| 0 <= i < j < f.len() implies (#[trigger] f[i]).0 != (#[trigger] f[j]).0 by {
        assert(status_place(mark(f[i].0)) == i && status_place(mark(f[j].0)) == j);
    }
}

/// Place of the key with that mark.
spec fn file_place(m: int) -> int {
    if m == 5105120 {
        0
    } else if m == 4112104 {
        1
    } else if m == 6108104 {
        2
    } else if m == 15099104 {
        3
    } else if m == 8115100 {
        4
    } else if m == 4117115 {
        5
    } else {
        6
    }
}

proof fn lemma_file_keys(
    index: int,
    path: Seq<char>,
    length: int,
    done: int,
    wanted: bool,
    uris: Seq<JsonView>,
    native: bool,
)
    ensures
        unique_keys(file_view(index, path, length, done, wanted, uris, native)->Obj_0),
{
    let f = file_view(index, path, length, done, wanted, uris, native)->Obj_0;
    reveal_strlit("index");
    reveal_strlit("path");
    reveal_strlit("length");
    reveal_strlit("completedLength");
    reveal_strlit("selected");
    reveal_strlit("uris");
    assert forall|i: int| 0 <= i < f.len() implies file_place(mark(#[trigger] f[i].0)) == i by {
        assert(i == 0 || i == 1 || i == 2 || i == 3 || i == 4 || i == 5);
    }
    assert forall|i: int, j: int| 0 <= i < j < f.len() implies (#[trigger] f[i]).0 != (#[trigger] f[j]).0 by {
        assert(file_place(mark(f[i].0)) == i && file_place(mark(f[j].0)) == j);
    }
}

/// Place of the key with that mark.
spec fn uri_place(m: int) -> int {
    if m == 3117105 {
        0
    } else if m == 6115115 {
        1
    } else {
        2
    }
}

proof fn lemma_uri_keys(u: Seq<char>, st: UriState)
    ensures
        unique_keys(uri_view(u, st)->Obj_0),
{
    let f = uri_view(u, st)->Obj_0;
    reveal_strlit("uri");
    reveal_strlit("status");
    assert forall|i: int| 0 <= i < f.len() implies uri_place(mark(#[trigger] f[i].0)) == i by {
        assert(i == 0 || i == 1);
    }
    assert forall|i: int, j: int| 0 <= i < j < f.len() implies (#[trigger] f[i]).0 != (#[trigger] f[j]).0 by {
        assert(uri_place(mark(f[i].0)) == i && uri_place(mark(f[j].0)) == j);
    }
}

/// Place of the key with that mark.
spec fn peer_place(m: int) -> int {
    if m == 4097114 {
        0
    } else if m == 6112100 {
        1
    } else if m == 6099116 {
        2
    } else if m == 6115101 {
        3
    } else if m == 6099100 {
        4
    } else if m == 10105100 {
        5
    } else if m == 4115100 {
        6
    } else if m == 10100100 {
        7
    } else if m == 9099100 {
        8
    } else if m == 9101100 {
        9
    } else if m == 8117100 {
        10
    } else if m == 8112108 {
        11
    } else if m == 13099115 {
        12
    } else if m == 8112115 {
        13
    } else {
        14
    }
}

proof fn lemma_peer_keys(p: PeerInfo)
    ensures
        unique_keys(peer_view(p)->Obj_0),
{
    let f = peer_view(p)->Obj_0;
    reveal_strlit("addr");
    reveal_strlit("peerId");
    reveal_strlit("client");
    reveal_strlit("source");
    reveal_strlit("choked");
    reveal_strlit("interested");
    reveal_strlit("seed");
    reveal_strlit("downloaded");
    reveal_strlit("connected");
    reveal_strlit("encrypted");
    reveal_strlit("uploaded");
    reveal_strlit("protocol");
    reveal_strlit("connectedSecs");
    reveal_strlit("progress");
    assert forall|i: int| 0 <= i < f.len() implies peer_place(mark(#[trigger] f[i].0)) == i by {
        assert(i == 0 || i == 1 || i == 2 || i == 3 || i == 4 || i == 5 || i == 6 || i == 7 || i == 8 || i == 9 || i == 10 || i == 11 || i == 12 || i == 13);
    }
    assert forall|i: int, j: int| 0 <= i < j < f.len() implies (#[trigger] f[i]).0 != (#[trigger] f[j]).0 by {
        assert(peer_place(mark(f[i].0)) == i && peer_place(mark(f[j].0)) == j);
    }
}

/// Place of the key with that mark.
spec fn stat_place(m: int) -> int {
    if m == 13100100 {
        0
    } else if m == 11117100 {
        1
    } else if m == 9110101 {
        2
    } else if m == 10110103 {
        3
    } else if m == 10110100 {
        4
    } else if m == 15110108 {
        5
    } else {
        6
    }
}

proof fn lemma_stat_keys(s: GlobalStat, native: bool)
    ensures
        unique_keys(stat_view(s, native)->Obj_0),
{
    let f = stat_view(s, native)->Obj_0;
    reveal_strlit("downloadSpeed");
    reveal_strlit("uploadSpeed");
    reveal_strlit("numActive");
    reveal_strlit("numWaiting");
    reveal_strlit("numStopped");
    reveal_strlit("numStoppedTotal");
    assert forall|i: int| 0 <= i < f.len() implies stat_place(mark(#[trigger] f[i].0)) == i by {
        assert(i == 0 || i == 1 || i == 2 || i == 3 || i == 4 || i == 5);
    }
    assert forall|i: int, j: int| 0 <= i < j < f.len() implies (#[trigger] f[i]).0 != (#[trigger] f[j]).0 by {
        assert(stat_place(mark(f[i].0)) == i && stat_place(mark(f[j].0)) == j);
    }
}

/// Place of the key with that mark.
spec fn progress_place(m: int) -> int {
    if m == 3103100 {
        0
    } else if m == 6115115 {
        1
    } else if m == 15099104 {
        2
    } else if m == 11116104 {
        3
    } else if m == 13100100 {
        4
    } else {
        5
    }
}

proof fn lemma_progress_keys(gid: Seq<char>, t: Task)
    ensures
        unique_keys(progress_params(gid, t)->Obj_0),
{
    let f = progress_params(gid, t)->Obj_0;
    reveal_strlit("gid");
    reveal_strlit("status");
    reveal_strlit("completedLength");
    reveal_strlit("totalLength");
    reveal_strlit("downloadSpeed");
    assert forall|i: int| 0 <= i < f.len() implies progress_place(mark(#[trigger] f[i].0)) == i by {
        assert(i == 0 || i == 1 || i == 2 || i == 3 || i == 4);
    }
    assert forall|i: int, j: int| 0 <= i < j < f.len() implies (#[trigger] f[i]).0 != (#[trigger] f[j]).0 by {
        assert(progress_place(mark(f[i].0)) == i && progress_place(mark(f[j].0)) == j);
    }
}

/// Place of the key with that mark.
spec fn error_place(m: int) -> int {
    if m == 3103100 {
        0
    } else if m == 9101101 {
        1
    } else if m == 12101101 {
        2
    } else {
        3
    }
}

proof fn lemma_error_keys(gid: Seq<char>, t: Task)
    ensures
        unique_keys(error_params(gid, t)->Obj_0),
{
    let f = error_params(gid, t)->Obj_0;
    reveal_strlit("gid");
    reveal_strlit("errorCode");
    reveal_strlit("errorMessage");
    assert forall|i: int| 0 <= i < f.len() implies error_place(mark(#[trigger] f[i].0)) == i by {
        assert(i == 0 || i == 1 || i == 2);
    }
    assert forall|i: int, j: int| 0 <= i < j < f.len() implies (#[trigger] f[i]).0 != (#[trigger] f[j]).0 by {
        assert(error_place(mark(f[i].0)) == i && error_place(mark(f[j].0)) == j);
    }
}

// ---------------------------------------------------------------------------
// Tasks
// ---------------------------------------------------------------------------

/// The name of a state, as clients know it.
pub open spec fn is_state_name(s: Status, name: Seq<char>) -> bool {
    match s {
        Status::Waiting => name == "waiting"@,
        Status::Active => name == "active"@,
        Status::Seeding => name == "seeding"@,
        Status::Paused => name == "paused"@,
        Status::Complete => name == "complete"@,
        Status::Error => name == "error"@,
        Status::Removed => name == "removed"@,
    }
}

/// A counter of the running transfer, or what was kept of an earlier one while it stands
/// at zero.
pub open spec fn current(live: u64, kept: u64) -> u64 {
    if live == 0 { kept } else { live }
}

/// Whether `v` is the average speed of `bytes` in `ms` milliseconds, rounded down, with
/// nothing shown before the first second is over.
pub open spec fn is_average(v: int, bytes: u64, ms: u64) -> bool {
    if ms < 1000 {
        v == 0
    } else if bytes * 1000 <= u64::MAX {
        v * ms <= bytes * 1000 < (v + 1) * ms
    } else {
        v * ms <= u64::MAX < (v + 1) * ms
    }
}

/// What the answer to a question for a task has at each key: the bytes on disk under the
/// one key, the length of the content under the other, and so on.
pub proof fn law_task_is_shown_as_it_is(t: Task, now: u64)
    ensures
        ({
            let o = native_view(t, now);
            let total = match t.shared.total_len {
                Some(n) => n,
                None => 0,
            };
            let done = current(t.live.completed, t.shared.completed);
            let sent = current(t.live.uploaded, t.shared.uploaded);
            &&& o.at("gid"@) == JsonView::Str(t.gid@)
            &&& o.at("status"@) is Str && is_state_name(t.shared.status, o.at("status"@)->Str_0)
            &&& o.at("totalLength"@) == JsonView::Unsigned(total)
            &&& o.at("completedLength"@) == JsonView::Unsigned(done)
            &&& o.at("uploadLength"@) == JsonView::Unsigned(sent)
            &&& o.at("downloadSpeed"@) == JsonView::Unsigned(
                current(t.live.speed, t.shared.download_speed),
            )
            &&& o.at("uploadSpeed"@) == JsonView::Unsigned(
                current(t.live.upload_speed, t.shared.upload_speed),
            )
            &&& o.at("connections"@) == JsonView::Unsigned(
                current(t.live.connections, t.shared.connections as u64),
            )
            &&& o.at("averageSpeed"@) is Unsigned
            &&& is_average(o.at("averageSpeed"@)->Unsigned_0 as int, t.avg_bytes, t.avg_active_ms)
            &&& o.at("errorCode"@) == signed_view(t.shared.error_code)
            &&& o.at("errorMessage"@) == JsonView::Str(t.shared.error_message@)
            &&& o.at("elapsedMs"@) == JsonView::Unsigned(active_time(t.shared, now))
            &&& o.at("finishedAt"@) == JsonView::Unsigned(t.finished_at)
            &&& o.at("dir"@) == JsonView::Str(t.dir@)
            &&& o.at("awaitingSelection"@) == JsonView::Bool(t.awaiting_selection)
            &&& o.at("seeder"@) == JsonView::Bool(t.bt_meta is Some && total > 0 && done >= total)
            &&& (total > 0 ==> o.at("seedRatio"@) == JsonView::Quotient(sent, total))
            &&& (total == 0 ==> o.at("seedRatio"@) == JsonView::Quotient(0, 1))
            &&& o.at("files"@) == JsonView::Arr(files_view(t, true))
            &&& (t.shared.filename is Some ==> o.at("filename"@) == JsonView::Str(
                t.shared.filename->0@,
            ))
            &&& (t.shared.filename is None ==> o.at("filename"@) is Null)
        }),
{
    lemma_native_keys(t, now);
    let f = native_view(t, now)->Obj_0;
    lemma_field(f, 0);
    lemma_field(f, 1);
    lemma_field(f, 2);
    lemma_field(f, 3);
    lemma_field(f, 4);
    lemma_field(f, 5);
    lemma_field(f, 6);
    lemma_field(f, 7);
    lemma_field(f, 8);
    lemma_field(f, 9);
    lemma_field(f, 10);
    lemma_field(f, 11);
    lemma_field(f, 12);
    lemma_field(f, 13);
    lemma_field(f, 14);
    lemma_field(f, 15);
    lemma_field(f, 16);
    lemma_field(f, 17);
    lemma_field(f, 18);
    lemma_field(f, 19);
    lemma_field(f, 20);
    lemma_field(f, 21);
    lemma_field(f, 22);
    lemma_field(f, 23);
    lemma_field(f, 24);
    lemma_field(f, 25);
    lemma_field(f, 26);
    lemma_average(t.avg_bytes, t.avg_active_ms);
}

/// A quotient rounds down.
proof fn lemma_average(bytes: u64, ms: u64)
    ensures
        ms >= 1000 ==> {
            let scaled = if bytes * 1000 > u64::MAX { u64::MAX as int } else { bytes * 1000 };
            let v = scaled / ms as int;
            v * ms <= scaled < (v + 1) * ms && 0 <= v <= u64::MAX
        },
{
    if ms >= 1000 {
        let scaled = if bytes * 1000 > u64::MAX { u64::MAX as int } else { bytes * 1000 };
        let m = ms as int;
        let v = scaled / m;
        assert(v * m <= scaled < (v + 1) * m && 0 <= v <= scaled) by (nonlinear_arith)
            requires
                v == scaled / m,
                m >= 1000,
                scaled >= 0,
        ;
    }
}

/// What an answer has about the pieces of a task: those of its torrent if there is one,
/// else those of its piece map, else none.
pub proof fn law_pieces_are_shown_as_they_are(t: Task, now: u64)
    ensures
        ({
            let o = native_view(t, now);
            &&& (t.bt_meta is Some ==> {
                let info = t.bt_meta->0.info;
                &&& o.at("bitfield"@) == JsonView::Str(hex_text(t.bt_bitfield@))
                &&& o.at("partialBitfield"@) == JsonView::Str(Seq::<char>::empty())
                &&& o.at("wantedBitfield"@) == JsonView::Str(
                    hex_text(wanted_bits(info, selection(t))),
                )
                &&& o.at("numPieces"@) == JsonView::Unsigned(info.pieces as u64)
                &&& o.at("pieceLength"@) == JsonView::Unsigned(info.piece_length)
            })
            &&& (t.bt_meta is None && t.http_pieces is Some ==> {
                let p = t.http_pieces->0;
                &&& o.at("bitfield"@) == JsonView::Str(hex_text(p.bf@))
                &&& o.at("partialBitfield"@) == JsonView::Str(hex_text(partial_bits(p)))
                &&& o.at("wantedBitfield"@) == JsonView::Str(Seq::<char>::empty())
                &&& (p.done@.len() <= u32::MAX ==> o.at("numPieces"@) == JsonView::Unsigned(
                    p.done@.len() as u64,
                ))
                &&& o.at("pieceLength"@) == JsonView::Unsigned(p.piece_len)
            })
            &&& (t.bt_meta is None && t.http_pieces is None ==> {
                &&& o.at("bitfield"@) == JsonView::Str(Seq::<char>::empty())
                &&& o.at("partialBitfield"@) == JsonView::Str(Seq::<char>::empty())
                &&& o.at("wantedBitfield"@) == JsonView::Str(Seq::<char>::empty())
                &&& o.at("numPieces"@) == JsonView::Unsigned(0)
                &&& o.at("pieceLength"@) == JsonView::Unsigned(0)
            })
        }),
{
    lemma_native_keys(t, now);
    let f = native_view(t, now)->Obj_0;
    lemma_field(f, 0);
    lemma_field(f, 1);
    lemma_field(f, 2);
    lemma_field(f, 3);
    lemma_field(f, 4);
    lemma_field(f, 5);
    lemma_field(f, 6);
    lemma_field(f, 7);
    lemma_field(f, 8);
    lemma_field(f, 9);
    lemma_field(f, 10);
    lemma_field(f, 11);
    lemma_field(f, 12);
    lemma_field(f, 13);
    lemma_field(f, 14);
    lemma_field(f, 15);
    lemma_field(f, 16);
    lemma_field(f, 17);
    lemma_field(f, 18);
    lemma_field(f, 19);
    lemma_field(f, 20);
    lemma_field(f, 21);
    lemma_field(f, 22);
    lemma_field(f, 23);
    lemma_field(f, 24);
    lemma_field(f, 25);
    lemma_field(f, 26);
    assert(hex_text(Seq::<u8>::empty()) =~= Seq::<char>::empty());
}

/// How many of some peers have the whole torrent.
pub open spec fn whole_peers(p: Seq<PeerInfo>) -> nat {
    p.filter(|x: PeerInfo| x.seed).len()
}

proof fn lemma_whole_peers(p: Seq<PeerInfo>)
    ensures
        seed_count(p) == whole_peers(p),
        0 <= seed_count(p) <= p.len(),
    decreases p.len(),
{
    let whole = |x: PeerInfo| x.seed;
    reveal(Seq::filter);
    if p.len() > 0 {
        lemma_whole_peers(p.drop_last());
    }
}

/// What an answer has about a BitTorrent task: the number of peers that have everything,
/// the hash as hexadecimal digits, and the torrent's name once it is known. Other tasks
/// have neither hash nor torrent.
pub proof fn law_torrent_is_shown_as_it_is(t: Task, now: u64)
    ensures
        ({
            let o = native_view(t, now);
            &&& o.at("numSeeders"@) == JsonView::Unsigned(whole_peers(t.bt_peers@) as u64)
            &&& (t.bt_info_hash is Some ==> o.at("infoHash"@) == JsonView::Str(
                hex_text(t.bt_info_hash->0@),
            ))
            &&& (t.bt_info_hash is None && t.bt_meta is Some ==> o.at("infoHash"@) == JsonView::Str(
                hex_text(t.bt_meta->0.info_hash@),
            ))
            &&& (t.bt_info_hash is None && t.bt_meta is None ==> o.at("infoHash"@) is Null && o.at(
                "bittorrent"@,
            ) is Null)
            &&& (t.bt_info_hash is Some && t.bt_meta is None ==> o.at("bittorrent"@) == JsonView::Obj(
                Seq::empty(),
            ))
            &&& (t.bt_meta is Some ==> {
                let info = o.at("bittorrent"@).at("info"@);
                &&& info.at("name"@) == JsonView::Str(t.bt_meta->0.info.name@)
                &&& info.at("hash"@) == o.at("infoHash"@)
            })
        }),
{
    lemma_native_keys(t, now);
    let f = native_view(t, now)->Obj_0;
    lemma_field(f, 0);
    lemma_field(f, 1);
    lemma_field(f, 2);
    lemma_field(f, 3);
    lemma_field(f, 4);
    lemma_field(f, 5);
    lemma_field(f, 6);
    lemma_field(f, 7);
    lemma_field(f, 8);
    lemma_field(f, 9);
    lemma_field(f, 10);
    lemma_field(f, 11);
    lemma_field(f, 12);
    lemma_field(f, 13);
    lemma_field(f, 14);
    lemma_field(f, 15);
    lemma_field(f, 16);
    lemma_field(f, 17);
    lemma_field(f, 18);
    lemma_field(f, 19);
    lemma_field(f, 20);
    lemma_field(f, 21);
    lemma_field(f, 22);
    lemma_field(f, 23);
    lemma_field(f, 24);
    lemma_field(f, 25);
    lemma_field(f, 26);
    lemma_whole_peers(t.bt_peers@);
    if t.bt_meta is Some {
        let b = o_of(t, now);
        assert(b->Obj_0.len() == 1);
        lemma_field(b->Obj_0, 0);
        let i = b.at("info"@)->Obj_0;
        reveal_strlit("name");
        reveal_strlit("hash");
        assert("name"@[0] != "hash"@[0]);
        assert(unique_keys(i));
        lemma_field(i, 0);
        lemma_field(i, 1);
    }
}

spec fn o_of(t: Task, now: u64) -> JsonView {
    native_view(t, now).at("bittorrent"@)
}

/// Whether a text is the decimal spelling of a shown number.
pub open spec fn spells(text: JsonView, n: JsonView) -> bool {
    n is Unsigned && text == JsonView::Str(decimal(n->Unsigned_0 as nat))
}

/// Whether a text is the spelling of a shown truth value.
pub open spec fn spells_flag(text: JsonView, b: JsonView) -> bool {
    b is Bool && text == JsonView::Str(if b->Bool_0 { "true"@ } else { "false"@ })
}

/// Both protocols show the same facts: at every key that both have, the one shows the
/// number and the other its decimal spelling, and texts are the same.
pub proof fn law_protocols_agree(t: Task, now: u64)
    ensures
        ({
            let n = native_view(t, now);
            let c = status_view(t, now);
            &&& c.at("gid"@) == n.at("gid"@)
            &&& c.at("status"@) == n.at("status"@)
            &&& spells(c.at("totalLength"@), n.at("totalLength"@))
            &&& spells(c.at("completedLength"@), n.at("completedLength"@))
            &&& spells(c.at("uploadLength"@), n.at("uploadLength"@))
            &&& spells(c.at("downloadSpeed"@), n.at("downloadSpeed"@))
            &&& spells(c.at("uploadSpeed"@), n.at("uploadSpeed"@))
            &&& spells(c.at("averageSpeed"@), n.at("averageSpeed"@))
            &&& c.at("bitfield"@) == n.at("bitfield"@)
            &&& c.at("partialBitfield"@) == n.at("partialBitfield"@)
            &&& c.at("wantedBitfield"@) == n.at("wantedBitfield"@)
            &&& spells(c.at("connections"@), n.at("connections"@))
            &&& c.at("errorCode"@) == JsonView::Str(signed_decimal(t.shared.error_code as int))
            &&& n.at("errorCode"@) == signed_view(t.shared.error_code)
            &&& c.at("errorMessage"@) == n.at("errorMessage"@)
            &&& spells(c.at("elapsedMs"@), n.at("elapsedMs"@))
            &&& c.at("dir"@) == n.at("dir"@)
            &&& spells(c.at("numSeeders"@), n.at("numSeeders"@))
            &&& spells_flag(c.at("seeder"@), n.at("seeder"@))
            &&& spells(c.at("numPieces"@), n.at("numPieces"@))
            &&& spells(c.at("pieceLength"@), n.at("pieceLength"@))
            &&& n.at("seedRatio"@) is Quotient
            &&& c.at("seedRatio"@) == JsonView::QuotientText(
                n.at("seedRatio"@)->Quotient_0,
                n.at("seedRatio"@)->Quotient_1,
            )
            &&& c.at("files"@) == JsonView::Arr(files_view(t, false))
            &&& n.at("files"@) == JsonView::Arr(files_view(t, true))
            &&& (n.at("infoHash"@) !is Null ==> c.at("infoHash"@) == n.at("infoHash"@) && c.at(
                "bittorrent"@,
            ) == n.at("bittorrent"@))
        }),
{
    lemma_native_keys(t, now);
    lemma_status_keys(t, now);
    let f = native_view(t, now)->Obj_0;
    lemma_field(f, 0);
    lemma_field(f, 1);
    lemma_field(f, 2);
    lemma_field(f, 3);
    lemma_field(f, 4);
    lemma_field(f, 5);
    lemma_field(f, 6);
    lemma_field(f, 7);
    lemma_field(f, 8);
    lemma_field(f, 9);
    lemma_field(f, 10);
    lemma_field(f, 11);
    lemma_field(f, 12);
    lemma_field(f, 13);
    lemma_field(f, 14);
    lemma_field(f, 15);
    lemma_field(f, 16);
    lemma_field(f, 17);
    lemma_field(f, 18);
    lemma_field(f, 19);
    lemma_field(f, 20);
    lemma_field(f, 21);
    lemma_field(f, 22);
    lemma_field(f, 23);
    lemma_field(f, 24);
    lemma_field(f, 25);
    lemma_field(f, 26);
    lemma_average(t.avg_bytes, t.avg_active_ms);
    lemma_whole_peers(t.bt_peers@);
    assert(t.bt_peers.len() == t.bt_peers@.len());
    let g = status_view(t, now)->Obj_0;
    lemma_field(g, 0);
    lemma_field(g, 1);
    lemma_field(g, 2);
    lemma_field(g, 3);
    lemma_field(g, 4);
    lemma_field(g, 5);
    lemma_field(g, 6);
    lemma_field(g, 7);
    lemma_field(g, 8);
    lemma_field(g, 9);
    lemma_field(g, 10);
    lemma_field(g, 11);
    lemma_field(g, 12);
    lemma_field(g, 13);
    lemma_field(g, 14);
    lemma_field(g, 15);
    lemma_field(g, 16);
    lemma_field(g, 17);
    lemma_field(g, 18);
    lemma_field(g, 19);
    lemma_field(g, 20);
    lemma_field(g, 21);
    lemma_field(g, 22);
    if g.len() > 23 {
        lemma_field(g, 23);
        lemma_field(g, 24);
    }
}

// ---------------------------------------------------------------------------
// Files, addresses and peers
// ---------------------------------------------------------------------------

/// What the row of a file has at each key.
pub proof fn law_file_row(
    index: int,
    path: Seq<char>,
    length: int,
    done: int,
    wanted: bool,
    uris: Seq<JsonView>,
)
    requires
        0 <= index <= u64::MAX,
        0 <= length <= u64::MAX,
        0 <= done <= u64::MAX,
    ensures
        ({
            let n = file_view(index, path, length, done, wanted, uris, true);
            let c = file_view(index, path, length, done, wanted, uris, false);
            &&& n.at("index"@) == JsonView::Unsigned(index as u64)
            &&& n.at("path"@) == JsonView::Str(path)
            &&& n.at("length"@) == JsonView::Unsigned(length as u64)
            &&& n.at("completedLength"@) == JsonView::Unsigned(done as u64)
            &&& n.at("selected"@) == JsonView::Bool(wanted)
            &&& n.at("uris"@) == JsonView::Arr(uris)
            &&& spells(c.at("index"@), n.at("index"@))
            &&& c.at("path"@) == n.at("path"@)
            &&& spells(c.at("length"@), n.at("length"@))
            &&& spells(c.at("completedLength"@), n.at("completedLength"@))
            &&& spells_flag(c.at("selected"@), n.at("selected"@))
            &&& c.at("uris"@) == n.at("uris"@)
        }),
{
    lemma_file_keys(index, path, length, done, wanted, uris, true);
    lemma_file_keys(index, path, length, done, wanted, uris, false);
    let f = file_view(index, path, length, done, wanted, uris, true)->Obj_0;
    lemma_field(f, 0);
    lemma_field(f, 1);
    lemma_field(f, 2);
    lemma_field(f, 3);
    lemma_field(f, 4);
    lemma_field(f, 5);
    let g = file_view(index, path, length, done, wanted, uris, false)->Obj_0;
    lemma_field(g, 0);
    lemma_field(g, 1);
    lemma_field(g, 2);
    lemma_field(g, 3);
    lemma_field(g, 4);
    lemma_field(g, 5);
}

proof fn lemma_wanted(s: Seq<usize>, i: int)
    requires
        0 <= i <= usize::MAX,
    ensures
        crate::torrent::is_wanted(Some(s), i) <==> s.contains(i as usize),
{
    let x = i as usize;
    if crate::torrent::is_wanted(Some(s), i) {
        assert(exists|k: int| 0 <= k < s.len() && #[trigger] s[k] == i);
        let k = choose|k: int| 0 <= k < s.len() && #[trigger] s[k] == i;
        assert(s[k] == x);
        assert(s.contains(s[k]));
    }
    if s.contains(x) {
        let k = choose|k: int| 0 <= k < s.len() && #[trigger] s[k] == x;
        let all = Some(s);
        assert(all->0[k] == i);
        assert(crate::torrent::is_wanted(all, i));
    }
}

/// A task without a torrent shows one file: the whole of what it downloads, with its
/// addresses. A magnet link shows none as long as its torrent is not known.
pub proof fn law_download_shows_one_file(t: Task)
    requires
        t.bt_meta is None,
    ensures
        t.bt_info_hash is Some ==> files_view(t, true).len() == 0 && files_view(t, false).len() == 0,
        t.bt_info_hash is None ==> {
            let n = files_view(t, true);
            &&& n.len() == 1 && files_view(t, false).len() == 1
            &&& n[0].at("index"@) == JsonView::Unsigned(1)
            &&& n[0].at("path"@) == JsonView::Str(
                match t.shared.path {
                    Some(p) => p@,
                    None => Seq::empty(),
                },
            )
            &&& n[0].at("length"@) == JsonView::Unsigned(t.shared.file_len)
            &&& n[0].at("completedLength"@) == JsonView::Unsigned(
                current(t.live.completed, t.shared.completed),
            )
            &&& n[0].at("selected"@) == JsonView::Bool(
                t.selected_files is None || t.selected_files->0@.contains(0),
            )
            &&& n[0].at("uris"@) == JsonView::Arr(uris_view(t))
        },
{
    if t.bt_info_hash is None {
        let path = crate::task::path_text(t.shared.path);
        let done = t.completed_now() as int;
        let wanted = crate::torrent::is_wanted(selection(t), 0);
        law_file_row(1, path, t.shared.file_len as int, done, wanted, uris_view(t));
        if t.selected_files is Some {
            lemma_wanted(t.selected_files->0@, 0);
        }
    }
}

/// A torrent shows its files in order, counted from one, each with its path, its length
/// and whether it is selected.
pub proof fn law_torrent_shows_its_files(t: Task, i: int)
    requires
        t.bt_meta is Some,
        0 <= i < t.bt_meta->0.info.files@.len() < u64::MAX,
    ensures
        files_view(t, true).len() == t.bt_meta->0.info.files@.len(),
        files_view(t, false).len() == t.bt_meta->0.info.files@.len(),
        ({
            let n = files_view(t, true)[i];
            let file = t.bt_meta->0.info.files@[i];
            &&& n.at("index"@) == JsonView::Unsigned((i + 1) as u64)
            &&& n.at("path"@) == JsonView::Str(file.path@)
            &&& n.at("length"@) == JsonView::Unsigned(file.length)
            &&& n.at("selected"@) == JsonView::Bool(
                t.selected_files is None || t.selected_files->0@.contains(i as usize),
            )
            &&& n.at("uris"@) == JsonView::Arr(Seq::empty())
        }),
{
    let m = t.bt_meta->0;
    assert(m.info.files.len() == m.info.files@.len());
    let file = m.info.files@[i];
    let wanted = crate::torrent::is_wanted(selection(t), i);
    let done = m.info.shown_done(
        t.bt_bitfield@,
        selection(t),
        crate::status::has_all(t),
        i,
    );
    lemma_file_keys(i + 1, file.path@, file.length as int, done, wanted, Seq::empty(), true);
    let f = file_view(i + 1, file.path@, file.length as int, done, wanted, Seq::empty(), true)->Obj_0;
    lemma_field(f, 0);
    lemma_field(f, 1);
    lemma_field(f, 2);
    lemma_field(f, 3);
    lemma_field(f, 4);
    lemma_field(f, 5);
    if t.selected_files is Some {
        lemma_wanted(t.selected_files->0@, i);
    }
}

/// A task shows its addresses in order, each with its state.
pub proof fn law_addresses_are_shown(t: Task, i: int)
    requires
        0 <= i < t.uris@.len(),
    ensures
        uris_view(t).len() == t.uris@.len(),
        uris_view(t)[i].at("uri"@) == JsonView::Str(t.uris@[i]@),
        i < t.uri_states@.len() && t.uri_states@[i] is Used ==> uris_view(t)[i].at("status"@)
            == JsonView::Str("used"@),
        i >= t.uri_states@.len() || t.uri_states@[i] is Waiting ==> uris_view(t)[i].at("status"@)
            == JsonView::Str("waiting"@),
{
    let st = crate::task::uri_state_at(t.uri_states@, i);
    lemma_uri_keys(t.uris@[i]@, st);
    let f = uri_view(t.uris@[i]@, st)->Obj_0;
    lemma_field(f, 0);
    lemma_field(f, 1);
}

/// What the row of a peer has at each key.
pub proof fn law_peer_row(p: PeerInfo)
    ensures
        ({
            let o = peer_view(p);
            &&& o.at("addr"@) == JsonView::Str(p.addr@)
            &&& o.at("peerId"@) == JsonView::Str(p.peer_id@)
            &&& o.at("client"@) == JsonView::Str(p.client@)
            &&& o.at("source"@) == JsonView::Str(p.source@)
            &&& o.at("choked"@) == JsonView::Bool(p.choked)
            &&& o.at("interested"@) == JsonView::Bool(p.interested)
            &&& o.at("seed"@) == JsonView::Bool(p.seed)
            &&& o.at("downloaded"@) == JsonView::Unsigned(p.downloaded)
            &&& o.at("connected"@) == JsonView::Bool(p.connected)
            &&& o.at("encrypted"@) == JsonView::Bool(p.encrypted)
            &&& o.at("uploaded"@) == JsonView::Unsigned(p.uploaded)
            &&& o.at("protocol"@) == JsonView::Str(p.protocol@)
            &&& o.at("connectedSecs"@) == JsonView::Unsigned(p.connected_secs)
            &&& o.at("progress"@) == JsonView::Float(p.progress@)
        }),
{
    lemma_peer_keys(p);
    let f = peer_view(p)->Obj_0;
    lemma_field(f, 0);
    lemma_field(f, 1);
    lemma_field(f, 2);
    lemma_field(f, 3);
    lemma_field(f, 4);
    lemma_field(f, 5);
    lemma_field(f, 6);
    lemma_field(f, 7);
    lemma_field(f, 8);
    lemma_field(f, 9);
    lemma_field(f, 10);
    lemma_field(f, 11);
    lemma_field(f, 12);
    lemma_field(f, 13);
}

// ---------------------------------------------------------------------------
// Figures and events
// ---------------------------------------------------------------------------

/// The sum of the speeds of some tasks.
pub open spec fn total_speed(tasks: Seq<Task>, ids: Seq<int>, upload: bool) -> int
    decreases ids.len(),
{
    if ids.len() == 0 {
        0
    } else {
        let t = tasks[ids[0]];
        (if upload {
            current(t.live.upload_speed, t.shared.upload_speed) as int
        } else {
            current(t.live.speed, t.shared.download_speed) as int
        }) + total_speed(tasks, ids.skip(1), upload)
    }
}

proof fn lemma_total_speed(tasks: Seq<Task>, ids: Seq<int>, upload: bool)
    ensures
        0 <= speed_sum(tasks, ids, upload) <= u64::MAX,
        0 <= total_speed(tasks, ids, upload),
        speed_sum(tasks, ids, upload) == total_speed(tasks, ids, upload) % 0x1_0000_0000_0000_0000,
        ids.len() > 0 ==> total_speed(tasks, ids, upload) == total_speed(
            tasks,
            ids.drop_last(),
            upload,
        ) + if upload {
            current(tasks[ids.last()].live.upload_speed, tasks[ids.last()].shared.upload_speed) as int
        } else {
            current(tasks[ids.last()].live.speed, tasks[ids.last()].shared.download_speed) as int
        },
    decreases ids.len(),
{
    if ids.len() > 0 {
        let front = ids.drop_last();
        if ids.len() == 1 {
            assert(ids.skip(1) =~= Seq::<int>::empty());
            assert(front =~= Seq::<int>::empty());
        } else {
            lemma_total_speed(tasks, ids.skip(1), upload);
            assert(ids.skip(1).drop_last() =~= front.skip(1));
            assert(ids.skip(1).last() == ids.last());
        }
        lemma_total_speed(tasks, front, upload);
        let a = total_speed(tasks, front, upload);
        let b = speed_sum(tasks, front, upload);
        let m: int = 0x1_0000_0000_0000_0000;
        let x = total_speed(tasks, ids, upload) - a;
        if b + x >= m {
            assert((a + x) % m == b + x - m) by (nonlinear_arith)
                requires
                    b == a % m,
                    0 <= x < m,
                    b + x >= m,
                    m == 0x1_0000_0000_0000_0000,
            ;
        } else {
            assert((a + x) % m == b + x) by (nonlinear_arith)
                requires
                    b == a % m,
                    0 <= x < m,
                    b + x < m,
                    m == 0x1_0000_0000_0000_0000,
            ;
        }
    }
}

/// The figures over all tasks: the speeds of the active tasks together, and how many
/// tasks there are of each kind. The other protocol spells the same numbers.
pub proof fn law_figures_are_shown(m: TaskManager)
    ensures
        ({
            let n = stat_view(m.stat(), true);
            let c = stat_view(m.stat(), false);
            let ids = m.active_places();
            &&& n.at("downloadSpeed"@) is Unsigned
            &&& n.at("downloadSpeed"@)->Unsigned_0 == total_speed(m.tasks@, ids, false)
                % 0x1_0000_0000_0000_0000
            &&& n.at("uploadSpeed"@) is Unsigned
            &&& n.at("uploadSpeed"@)->Unsigned_0 == total_speed(m.tasks@, ids, true)
                % 0x1_0000_0000_0000_0000
            &&& n.at("numActive"@) == JsonView::Unsigned(m.active@.len() as u64)
            &&& n.at("numWaiting"@) == JsonView::Unsigned(m.queue@.len() as u64)
            &&& n.at("numStopped"@) == JsonView::Unsigned(m.stopped_order@.len() as u64)
            &&& n.at("numStoppedTotal"@) == JsonView::Unsigned(m.stopped_total)
            &&& spells(c.at("downloadSpeed"@), n.at("downloadSpeed"@))
            &&& spells(c.at("uploadSpeed"@), n.at("uploadSpeed"@))
            &&& spells(c.at("numActive"@), n.at("numActive"@))
            &&& spells(c.at("numWaiting"@), n.at("numWaiting"@))
            &&& spells(c.at("numStopped"@), n.at("numStopped"@))
            &&& spells(c.at("numStoppedTotal"@), n.at("numStoppedTotal"@))
        }),
{
    lemma_total_speed(m.tasks@, m.active_places(), false);
    lemma_total_speed(m.tasks@, m.active_places(), true);
    assert(m.active.len() == m.active@.len());
    assert(m.queue.len() == m.queue@.len());
    assert(m.stopped_order.len() == m.stopped_order@.len());
    lemma_stat_keys(m.stat(), true);
    lemma_stat_keys(m.stat(), false);
    let f = stat_view(m.stat(), true)->Obj_0;
    lemma_field(f, 0);
    lemma_field(f, 1);
    lemma_field(f, 2);
    lemma_field(f, 3);
    lemma_field(f, 4);
    lemma_field(f, 5);
    let g = stat_view(m.stat(), false)->Obj_0;
    lemma_field(g, 0);
    lemma_field(g, 1);
    lemma_field(g, 2);
    lemma_field(g, 3);
    lemma_field(g, 4);
    lemma_field(g, 5);
}

/// What subscribers are told of a task's progress is what they would find by asking.
pub proof fn law_progress_agrees_with_the_task(t: Task, now: u64)
    ensures
        ({
            let e = progress_params(t.gid@, t);
            let o = native_view(t, now);
            &&& e.at("gid"@) == o.at("gid"@)
            &&& e.at("status"@) == o.at("status"@)
            &&& e.at("completedLength"@) == o.at("completedLength"@)
            &&& e.at("totalLength"@) == o.at("totalLength"@)
            &&& e.at("downloadSpeed"@) == o.at("downloadSpeed"@)
        }),
{
    lemma_native_keys(t, now);
    lemma_progress_keys(t.gid@, t);
    let f = native_view(t, now)->Obj_0;
    lemma_field(f, 0);
    lemma_field(f, 1);
    lemma_field(f, 2);
    lemma_field(f, 3);
    lemma_field(f, 4);
    lemma_field(f, 5);
    lemma_field(f, 6);
    lemma_field(f, 7);
    lemma_field(f, 8);
    lemma_field(f, 9);
    lemma_field(f, 10);
    lemma_field(f, 11);
    lemma_field(f, 12);
    lemma_field(f, 13);
    lemma_field(f, 14);
    lemma_field(f, 15);
    lemma_field(f, 16);
    lemma_field(f, 17);
    lemma_field(f, 18);
    lemma_field(f, 19);
    lemma_field(f, 20);
    lemma_field(f, 21);
    lemma_field(f, 22);
    lemma_field(f, 23);
    lemma_field(f, 24);
    lemma_field(f, 25);
    lemma_field(f, 26);
    let g = progress_params(t.gid@, t)->Obj_0;
    lemma_field(g, 0);
    lemma_field(g, 1);
    lemma_field(g, 2);
    lemma_field(g, 3);
    lemma_field(g, 4);
}

/// What subscribers are told of a task's failure is what they would find by asking.
pub proof fn law_failure_agrees_with_the_task(t: Task, now: u64)
    ensures
        ({
            let e = error_params(t.gid@, t);
            let o = native_view(t, now);
            &&& e.at("gid"@) == o.at("gid"@)
            &&& e.at("errorCode"@) == o.at("errorCode"@)
            &&& e.at("errorMessage"@) == o.at("errorMessage"@)
        }),
{
    lemma_native_keys(t, now);
    lemma_error_keys(t.gid@, t);
    let f = native_view(t, now)->Obj_0;
    lemma_field(f, 0);
    lemma_field(f, 1);
    lemma_field(f, 2);
    lemma_field(f, 3);
    lemma_field(f, 4);
    lemma_field(f, 5);
    lemma_field(f, 6);
    lemma_field(f, 7);
    lemma_field(f, 8);
    lemma_field(f, 9);
    lemma_field(f, 10);
    lemma_field(f, 11);
    lemma_field(f, 12);
    lemma_field(f, 13);
    lemma_field(f, 14);
    lemma_field(f, 15);
    lemma_field(f, 16);
    lemma_field(f, 17);
    lemma_field(f, 18);
    lemma_field(f, 19);
    lemma_field(f, 20);
    lemma_field(f, 21);
    lemma_field(f, 22);
    lemma_field(f, 23);
    lemma_field(f, 24);
    lemma_field(f, 25);
    lemma_field(f, 26);
    let g = error_params(t.gid@, t)->Obj_0;
    lemma_field(g, 0);
    lemma_field(g, 1);
    lemma_field(g, 2);
}

/// A sample of a running transfer is what both protocols show from then on, until the
/// next one.
pub proof fn law_sample_is_shown(t: Task, after: Task, now: u64, completed: u64, connections: u64)
    requires
        after.live == (LiveCounters { completed, connections, ..t.live }),
        completed > 0,
        connections > 0,
    ensures
        native_view(after, now).at("completedLength"@) == JsonView::Unsigned(completed),
        native_view(after, now).at("connections"@) == JsonView::Unsigned(connections),
        status_view(after, now).at("completedLength"@) == JsonView::Str(decimal(completed as nat)),
        status_view(after, now).at("connections"@) == JsonView::Str(decimal(connections as nat)),
{
    law_task_is_shown_as_it_is(after, now);
    law_protocols_agree(after, now);
}

} // verus!
