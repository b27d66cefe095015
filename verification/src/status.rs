//! How tasks are shown to clients.
//!
//! Two protocols show the same facts: one with every number as text, one with numbers as
//! numbers.

use vstd::prelude::*;

use crate::bits::{bit_at, field_of, is_field, law_field_has_its_bits, lemma_field_unique};
use crate::config::{bool_str, bool_text, opt_view};
use crate::json::{
    json_views, opt_text, opt_text_view, signed_view, Json, JsonView, ObjectBuilder,
};
use crate::outside::{hex_digit, hex_text};
use crate::pieces::PieceTrack;
use crate::task::{
    active_time, path_text, snapshot, status_text, uri_state_at, uri_state_text, PeerInfo, Task,
    UriState,
};
use crate::text::{dec_string, decimal, signed_decimal, signed_string};
use crate::torrent::{file_wanted, is_wanted, sel_view, Info, TorrentMeta};

verus! {

/// A number as it is shown.
pub open spec fn num_view(n: int, native: bool) -> JsonView {
    if native { JsonView::Unsigned(n as u64) } else { JsonView::Str(decimal(n as nat)) }
}

/// A truth value as it is shown.
pub open spec fn flag_view(b: bool, native: bool) -> JsonView {
    if native { JsonView::Bool(b) } else { JsonView::Str(bool_text(b)) }
}

/// An error code as it is shown.
pub open spec fn code_view(n: i64, native: bool) -> JsonView {
    if native { signed_view(n) } else { JsonView::Str(signed_decimal(n as int)) }
}

/// A share ratio as it is shown.
pub open spec fn ratio_view(uploaded: u64, total: u64, native: bool) -> JsonView {
    let (num, den) = if total > 0 { (uploaded, total) } else { (0, 1) };
    if native { JsonView::Quotient(num, den) } else { JsonView::QuotientText(num, den) }
}

fn num(n: u64, native: bool) -> (r: Json)
    ensures
        r@ == num_view(n as int, native),
{
    if native {
        Json::Unsigned(n)
    } else {
        Json::Str(dec_string(n))
    }
}

fn flag(b: bool, native: bool) -> (r: Json)
    ensures
        r@ == flag_view(b, native),
{
    if native {
        Json::Bool(b)
    } else {
        Json::Str(bool_str(b))
    }
}

fn code(n: i64, native: bool) -> (r: Json)
    ensures
        r@ == code_view(n, native),
{
    if native {
        Json::signed(n)
    } else {
        Json::Str(signed_string(n))
    }
}

fn ratio(uploaded: u64, total: u64, native: bool) -> (r: Json)
    ensures
        r@ == ratio_view(uploaded, total, native),
{
    let (num, den): (u64, u64) = if total > 0 { (uploaded, total) } else { (0, 1) };
    if native {
        Json::Quotient { num, den }
    } else {
        Json::QuotientText { num, den }
    }
}

fn hex_char(d: u8) -> (r: char)
    requires
        d < 16,
    ensures
        r == hex_digit(d as int),
{
    if d < 10 {
        (48 + d) as char
    } else {
        (87 + d) as char
    }
}

/// A bit field as text: two hexadecimal digits per byte.
pub fn bitfield_hex(bytes: &Vec<u8>) -> (r: String)
    ensures
        r@ == hex_text(bytes@),
{
    let mut s = String::new();
    let mut i: usize = 0;
    assert(s@ =~= hex_text(bytes@.take(0)));
    while i < bytes.len()
        invariant
            i <= bytes@.len(),
            s@ == hex_text(bytes@.take(i as int)),
        decreases bytes@.len() - i,
    {
        let b: u8 = bytes[i];
        let ghost before = s@;
        s.push(hex_char(b / 16));
        s.push(hex_char(b % 16));
        proof {
            let old_part = bytes@.take(i as int);
            let new_part = bytes@.take(i + 1);
            assert forall|k: int| 0 <= k < s@.len() implies s@[k] == hex_text(new_part)[k] by {
                if k < before.len() {
                    assert(old_part[k / 2] == new_part[k / 2]);
                } else {
                    assert(k / 2 == i);
                }
            }
            assert(s@ =~= hex_text(new_part));
        }
        i = i + 1;
    }
    assert(bytes@.take(i as int) =~= bytes@);
    s
}

/// What is known of a task's pieces.
pub struct PieceInfo {
    pub count: u64,
    pub length: u64,
    /// Finished pieces.
    pub done: Vec<u8>,
    /// Pieces that are begun.
    pub partial: Vec<u8>,
    /// Pieces that must be fetched.
    pub wanted: Vec<u8>,
}

/// What is known of a task's pieces.
pub struct PieceInfoView {
    pub count: u64,
    pub length: u64,
    pub done: Seq<u8>,
    pub partial: Seq<u8>,
    pub wanted: Seq<u8>,
}

impl PieceInfo {
    pub open spec fn view(&self) -> PieceInfoView {
        PieceInfoView {
            count: self.count,
            length: self.length,
            done: self.done@,
            partial: self.partial@,
            wanted: self.wanted@,
        }
    }
}

/// The pieces of a torrent that must be fetched; empty without a selection.
pub open spec fn wanted_bits(info: Info, sel: Option<Seq<usize>>) -> Seq<u8> {
    if sel is None || info.pieces == 0 || info.piece_length == 0 {
        Seq::empty()
    } else {
        field_of(
            info.pieces as int,
            |p: int| info.piece_wanted(sel->0, info.files@.len() as int, p),
        )
    }
}

/// The pieces of a file that are begun but not finished.
pub open spec fn partial_bits(t: PieceTrack) -> Seq<u8> {
    field_of(t.done@.len() as int, |i: int| 0 < t.done@[i] < t.hi(i) - t.lo(i))
}

/// The selected files of a task.
pub open spec fn selection(t: Task) -> Option<Seq<usize>> {
    match t.selected_files {
        Some(s) => Some(s@),
        None => None,
    }
}

/// The pieces of a task: those of its torrent, else those of its piece map.
pub open spec fn pieces_of(t: Task) -> PieceInfoView {
    match t.bt_meta {
        Some(m) => PieceInfoView {
            count: m.info.pieces as u64,
            length: m.info.piece_length,
            done: t.bt_bitfield@,
            partial: Seq::empty(),
            wanted: wanted_bits(m.info, selection(t)),
        },
        None => match t.http_pieces {
            Some(p) => PieceInfoView {
                count: (p.done@.len() as u32) as u64,
                length: p.piece_len,
                done: p.bf@,
                partial: partial_bits(p),
                wanted: Seq::empty(),
            },
            None => PieceInfoView {
                count: 0,
                length: 0,
                done: Seq::empty(),
                partial: Seq::empty(),
                wanted: Seq::empty(),
            },
        },
    }
}

fn selected<'a>(t: &'a Task) -> (r: Option<&'a Vec<usize>>)
    ensures
        sel_view(r) == selection(*t),
{
    match &t.selected_files {
        Some(s) => Some(s),
        None => None,
    }
}

fn piece_info(t: &Task) -> (r: PieceInfo)
    requires
        t.wf(),
    ensures
        r@ == pieces_of(*t),
{
    match &t.bt_meta {
        Some(m) => {
            let wanted = m.info.wanted_bitfield(selected(t));
            let done = t.bt_bitfield.clone();
            let partial: Vec<u8> = Vec::new();
            proof {
                assert(done@ =~= t.bt_bitfield@);
                assert(partial@ =~= Seq::<u8>::empty());
                let sel = selection(*t);
                if sel is None || m.info.pieces == 0 || m.info.piece_length == 0 {
                    assert(wanted@ =~= Seq::<u8>::empty());
                } else {
                    let pred = |p: int|
                        m.info.piece_wanted(sel->0, m.info.files@.len() as int, p);
                    assert(is_field(wanted@, m.info.pieces as int, pred)) by {
                        assert forall|p: int| 0 <= p implies #[trigger] bit_at(wanted@, p) == (p
                            < m.info.pieces && pred(p)) by {}
                    }
                    lemma_field_unique(wanted@, m.info.pieces as int, pred);
                }
            }
            PieceInfo {
                count: m.info.pieces as u64,
                length: m.info.piece_length,
                done,
                partial,
                wanted,
            }
        },
        None => match &t.http_pieces {
            Some(p) => {
                let partial = p.partial_bitfield();
                let wanted: Vec<u8> = Vec::new();
                proof {
                    assert(wanted@ =~= Seq::<u8>::empty());
                    let pred = |i: int| 0 < p.done@[i] < p.hi(i) - p.lo(i);
                    assert(is_field(partial@, p.done@.len() as int, pred)) by {
                        assert forall|i: int| 0 <= i implies #[trigger] bit_at(partial@, i) == (i
                            < p.done@.len() && pred(i)) by {}
                    }
                    lemma_field_unique(partial@, p.done@.len() as int, pred);
                }
                PieceInfo {
                    count: p.num_pieces() as u64,
                    length: p.piece_len(),
                    done: p.bitfield(),
                    partial,
                    wanted,
                }
            },
            None => {
                let r = PieceInfo {
                    count: 0,
                    length: 0,
                    done: Vec::new(),
                    partial: Vec::new(),
                    wanted: Vec::new(),
                };
                assert(r@.done =~= Seq::<u8>::empty());
                assert(r@.partial =~= Seq::<u8>::empty());
                assert(r@.wanted =~= Seq::<u8>::empty());
                r
            },
        },
    }
}

/// Whether a task has all its bytes.
pub open spec fn has_all(t: Task) -> bool {
    match t.shared.total_len {
        Some(n) => n > 0 && t.completed_now() >= n,
        None => false,
    }
}

fn is_whole(t: &Task) -> (r: bool)
    ensures
        r == has_all(*t),
{
    match t.shared.total_len {
        Some(n) => n > 0 && t.completed_live() >= n,
        None => false,
    }
}

/// One file as it is shown.
pub open spec fn file_view(
    index: int,
    path: Seq<char>,
    length: int,
    done: int,
    wanted: bool,
    uris: Seq<JsonView>,
    native: bool,
) -> JsonView {
    JsonView::Obj(
        seq![
            ("index"@, num_view(index, native)),
            ("path"@, JsonView::Str(path)),
            ("length"@, num_view(length, native)),
            ("completedLength"@, num_view(done, native)),
            ("selected"@, flag_view(wanted, native)),
            ("uris"@, JsonView::Arr(uris)),
        ],
    )
}

fn show_file(
    index: u64,
    path: &str,
    length: u64,
    done: u64,
    wanted: bool,
    uris: Vec<Json>,
    native: bool,
) -> (r: Json)
    ensures
        r@ == file_view(
            index as int,
            path@,
            length as int,
            done as int,
            wanted,
            json_views(uris@),
            native,
        ),
{
    let mut b = ObjectBuilder::new();
    b.put("index", num(index, native));
    b.put("path", Json::text(path));
    b.put("length", num(length, native));
    b.put("completedLength", num(done, native));
    b.put("selected", flag(wanted, native));
    let ghost shown = json_views(uris@);
    b.put("uris", Json::array(uris));
    assert(b@ =~= file_view(
        index as int,
        path@,
        length as int,
        done as int,
        wanted,
        shown,
        native,
    )->Obj_0);
    b.done()
}

/// One address as it is shown.
pub open spec fn uri_view(u: Seq<char>, st: UriState) -> JsonView {
    JsonView::Obj(
        seq![("uri"@, JsonView::Str(u)), ("status"@, JsonView::Str(uri_state_text(st)))],
    )
}

/// The addresses of a task as they are shown.
pub open spec fn uris_view(t: Task) -> Seq<JsonView> {
    Seq::new(t.uris@.len(), |i: int| uri_view(t.uris@[i]@, uri_state_at(t.uri_states@, i)))
}

/// File `i` of a torrent task as it is shown.
pub open spec fn torrent_file_view(t: Task, m: TorrentMeta, i: int, native: bool) -> JsonView {
    file_view(
        i + 1,
        m.info.files@[i].path@,
        m.info.files@[i].length as int,
        m.info.shown_done(t.bt_bitfield@, selection(t), has_all(t), i),
        is_wanted(selection(t), i),
        Seq::empty(),
        native,
    )
}

/// The files of a task as they are shown. A magnet link has none until its torrent is
/// known.
pub open spec fn files_view(t: Task, native: bool) -> Seq<JsonView> {
    match t.bt_meta {
        Some(m) => Seq::new(m.info.files@.len(), |i: int| torrent_file_view(t, m, i, native)),
        None => if t.bt_info_hash is Some {
            Seq::empty()
        } else {
            seq![
                file_view(
                    1,
                    path_text(t.shared.path),
                    t.shared.file_len as int,
                    t.completed_now() as int,
                    is_wanted(selection(t), 0),
                    uris_view(t),
                    native,
                ),
            ]
        },
    }
}

/// The addresses of a task as they are shown.
pub fn show_uris(t: &Task) -> (r: Vec<Json>)
    ensures
        json_views(r@) == uris_view(*t),
{
    let mut out: Vec<Json> = Vec::new();
    let mut i: usize = 0;
    while i < t.uris.len()
        invariant
            i <= t.uris@.len(),
            out@.len() == i,
            forall|k: int|
                0 <= k < i ==> (#[trigger] out@[k])@ == uri_view(
                    t.uris@[k]@,
                    uri_state_at(t.uri_states@, k),
                ),
        decreases t.uris@.len() - i,
    {
        let st = if i < t.uri_states.len() { t.uri_states[i] } else { UriState::Waiting };
        let mut b = ObjectBuilder::new();
        b.put("uri", Json::text(t.uris[i].as_str()));
        b.put("status", Json::text(st.as_str()));
        assert(b@ =~= uri_view(t.uris@[i as int]@, st)->Obj_0);
        out.push(b.done());
        i = i + 1;
    }
    assert(json_views(out@) =~= uris_view(*t));
    out
}

/// The files of a task as they are shown.
pub fn show_files(t: &Task, native: bool) -> (r: Vec<Json>)
    requires
        t.wf(),
    ensures
        json_views(r@) == files_view(*t, native),
{
    let mut out: Vec<Json> = Vec::new();
    match &t.bt_meta {
        Some(m) => {
            let done = m.info.files_done_bytes(&t.bt_bitfield, selected(t), is_whole(t));
            let n: usize = m.info.files.len();
            let mut i: usize = 0;
            while i < n
                invariant
                    i <= n,
                    n == m.info.files@.len(),
                    done@.len() == n,
                    t.bt_meta == Some(*m),
                    out@.len() == i,
                    forall|k: int|
                        0 <= k < n ==> #[trigger] done@[k] == m.info.shown_done(
                            t.bt_bitfield@,
                            selection(*t),
                            has_all(*t),
                            k,
                        ),
                    forall|k: int|
                        0 <= k < i ==> (#[trigger] out@[k])@ == torrent_file_view(*t, *m, k, native),
                decreases n - i,
            {
                let none: Vec<Json> = Vec::new();
                assert(json_views(none@) =~= Seq::<JsonView>::empty());
                let f = show_file(
                    i as u64 + 1,
                    m.info.files[i].path.as_str(),
                    m.info.files[i].length,
                    done[i],
                    file_wanted(selected(t), i),
                    none,
                    native,
                );
                out.push(f);
                i = i + 1;
            }
        },
        None => {
            if t.bt_info_hash.is_none() {
                let path = match &t.shared.path {
                    Some(p) => p.clone(),
                    None => String::new(),
                };
                assert(path@ == path_text(t.shared.path));
                let f = show_file(
                    1,
                    path.as_str(),
                    t.shared.file_len,
                    t.completed_live(),
                    file_wanted(selected(t), 0),
                    show_uris(t),
                    native,
                );
                out.push(f);
            }
        },
    }
    assert(json_views(out@) =~= files_view(*t, native));
    out
}

/// Connected peers that have the whole torrent.
pub open spec fn seed_count(p: Seq<PeerInfo>) -> int
    decreases p.len(),
{
    if p.len() == 0 {
        0
    } else {
        seed_count(p.drop_last()) + if p.last().seed { 1int } else { 0int }
    }
}

fn count_seeds(p: &Vec<PeerInfo>) -> (r: u64)
    ensures
        r == seed_count(p@),
{
    let mut n: usize = 0;
    let mut i: usize = 0;
    assert(p@.take(0) =~= Seq::<PeerInfo>::empty());
    while i < p.len()
        invariant
            i <= p@.len(),
            n <= i,
            n == seed_count(p@.take(i as int)),
        decreases p@.len() - i,
    {
        proof {
            assert(p@.take(i + 1).drop_last() =~= p@.take(i as int));
        }
        if p[i].seed {
            n = n + 1;
        }
        i = i + 1;
    }
    assert(p@.take(i as int) =~= p@);
    n as u64
}

/// Whether a task seeds: its torrent is known and all bytes are there.
pub open spec fn is_seeder(t: Task) -> bool {
    t.bt_meta is Some && has_all(t)
}

/// The info hash of a BitTorrent task as text.
pub open spec fn hash_text(t: Task) -> Option<Seq<char>> {
    match t.bt_info_hash {
        Some(h) => Some(hex_text(h@)),
        None => match t.bt_meta {
            Some(m) => Some(hex_text(m.info_hash@)),
            None => None,
        },
    }
}

/// The info hash of a BitTorrent task as text.
pub fn info_hash_hex(t: &Task) -> (r: Option<String>)
    ensures
        opt_view(r) == hash_text(*t),
{
    match &t.bt_info_hash {
        Some(h) => Some(bitfield_hex(h)),
        None => match &t.bt_meta {
            Some(m) => Some(bitfield_hex(&m.info_hash)),
            None => None,
        },
    }
}

/// What clients tell BitTorrent tasks by: nothing for other tasks, an empty object while
/// the torrent is not known, else its name and hash.
pub open spec fn bittorrent_view(t: Task) -> JsonView {
    match hash_text(t) {
        None => JsonView::Null,
        Some(h) => match t.bt_meta {
            Some(m) => JsonView::Obj(
                seq![
                    (
                        "info"@,
                        JsonView::Obj(
                            seq![
                                ("name"@, JsonView::Str(m.info.name@)),
                                ("hash"@, JsonView::Str(h)),
                            ],
                        ),
                    ),
                ],
            ),
            None => JsonView::Obj(Seq::empty()),
        },
    }
}

fn bittorrent_json(t: &Task, hash: &Option<String>) -> (r: Json)
    requires
        opt_view(*hash) == hash_text(*t),
    ensures
        r@ == bittorrent_view(*t),
{
    match hash {
        None => Json::Null,
        Some(h) => {
            let mut b = ObjectBuilder::new();
            match &t.bt_meta {
                Some(m) => {
                    let mut i = ObjectBuilder::new();
                    i.put("name", Json::text(m.info.name.as_str()));
                    i.put("hash", Json::text(h.as_str()));
                    assert(i@ =~= seq![
                        ("name"@, JsonView::Str(m.info.name@)),
                        ("hash"@, JsonView::Str(h@)),
                    ]);
                    b.put("info", i.done());
                },
                None => {},
            }
            b.done()
        },
    }
}

/// Average speed while active, in bytes per second; zero during the first second.
pub open spec fn average_speed(t: Task) -> int {
    if t.avg_active_ms < 1000 {
        0
    } else {
        (if t.avg_bytes * 1000 > u64::MAX { u64::MAX as int } else { t.avg_bytes * 1000 })
            / t.avg_active_ms as int
    }
}

/// Average speed while active, in bytes per second.
pub fn average_speed_of(t: &Task) -> (r: u64)
    ensures
        r == average_speed(*t),
{
    if t.avg_active_ms < 1000 {
        return 0;
    }
    let scaled: u64 = if t.avg_bytes > u64::MAX / 1000 { u64::MAX } else { t.avg_bytes * 1000 };
    scaled / t.avg_active_ms
}

/// The length of a task's content, zero if unknown.
pub open spec fn total_or_zero(t: Task) -> u64 {
    match t.shared.total_len {
        Some(n) => n,
        None => 0,
    }
}

/// A task with every number as text.
pub open spec fn status_view(t: Task, now: u64) -> JsonView {
    let p = pieces_of(t);
    let head = seq![
        ("gid"@, JsonView::Str(t.gid@)),
        ("status"@, JsonView::Str(status_text(t.shared.status))),
        ("totalLength"@, num_view(total_or_zero(t) as int, false)),
        ("completedLength"@, num_view(t.completed_now() as int, false)),
        ("uploadLength"@, num_view(t.uploaded_now() as int, false)),
        ("downloadSpeed"@, num_view(t.speed_now() as int, false)),
        ("uploadSpeed"@, num_view(t.upload_speed_now() as int, false)),
        ("averageSpeed"@, num_view(average_speed(t), false)),
        ("bitfield"@, JsonView::Str(hex_text(p.done))),
        ("partialBitfield"@, JsonView::Str(hex_text(p.partial))),
        ("wantedBitfield"@, JsonView::Str(hex_text(p.wanted))),
        ("connections"@, num_view(t.connections_now() as int, false)),
        ("errorCode"@, code_view(t.shared.error_code, false)),
        ("errorMessage"@, JsonView::Str(t.shared.error_message@)),
        ("elapsedMs"@, num_view(active_time(t.shared, now) as int, false)),
        ("belongsTo"@, JsonView::Str("0"@)),
        ("dir"@, JsonView::Str(t.dir@)),
        ("files"@, JsonView::Arr(files_view(t, false))),
        ("numSeeders"@, num_view(seed_count(t.bt_peers@), false)),
        ("seeder"@, flag_view(is_seeder(t), false)),
        ("numPieces"@, num_view(p.count as int, false)),
        ("pieceLength"@, num_view(p.length as int, false)),
        ("seedRatio"@, ratio_view(t.uploaded_now(), total_or_zero(t), false)),
    ];
    JsonView::Obj(
        match hash_text(t) {
            Some(h) => head.push(("bittorrent"@, bittorrent_view(t))).push(
                ("infoHash"@, JsonView::Str(h)),
            ),
            None => head,
        },
    )
}

/// A task with every number as text.
pub fn status_json(t: &Task, now: u64) -> (r: Json)
    requires
        t.wf(),
    ensures
        r@ == status_view(*t, now),
{
    let s = snapshot(t, now);
    let p = piece_info(t);
    let total: u64 = match s.total_len {
        Some(n) => n,
        None => 0,
    };
    let mut b = ObjectBuilder::new();
    b.put("gid", Json::Str(s.gid));
    b.put("status", Json::text(s.status.as_str()));
    b.put("totalLength", num(total, false));
    b.put("completedLength", num(s.completed, false));
    b.put("uploadLength", num(s.uploaded, false));
    b.put("downloadSpeed", num(s.download_speed, false));
    b.put("uploadSpeed", num(s.upload_speed, false));
    b.put("averageSpeed", num(average_speed_of(t), false));
    b.put("bitfield", Json::Str(bitfield_hex(&p.done)));
    b.put("partialBitfield", Json::Str(bitfield_hex(&p.partial)));
    b.put("wantedBitfield", Json::Str(bitfield_hex(&p.wanted)));
    b.put("connections", num(s.connections, false));
    b.put("errorCode", code(s.error_code, false));
    b.put("errorMessage", Json::Str(s.error_message));
    b.put("elapsedMs", num(s.elapsed_ms, false));
    b.put("belongsTo", Json::text("0"));
    b.put("dir", Json::Str(s.dir));
    b.put("files", Json::array(show_files(t, false)));
    b.put("numSeeders", num(count_seeds(&t.bt_peers), false));
    b.put("seeder", flag(t.bt_meta.is_some() && is_whole(t), false));
    b.put("numPieces", num(p.count, false));
    b.put("pieceLength", num(p.length, false));
    b.put("seedRatio", ratio(s.uploaded, total, false));
    let hash = info_hash_hex(t);
    match &hash {
        Some(h) => {
            b.put("bittorrent", bittorrent_json(t, &hash));
            b.put("infoHash", Json::text(h.as_str()));
        },
        None => {},
    }
    assert(b@ =~= status_view(*t, now)->Obj_0);
    b.done()
}

/// A task with numbers as numbers.
pub open spec fn native_view(t: Task, now: u64) -> JsonView {
    let p = pieces_of(t);
    JsonView::Obj(
        seq![
            ("gid"@, JsonView::Str(t.gid@)),
            ("status"@, JsonView::Str(status_text(t.shared.status))),
            ("totalLength"@, num_view(total_or_zero(t) as int, true)),
            ("completedLength"@, num_view(t.completed_now() as int, true)),
            ("filename"@, opt_text_view(opt_view(t.shared.filename))),
            ("uploadLength"@, num_view(t.uploaded_now() as int, true)),
            ("downloadSpeed"@, num_view(t.speed_now() as int, true)),
            ("uploadSpeed"@, num_view(t.upload_speed_now() as int, true)),
            ("averageSpeed"@, num_view(average_speed(t), true)),
            ("bitfield"@, JsonView::Str(hex_text(p.done))),
            ("partialBitfield"@, JsonView::Str(hex_text(p.partial))),
            ("wantedBitfield"@, JsonView::Str(hex_text(p.wanted))),
            ("connections"@, num_view(t.connections_now() as int, true)),
            ("errorCode"@, code_view(t.shared.error_code, true)),
            ("errorMessage"@, JsonView::Str(t.shared.error_message@)),
            ("elapsedMs"@, num_view(active_time(t.shared, now) as int, true)),
            ("finishedAt"@, num_view(t.finished_at as int, true)),
            ("dir"@, JsonView::Str(t.dir@)),
            ("files"@, JsonView::Arr(files_view(t, true))),
            ("numSeeders"@, num_view(seed_count(t.bt_peers@), true)),
            ("seeder"@, flag_view(is_seeder(t), true)),
            ("numPieces"@, num_view(p.count as int, true)),
            ("pieceLength"@, num_view(p.length as int, true)),
            ("awaitingSelection"@, flag_view(t.awaiting_selection, true)),
            ("seedRatio"@, ratio_view(t.uploaded_now(), total_or_zero(t), true)),
            ("infoHash"@, opt_text_view(hash_text(t))),
            ("bittorrent"@, bittorrent_view(t)),
        ],
    )
}

/// A task with numbers as numbers.
pub fn status_json_native(t: &Task, now: u64) -> (r: Json)
    requires
        t.wf(),
    ensures
        r@ == native_view(*t, now),
{
    let s = snapshot(t, now);
    let p = piece_info(t);
    let total: u64 = match s.total_len {
        Some(n) => n,
        None => 0,
    };
    let hash = info_hash_hex(t);
    let mut b = ObjectBuilder::new();
    b.put("gid", Json::Str(s.gid));
    b.put("status", Json::text(s.status.as_str()));
    b.put("totalLength", num(total, true));
    b.put("completedLength", num(s.completed, true));
    b.put("filename", opt_text(&s.filename));
    b.put("uploadLength", num(s.uploaded, true));
    b.put("downloadSpeed", num(s.download_speed, true));
    b.put("uploadSpeed", num(s.upload_speed, true));
    b.put("averageSpeed", num(average_speed_of(t), true));
    b.put("bitfield", Json::Str(bitfield_hex(&p.done)));
    b.put("partialBitfield", Json::Str(bitfield_hex(&p.partial)));
    b.put("wantedBitfield", Json::Str(bitfield_hex(&p.wanted)));
    b.put("connections", num(s.connections, true));
    b.put("errorCode", code(s.error_code, true));
    b.put("errorMessage", Json::Str(s.error_message));
    b.put("elapsedMs", num(s.elapsed_ms, true));
    b.put("finishedAt", num(s.finished_at, true));
    b.put("dir", Json::Str(s.dir));
    b.put("files", Json::array(show_files(t, true)));
    b.put("numSeeders", num(count_seeds(&t.bt_peers), true));
    b.put("seeder", flag(t.bt_meta.is_some() && is_whole(t), true));
    b.put("numPieces", num(p.count, true));
    b.put("pieceLength", num(p.length, true));
    b.put("awaitingSelection", flag(t.awaiting_selection, true));
    b.put("seedRatio", ratio(s.uploaded, total, true));
    b.put("infoHash", opt_text(&hash));
    b.put("bittorrent", bittorrent_json(t, &hash));
    assert(b@ =~= native_view(*t, now)->Obj_0);
    b.done()
}

/// A peer as it is shown.
pub open spec fn peer_view(p: PeerInfo) -> JsonView {
    JsonView::Obj(
        seq![
            ("addr"@, JsonView::Str(p.addr@)),
            ("peerId"@, JsonView::Str(p.peer_id@)),
            ("client"@, JsonView::Str(p.client@)),
            ("source"@, JsonView::Str(p.source@)),
            ("choked"@, JsonView::Bool(p.choked)),
            ("interested"@, JsonView::Bool(p.interested)),
            ("seed"@, JsonView::Bool(p.seed)),
            ("downloaded"@, JsonView::Unsigned(p.downloaded)),
            ("connected"@, JsonView::Bool(p.connected)),
            ("encrypted"@, JsonView::Bool(p.encrypted)),
            ("uploaded"@, JsonView::Unsigned(p.uploaded)),
            ("protocol"@, JsonView::Str(p.protocol@)),
            ("connectedSecs"@, JsonView::Unsigned(p.connected_secs)),
            ("progress"@, JsonView::Float(p.progress@)),
        ],
    )
}

/// The peers of a task as they are shown.
pub open spec fn peers_view(p: Seq<PeerInfo>) -> JsonView {
    JsonView::Arr(Seq::new(p.len(), |i: int| peer_view(p[i])))
}

/// The peers of a task as they are shown.
pub fn show_peers(p: &Vec<PeerInfo>) -> (r: Json)
    ensures
        r@ == peers_view(p@),
{
    let mut out: Vec<Json> = Vec::new();
    let mut i: usize = 0;
    while i < p.len()
        invariant
            i <= p@.len(),
            out@.len() == i,
            forall|k: int| 0 <= k < i ==> (#[trigger] out@[k])@ == peer_view(p@[k]),
        decreases p@.len() - i,
    {
        let q = &p[i];
        let mut b = ObjectBuilder::new();
        b.put("addr", Json::text(q.addr.as_str()));
        b.put("peerId", Json::text(q.peer_id.as_str()));
        b.put("client", Json::text(q.client.as_str()));
        b.put("source", Json::text(q.source.as_str()));
        b.put("choked", Json::Bool(q.choked));
        b.put("interested", Json::Bool(q.interested));
        b.put("seed", Json::Bool(q.seed));
        b.put("downloaded", Json::Unsigned(q.downloaded));
        b.put("connected", Json::Bool(q.connected));
        b.put("encrypted", Json::Bool(q.encrypted));
        b.put("uploaded", Json::Unsigned(q.uploaded));
        b.put("protocol", Json::text(q.protocol.as_str()));
        b.put("connectedSecs", Json::Unsigned(q.connected_secs));
        b.put("progress", Json::Float(q.progress.clone()));
        assert(b@ =~= peer_view(p@[i as int])->Obj_0);
        out.push(b.done());
        i = i + 1;
    }
    assert(json_views(out@) =~= peers_view(p@)->Arr_0);
    Json::array(out)
}

/// A piece is shown as begun when some of its bytes are there but not all: all are as
/// many as a piece has, or as are left for the last one.
pub proof fn law_begun_pieces_are_shown(t: PieceTrack, i: int)
    requires
        t.wf(),
        0 <= i < t.done@.len(),
    ensures
        ({
            let first = i * t.piece_len;
            let size = if first + t.piece_len < t.total { t.piece_len as int } else { t.total - first };
            bit_at(partial_bits(t), i) <==> 0 < t.done@[i] && t.done@[i] < size
        }),
{
    let n = t.done@.len() as int;
    let pred = |k: int| 0 < t.done@[k] < t.hi(k) - t.lo(k);
    law_field_has_its_bits(n, pred, i);
    assert((i + 1) * t.piece_len == i * t.piece_len + t.piece_len) by (nonlinear_arith);
}

/// Where files are selected, the pieces to be fetched are those that hold a byte of one
/// of them. Without a selection, or without pieces, none are named.
pub proof fn law_wanted_pieces_are_shown(info: Info, sel: Seq<usize>, i: int)
    requires
        info.pieces > 0,
        info.piece_length > 0,
        0 <= i < info.pieces,
    ensures
        wanted_bits(info, None).len() == 0,
        bit_at(wanted_bits(info, Some(sel)), i) <==> info.piece_wanted(sel, info.files@.len() as int, i),
{
    let pred = |p: int| info.piece_wanted(sel, info.files@.len() as int, p);
    law_field_has_its_bits(info.pieces as int, pred, i);
}

} // verus!
