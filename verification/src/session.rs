//! Sessions: tasks and settings that outlive a run.

use vstd::prelude::*;

use crate::config::opt_view;
use crate::json::{
    opt_text_view, signed_view, text_array, text_list_view, text_table_view, texts_in, Json,
    JsonView, ObjectBuilder,
};
use crate::lists::{
    lemma_key_at, lemma_rebuilt, lemma_unique_with_value, put_value, unique_keys, with_value,
};
use crate::manifest::{pair_texts, string_texts};
use crate::outside::{base64_bytes, base64_encode, base64_text, hex_digit, hex_text};
use crate::settings::{checksum_text, show_checksum};
use crate::status::{bitfield_hex, total_or_zero};
use crate::task::{active_time, path_text, status_text, Status, Task};
use crate::text::{same_str, trimmed};

verus! {

// ---------------------------------------------------------------------------
// Hexadecimal text
// ---------------------------------------------------------------------------

/// The value of a hexadecimal digit.
pub open spec fn nibble(c: u8) -> Option<int> {
    if 48 <= c <= 57 {
        Some(c - 48)
    } else if 97 <= c <= 102 {
        Some(c - 87)
    } else if 65 <= c <= 70 {
        Some(c - 55)
    } else {
        None
    }
}

/// The byte that two characters spell: two hexadecimal digits, or one behind a plus
/// sign. Anything else counts as zero.
pub open spec fn pair_value(a: u8, b: u8) -> u8 {
    match nibble(b) {
        None => 0,
        Some(y) => match nibble(a) {
            Some(x) => (16 * x + y) as u8,
            None => if a == 43 { y as u8 } else { 0 },
        },
    }
}

/// The bytes that pairs of characters spell.
pub open spec fn hex_bytes(s: Seq<u8>) -> Seq<u8> {
    Seq::new((s.len() / 2) as nat, |i: int| pair_value(s[2 * i], s[2 * i + 1]))
}

fn read_nibble(c: u8) -> (r: Option<u8>)
    ensures
        match r {
            Some(x) => nibble(c) == Some(x as int) && x < 16,
            None => nibble(c) is None,
        },
{
    if 48 <= c && c <= 57 {
        Some(c - 48)
    } else if 97 <= c && c <= 102 {
        Some(c - 87)
    } else if 65 <= c && c <= 70 {
        Some(c - 55)
    } else {
        None
    }
}

/// The bytes that a hexadecimal text spells.
pub fn read_hex(text: &str) -> (r: Vec<u8>)
    ensures
        r@ == hex_bytes(vstd::utf8::encode_utf8(text@)),
{
    let s = text.as_bytes();
    let n: usize = s.len() / 2;
    let mut out: Vec<u8> = Vec::new();
    let mut i: usize = 0;
    while i < n
        invariant
            i <= n,
            n == s@.len() / 2,
            s@.len() <= usize::MAX,
            out@.len() == i,
            forall|k: int| 0 <= k < i ==> #[trigger] out@[k] == pair_value(s@[2 * k], s@[2 * k + 1]),
        decreases n - i,
    {
        let a: u8 = s[2 * i];
        let b: u8 = s[2 * i + 1];
        let v: u8 = match read_nibble(b) {
            None => 0,
            Some(y) => match read_nibble(a) {
                Some(x) => 16 * x + y,
                None => if a == 43 {
                    y
                } else {
                    0
                },
            },
        };
        out.push(v);
        i = i + 1;
    }
    assert(out@ =~= hex_bytes(s@));
    out
}

/// Hexadecimal text spells the bytes it was made from.
pub proof fn law_hex_round_trip(b: Seq<u8>)
    ensures
        hex_bytes(vstd::utf8::encode_utf8(hex_text(b))) == b,
        vstd::utf8::encode_utf8(hex_text(b)).len() == 2 * b.len(),
{
    let t = hex_text(b);
    assert forall|i: int| 0 <= i < t.len() implies 0 <= #[trigger] (t[i] as u32) < 128 by {
        let d: int = if i % 2 == 0 { b[i / 2] as int / 16 } else { b[i / 2] as int % 16 };
        assert(0 <= d < 16);
        assert(t[i] == hex_digit(d));
    }
    assert(vstd::utf8::is_ascii_chars(t));
    vstd::utf8::is_ascii_chars_encode_utf8(t);
    let e = vstd::utf8::encode_utf8(t);
    assert forall|i: int| 0 <= i < b.len() implies hex_bytes(e)[i] == b[i] by {
        let x: int = b[i] as int / 16;
        let y: int = b[i] as int % 16;
        assert(t[2 * i] == hex_digit(x));
        assert(t[2 * i + 1] == hex_digit(y));
        assert(e[2 * i] == t[2 * i] as u8);
        assert(e[2 * i + 1] == t[2 * i + 1] as u8);
        assert(nibble(e[2 * i]) == Some(x));
        assert(nibble(e[2 * i + 1]) == Some(y));
    }
    assert(hex_bytes(e) =~= b);
}

// ---------------------------------------------------------------------------
// One task
// ---------------------------------------------------------------------------

/// What is kept of a task.
pub struct SavedTask {
    pub gid: String,
    pub uris: Vec<String>,
    pub dir: Option<String>,
    pub out: Option<String>,
    pub checksum: Option<String>,
    pub options: Vec<(String, String)>,
    pub status: Status,
    pub completed: u64,
    pub total: Option<u64>,
    pub elapsed_ms: u64,
    pub path: Option<String>,
    pub error_code: i64,
    pub error_message: String,
    pub trackers: Vec<String>,
    /// Info hash of a magnet link, as text.
    pub info_hash: Option<String>,
    /// The torrent file, as Base64 text.
    pub torrent: Option<String>,
    /// Finished pieces, as text.
    pub bitfield: Option<String>,
    pub finished_at: u64,
    pub avg_active_ms: u64,
    pub avg_bytes: u64,
}

/// What is kept of a task.
pub struct SavedView {
    pub gid: Seq<char>,
    pub uris: Seq<Seq<char>>,
    pub dir: Option<Seq<char>>,
    pub out: Option<Seq<char>>,
    pub checksum: Option<Seq<char>>,
    pub options: Seq<(Seq<char>, Seq<char>)>,
    pub status: Status,
    pub completed: u64,
    pub total: Option<u64>,
    pub elapsed_ms: u64,
    pub path: Option<Seq<char>>,
    pub error_code: i64,
    pub error_message: Seq<char>,
    pub trackers: Seq<Seq<char>>,
    pub info_hash: Option<Seq<char>>,
    pub torrent: Option<Seq<char>>,
    pub bitfield: Option<Seq<char>>,
    pub finished_at: u64,
    pub avg_active_ms: u64,
    pub avg_bytes: u64,
}

impl SavedTask {
    pub open spec fn view(&self) -> SavedView {
        SavedView {
            gid: self.gid@,
            uris: string_texts(self.uris@),
            dir: opt_view(self.dir),
            out: opt_view(self.out),
            checksum: opt_view(self.checksum),
            options: pair_texts(self.options@),
            status: self.status,
            completed: self.completed,
            total: self.total,
            elapsed_ms: self.elapsed_ms,
            path: opt_view(self.path),
            error_code: self.error_code,
            error_message: self.error_message@,
            trackers: string_texts(self.trackers@),
            info_hash: opt_view(self.info_hash),
            torrent: opt_view(self.torrent),
            bitfield: opt_view(self.bitfield),
            finished_at: self.finished_at,
            avg_active_ms: self.avg_active_ms,
            avg_bytes: self.avg_bytes,
        }
    }
}

/// The state that a task is kept in: a running one starts over as a waiting one.
pub open spec fn kept_status(s: Status) -> Status {
    match s {
        Status::Active => Status::Waiting,
        Status::Seeding => Status::Waiting,
        other => other,
    }
}

/// The name that a task's state is kept under.
pub open spec fn kept_name(s: Status) -> Seq<char> {
    match s {
        Status::Active => "waiting"@,
        other => status_text(other),
    }
}

/// The state that a kept name stands for.
pub open spec fn named_status(s: Seq<char>) -> Status {
    if s == "paused"@ {
        Status::Paused
    } else if s == "complete"@ {
        Status::Complete
    } else if s == "error"@ {
        Status::Error
    } else if s == "removed"@ {
        Status::Removed
    } else {
        Status::Waiting
    }
}

proof fn lemma_names(s: Status)
    ensures
        named_status(kept_name(s)) == kept_status(s),
{
    reveal_strlit("paused");
    reveal_strlit("complete");
    reveal_strlit("error");
    reveal_strlit("removed");
    reveal_strlit("waiting");
    reveal_strlit("seeding");
    assert("paused"@[0] == 'p');
    assert("complete"@[0] == 'c');
    assert("error"@[0] == 'e');
    assert("removed"@[0] == 'r');
    assert("waiting"@[0] == 'w');
    assert("seeding"@[0] == 's');
}

/// The Base64 text of a torrent file, if it is not too long for one.
pub open spec fn torrent_text(raw: Option<Vec<u8>>) -> Option<Seq<char>> {
    match raw {
        Some(b) => if b@.len() <= usize::MAX / 4 { Some(base64_text(b@)) } else { None },
        None => None,
    }
}

/// The torrent file of a task.
pub open spec fn raw_torrent(t: Task) -> Option<Vec<u8>> {
    match t.bt_meta {
        Some(m) => m.raw,
        None => None,
    }
}

/// What is kept of a task.
pub open spec fn saved_of(t: Task, now: u64) -> SavedView {
    SavedView {
        gid: t.gid@,
        uris: string_texts(t.uris@),
        dir: Some(t.dir@),
        out: opt_view(t.out),
        checksum: match t.checksum {
            Some(c) => Some(checksum_text(c)),
            None => None,
        },
        options: pair_texts(t.options@),
        status: kept_status(t.shared.status),
        completed: t.completed_now(),
        total: Some(total_or_zero(t)),
        elapsed_ms: active_time(t.shared, now),
        path: Some(path_text(t.shared.path)),
        error_code: t.shared.error_code,
        error_message: t.shared.error_message@,
        trackers: string_texts(t.bt_trackers@),
        info_hash: match t.bt_info_hash {
            Some(h) => Some(hex_text(h@)),
            None => None,
        },
        torrent: torrent_text(raw_torrent(t)),
        bitfield: Some(hex_text(t.bt_bitfield@)),
        finished_at: t.finished_at,
        avg_active_ms: t.avg_active_ms,
        avg_bytes: t.avg_bytes,
    }
}

/// The torrent file of a kept task, to be read outside.
pub open spec fn kept_torrent(s: SavedView) -> Option<Seq<u8>> {
    match s.torrent {
        Some(text) => match base64_bytes(trimmed(text)) {
            Ok(b) => Some(b),
            Err(_) => None,
        },
        None => None,
    }
}

/// Whether what is kept of a task holds its torrent file, if that is not too long.
pub open spec fn keeps_torrent(t: Task, now: u64) -> bool {
    match raw_torrent(t) {
        Some(b) => b@.len() <= usize::MAX / 4 ==> kept_torrent(saved_of(t, now)) == Some(b@),
        None => kept_torrent(saved_of(t, now)) is None,
    }
}

/// A kept task as a document, with the name of its state.
pub open spec fn saved_json(s: SavedView, status: Seq<char>) -> JsonView {
    JsonView::Obj(
        seq![
            ("gid"@, JsonView::Str(s.gid)),
            ("uris"@, text_list_view(s.uris)),
            ("dir"@, opt_text_view(s.dir)),
            ("out"@, opt_text_view(s.out)),
            ("checksum"@, opt_text_view(s.checksum)),
            ("options"@, text_table_view(s.options)),
            ("status"@, JsonView::Str(status)),
            ("completedLength"@, JsonView::Unsigned(s.completed)),
            (
                "totalLength"@,
                match s.total {
                    Some(n) => JsonView::Unsigned(n),
                    None => JsonView::Null,
                },
            ),
            ("elapsedMs"@, JsonView::Unsigned(s.elapsed_ms)),
            ("path"@, opt_text_view(s.path)),
            ("errorCode"@, signed_view(s.error_code)),
            ("errorMessage"@, JsonView::Str(s.error_message)),
            ("btTrackers"@, text_list_view(s.trackers)),
            ("btInfoHash"@, opt_text_view(s.info_hash)),
            ("btTorrentB64"@, opt_text_view(s.torrent)),
            ("btBitfield"@, opt_text_view(s.bitfield)),
            ("finishedAt"@, JsonView::Unsigned(s.finished_at)),
            ("avgActiveMs"@, JsonView::Unsigned(s.avg_active_ms)),
            ("avgBytes"@, JsonView::Unsigned(s.avg_bytes)),
        ],
    )
}

/// The text under a key.
#[verifier::opaque]
pub open spec fn text_under(e: JsonView, key: Seq<char>) -> Option<Seq<char>> {
    e.at(key).text()
}

/// The number under a key.
#[verifier::opaque]
pub open spec fn number_under(e: JsonView, key: Seq<char>) -> Option<u64> {
    e.at(key).unsigned()
}

/// The texts of the array under a key, none if there is no array.
#[verifier::opaque]
pub open spec fn texts_under(e: JsonView, key: Seq<char>) -> Seq<Seq<char>> {
    match text_array(e.get(key)) {
        Some(t) => t,
        None => Seq::empty(),
    }
}

/// The texts of the object under a key, as a table.
#[verifier::opaque]
pub open spec fn table_under(e: JsonView, key: Seq<char>) -> Seq<(Seq<char>, Seq<char>)> {
    text_entries(e.at(key).fields())
}

/// The entries of an object that are texts, as a table.
pub open spec fn text_entries(f: Seq<(Seq<char>, JsonView)>) -> Seq<(Seq<char>, Seq<char>)>
    decreases f.len(),
{
    if f.len() == 0 {
        Seq::empty()
    } else {
        let rest = text_entries(f.drop_last());
        match f.last().1.text() {
            Some(s) => with_value(rest, f.last().0, s),
            None => rest,
        }
    }
}

/// A number, zero if there is none.
pub open spec fn or_zero(v: Option<u64>) -> u64 {
    match v {
        Some(n) => n,
        None => 0,
    }
}

/// The signed number under a key, zero if there is none.
#[verifier::opaque]
pub open spec fn signed_under(e: JsonView, key: Seq<char>) -> i64 {
    match e.at(key).signed() {
        Some(n) => n,
        None => 0,
    }
}

/// What a document says of a kept task; nothing if it has no name.
pub open spec fn read_view(e: JsonView) -> Option<SavedView> {
    match text_under(e, "gid"@) {
        None => None,
        Some(gid) => Some(
            SavedView {
                gid,
                uris: texts_under(e, "uris"@),
                dir: text_under(e, "dir"@),
                out: text_under(e, "out"@),
                checksum: text_under(e, "checksum"@),
                options: table_under(e, "options"@),
                status: match text_under(e, "status"@) {
                    Some(s) => named_status(s),
                    None => Status::Waiting,
                },
                completed: or_zero(number_under(e, "completedLength"@)),
                total: number_under(e, "totalLength"@),
                elapsed_ms: or_zero(number_under(e, "elapsedMs"@)),
                path: text_under(e, "path"@),
                error_code: signed_under(e, "errorCode"@),
                error_message: match text_under(e, "errorMessage"@) {
                    Some(s) => s,
                    None => Seq::empty(),
                },
                trackers: texts_under(e, "btTrackers"@),
                info_hash: text_under(e, "btInfoHash"@),
                torrent: text_under(e, "btTorrentB64"@),
                bitfield: text_under(e, "btBitfield"@),
                finished_at: or_zero(number_under(e, "finishedAt"@)),
                avg_active_ms: or_zero(number_under(e, "avgActiveMs"@)),
                avg_bytes: or_zero(number_under(e, "avgBytes"@)),
            },
        ),
    }
}

pub(crate) fn read_text(e: &Json, key: &str) -> (r: Option<String>)
    ensures
        opt_view(r) == text_under(e@, key@),
{
    reveal(text_under);
    match e.text_of(key) {
        Some(s) => Some(s.clone()),
        None => None,
    }
}

pub(crate) fn read_number(e: &Json, key: &str) -> (r: Option<u64>)
    ensures
        r == number_under(e@, key@),
{
    reveal(number_under);
    e.u64_of(key)
}

fn read_count(e: &Json, key: &str) -> (r: u64)
    ensures
        r == or_zero(number_under(e@, key@)),
{
    match read_number(e, key) {
        Some(n) => n,
        None => 0,
    }
}

fn read_code(e: &Json, key: &str) -> (r: i64)
    ensures
        r == signed_under(e@, key@),
{
    reveal(signed_under);
    match e.i64_of(key) {
        Some(n) => n,
        None => 0,
    }
}

pub(crate) fn read_texts(e: &Json, key: &str) -> (r: Vec<String>)
    ensures
        string_texts(r@) == texts_under(e@, key@),
{
    reveal(texts_under);
    match e.texts_of(key) {
        Some(v) => v,
        None => {
            let none: Vec<String> = Vec::new();
            assert(string_texts(none@) =~= Seq::<Seq<char>>::empty());
            none
        },
    }
}

/// The entries of an object that are texts, as a table.
pub fn read_table(e: Option<&Json>) -> (r: Vec<(String, String)>)
    ensures
        pair_texts(r@) == text_entries(
            match e {
                Some(j) => j@.fields(),
                None => Seq::empty(),
            },
        ),
        unique_keys(pair_texts(r@)),
{
    let mut out: Vec<(String, String)> = Vec::new();
    assert(pair_texts(out@) =~= Seq::<(Seq<char>, Seq<char>)>::empty());
    match e {
        Some(j) => match j {
            Json::Obj(f) => {
                let ghost all = crate::json::field_views(f@);
                proof {
                    crate::json::lemma_obj_view(*f);
                    assert(j@.fields() == all);
                }
                let mut i: usize = 0;
                assert(all.take(0) =~= Seq::<(Seq<char>, JsonView)>::empty());
                while i < f.len()
                    invariant
                        i <= f@.len(),
                        all == crate::json::field_views(f@),
                        pair_texts(out@) == text_entries(all.take(i as int)),
                        unique_keys(pair_texts(out@)),
                    decreases f@.len() - i,
                {
                    proof {
                        assert(all.take(i + 1).drop_last() =~= all.take(i as int));
                        assert(all.take(i + 1).last() == all[i as int]);
                    }
                    match f[i].value.as_str() {
                        Some(s) => {
                            proof {
                                lemma_unique_with_value(
                                    pair_texts(out@),
                                    f@[i as int].key@,
                                    s@,
                                );
                            }
                            put_value(&mut out, f[i].key.as_str(), s.as_str());
                        },
                        None => {},
                    }
                    i = i + 1;
                }
                assert(all.take(i as int) =~= all);
            },
            _ => {},
        },
        None => {},
    }
    out
}

/// The state that a kept name stands for.
pub fn read_status(s: &str) -> (r: Status)
    ensures
        r == named_status(s@),
{
    if same_str(s, "paused") {
        Status::Paused
    } else if same_str(s, "complete") {
        Status::Complete
    } else if same_str(s, "error") {
        Status::Error
    } else if same_str(s, "removed") {
        Status::Removed
    } else {
        Status::Waiting
    }
}

/// Reads a kept task; nothing if it has no name.
pub fn read_saved(e: &Json) -> (r: Option<SavedTask>)
    ensures
        match r {
            Some(s) => read_view(e@) == Some(s@) && unique_keys(pair_texts(s.options@)) && !(s.status is Active),
            None => read_view(e@) is None,
        },
{
    let gid = match read_text(e, "gid") {
        Some(g) => g,
        None => {
            return None;
        },
    };
    let options = read_table(e.get("options"));
    assert(pair_texts(options@) == table_under(e@, "options"@)) by {
        reveal(table_under);
    }
    let status = match read_text(e, "status") {
        Some(s) => read_status(s.as_str()),
        None => Status::Waiting,
    };
    let error_message = match read_text(e, "errorMessage") {
        Some(s) => s,
        None => String::new(),
    };
    let s = SavedTask {
        gid,
        uris: read_texts(e, "uris"),
        dir: read_text(e, "dir"),
        out: read_text(e, "out"),
        checksum: read_text(e, "checksum"),
        options,
        status,
        completed: read_count(e, "completedLength"),
        total: read_number(e, "totalLength"),
        elapsed_ms: read_count(e, "elapsedMs"),
        path: read_text(e, "path"),
        error_code: read_code(e, "errorCode"),
        error_message,
        trackers: read_texts(e, "btTrackers"),
        info_hash: read_text(e, "btInfoHash"),
        torrent: read_text(e, "btTorrentB64"),
        bitfield: read_text(e, "btBitfield"),
        finished_at: read_count(e, "finishedAt"),
        avg_active_ms: read_count(e, "avgActiveMs"),
        avg_bytes: read_count(e, "avgBytes"),
    };
    Some(s)
}

fn json_opt(v: &Option<String>) -> (r: Json)
    ensures
        r@ == opt_text_view(opt_view(*v)),
{
    match v {
        Some(s) => Json::text(s.as_str()),
        None => Json::Null,
    }
}

/// The Base64 text of a torrent file, if it is not too long for one.
fn torrent_base64(raw: &Option<Vec<u8>>) -> (r: Option<String>)
    ensures
        opt_view(r) == torrent_text(*raw),
        r is Some ==> base64_bytes(trimmed(r->0@)) == Ok::<Seq<u8>, Seq<char>>(raw->0@),
{
    match raw {
        Some(b) => if b.len() <= usize::MAX / 4 {
            let text = base64_encode(b);
            proof {
                lemma_visible(text@);
            }
            Some(text)
        } else {
            None
        },
        None => None,
    }
}

/// Visible text has no white space around it.
proof fn lemma_visible(s: Seq<char>)
    requires
        forall|i: int| 0 <= i < s.len() ==> 33 <= (#[trigger] s[i]) as u32 <= 126,
    ensures
        trimmed(s) == s,
{
    if s.len() > 0 {
        assert(33 <= s[0] as u32 <= 126);
        assert(33 <= s[s.len() - 1] as u32 <= 126);
    }
}

/// Writes what is kept of a task. Its torrent file can be read back from it.
pub fn write_saved(t: &Task, now: u64) -> (r: Json)
    ensures
        r@ == saved_json(saved_of(*t, now), kept_name(t.shared.status)),
        keeps_torrent(*t, now),
{
    let none: Option<Vec<u8>> = None;
    let torrent = match &t.bt_meta {
        Some(m) => torrent_base64(&m.raw),
        None => torrent_base64(&none),
    };
    let checksum = match &t.checksum {
        Some(c) => Some(show_checksum(c)),
        None => None,
    };
    let info_hash = match &t.bt_info_hash {
        Some(h) => Some(bitfield_hex(h)),
        None => None,
    };
    let path = match &t.shared.path {
        Some(p) => p.clone(),
        None => String::new(),
    };
    assert(path@ == path_text(t.shared.path));
    let total: u64 = match t.shared.total_len {
        Some(n) => n,
        None => 0,
    };
    let status = match t.status() {
        Status::Active => "waiting",
        other => other.as_str(),
    };
    let mut b = ObjectBuilder::new();
    b.put("gid", Json::text(t.gid.as_str()));
    b.put("uris", Json::text_list(&t.uris));
    b.put("dir", Json::text(t.dir.as_str()));
    b.put("out", json_opt(&t.out));
    b.put("checksum", json_opt(&checksum));
    b.put("options", Json::text_table(&t.options));
    b.put("status", Json::text(status));
    b.put("completedLength", Json::Unsigned(t.completed_live()));
    b.put("totalLength", Json::Unsigned(total));
    b.put("elapsedMs", Json::Unsigned(t.elapsed_ms(now)));
    b.put("path", Json::text(path.as_str()));
    b.put("errorCode", Json::signed(t.shared.error_code));
    b.put("errorMessage", Json::text(t.shared.error_message.as_str()));
    b.put("btTrackers", Json::text_list(&t.bt_trackers));
    b.put("btInfoHash", json_opt(&info_hash));
    b.put("btTorrentB64", json_opt(&torrent));
    b.put("btBitfield", Json::Str(bitfield_hex(&t.bt_bitfield)));
    b.put("finishedAt", Json::Unsigned(t.finished_at));
    b.put("avgActiveMs", Json::Unsigned(t.avg_active_ms));
    b.put("avgBytes", Json::Unsigned(t.avg_bytes));
    assert(b@ =~= saved_json(saved_of(*t, now), kept_name(t.shared.status))->Obj_0);
    b.done()
}

// ---------------------------------------------------------------------------
// Round trip
// ---------------------------------------------------------------------------

/// An array of texts gives back the texts.
pub proof fn lemma_text_list(v: Seq<Seq<char>>)
    ensures
        texts_in(text_list_view(v)->Arr_0) == v,
    decreases v.len(),
{
    let a = text_list_view(v)->Arr_0;
    if v.len() > 0 {
        lemma_text_list(v.drop_last());
        assert(a.drop_last() =~= text_list_view(v.drop_last())->Arr_0);
        assert(v.drop_last().push(v.last()) =~= v);
    } else {
        assert(texts_in(a) =~= v);
    }
}

/// An object of texts gives back the table, if no key occurs twice.
pub proof fn lemma_text_table(v: Seq<(Seq<char>, Seq<char>)>)
    requires
        unique_keys(v),
    ensures
        text_entries(text_table_view(v).fields()) == v,
{
    lemma_text_table_upto(v, v.len() as int);
    assert(v.take(v.len() as int) =~= v);
    assert(text_table_view(v).fields().take(v.len() as int) =~= text_table_view(v).fields());
}

proof fn lemma_text_table_upto(v: Seq<(Seq<char>, Seq<char>)>, n: int)
    requires
        unique_keys(v),
        0 <= n <= v.len(),
    ensures
        text_entries(text_table_view(v).fields().take(n)) == v.take(n),
    decreases n,
{
    let f = text_table_view(v).fields();
    if n > 0 {
        lemma_text_table_upto(v, n - 1);
        assert(f.take(n).drop_last() =~= f.take(n - 1));
        assert(f.take(n).last() == f[n - 1]);
        lemma_rebuilt(v, n - 1);
    } else {
        assert(text_entries(f.take(0)) =~= v.take(0));
    }
}

/// A key of a document with distinct keys gives its value.
pub proof fn lemma_field(f: Seq<(Seq<char>, JsonView)>, i: int)
    requires
        unique_keys(f),
        0 <= i < f.len(),
    ensures
        JsonView::Obj(f).get(f[i].0) == Some(f[i].1),
        JsonView::Obj(f).at(f[i].0) == f[i].1,
{
    assert forall|j: int| 0 <= j < i implies (#[trigger] f[j]).0 != f[i].0 by {}
    lemma_key_at(f, f[i].0, i);
}

/// A number that tells the keys of a kept task apart.
spec fn mark(k: Seq<char>) -> int {
    k.len() * 1000 + (k.last() as int)
}

/// Place of the key with that mark.
spec fn mark_place(m: int) -> int {
    if m == 3100 {
        0
    } else if m == 4115 {
        1
    } else if m == 3114 {
        2
    } else if m == 3116 {
        3
    } else if m == 8109 {
        4
    } else if m == 7115 {
        5
    } else if m == 6115 {
        6
    } else if m == 15104 {
        7
    } else if m == 11104 {
        8
    } else if m == 9115 {
        9
    } else if m == 4104 {
        10
    } else if m == 9101 {
        11
    } else if m == 12101 {
        12
    } else if m == 10115 {
        13
    } else if m == 10104 {
        14
    } else if m == 12052 {
        15
    } else if m == 10100 {
        16
    } else if m == 10116 {
        17
    } else if m == 11115 {
        18
    } else if m == 8115 {
        19
    } else {
        -1
    }
}

/// No key occurs twice in a kept task.
proof fn lemma_saved_keys(s: SavedView, status: Seq<char>)
    ensures
        unique_keys(saved_json(s, status).fields()),
{
    let f = saved_json(s, status).fields();
    assert(mark(f[0].0) == 3100) by {
        reveal_strlit("gid");
    }
    assert(mark(f[1].0) == 4115) by {
        reveal_strlit("uris");
    }
    assert(mark(f[2].0) == 3114) by {
        reveal_strlit("dir");
    }
    assert(mark(f[3].0) == 3116) by {
        reveal_strlit("out");
    }
    assert(mark(f[4].0) == 8109) by {
        reveal_strlit("checksum");
    }
    assert(mark(f[5].0) == 7115) by {
        reveal_strlit("options");
    }
    assert(mark(f[6].0) == 6115) by {
        reveal_strlit("status");
    }
    assert(mark(f[7].0) == 15104) by {
        reveal_strlit("completedLength");
    }
    assert(mark(f[8].0) == 11104) by {
        reveal_strlit("totalLength");
    }
    assert(mark(f[9].0) == 9115) by {
        reveal_strlit("elapsedMs");
    }
    assert(mark(f[10].0) == 4104) by {
        reveal_strlit("path");
    }
    assert(mark(f[11].0) == 9101) by {
        reveal_strlit("errorCode");
    }
    assert(mark(f[12].0) == 12101) by {
        reveal_strlit("errorMessage");
    }
    assert(mark(f[13].0) == 10115) by {
        reveal_strlit("btTrackers");
    }
    assert(mark(f[14].0) == 10104) by {
        reveal_strlit("btInfoHash");
    }
    assert(mark(f[15].0) == 12052) by {
        reveal_strlit("btTorrentB64");
    }
    assert(mark(f[16].0) == 10100) by {
        reveal_strlit("btBitfield");
    }
    assert(mark(f[17].0) == 10116) by {
        reveal_strlit("finishedAt");
    }
    assert(mark(f[18].0) == 11115) by {
        reveal_strlit("avgActiveMs");
    }
    assert(mark(f[19].0) == 8115) by {
        reveal_strlit("avgBytes");
    }
    assert forall|i: int| 0 <= i < f.len() implies mark_place(mark(#[trigger] f[i].0)) == i by {
        assert(i == 0 || i == 1 || i == 2 || i == 3 || i == 4 || i == 5 || i == 6 || i == 7 || i == 8 || i == 9 || i == 10 || i == 11 || i == 12 || i == 13 || i == 14 || i == 15 || i == 16 || i == 17 || i == 18 || i == 19);
    }
}

/// What is written of a kept task is read back.
pub proof fn law_saved_task_is_read_back(s: SavedView, status: Seq<char>)
    requires
        unique_keys(s.options),
    ensures
        read_view(saved_json(s, status)) == Some(
            SavedView {
                status: named_status(status),
                ..s
            },
        ),
{
    let e = saved_json(s, status);
    let f = e.fields();
    lemma_saved_keys(s, status);
    lemma_text_list(s.uris);
    lemma_text_list(s.trackers);
    lemma_text_table(s.options);
    assert(text_under(e, "gid"@) == Some(s.gid)) by {
        lemma_field(f, 0);
        reveal(text_under);
    }
    assert(texts_under(e, "uris"@) == s.uris) by {
        lemma_field(f, 1);
        reveal(texts_under);
    }
    assert(text_under(e, "dir"@) == s.dir) by {
        lemma_field(f, 2);
        reveal(text_under);
    }
    assert(text_under(e, "out"@) == s.out) by {
        lemma_field(f, 3);
        reveal(text_under);
    }
    assert(text_under(e, "checksum"@) == s.checksum) by {
        lemma_field(f, 4);
        reveal(text_under);
    }
    assert(table_under(e, "options"@) == s.options) by {
        lemma_field(f, 5);
        reveal(table_under);
    }
    assert(text_under(e, "status"@) == Some(status)) by {
        lemma_field(f, 6);
        reveal(text_under);
    }
    assert(number_under(e, "completedLength"@) == Some(s.completed)) by {
        lemma_field(f, 7);
        reveal(number_under);
    }
    assert(number_under(e, "totalLength"@) == s.total) by {
        lemma_field(f, 8);
        reveal(number_under);
    }
    assert(number_under(e, "elapsedMs"@) == Some(s.elapsed_ms)) by {
        lemma_field(f, 9);
        reveal(number_under);
    }
    assert(text_under(e, "path"@) == s.path) by {
        lemma_field(f, 10);
        reveal(text_under);
    }
    assert(signed_under(e, "errorCode"@) == s.error_code) by {
        lemma_field(f, 11);
        reveal(signed_under);
    }
    assert(text_under(e, "errorMessage"@) == Some(s.error_message)) by {
        lemma_field(f, 12);
        reveal(text_under);
    }
    assert(texts_under(e, "btTrackers"@) == s.trackers) by {
        lemma_field(f, 13);
        reveal(texts_under);
    }
    assert(text_under(e, "btInfoHash"@) == s.info_hash) by {
        lemma_field(f, 14);
        reveal(text_under);
    }
    assert(text_under(e, "btTorrentB64"@) == s.torrent) by {
        lemma_field(f, 15);
        reveal(text_under);
    }
    assert(text_under(e, "btBitfield"@) == s.bitfield) by {
        lemma_field(f, 16);
        reveal(text_under);
    }
    assert(number_under(e, "finishedAt"@) == Some(s.finished_at)) by {
        lemma_field(f, 17);
        reveal(number_under);
    }
    assert(number_under(e, "avgActiveMs"@) == Some(s.avg_active_ms)) by {
        lemma_field(f, 18);
        reveal(number_under);
    }
    assert(number_under(e, "avgBytes"@) == Some(s.avg_bytes)) by {
        lemma_field(f, 19);
        reveal(number_under);
    }
}

/// Of a task that is saved and read again stays what is kept of it. A running task is
/// found waiting.
pub proof fn law_session_keeps_tasks(t: Task, now: u64)
    requires
        unique_keys(pair_texts(t.options@)),
    ensures
        read_view(saved_json(saved_of(t, now), kept_name(t.shared.status))) == Some(
            saved_of(t, now),
        ),
{
    lemma_names(t.shared.status);
    law_saved_task_is_read_back(saved_of(t, now), kept_name(t.shared.status));
}

/// What a kept task is as a document: each fact stands under its own key.
pub proof fn law_kept_task_as_a_document(s: SavedView, status: Seq<char>)
    ensures
        ({
            let e = saved_json(s, status);
            &&& e.at("gid"@) == JsonView::Str(s.gid)
            &&& e.at("uris"@) == text_list_view(s.uris)
            &&& e.at("dir"@) == opt_text_view(s.dir)
            &&& e.at("out"@) == opt_text_view(s.out)
            &&& e.at("checksum"@) == opt_text_view(s.checksum)
            &&& e.at("options"@) == text_table_view(s.options)
            &&& e.at("status"@) == JsonView::Str(status)
            &&& e.at("completedLength"@) == JsonView::Unsigned(s.completed)
            &&& (s.total is Some ==> e.at("totalLength"@) == JsonView::Unsigned(s.total->0))
            &&& e.at("elapsedMs"@) == JsonView::Unsigned(s.elapsed_ms)
            &&& e.at("path"@) == opt_text_view(s.path)
            &&& e.at("errorCode"@) == signed_view(s.error_code)
            &&& e.at("errorMessage"@) == JsonView::Str(s.error_message)
            &&& e.at("btTrackers"@) == text_list_view(s.trackers)
            &&& e.at("btInfoHash"@) == opt_text_view(s.info_hash)
            &&& e.at("btTorrentB64"@) == opt_text_view(s.torrent)
            &&& e.at("btBitfield"@) == opt_text_view(s.bitfield)
            &&& e.at("finishedAt"@) == JsonView::Unsigned(s.finished_at)
            &&& e.at("avgActiveMs"@) == JsonView::Unsigned(s.avg_active_ms)
            &&& e.at("avgBytes"@) == JsonView::Unsigned(s.avg_bytes)
        }),
{
    let f = saved_json(s, status).fields();
    lemma_saved_keys(s, status);
    lemma_field(f, 0);
    lemma_field(f, 1);
    lemma_field(f, 2);
    lemma_field(f, 3);
    lemma_field(f, 4);
    lemma_field(f, 5);
    lemma_field(f, 6);
    lemma_field(f, 7);
    lemma_field(f, 8);
    lemma_field(f, 9);
    lemma_field(f, 10);
    lemma_field(f, 11);
    lemma_field(f, 12);
    lemma_field(f, 13);
    lemma_field(f, 14);
    lemma_field(f, 15);
    lemma_field(f, 16);
    lemma_field(f, 17);
    lemma_field(f, 18);
    lemma_field(f, 19);
}

/// What is kept of a task is what it is: its progress as it stands, the time it was active,
/// and the name of its state, where one that runs or seeds is kept as one that waits.
pub proof fn law_kept_is_what_the_task_is(t: Task, now: u64)
    ensures
        ({
            let s = saved_of(t, now);
            &&& s.gid == t.gid@ && s.uris == string_texts(t.uris@) && s.dir == Some(t.dir@)
            &&& s.options == pair_texts(t.options@)
            &&& s.completed == if t.live.completed > 0 { t.live.completed } else { t.shared.completed }
            &&& s.total == Some(
                match t.shared.total_len {
                    Some(n) => n,
                    None => 0,
                },
            )
            &&& s.elapsed_ms == active_time(t.shared, now)
            &&& s.error_code == t.shared.error_code && s.error_message == t.shared.error_message@
            &&& s.finished_at == t.finished_at && s.avg_active_ms == t.avg_active_ms && s.avg_bytes
                == t.avg_bytes
            &&& s.trackers == string_texts(t.bt_trackers@)
            &&& s.bitfield == Some(hex_text(t.bt_bitfield@))
            &&& (t.bt_info_hash is Some ==> s.info_hash == Some(hex_text(t.bt_info_hash->0@)))
            &&& (t.out is Some ==> s.out == Some(t.out->0@))
            &&& (t.shared.path is Some ==> s.path == Some(t.shared.path->0@))
        }),
        t.shared.status is Active ==> kept_name(t.shared.status) == "waiting"@,
        t.shared.status is Waiting ==> kept_name(t.shared.status) == "waiting"@,
        t.shared.status is Paused ==> kept_name(t.shared.status) == "paused"@,
        t.shared.status is Complete ==> kept_name(t.shared.status) == "complete"@,
        t.shared.status is Error ==> kept_name(t.shared.status) == "error"@,
{
}

} // verus!
