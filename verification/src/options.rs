//! Options of tasks and of the engine, and the settings they lead to.

use vstd::prelude::*;

use crate::adaptive::AdaptiveConfig;
use crate::config::{is_on, switch_on};
use crate::json::{Field, JsonView};
use crate::lists::{
    lemma_unique_with_value, look_up, put_value, unique_keys, value_at, with_value,
};
use crate::manifest::{pair_texts, string_texts};
use crate::text::{
    chars_of, cut_at, cut_at_last, decimal, dec_chars, has_prefix, law_decimal_round_trip,
    law_trimmed_stays, lemma_decimal, lowered, number, number_upto,
    parse_u64, parse_upto, part, push_all, rsplit_once, same_str, same_text, split, split_on,
    split_once, starts_with, string_of, strip_prefix, texts, to_lower, trim, trimmed, white_space,
};
use crate::writer::SplitOptions;

verus! {

/// Connections of a split download by default.
pub const DEFAULT_SPLIT_CONNECTIONS: usize = 16;
/// Smallest range of a split download by default, in bytes.
pub const DEFAULT_MIN_SPLIT_SIZE: u64 = 4_194_304;
/// Most connections of a split download.
pub const MAX_SPLIT_CONNECTIONS: usize = 128;
/// Peers of a BitTorrent download by default.
pub const DEFAULT_BT_MAX_PEERS: usize = 50;
/// Most peers of a BitTorrent download.
pub const MAX_BT_MAX_PEERS: usize = 200;

/// How peer connections are encrypted.
#[derive(Clone, Copy)]
pub enum EncryptionMode {
    /// Encrypted where the peer can.
    Adaptive,
    /// Encrypted only.
    Force,
    /// Plain only.
    Plain,
}

/// How peers are reached.
#[derive(Clone, Copy)]
pub enum BtProtocol {
    TcpUtp,
    Tcp,
    Utp,
}

/// The encryption mode that a text names.
pub open spec fn encryption_of(v: Seq<char>) -> Option<EncryptionMode> {
    if v == "adaptive"@ {
        Some(EncryptionMode::Adaptive)
    } else if v == "force"@ {
        Some(EncryptionMode::Force)
    } else if v == "plain"@ {
        Some(EncryptionMode::Plain)
    } else {
        None
    }
}

/// The protocol that a text names.
pub open spec fn protocol_of(v: Seq<char>) -> Option<BtProtocol> {
    if v == "tcp+utp"@ {
        Some(BtProtocol::TcpUtp)
    } else if v == "tcp"@ {
        Some(BtProtocol::Tcp)
    } else if v == "utp"@ {
        Some(BtProtocol::Utp)
    } else {
        None
    }
}

impl EncryptionMode {
    pub fn parse(v: &str) -> (r: Option<EncryptionMode>)
        ensures
            r == encryption_of(v@),
    {
        if same_str(v, "adaptive") {
            Some(EncryptionMode::Adaptive)
        } else if same_str(v, "force") {
            Some(EncryptionMode::Force)
        } else if same_str(v, "plain") {
            Some(EncryptionMode::Plain)
        } else {
            None
        }
    }
}

impl BtProtocol {
    pub fn parse(v: &str) -> (r: Option<BtProtocol>)
        ensures
            r == protocol_of(v@),
    {
        if same_str(v, "tcp+utp") {
            Some(BtProtocol::TcpUtp)
        } else if same_str(v, "tcp") {
            Some(BtProtocol::Tcp)
        } else if same_str(v, "utp") {
            Some(BtProtocol::Utp)
        } else {
            None
        }
    }
}

/// What the unit at the end of a size stands for.
pub open spec fn unit_of(c: char) -> Option<int> {
    if c == 'k' || c == 'K' {
        Some(1024)
    } else if c == 'm' || c == 'M' {
        Some(1_048_576)
    } else if c == 'g' || c == 'G' {
        Some(1_073_741_824)
    } else {
        None
    }
}

/// A product that stops at the largest 64-bit number.
pub open spec fn capped(n: int) -> int {
    if n > u64::MAX { u64::MAX as int } else { n }
}

/// The bytes that a size like `4M` names.
pub open spec fn size_bytes(text: Seq<char>) -> Option<int> {
    let v = trimmed(text);
    if v.len() == 0 {
        None
    } else {
        match unit_of(v.last()) {
            Some(u) => match number(trimmed(v.drop_last())) {
                Some(n) => Some(capped(n * u)),
                None => None,
            },
            None => number(v),
        }
    }
}

proof fn lemma_trim_again(s: Seq<char>)
    ensures
        trimmed(trimmed(s)) == trimmed(s),
{
    lemma_trim_ends(s);
    let t = trimmed(s);
    if t.len() > 0 {
        assert(!crate::text::white_space(t[0]));
        assert(!crate::text::white_space(t.last()));
    }
}

proof fn lemma_trim_ends(s: Seq<char>)
    ensures
        trimmed(s).len() > 0 ==> !crate::text::white_space(trimmed(s)[0])
            && !crate::text::white_space(trimmed(s).last()),
{
    lemma_trim_start(s);
    lemma_trim_end(crate::text::trimmed_start(s));
}

proof fn lemma_trim_start(s: Seq<char>)
    ensures
        crate::text::trimmed_start(s).len() > 0 ==> !crate::text::white_space(
            crate::text::trimmed_start(s)[0],
        ),
    decreases s.len(),
{
    if s.len() > 0 && crate::text::white_space(s[0]) {
        lemma_trim_start(s.skip(1));
    }
}

proof fn lemma_trim_end(s: Seq<char>)
    ensures
        crate::text::trimmed_end(s).len() > 0 ==> !crate::text::white_space(
            crate::text::trimmed_end(s).last(),
        ) && crate::text::trimmed_end(s)[0] == s[0],
    decreases s.len(),
{
    if s.len() > 0 && crate::text::white_space(s.last()) {
        lemma_trim_end(s.drop_last());
    }
}

/// Reads a size with an optional unit: `4M`, `512k`, `1G`, `1048576`.
pub fn parse_size_bytes(text: &str) -> (r: Option<u64>)
    ensures
        match size_bytes(text@) {
            Some(n) => r == Some(n as u64) && 0 <= n <= u64::MAX,
            None => r is None,
        },
{
    let v = trim(&chars_of(text));
    proof {
        lemma_trim_again(text@);
    }
    if v.len() == 0 {
        return None;
    }
    let c: char = v[v.len() - 1];
    let unit: u64 = if c == 'k' || c == 'K' {
        1024
    } else if c == 'm' || c == 'M' {
        1_048_576
    } else if c == 'g' || c == 'G' {
        1_073_741_824
    } else {
        return parse_u64(&trim(&v));
    };
    let num = part(&v, 0, v.len() - 1);
    assert(num@ =~= v@.drop_last());
    match parse_u64(&trim(&num)) {
        Some(n) => {
            let wide: u128 = n as u128 * unit as u128;
            if wide > u64::MAX as u128 {
                Some(u64::MAX)
            } else {
                Some(wide as u64)
            }
        },
        None => None,
    }
}

/// The size that an option names, zero if it names none.
pub open spec fn limit_of(opts: Seq<(Seq<char>, Seq<char>)>, key: Seq<char>) -> int {
    match value_at(opts, key) {
        Some(v) => match size_bytes(v) {
            Some(n) => n,
            None => 0,
        },
        None => 0,
    }
}

fn read_limit(opts: &Vec<(String, String)>, key: &str) -> (r: u64)
    ensures
        r == limit_of(pair_texts(opts@), key@),
{
    match look_up(opts, key) {
        Some(v) => match parse_size_bytes(v.as_str()) {
            Some(n) => n,
            None => 0,
        },
        None => 0,
    }
}

/// The rate limits that a task's own options name: download and upload, in bytes per
/// second. Zero means that the engine's limits hold.
pub fn limits_from_options(opts: &Vec<(String, String)>) -> (r: (u64, u64))
    ensures
        r.0 == limit_of(pair_texts(opts@), "max-download-limit"@),
        r.1 == limit_of(pair_texts(opts@), "max-upload-limit"@),
{
    (read_limit(opts, "max-download-limit"), read_limit(opts, "max-upload-limit"))
}

/// The value of an option: that of the task, else that of the engine.
pub open spec fn option_of(
    task: Seq<(Seq<char>, Seq<char>)>,
    global: Seq<(Seq<char>, Seq<char>)>,
    key: Seq<char>,
) -> Option<Seq<char>> {
    match value_at(task, key) {
        Some(v) => Some(v),
        None => value_at(global, key),
    }
}

pub(crate) fn find_option<'a>(
    task: &'a Vec<(String, String)>,
    global: &'a Vec<(String, String)>,
    key: &str,
) -> (r: Option<&'a String>)
    ensures
        match r {
            Some(v) => option_of(pair_texts(task@), pair_texts(global@), key@) == Some(v@),
            None => option_of(pair_texts(task@), pair_texts(global@), key@) is None,
        },
{
    match look_up(task, key) {
        Some(v) => Some(v),
        None => look_up(global, key),
    }
}

/// A positive number, or the default where the text names none.
pub open spec fn positive_or(v: Option<Seq<char>>, default: int) -> int {
    match v {
        Some(t) => match number_upto(trimmed(t), usize::MAX as int) {
            Some(n) => if n > 0 { n } else { default },
            None => default,
        },
        None => default,
    }
}

fn read_positive(v: Option<&String>, default: usize) -> (r: usize)
    ensures
        r == positive_or(
            match v {
                Some(t) => Some(t@),
                None => None,
            },
            default as int,
        ),
{
    match v {
        Some(t) => match parse_upto(&trim(&chars_of(t.as_str())), usize::MAX as u64) {
            Some(n) => if n > 0 {
                n as usize
            } else {
                default
            },
            None => default,
        },
        None => default,
    }
}

/// A number brought into bounds.
pub open spec fn bounded(n: int, lo: int, hi: int) -> int {
    if n < lo {
        lo
    } else if n > hi {
        hi
    } else {
        n
    }
}

/// A switch that is on unless an option turns it off.
pub open spec fn on_by_default(v: Option<Seq<char>>) -> bool {
    match v {
        Some(t) => is_on(t),
        None => true,
    }
}

pub(crate) fn read_switch(v: Option<&String>) -> (r: bool)
    ensures
        r == on_by_default(
            match v {
                Some(t) => Some(t@),
                None => None,
            },
        ),
{
    match v {
        Some(t) => switch_on(&chars_of(t.as_str())),
        None => true,
    }
}

/// Connections of a split download.
pub open spec fn connections_of(
    task: Seq<(Seq<char>, Seq<char>)>,
    global: Seq<(Seq<char>, Seq<char>)>,
) -> int {
    let a = positive_or(option_of(task, global, "split"@), DEFAULT_SPLIT_CONNECTIONS as int);
    let b = positive_or(
        option_of(task, global, "max-connection-per-server"@),
        DEFAULT_SPLIT_CONNECTIONS as int,
    );
    bounded(if a < b { a } else { b }, 1, MAX_SPLIT_CONNECTIONS as int)
}

/// Smallest range of a split download.
pub open spec fn min_split_of(
    task: Seq<(Seq<char>, Seq<char>)>,
    global: Seq<(Seq<char>, Seq<char>)>,
) -> int {
    let wanted = match option_of(task, global, "min-split-size"@) {
        Some(v) => match size_bytes(v) {
            Some(n) => n,
            None => DEFAULT_MIN_SPLIT_SIZE as int,
        },
        None => DEFAULT_MIN_SPLIT_SIZE as int,
    };
    bounded(wanted, 65_536, 1_073_741_824)
}

/// Whether a split download adapts itself as the options ask for.
pub open spec fn adapts_as_asked(
    r: SplitOptions,
    task: Seq<(Seq<char>, Seq<char>)>,
    global: Seq<(Seq<char>, Seq<char>)>,
) -> bool {
    match r.adaptive {
        Some(a) => {
            &&& on_by_default(option_of(task, global, "adaptive"@))
            &&& a.enabled
            &&& a.initial_connections == r.connections
            &&& a.max_connections == r.connections
            &&& a.min_connections == 1
            &&& a.eval_interval_ms == 1000
            &&& a.stall_eval_limit == 3
        },
        None => !on_by_default(option_of(task, global, "adaptive"@)),
    }
}

/// Settings of a split download. Options of the task come before those of the engine,
/// and those before the defaults. The number of connections is the lesser of `split`
/// and `max-connection-per-server`; it is also the bound of adaptive scheduling, which
/// is on unless turned off. Headers are left to the caller.
pub fn split_options(task: &Vec<(String, String)>, global: &Vec<(String, String)>) -> (r: SplitOptions)
    ensures
        r.connections == connections_of(pair_texts(task@), pair_texts(global@)),
        r.min_split_size == min_split_of(pair_texts(task@), pair_texts(global@)),
        r.headers@.len() == 0,
        adapts_as_asked(r, pair_texts(task@), pair_texts(global@)),
{
    let split = read_positive(find_option(task, global, "split"), DEFAULT_SPLIT_CONNECTIONS);
    let per_server = read_positive(
        find_option(task, global, "max-connection-per-server"),
        DEFAULT_SPLIT_CONNECTIONS,
    );
    let least: usize = if split < per_server { split } else { per_server };
    let connections: usize = if least < 1 {
        1
    } else if least > MAX_SPLIT_CONNECTIONS {
        MAX_SPLIT_CONNECTIONS
    } else {
        least
    };
    let wanted: u64 = match find_option(task, global, "min-split-size") {
        Some(v) => match parse_size_bytes(v.as_str()) {
            Some(n) => n,
            None => DEFAULT_MIN_SPLIT_SIZE,
        },
        None => DEFAULT_MIN_SPLIT_SIZE,
    };
    let min_split_size: u64 = if wanted < 65_536 {
        65_536
    } else if wanted > 1_073_741_824 {
        1_073_741_824
    } else {
        wanted
    };
    let adaptive = if read_switch(find_option(task, global, "adaptive")) {
        let mut a = AdaptiveConfig::default();
        a.initial_connections = connections;
        a.max_connections = connections;
        a.min_connections = 1;
        a.eval_interval_ms = 1000;
        Some(a)
    } else {
        None
    };
    SplitOptions { connections, min_split_size, adaptive, headers: Vec::new() }
}

/// Peers at a time.
pub open spec fn peers_of(task: Seq<(Seq<char>, Seq<char>)>, global: Seq<(Seq<char>, Seq<char>)>) -> int {
    bounded(
        positive_or(option_of(task, global, "bt-max-peers"@), DEFAULT_BT_MAX_PEERS as int),
        1,
        MAX_BT_MAX_PEERS as int,
    )
}

/// Peers of a BitTorrent download, and whether their number adapts. Options of the task
/// come before those of the engine, and those before the defaults.
pub fn bt_options(task: &Vec<(String, String)>, global: &Vec<(String, String)>) -> (r: (usize, bool))
    ensures
        r.0 == peers_of(pair_texts(task@), pair_texts(global@)),
        r.1 == on_by_default(option_of(pair_texts(task@), pair_texts(global@), "bt-adaptive"@)),
{
    let n = read_positive(find_option(task, global, "bt-max-peers"), DEFAULT_BT_MAX_PEERS);
    let peers: usize = if n < 1 {
        1
    } else if n > MAX_BT_MAX_PEERS {
        MAX_BT_MAX_PEERS
    } else {
        n
    };
    (peers, read_switch(find_option(task, global, "bt-adaptive")))
}

/// How peers are talked to: as the options say, else with encryption where the peer wants
/// it, and over both transports.
pub open spec fn modes_of(
    task: Seq<(Seq<char>, Seq<char>)>,
    global: Seq<(Seq<char>, Seq<char>)>,
) -> (EncryptionMode, BtProtocol) {
    (
        match option_of(task, global, "bt-encryption"@) {
            Some(v) => match encryption_of(v) {
                Some(m) => m,
                None => EncryptionMode::Adaptive,
            },
            None => EncryptionMode::Adaptive,
        },
        match option_of(task, global, "bt-protocol"@) {
            Some(v) => match protocol_of(v) {
                Some(p) => p,
                None => BtProtocol::TcpUtp,
            },
            None => BtProtocol::TcpUtp,
        },
    )
}

/// Encryption and protocol of a BitTorrent download. An option that names neither is
/// taken as the default.
pub fn bt_modes(task: &Vec<(String, String)>, global: &Vec<(String, String)>) -> (r: (
    EncryptionMode,
    BtProtocol,
))
    ensures
        r == modes_of(pair_texts(task@), pair_texts(global@)),
{
    let e = match find_option(task, global, "bt-encryption") {
        Some(v) => match EncryptionMode::parse(v.as_str()) {
            Some(m) => m,
            None => EncryptionMode::Adaptive,
        },
        None => EncryptionMode::Adaptive,
    };
    let p = match find_option(task, global, "bt-protocol") {
        Some(v) => match BtProtocol::parse(v.as_str()) {
            Some(m) => m,
            None => BtProtocol::TcpUtp,
        },
        None => BtProtocol::TcpUtp,
    };
    (e, p)
}

/// The rate that a global option names, zero if it names none.
pub open spec fn rate_of(global: Seq<(Seq<char>, Seq<char>)>, key: Seq<char>) -> int {
    match value_at(global, key) {
        Some(v) => match number(trimmed(v)) {
            Some(n) => n,
            None => 0,
        },
        None => 0,
    }
}

fn read_rate(global: &Vec<(String, String)>, key: &str) -> (r: u64)
    ensures
        r == rate_of(pair_texts(global@), key@),
{
    match look_up(global, key) {
        Some(v) => match parse_u64(&trim(&chars_of(v.as_str()))) {
            Some(n) => n,
            None => 0,
        },
        None => 0,
    }
}

/// The engine's rate limits: download and upload, in bytes per second. Zero means no
/// limit.
pub fn rate_limits(global: &Vec<(String, String)>) -> (r: (u64, u64))
    ensures
        r.0 == rate_of(pair_texts(global@), "max-overall-download-limit"@),
        r.1 == rate_of(pair_texts(global@), "max-overall-upload-limit"@),
{
    (
        read_rate(global, "max-overall-download-limit"),
        read_rate(global, "max-overall-upload-limit"),
    )
}

// ---------------------------------------------------------------------------
// Paths
// ---------------------------------------------------------------------------

/// A path below another one: an absolute path stands for itself, any other one follows
/// behind a slash.
pub open spec fn path_joined(base: Seq<char>, part: Seq<char>) -> Seq<char> {
    if part.len() > 0 && part[0] == '/' {
        part
    } else if base.len() == 0 || base.last() == '/' {
        base + part
    } else {
        base.push('/') + part
    }
}

/// A path below another one.
pub fn join_path(base: &str, below: &str) -> (r: String)
    ensures
        r@ == path_joined(base@, below@),
{
    let p = chars_of(below);
    if p.len() > 0 && p[0] == '/' {
        return below.to_owned();
    }
    let mut b = chars_of(base);
    if b.len() > 0 && b[b.len() - 1] != '/' {
        b.push('/');
    }
    push_all(&mut b, &p);
    string_of(&b)
}

/// The home directory, the working directory if there is none.
pub open spec fn home_or_here(home: Option<Seq<char>>) -> Seq<char> {
    match home {
        Some(h) => h,
        None => "."@,
    }
}

/// A directory with a leading `~` expanded.
pub open spec fn home_expanded(dir: Seq<char>, home: Option<Seq<char>>) -> Seq<char> {
    let h = home_or_here(home);
    if dir == "~"@ {
        h
    } else if has_prefix(dir, "~/"@) {
        path_joined(h, dir.skip("~/"@.len() as int))
    } else if has_prefix(dir, "~\\"@) {
        path_joined(h, dir.skip("~\\"@.len() as int))
    } else {
        dir
    }
}

/// A directory as an absolute path, as far as the working directory is known.
pub open spec fn normal_dir(dir: Seq<char>, home: Option<Seq<char>>, cwd: Option<Seq<char>>) -> Seq<char> {
    let e = home_expanded(dir, home);
    if e.len() > 0 && e[0] == '/' {
        e
    } else {
        match cwd {
            Some(c) => path_joined(c, e),
            None => e,
        }
    }
}

/// Where the engine runs.
pub struct Place {
    pub home: Option<String>,
    pub cwd: Option<String>,
}

impl Place {
    /// A directory as an absolute path here.
    pub open spec fn normal(&self, dir: Seq<char>) -> Seq<char> {
        normal_dir(dir, crate::config::opt_view(self.home), crate::config::opt_view(self.cwd))
    }
}

fn home_of(place: &Place) -> (r: String)
    ensures
        r@ == home_or_here(crate::config::opt_view(place.home)),
{
    match &place.home {
        Some(h) => h.clone(),
        None => ".".to_owned(),
    }
}

/// Expands a leading `~` and resolves relative directories against the working
/// directory.
pub fn normalize_dir(dir: &str, place: &Place) -> (r: String)
    ensures
        r@ == place.normal(dir@),
{
    let v = chars_of(dir);
    let expanded = if same_text(&v, "~") {
        home_of(place)
    } else {
        match strip_prefix(&v, "~/") {
            Some(rest) => {
                let rest = string_of(&rest);
                join_path(home_of(place).as_str(), rest.as_str())
            },
            None => match strip_prefix(&v, "~\\") {
                Some(rest) => {
                    let rest = string_of(&rest);
                    join_path(home_of(place).as_str(), rest.as_str())
                },
                None => dir.to_owned(),
            },
        }
    };
    let e = chars_of(expanded.as_str());
    if e.len() > 0 && e[0] == '/' {
        return expanded;
    }
    match &place.cwd {
        Some(c) => join_path(c.as_str(), expanded.as_str()),
        None => expanded,
    }
}

/// The session file by default: `.xfer/session.json` in the home directory.
pub fn default_session_path(home: Option<String>) -> (r: String)
    ensures
        r@ == path_joined(
            path_joined(home_or_here(crate::config::opt_view(home)), ".xfer"@),
            "session.json"@,
        ),
{
    let place = Place { home, cwd: None };
    let h = home_of(&place);
    let d = join_path(h.as_str(), ".xfer");
    join_path(d.as_str(), "session.json")
}

/// A file name with a counter: before the extension if there is a stem before it.
pub open spec fn counted_name(name: Seq<char>, n: nat) -> Seq<char> {
    match cut_at_last(name, '.') {
        Some((stem, ext)) => if stem.len() > 0 {
            stem.push('.') + decimal(n) + seq!['.'] + ext
        } else {
            name.push('.') + decimal(n)
        },
        None => name.push('.') + decimal(n),
    }
}

/// `file.zip` becomes `file.1.zip`, `file` becomes `file.1`.
pub fn rename_with_counter(name: &str, n: u64) -> (r: String)
    ensures
        r@ == counted_name(name@, n as nat),
{
    let v = chars_of(name);
    let digits = dec_chars(n);
    match rsplit_once(&v, '.') {
        Some((stem, ext)) => {
            if stem.len() > 0 {
                let mut out = stem;
                out.push('.');
                push_all(&mut out, &digits);
                let ghost head = out@;
                out.push('.');
                assert(out@ =~= head + seq!['.']);
                push_all(&mut out, &ext);
                return string_of(&out);
            }
        },
        None => {},
    }
    let mut out = v;
    out.push('.');
    push_all(&mut out, &digits);
    string_of(&out)
}

/// Whether a character parts the components of a path.
pub open spec fn is_slash(c: char) -> bool {
    c == '/' || c == '\\'
}

/// The last component of a path.
pub open spec fn base_name(p: Seq<char>) -> Seq<char>
    decreases p.len(),
{
    if p.len() == 0 || is_slash(p.last()) {
        Seq::empty()
    } else {
        base_name(p.drop_last()).push(p.last())
    }
}

/// The last component of a path.
pub fn file_name(p: &str) -> (r: String)
    ensures
        r@ == base_name(p@),
{
    let v = chars_of(p);
    let mut k: usize = v.len();
    let ghost all = v@;
    assert(all.take(k as int) =~= all);
    assert(base_name(all) =~= base_name(all.take(k as int)) + all.skip(k as int));
    while k > 0 && v[k - 1] != '/' && v[k - 1] != '\\'
        invariant
            k <= v@.len(),
            all == v@,
            base_name(all) == base_name(all.take(k as int)) + all.skip(k as int),
        decreases k,
    {
        proof {
            assert(all.take(k as int).last() == all[k - 1]);
            assert(all.take(k as int).drop_last() =~= all.take(k - 1));
            assert(base_name(all.take(k - 1)).push(all[k - 1]) + all.skip(k as int) =~= base_name(
                all.take(k - 1),
            ) + all.skip(k - 1));
        }
        k = k - 1;
    }
    proof {
        if k > 0 {
            assert(all.take(k as int).last() == all[k - 1]);
        }
        assert(base_name(all) =~= all.skip(k as int));
    }
    let tail = part(&v, k, v.len());
    assert(tail@ =~= all.skip(k as int));
    string_of(&tail)
}

// ---------------------------------------------------------------------------
// Checksums and option tables
// ---------------------------------------------------------------------------

/// Algorithm and digest that a checksum option names. `names` lists the spellings of
/// algorithms with the name that each stands for.
pub open spec fn checksum_of(v: Seq<char>, names: Seq<(Seq<char>, Seq<char>)>) -> Option<(
    Seq<char>,
    Seq<char>,
)> {
    match cut_at(v, '=') {
        Some((algo, digest)) => match value_at(names, algo) {
            Some(name) => Some((name, lowered(trimmed(digest)))),
            None => None,
        },
        None => None,
    }
}

/// The texts of an optional pair.
pub open spec fn opt_pair(p: Option<(String, String)>) -> Option<(Seq<char>, Seq<char>)> {
    match p {
        Some(q) => Some((q.0@, q.1@)),
        None => None,
    }
}

/// Reads a checksum option `algorithm=digest`.
pub fn parse_checksum_option(v: &str, names: &Vec<(String, String)>) -> (r: Option<(String, String)>)
    ensures
        opt_pair(r) == checksum_of(v@, pair_texts(names@)),
{
    match split_once(&chars_of(v), '=') {
        Some((algo, digest)) => {
            let algo = string_of(&algo);
            match look_up(names, algo.as_str()) {
                Some(name) => Some((name.clone(), string_of(&to_lower(&trim(&digest))))),
                None => None,
            }
        },
        None => None,
    }
}

/// The text that an option's value is kept as: a JSON string as it is, any other value
/// as JSON text.
pub open spec fn option_text(f: Field) -> Seq<char> {
    match f.value@.text() {
        Some(s) => s,
        None => f.text@,
    }
}

/// Whether an option is kept apart from the others.
pub open spec fn set_apart(key: Seq<char>) -> bool {
    key == "dir"@ || key == "out"@ || key == "checksum"@
}

/// A table of options after the entries of an object, without those that are kept apart.
pub open spec fn options_after(start: Seq<(Seq<char>, Seq<char>)>, f: Seq<Field>) -> Seq<(
    Seq<char>,
    Seq<char>,
)>
    decreases f.len(),
{
    if f.len() == 0 {
        start
    } else {
        let rest = options_after(start, f.drop_last());
        let e = f.last();
        if set_apart(e.key@) { rest } else { with_value(rest, e.key@, option_text(e)) }
    }
}

/// Entering options keeps keys unique.
pub proof fn lemma_options_unique(start: Seq<(Seq<char>, Seq<char>)>, f: Seq<Field>)
    requires
        unique_keys(start),
    ensures
        unique_keys(options_after(start, f)),
    decreases f.len(),
{
    if f.len() > 0 {
        lemma_options_unique(start, f.drop_last());
        lemma_unique_with_value(
            options_after(start, f.drop_last()),
            f.last().key@,
            option_text(f.last()),
        );
    }
}

/// The text that an option's value is kept as.
pub fn field_text(f: &Field) -> (r: String)
    ensures
        r@ == option_text(*f),
{
    match f.value.as_str() {
        Some(s) => s.clone(),
        None => f.text.clone(),
    }
}

/// Whether an option is kept apart from the others.
pub fn is_set_apart(key: &str) -> (r: bool)
    ensures
        r == set_apart(key@),
{
    same_str(key, "dir") || same_str(key, "out") || same_str(key, "checksum")
}

/// Enters the entries of an object into a table of options.
pub fn merge_options(opts: &mut Vec<(String, String)>, fields: &Vec<Field>)
    ensures
        pair_texts(final(opts)@) == options_after(pair_texts(old(opts)@), fields@),
{
    let ghost start = pair_texts(opts@);
    let mut i: usize = 0;
    assert(fields@.take(0) =~= Seq::<Field>::empty());
    while i < fields.len()
        invariant
            i <= fields@.len(),
            pair_texts(opts@) == options_after(start, fields@.take(i as int)),
        decreases fields@.len() - i,
    {
        proof {
            assert(fields@.take(i + 1).drop_last() =~= fields@.take(i as int));
            assert(fields@.take(i + 1).last() == fields@[i as int]);
        }
        if !is_set_apart(fields[i].key.as_str()) {
            let t = field_text(&fields[i]);
            put_value(opts, fields[i].key.as_str(), t.as_str());
        }
        i = i + 1;
    }
    assert(fields@.take(i as int) =~= fields@);
}

/// The options of a new task: the entries of an object without those that are kept
/// apart.
pub fn collect_task_options(fields: &Vec<Field>) -> (r: Vec<(String, String)>)
    ensures
        pair_texts(r@) == options_after(Seq::empty(), fields@),
{
    let mut opts: Vec<(String, String)> = Vec::new();
    assert(pair_texts(opts@) =~= Seq::<(Seq<char>, Seq<char>)>::empty());
    merge_options(&mut opts, fields);
    opts
}

// ---------------------------------------------------------------------------
// Tracker lists
// ---------------------------------------------------------------------------

/// Whether a line of a tracker list names a tracker.
pub open spec fn names_tracker(line: Seq<char>) -> bool {
    ||| has_prefix(line, "udp://"@)
    ||| has_prefix(line, "http://"@)
    ||| has_prefix(line, "https://"@)
    ||| has_prefix(line, "wss://"@)
}

/// The trackers that some lines name, in order.
pub open spec fn trackers_in(lines: Seq<Seq<char>>) -> Seq<Seq<char>>
    decreases lines.len(),
{
    if lines.len() == 0 {
        lines
    } else {
        let rest = trackers_in(lines.drop_last());
        let line = trimmed(lines.last());
        if names_tracker(line) { rest.push(line) } else { rest }
    }
}

/// The trackers of a plain text list with one address per line. Comments, blank lines
/// and other addresses are left out.
pub fn parse_tracker_list(text: &str) -> (r: Vec<String>)
    ensures
        string_texts(r@) == trackers_in(split_on(text@, '\n')),
{
    let lines = split(&chars_of(text), '\n');
    let ghost all = texts(lines@);
    let mut out: Vec<String> = Vec::new();
    let mut i: usize = 0;
    assert(all.take(0) =~= Seq::<Seq<char>>::empty());
    assert(string_texts(out@) =~= Seq::<Seq<char>>::empty());
    while i < lines.len()
        invariant
            i <= lines@.len(),
            all == texts(lines@),
            string_texts(out@) == trackers_in(all.take(i as int)),
        decreases lines@.len() - i,
    {
        let ghost before = out@;
        proof {
            assert(all.take(i + 1).drop_last() =~= all.take(i as int));
            assert(all.take(i + 1).last() == lines@[i as int]@);
        }
        let line = trim(&lines[i]);
        if starts_with(&line, "udp://") || starts_with(&line, "http://") || starts_with(
            &line,
            "https://",
        ) || starts_with(&line, "wss://") {
            out.push(string_of(&line));
            assert(string_texts(out@) =~= string_texts(before).push(line@));
        }
        i = i + 1;
    }
    assert(all.take(i as int) =~= all);
    out
}

/// An option of the task comes before the same option of the engine.
pub proof fn law_task_options_come_first(
    task: Seq<(Seq<char>, Seq<char>)>,
    global: Seq<(Seq<char>, Seq<char>)>,
    key: Seq<char>,
    value: Seq<char>,
)
    ensures
        option_of(with_value(task, key, value), global, key) == Some(value),
{
    crate::lists::law_set_value_is_read(task, key, value, key);
}

/// Normalising an absolute directory leaves it as it is.
pub proof fn law_absolute_dir_stays(dir: Seq<char>, home: Option<Seq<char>>, cwd: Option<Seq<char>>)
    requires
        dir.len() > 0,
        dir[0] == '/',
    ensures
        normal_dir(dir, home, cwd) == dir,
{
    reveal_strlit("~");
    reveal_strlit("~/");
    reveal_strlit("~\\");
    assert("~"@[0] == '~');
    assert("~/"@[0] == '~');
    assert("~\\"@[0] == '~');
    if has_prefix(dir, "~/"@) {
        assert(dir.take("~/"@.len() as int)[0] == dir[0]);
    }
    if has_prefix(dir, "~\\"@) {
        assert(dir.take("~\\"@.len() as int)[0] == dir[0]);
    }
}

/// A file name with a counter ends in the same extension.
pub proof fn law_counter_keeps_extension(name: Seq<char>, n: nat)
    ensures
        match cut_at_last(name, '.') {
            Some((stem, ext)) => stem.len() > 0 ==> cut_at_last(counted_name(name, n), '.') == Some(
                (stem.push('.') + decimal(n), ext),
            ),
            None => true,
        },
{
    match cut_at_last(name, '.') {
        Some((stem, ext)) => {
            if stem.len() > 0 {
                lemma_last_of(name, '.');
                let head = stem.push('.') + decimal(n);
                let all = counted_name(name, n);
                assert(all =~= head + seq!['.'] + ext);
                assert forall|i: int| head.len() < i < all.len() implies all[i] != '.' by {
                    assert(all[i] == ext[i - head.len() - 1]);
                }
                lemma_last_is(all, '.', head.len() as int);
                assert(all.take(head.len() as int) =~= head);
                assert(all.skip(head.len() as int + 1) =~= ext);
            }
        },
        None => {},
    }
}

proof fn lemma_last_of(s: Seq<char>, c: char)
    ensures
        -1 <= crate::text::last_of(s, c) < s.len(),
        forall|i: int| crate::text::last_of(s, c) < i < s.len() ==> s[i] != c,
    decreases s.len(),
{
    if s.len() > 0 && s.last() != c {
        lemma_last_of(s.drop_last(), c);
        assert forall|i: int| crate::text::last_of(s, c) < i < s.len() implies s[i] != c by {
            if i < s.len() - 1 {
                assert(s.drop_last()[i] == s[i]);
            }
        }
    }
}

proof fn lemma_last_is(s: Seq<char>, c: char, k: int)
    requires
        0 <= k < s.len(),
        s[k] == c,
        forall|i: int| k < i < s.len() ==> s[i] != c,
    ensures
        crate::text::last_of(s, c) == k,
    decreases s.len(),
{
    if k < s.len() - 1 {
        assert(s[s.len() - 1] != c);
        lemma_last_is(s.drop_last(), c, k);
    }
}

// ---------------------------------------------------------------------------
// What options say
// ---------------------------------------------------------------------------

proof fn lemma_digits(n: nat)
    ensures
        decimal(n).len() > 0,
        trimmed(decimal(n)) == decimal(n),
        !white_space(decimal(n)[0]),
        !white_space(decimal(n).last()),
        unit_of(decimal(n).last()) is None,
{
    lemma_decimal(n);
    let d = decimal(n);
    assert(crate::text::is_digit(d[0]));
    assert(crate::text::is_digit(d[d.len() - 1]));
    law_trimmed_stays(d);
}

/// A size is a number of bytes, or of kibibytes, mebibytes or gibibytes with the letter for
/// it behind, small or capital. What is too large counts as the largest number.
pub proof fn law_sizes_have_units(n: u64)
    ensures
        size_bytes(decimal(n as nat)) == Some(n as int),
        n * 1024 <= u64::MAX ==> size_bytes(decimal(n as nat).push('k')) == Some(n * 1024),
        n * 1_048_576 <= u64::MAX ==> size_bytes(decimal(n as nat).push('m')) == Some(n * 1_048_576),
        n * 1_073_741_824 <= u64::MAX ==> size_bytes(decimal(n as nat).push('g')) == Some(
            n * 1_073_741_824,
        ),
        n * 1024 > u64::MAX ==> size_bytes(decimal(n as nat).push('k')) == Some(u64::MAX as int),
        size_bytes(decimal(n as nat).push('K')) == size_bytes(decimal(n as nat).push('k')),
        size_bytes(decimal(n as nat).push('M')) == size_bytes(decimal(n as nat).push('m')),
        size_bytes(decimal(n as nat).push('G')) == size_bytes(decimal(n as nat).push('g')),
{
    let d = decimal(n as nat);
    lemma_digits(n as nat);
    law_decimal_round_trip(n as nat);
    lemma_unit(d, 'k');
    lemma_unit(d, 'K');
    lemma_unit(d, 'm');
    lemma_unit(d, 'M');
    lemma_unit(d, 'g');
    lemma_unit(d, 'G');
}

proof fn lemma_unit(d: Seq<char>, c: char)
    requires
        d.len() > 0,
        !white_space(d[0]),
        !white_space(c),
    ensures
        trimmed(d.push(c)) == d.push(c),
        d.push(c).drop_last() == d,
        d.push(c).last() == c,
{
    law_trimmed_stays(d.push(c));
    assert(d.push(c).drop_last() =~= d);
}

/// A limit is what the option of its name says, and none without it.
pub proof fn law_limit_is_what_the_option_says(
    opts: Seq<(Seq<char>, Seq<char>)>,
    key: Seq<char>,
    n: u64,
)
    ensures
        value_at(opts, key) == Some(decimal(n as nat)) ==> limit_of(opts, key) == n && rate_of(opts, key)
            == n,
        value_at(opts, key) is None ==> limit_of(opts, key) == 0 && rate_of(opts, key) == 0,
{
    lemma_digits(n as nat);
    law_decimal_round_trip(n as nat);
}

/// A download uses the lesser of the two numbers of connections, sixteen where nothing is
/// said, and from one up to a hundred and twenty-eight.
pub proof fn law_connections_are_the_lesser_number(
    task: Seq<(Seq<char>, Seq<char>)>,
    global: Seq<(Seq<char>, Seq<char>)>,
    a: u64,
    b: u64,
)
    requires
        0 < a <= usize::MAX,
        0 < b <= usize::MAX,
    ensures
        1 <= connections_of(task, global) <= 128,
        ({
            let split = option_of(task, global, "split"@);
            let server = option_of(task, global, "max-connection-per-server"@);
            let least = if a < b { a } else { b };
            &&& (split == Some(decimal(a as nat)) && server == Some(decimal(b as nat))
                ==> connections_of(task, global) == if least < 128 { least } else { 128 })
            &&& (split == Some(decimal(a as nat)) && server is None ==> connections_of(task, global)
                == if a < 16 { a } else { 16 })
            &&& (split is None && server == Some(decimal(b as nat)) ==> connections_of(task, global)
                == if b < 16 { b } else { 16 })
            &&& (split is None && server is None ==> connections_of(task, global) == 16)
        }),
{
    lemma_digits(a as nat);
    lemma_digits(b as nat);
    law_decimal_round_trip(a as nat);
    law_decimal_round_trip(b as nat);
    lemma_up_to(a);
    lemma_up_to(b);
}

proof fn lemma_up_to(n: u64)
    requires
        n <= usize::MAX,
    ensures
        number_upto(decimal(n as nat), usize::MAX as int) == Some(n as int),
{
    law_decimal_round_trip(n as nat);
    lemma_decimal(n as nat);
    assert(crate::text::is_digit(decimal(n as nat)[0]));
}

/// Ranges are split down to the size that is asked for, but never below 64 KiB, and 1 GiB
/// is the most that can be asked for; 4 MiB where nothing is said.
pub proof fn law_ranges_are_split_as_asked(
    task: Seq<(Seq<char>, Seq<char>)>,
    global: Seq<(Seq<char>, Seq<char>)>,
    n: u64,
)
    ensures
        65_536 <= min_split_of(task, global) <= 1_073_741_824,
        option_of(task, global, "min-split-size"@) is None ==> min_split_of(task, global) == 4_194_304,
        option_of(task, global, "min-split-size"@) == Some(decimal(n as nat)) && 65_536 <= n
            <= 1_073_741_824 ==> min_split_of(task, global) == n,
{
    lemma_digits(n as nat);
    law_decimal_round_trip(n as nat);
}

/// A switch is on where nothing is said, and off where it is said to be off.
pub proof fn law_switches_are_on(v: Seq<char>)
    ensures
        on_by_default(None),
        !on_by_default(Some("false"@)),
        !on_by_default(Some("0"@)),
        v != "false"@ && v != "0"@ ==> on_by_default(Some(v)),
{
}

/// The names of the modes of BitTorrent downloads; no other name means one.
pub proof fn law_modes_have_names(v: Seq<char>)
    ensures
        encryption_of("adaptive"@) == Some(EncryptionMode::Adaptive),
        encryption_of("force"@) == Some(EncryptionMode::Force),
        encryption_of("plain"@) == Some(EncryptionMode::Plain),
        protocol_of("tcp+utp"@) == Some(BtProtocol::TcpUtp),
        protocol_of("tcp"@) == Some(BtProtocol::Tcp),
        protocol_of("utp"@) == Some(BtProtocol::Utp),
        encryption_of(v) is Some ==> v == "adaptive"@ || v == "force"@ || v == "plain"@,
        protocol_of(v) is Some ==> v == "tcp+utp"@ || v == "tcp"@ || v == "utp"@,
{
    reveal_strlit("adaptive");
    reveal_strlit("force");
    reveal_strlit("plain");
    reveal_strlit("tcp+utp");
    reveal_strlit("tcp");
    reveal_strlit("utp");
    assert("adaptive"@.len() == 8 && "force"@[0] == 'f' && "plain"@[0] == 'p');
    assert("force"@.len() == 5 && "plain"@.len() == 5);
    assert("tcp+utp"@.len() == 7 && "tcp"@[0] == 't' && "utp"@[0] == 'u');
    assert("tcp"@.len() == 3 && "utp"@.len() == 3);
}

/// A relative path follows behind exactly one slash; an absolute one stands for itself.
pub proof fn law_paths_are_joined_by_one_slash(base: Seq<char>, part: Seq<char>)
    requires
        base.len() > 0,
        base.last() != '/',
        part.len() > 0,
        part[0] != '/',
    ensures
        path_joined(base, part) == base + seq!['/'] + part,
        path_joined(base.push('/'), part) == base + seq!['/'] + part,
        path_joined(base, seq!['/'] + part) == seq!['/'] + part,
{
    assert(base.push('/') + part =~= base + seq!['/'] + part);
    assert((seq!['/'] + part)[0] == '/');
}

/// A directory that begins with the sign for the home directory is below it; a relative
/// one is below the working directory.
pub proof fn law_directories_become_absolute(home: Seq<char>, cwd: Seq<char>, d: Seq<char>)
    requires
        home.len() > 0,
        home[0] == '/',
        home.last() != '/',
        cwd.len() > 0,
        cwd[0] == '/',
        cwd.last() != '/',
        d.len() > 0,
        d[0] != '/' && d[0] != '~',
    ensures
        normal_dir(seq!['~'], Some(home), Some(cwd)) == home,
        normal_dir(seq!['~', '/'] + d, Some(home), Some(cwd)) == home + seq!['/'] + d,
        normal_dir(d, Some(home), Some(cwd)) == cwd + seq!['/'] + d,
        normal_dir(d, Some(home), None) == d,
{
    reveal_strlit("~");
    reveal_strlit("~/");
    reveal_strlit("~\\");
    assert("~"@ =~= seq!['~']);
    let t = seq!['~', '/'] + d;
    assert(t.take(2) =~= "~/"@);
    assert(t.skip(2) =~= d);
    assert(t.len() > 1);
    law_paths_are_joined_by_one_slash(home, d);
    law_paths_are_joined_by_one_slash(cwd, d);
    assert((home + seq!['/'] + d)[0] == '/');
    if has_prefix(d, "~/"@) {
        assert(d.take("~/"@.len() as int)[0] == d[0]);
    }
    if has_prefix(d, "~\\"@) {
        assert(d.take("~\\"@.len() as int)[0] == d[0]);
    }
    if d == "~"@ {
        assert(d[0] == '~');
    }
}

/// The last component of a path is what stands behind its last slash of either kind.
pub proof fn law_last_component(dir: Seq<char>, name: Seq<char>)
    requires
        forall|i: int| 0 <= i < name.len() ==> #[trigger] name[i] != '/' && name[i] != '\\',
    ensures
        base_name(dir.push('/') + name) == name,
        base_name(dir.push('\\') + name) == name,
        base_name(name) == name,
    decreases name.len(),
{
    if name.len() == 0 {
        assert(dir.push('/') + name =~= dir.push('/'));
        assert(dir.push('\\') + name =~= dir.push('\\'));
        assert(name =~= Seq::<char>::empty());
    } else {
        let front = name.drop_last();
        assert forall|i: int| 0 <= i < front.len() implies #[trigger] front[i] != '/' && front[i]
            != '\\' by {
            assert(front[i] == name[i]);
        }
        law_last_component(dir, front);
        assert(name[name.len() - 1] == name.last());
        assert((dir.push('/') + name).drop_last() =~= dir.push('/') + front);
        assert((dir.push('\\') + name).drop_last() =~= dir.push('\\') + front);
        assert(front.push(name.last()) =~= name);
    }
}

/// A file name without an extension gets the counter at its end.
pub proof fn law_counter_without_extension(name: Seq<char>, n: nat)
    requires
        !name.contains('.'),
    ensures
        counted_name(name, n) == name.push('.') + decimal(n),
{
    crate::text::law_cut_at_the_last(Seq::empty(), name, '.');
}

/// A file name with an extension gets the counter before it.
pub proof fn law_counter_before_the_extension(stem: Seq<char>, ext: Seq<char>, n: nat)
    requires
        stem.len() > 0,
        !ext.contains('.'),
    ensures
        counted_name(stem.push('.') + ext, n) == stem + seq!['.'] + decimal(n) + seq!['.'] + ext,
{
    crate::text::law_cut_at_the_last(stem, ext, '.');
    assert(stem.push('.') + decimal(n) + seq!['.'] + ext =~= stem + seq!['.'] + decimal(n) + seq!['.']
        + ext);
}

/// A checksum is an algorithm that is known, an equals sign and a digest, whose letters
/// count as small.
pub proof fn law_checksum_is_read(
    algo: Seq<char>,
    digest: Seq<char>,
    names: Seq<(Seq<char>, Seq<char>)>,
)
    requires
        !algo.contains('='),
    ensures
        value_at(names, algo) is None ==> checksum_of(algo.push('=') + digest, names) is None,
        value_at(names, algo) is Some ==> checksum_of(algo.push('=') + digest, names) == Some(
            (value_at(names, algo)->0, lowered(trimmed(digest))),
        ),
        checksum_of(algo, names) is None,
{
    crate::text::law_cut_at_the_first(algo, digest, '=');
}

/// The last of some entries with a key; -1 if there is none.
pub open spec fn last_entry(f: Seq<Field>, key: Seq<char>) -> int
    decreases f.len(),
{
    if f.len() == 0 {
        -1
    } else if f.last().key@ == key {
        f.len() - 1
    } else {
        last_entry(f.drop_last(), key)
    }
}

/// Of the options of a request the last one of a name counts; one that is not named keeps
/// its value. Directory, file name and checksum are no options.
pub proof fn law_last_option_counts(start: Seq<(Seq<char>, Seq<char>)>, f: Seq<Field>, key: Seq<char>)
    requires
        key != "dir"@ && key != "out"@ && key != "checksum"@,
    ensures
        last_entry(f, key) >= 0 ==> last_entry(f, key) < f.len() && value_at(
            options_after(start, f),
            key,
        ) == Some(
            match f[last_entry(f, key)].value@ {
                JsonView::Str(s) => s,
                _ => f[last_entry(f, key)].text@,
            },
        ),
        last_entry(f, key) < 0 ==> value_at(options_after(start, f), key) == value_at(start, key),
    decreases f.len(),
{
    if f.len() > 0 {
        let front = f.drop_last();
        law_last_option_counts(start, front, key);
        let e = f.last();
        if !set_apart(e.key@) {
            crate::lists::law_set_value_is_read(
                options_after(start, front),
                e.key@,
                option_text(e),
                key,
            );
        }
        if e.key@ != key && last_entry(front, key) >= 0 {
            assert(front[last_entry(front, key)] == f[last_entry(front, key)]);
        }
    }
}

/// Directory, file name and checksum never get among the options.
pub proof fn law_some_keys_are_no_options(start: Seq<(Seq<char>, Seq<char>)>, f: Seq<Field>, key: Seq<char>)
    requires
        key == "dir"@ || key == "out"@ || key == "checksum"@,
    ensures
        value_at(options_after(start, f), key) == value_at(start, key),
    decreases f.len(),
{
    if f.len() > 0 {
        let front = f.drop_last();
        law_some_keys_are_no_options(start, front, key);
        let e = f.last();
        if !set_apart(e.key@) {
            crate::lists::law_set_value_is_read(
                options_after(start, front),
                e.key@,
                option_text(e),
                key,
            );
        }
    }
}

/// A list of trackers has every line that names one, without white space around it, and
/// nothing else.
pub proof fn law_tracker_lines_are_taken(lines: Seq<Seq<char>>, u: Seq<char>)
    ensures
        trackers_in(lines).contains(u) <==> (has_prefix(u, "udp://"@) || has_prefix(u, "http://"@)
            || has_prefix(u, "https://"@) || has_prefix(u, "wss://"@)) && exists|i: int|
            0 <= i < lines.len() && trimmed(#[trigger] lines[i]) == u,
    decreases lines.len(),
{
    if lines.len() > 0 {
        let front = lines.drop_last();
        law_tracker_lines_are_taken(front, u);
        let last = trimmed(lines.last());
        let rest = trackers_in(front);
        let all = trackers_in(lines);
        assert(all.contains(u) <==> rest.contains(u) || (names_tracker(last) && u == last)) by {
            if all.contains(u) {
                let i = choose|i: int| 0 <= i < all.len() && all[i] == u;
                if i < rest.len() {
                    assert(rest[i] == u);
                }
            }
            if rest.contains(u) {
                let i = choose|i: int| 0 <= i < rest.len() && rest[i] == u;
                assert(all[i] == u);
            }
            if names_tracker(last) {
                assert(all[all.len() - 1] == last);
            }
        }
        assert((exists|i: int| 0 <= i < lines.len() && trimmed(#[trigger] lines[i]) == u) <==> (
        exists|i: int| 0 <= i < front.len() && trimmed(#[trigger] front[i]) == u) || last == u) by {
            if exists|i: int| 0 <= i < lines.len() && trimmed(#[trigger] lines[i]) == u {
                let i = choose|i: int| 0 <= i < lines.len() && trimmed(#[trigger] lines[i]) == u;
                if i < front.len() {
                    assert(trimmed(front[i]) == u);
                }
            }
            if exists|i: int| 0 <= i < front.len() && trimmed(#[trigger] front[i]) == u {
                let i = choose|i: int| 0 <= i < front.len() && trimmed(#[trigger] front[i]) == u;
                assert(trimmed(lines[i]) == u);
            }
            assert(lines[lines.len() - 1] == lines.last());
        }
    }
}

/// Peers are talked to over both transports, with encryption where they want it, unless
/// an option names another way. A name that means nothing changes nothing.
pub proof fn law_ways_to_talk_to_peers(
    task: Seq<(Seq<char>, Seq<char>)>,
    global: Seq<(Seq<char>, Seq<char>)>,
    v: Seq<char>,
)
    ensures
        option_of(task, global, "bt-encryption"@) is None ==> modes_of(task, global).0 is Adaptive,
        option_of(task, global, "bt-encryption"@) == Some(v) && encryption_of(v) is Some ==> modes_of(
            task,
            global,
        ).0 == encryption_of(v)->0,
        option_of(task, global, "bt-encryption"@) == Some(v) && encryption_of(v) is None ==> modes_of(
            task,
            global,
        ).0 is Adaptive,
        option_of(task, global, "bt-protocol"@) is None ==> modes_of(task, global).1 is TcpUtp,
        option_of(task, global, "bt-protocol"@) == Some(v) && protocol_of(v) is Some ==> modes_of(
            task,
            global,
        ).1 == protocol_of(v)->0,
{
}

/// At most 200 peers are talked to at a time, one at least, and 50 where nothing is said.
pub proof fn law_peers_at_a_time(
    task: Seq<(Seq<char>, Seq<char>)>,
    global: Seq<(Seq<char>, Seq<char>)>,
    n: u64,
)
    ensures
        1 <= peers_of(task, global) <= 200,
        option_of(task, global, "bt-max-peers"@) is None ==> peers_of(task, global) == 50,
        option_of(task, global, "bt-max-peers"@) == Some(decimal(n as nat)) && 1 <= n <= 200 ==> peers_of(
            task,
            global,
        ) == n,
{
    law_decimal_round_trip(n as nat);
}

/// A split download adapts itself unless an option turns that off: every second, between
/// one connection and as many as it may have, and gives a silent one up at the third
/// look.
pub proof fn law_split_download_adapts(
    r: SplitOptions,
    task: Seq<(Seq<char>, Seq<char>)>,
    global: Seq<(Seq<char>, Seq<char>)>,
)
    requires
        adapts_as_asked(r, task, global),
    ensures
        option_of(task, global, "adaptive"@) is None ==> r.adaptive is Some,
        option_of(task, global, "adaptive"@) == Some("false"@) ==> r.adaptive is None,
        r.adaptive is Some ==> r.adaptive->0.enabled && r.adaptive->0.min_connections == 1
            && r.adaptive->0.max_connections == r.connections && r.adaptive->0.initial_connections
            == r.connections && r.adaptive->0.eval_interval_ms == 1000 && r.adaptive->0.stall_eval_limit == 3,
{
    law_switches_are_on("false"@);
}

} // verus!
