//! Configuration of the engine and its command line.

use vstd::prelude::*;

use crate::manifest::{pair_texts, string_texts};
use crate::text::{
    chars_of, cut_at, has_prefix, law_cut_at_the_first, number_upto, parse_upto, same_text, split_once, string_of,
    strip_prefix,
};

verus! {

/// Port that the RPC service listens on by default.
pub const DEFAULT_RPC_PORT: u16 = 6800;
/// Downloads that run at a time by default.
pub const DEFAULT_MAX_CONCURRENT: usize = 5;

/// Configuration of a run.
pub struct EngineConfig {
    pub rpc_listen_port: u16,
    pub rpc_secret: Option<String>,
    pub download_dir: String,
    pub max_concurrent: usize,
    pub log_file: Option<String>,
    pub log_level: Option<String>,
    /// Path of the session file; tasks and settings are kept if there is one.
    pub session: Option<String>,
    /// Global options of the command line, in order.
    pub initial_options: Vec<(String, String)>,
}

/// A configuration as texts and numbers.
pub struct ConfigView {
    pub rpc_listen_port: u16,
    pub rpc_secret: Option<Seq<char>>,
    pub download_dir: Seq<char>,
    pub max_concurrent: usize,
    pub log_file: Option<Seq<char>>,
    pub log_level: Option<Seq<char>>,
    pub session: Option<Seq<char>>,
    pub initial_options: Seq<(Seq<char>, Seq<char>)>,
}

/// The text of an optional string.
pub open spec fn opt_view(s: Option<String>) -> Option<Seq<char>> {
    match s {
        Some(t) => Some(t@),
        None => None,
    }
}

impl EngineConfig {
    pub open spec fn view(&self) -> ConfigView {
        ConfigView {
            rpc_listen_port: self.rpc_listen_port,
            rpc_secret: opt_view(self.rpc_secret),
            download_dir: self.download_dir@,
            max_concurrent: self.max_concurrent,
            log_file: opt_view(self.log_file),
            log_level: opt_view(self.log_level),
            session: opt_view(self.session),
            initial_options: pair_texts(self.initial_options@),
        }
    }
}

/// The configuration without any argument.
pub open spec fn default_config() -> ConfigView {
    ConfigView {
        rpc_listen_port: DEFAULT_RPC_PORT,
        rpc_secret: None,
        download_dir: "."@,
        max_concurrent: DEFAULT_MAX_CONCURRENT,
        log_file: None,
        log_level: None,
        session: None,
        initial_options: Seq::empty(),
    }
}

impl Default for EngineConfig {
    fn default() -> (r: Self)
        ensures
            r@ == default_config(),
    {
        let r = EngineConfig {
            rpc_listen_port: DEFAULT_RPC_PORT,
            rpc_secret: None,
            download_dir: ".".to_owned(),
            max_concurrent: DEFAULT_MAX_CONCURRENT,
            log_file: None,
            log_level: None,
            session: None,
            initial_options: Vec::new(),
        };
        assert(r@.initial_options =~= Seq::<(Seq<char>, Seq<char>)>::empty());
        r
    }
}

/// A configuration and the arguments that were left out of it.
pub struct ParsedArgs {
    pub config: EngineConfig,
    /// Arguments that are no options.
    pub ignored: Vec<String>,
}

/// Key and value of an option; the value is empty without an equals sign.
pub open spec fn key_value(kv: Seq<char>) -> (Seq<char>, Seq<char>) {
    match cut_at(kv, '=') {
        Some(p) => p,
        None => (kv, Seq::empty()),
    }
}

/// Whether a switch is on.
pub open spec fn is_on(value: Seq<char>) -> bool {
    value != "false"@ && value != "0"@
}

/// A truth value as text.
pub open spec fn bool_text(b: bool) -> Seq<char> {
    if b { "true"@ } else { "false"@ }
}

/// The value if it is not empty, else what was there.
pub open spec fn filled(value: Seq<char>, before: Option<Seq<char>>) -> Option<Seq<char>> {
    if value.len() > 0 { Some(value) } else { before }
}

/// A configuration after one more option.
pub open spec fn with_option(c: ConfigView, key: Seq<char>, value: Seq<char>) -> ConfigView {
    if key == "rpc-listen-port"@ {
        match number_upto(value, 65535) {
            Some(n) => ConfigView { rpc_listen_port: n as u16, ..c },
            None => c,
        }
    } else if key == "rpc-secret"@ {
        ConfigView { rpc_secret: filled(value, c.rpc_secret), ..c }
    } else if key == "dir"@ {
        ConfigView { download_dir: value, ..c }
    } else if key == "max-concurrent-downloads"@ {
        match number_upto(value, usize::MAX as int) {
            Some(n) => ConfigView { max_concurrent: if n < 1 { 1 } else { n as usize }, ..c },
            None => c,
        }
    } else if key == "log"@ {
        ConfigView { log_file: filled(value, c.log_file), ..c }
    } else if key == "log-level"@ {
        ConfigView { log_level: filled(value, c.log_level), ..c }
    } else if key == "save-session"@ {
        ConfigView { session: filled(value, c.session), ..c }
    } else if key == "input-file"@ {
        if c.session is None {
            ConfigView { session: filled(value, None), ..c }
        } else {
            c
        }
    } else if key == "enable-upnp"@ || key == "enable-nat-pmp"@ {
        ConfigView {
            initial_options: c.initial_options.push(("bt-port-mapping"@, bool_text(is_on(value)))),
            ..c
        }
    } else if key == "enable-utp"@ {
        ConfigView {
            initial_options: c.initial_options.push(
                ("bt-protocol"@, if is_on(value) { "tcp+utp"@ } else { "tcp"@ }),
            ),
            ..c
        }
    } else {
        ConfigView { initial_options: c.initial_options.push((key, value)), ..c }
    }
}

/// What a command line means: a configuration, and the arguments that are no options.
pub open spec fn args_meaning(args: Seq<Seq<char>>) -> (ConfigView, Seq<Seq<char>>)
    decreases args.len(),
{
    if args.len() == 0 {
        (default_config(), Seq::empty())
    } else {
        let (c, ignored) = args_meaning(args.drop_last());
        if has_prefix(args.last(), "--"@) {
            let (k, v) = key_value(args.last().skip("--"@.len() as int));
            (with_option(c, k, v), ignored)
        } else {
            (c, ignored.push(args.last()))
        }
    }
}

/// A value as an option's text, if it is not empty.
fn fill(value: &Vec<char>, before: Option<String>) -> (r: Option<String>)
    ensures
        opt_view(r) == filled(value@, opt_view(before)),
{
    if value.len() > 0 {
        Some(string_of(value))
    } else {
        before
    }
}

/// Whether a switch is on.
pub fn switch_on(value: &Vec<char>) -> (r: bool)
    ensures
        r == is_on(value@),
{
    !same_text(value, "false") && !same_text(value, "0")
}

/// A truth value as text.
pub fn bool_str(b: bool) -> (r: String)
    ensures
        r@ == bool_text(b),
{
    if b {
        "true".to_owned()
    } else {
        "false".to_owned()
    }
}

fn push_option(cfg: &mut EngineConfig, key: String, value: String)
    ensures
        final(cfg)@ == (ConfigView {
            initial_options: old(cfg)@.initial_options.push((key@, value@)),
            ..old(cfg)@
        }),
{
    let ghost before = cfg@;
    cfg.initial_options.push((key, value));
    assert(cfg@.initial_options =~= before.initial_options.push((key@, value@)));
}

fn apply_option(cfg: EngineConfig, key: &Vec<char>, value: &Vec<char>) -> (r: EngineConfig)
    ensures
        r@ == with_option(cfg@, key@, value@),
{
    let mut cfg = cfg;
    if same_text(key, "rpc-listen-port") {
        match parse_upto(value, 65535) {
            Some(n) => {
                cfg.rpc_listen_port = n as u16;
            },
            None => {},
        }
    } else if same_text(key, "rpc-secret") {
        cfg.rpc_secret = fill(value, cfg.rpc_secret);
    } else if same_text(key, "dir") {
        cfg.download_dir = string_of(value);
    } else if same_text(key, "max-concurrent-downloads") {
        match parse_upto(value, usize::MAX as u64) {
            Some(n) => {
                cfg.max_concurrent = if n < 1 { 1 } else { n as usize };
            },
            None => {},
        }
    } else if same_text(key, "log") {
        cfg.log_file = fill(value, cfg.log_file);
    } else if same_text(key, "log-level") {
        cfg.log_level = fill(value, cfg.log_level);
    } else if same_text(key, "save-session") {
        cfg.session = fill(value, cfg.session);
    } else if same_text(key, "input-file") {
        if cfg.session.is_none() {
            cfg.session = fill(value, None);
        }
    } else if same_text(key, "enable-upnp") || same_text(key, "enable-nat-pmp") {
        let on = bool_str(switch_on(value));
        push_option(&mut cfg, "bt-port-mapping".to_owned(), on);
    } else if same_text(key, "enable-utp") {
        let v = if switch_on(value) { "tcp+utp".to_owned() } else { "tcp".to_owned() };
        push_option(&mut cfg, "bt-protocol".to_owned(), v);
    } else {
        push_option(&mut cfg, string_of(key), string_of(value));
    }
    cfg
}

/// Reads a command line of arguments `--key=value`.
///
/// Known keys set the configuration. Every other key becomes a global option, whether
/// the engine knows it or not. Arguments that do not begin with two dashes are set
/// aside.
pub fn parse_args(args: Vec<String>) -> (r: ParsedArgs)
    ensures
        r.config@ == args_meaning(string_texts(args@)).0,
        string_texts(r.ignored@) == args_meaning(string_texts(args@)).1,
{
    let ghost all = string_texts(args@);
    let mut cfg = EngineConfig::default();
    let mut ignored: Vec<String> = Vec::new();
    let mut i: usize = 0;
    assert(all.take(0) =~= Seq::<Seq<char>>::empty());
    assert(string_texts(ignored@) =~= Seq::<Seq<char>>::empty());
    while i < args.len()
        invariant
            i <= args@.len(),
            all == string_texts(args@),
            cfg@ == args_meaning(all.take(i as int)).0,
            string_texts(ignored@) == args_meaning(all.take(i as int)).1,
        decreases args@.len() - i,
    {
        let ghost before = ignored@;
        proof {
            assert(all.take(i + 1).drop_last() =~= all.take(i as int));
            assert(all.take(i + 1).last() == args@[i as int]@);
        }
        let arg = chars_of(args[i].as_str());
        match strip_prefix(&arg, "--") {
            None => {
                ignored.push(args[i].clone());
                assert(string_texts(ignored@) =~= string_texts(before).push(args@[i as int]@));
            },
            Some(kv) => {
                match split_once(&kv, '=') {
                    Some((k, v)) => {
                        cfg = apply_option(cfg, &k, &v);
                    },
                    None => {
                        let none: Vec<char> = Vec::new();
                        assert(none@ =~= Seq::<char>::empty());
                        cfg = apply_option(cfg, &kv, &none);
                    },
                }
            },
        }
        i = i + 1;
    }
    assert(all.take(i as int) =~= all);
    ParsedArgs { config: cfg, ignored }
}

/// The arguments set aside are those that do not begin with two dashes, and no others.
pub proof fn law_only_bare_args_are_ignored(args: Seq<Seq<char>>, a: Seq<char>)
    ensures
        args_meaning(args).1.contains(a) <==> args.contains(a) && !has_prefix(a, "--"@),
    decreases args.len(),
{
    if args.len() > 0 {
        let front = args.drop_last();
        law_only_bare_args_are_ignored(front, a);
        assert(args.contains(a) <==> front.contains(a) || a == args.last()) by {
            if args.contains(a) {
                let k = choose|k: int| 0 <= k < args.len() && args[k] == a;
                if k < front.len() {
                    assert(front[k] == a);
                }
            }
            if front.contains(a) {
                let k = choose|k: int| 0 <= k < front.len() && front[k] == a;
                assert(args[k] == a);
            }
            assert(args[args.len() - 1] == args.last());
        }
        let rest = args_meaning(front).1;
        let all = args_meaning(args).1;
        if !has_prefix(args.last(), "--"@) {
            assert(all.contains(a) <==> rest.contains(a) || a == args.last()) by {
                if all.contains(a) {
                    let k = choose|k: int| 0 <= k < all.len() && all[k] == a;
                    if k < rest.len() {
                        assert(rest[k] == a);
                    }
                }
                if rest.contains(a) {
                    let k = choose|k: int| 0 <= k < rest.len() && rest[k] == a;
                    assert(all[k] == a);
                }
                assert(all[all.len() - 1] == args.last());
            }
        }
    }
}

/// Whether an argument names a session file with `save-session`.
pub open spec fn saves_session(arg: Seq<char>) -> bool {
    has_prefix(arg, "--"@) && {
        let (k, v) = key_value(arg.skip("--"@.len() as int));
        k == "save-session"@ && v.len() > 0
    }
}

/// A session file named by `save-session` stays, whatever `input-file` says before or
/// after it; only a later `save-session` names another one.
pub proof fn law_save_session_wins(before: Seq<Seq<char>>, arg: Seq<char>, after: Seq<Seq<char>>)
    requires
        saves_session(arg),
        forall|i: int| 0 <= i < after.len() ==> !saves_session(#[trigger] after[i]),
    ensures
        args_meaning(before.push(arg) + after).0.session == Some(
            key_value(arg.skip("--"@.len() as int)).1,
        ),
    decreases after.len(),
{
    let all = before.push(arg) + after;
    if after.len() == 0 {
        assert(all.drop_last() =~= before);
        reveal_strlit("rpc-listen-port");
        reveal_strlit("rpc-secret");
        reveal_strlit("dir");
        reveal_strlit("max-concurrent-downloads");
        reveal_strlit("log");
        reveal_strlit("log-level");
        reveal_strlit("save-session");
        assert("save-session"@[0] == 's');
        assert("rpc-listen-port"@[0] == 'r');
        assert("rpc-secret"@[0] == 'r');
        assert("dir"@[0] == 'd');
        assert("max-concurrent-downloads"@[0] == 'm');
        assert("log"@[0] == 'l');
        assert("log-level"@[0] == 'l');
    } else {
        law_save_session_wins(before, arg, after.drop_last());
        assert(all.drop_last() =~= before.push(arg) + after.drop_last());
        assert(all.last() == after.last());
        assert(!saves_session(after[after.len() - 1]));
    }
}

/// An option on the command line: its name, an equals sign and its value.
pub open spec fn written_option(key: Seq<char>, value: Seq<char>) -> Seq<char> {
    "--"@ + (key.push('=') + value)
}

proof fn lemma_written_option(key: Seq<char>, value: Seq<char>)
    requires
        !key.contains('='),
    ensures
        has_prefix(written_option(key, value), "--"@),
        key_value(written_option(key, value).skip("--"@.len() as int)) == (key, value),
{
    let s = written_option(key, value);
    let p = "--"@;
    assert(s.take(p.len() as int) =~= p);
    assert(s.skip(p.len() as int) =~= key.push('=') + value);
    law_cut_at_the_first(key, value, '=');
}

/// Without arguments the engine listens on its usual port, without a secret, runs five
/// downloads at a time and keeps files where it was started.
pub proof fn law_defaults_without_arguments()
    ensures
        ({
            let c = args_meaning(Seq::empty()).0;
            &&& c.rpc_listen_port == 6800
            &&& c.max_concurrent == 5
            &&& c.download_dir == "."@
            &&& c.rpc_secret is None && c.log_file is None && c.log_level is None && c.session is None
            &&& c.initial_options.len() == 0
        }),
{
}

proof fn lemma_option_names()
    ensures
        "rpc-listen-port"@.len() == 15,
        "rpc-secret"@.len() == 10 && "rpc-secret"@[0] == 'r',
        "dir"@.len() == 3 && "dir"@[0] == 'd',
        "max-concurrent-downloads"@.len() == 24,
        "log"@.len() == 3 && "log"@[0] == 'l',
        "log-level"@.len() == 9,
        "save-session"@.len() == 12,
        "input-file"@.len() == 10 && "input-file"@[0] == 'i',
        "enable-upnp"@.len() == 11,
        "enable-nat-pmp"@.len() == 14,
        "enable-utp"@.len() == 10 && "enable-utp"@[0] == 'e',
        !"rpc-listen-port"@.contains('='),
        !"rpc-secret"@.contains('='),
        !"dir"@.contains('='),
        !"max-concurrent-downloads"@.contains('='),
        !"log"@.contains('='),
        !"log-level"@.contains('='),
        !"save-session"@.contains('='),
        !"input-file"@.contains('='),
        !"enable-upnp"@.contains('='),
        !"enable-nat-pmp"@.contains('='),
        !"enable-utp"@.contains('='),
{
    reveal_strlit("rpc-listen-port");
    reveal_strlit("rpc-secret");
    reveal_strlit("dir");
    reveal_strlit("max-concurrent-downloads");
    reveal_strlit("log");
    reveal_strlit("log-level");
    reveal_strlit("save-session");
    reveal_strlit("input-file");
    reveal_strlit("enable-upnp");
    reveal_strlit("enable-nat-pmp");
    reveal_strlit("enable-utp");
}

/// Each option of the command line sets what its name says and leaves the rest alone. A
/// number that is none, or too large, sets nothing; at least one download runs.
pub proof fn law_option_sets_what_it_names(args: Seq<Seq<char>>, value: Seq<char>)
    ensures
        ({
            let before = args_meaning(args).0;
            let after = |key: Seq<char>| args_meaning(args.push(written_option(key, value))).0;
            &&& after("rpc-listen-port"@) == match number_upto(value, 65_535) {
                Some(n) => ConfigView { rpc_listen_port: n as u16, ..before },
                None => before,
            }
            &&& after("max-concurrent-downloads"@) == match number_upto(value, usize::MAX as int) {
                Some(n) => ConfigView { max_concurrent: if n < 1 { 1 } else { n as usize }, ..before },
                None => before,
            }
            &&& after("dir"@) == (ConfigView { download_dir: value, ..before })
            &&& (value.len() > 0 ==> after("rpc-secret"@) == (ConfigView {
                rpc_secret: Some(value),
                ..before
            }))
            &&& (value.len() > 0 ==> after("log"@) == (ConfigView { log_file: Some(value), ..before }))
            &&& (value.len() > 0 ==> after("log-level"@) == (ConfigView {
                log_level: Some(value),
                ..before
            }))
            &&& (value.len() > 0 ==> after("save-session"@) == (ConfigView {
                session: Some(value),
                ..before
            }))
            &&& (value.len() > 0 && before.session is None ==> after("input-file"@) == (ConfigView {
                session: Some(value),
                ..before
            }))
            &&& (before.session is Some ==> after("input-file"@) == before)
            &&& after("enable-upnp"@) == (ConfigView {
                initial_options: before.initial_options.push(
                    (
                        "bt-port-mapping"@,
                        if value == "false"@ || value == "0"@ { "false"@ } else { "true"@ },
                    ),
                ),
                ..before
            })
            &&& after("enable-nat-pmp"@) == after("enable-upnp"@)
            &&& after("enable-utp"@) == (ConfigView {
                initial_options: before.initial_options.push(
                    (
                        "bt-protocol"@,
                        if value == "false"@ || value == "0"@ { "tcp"@ } else { "tcp+utp"@ },
                    ),
                ),
                ..before
            })
        }),
{
    lemma_option_names();
    lemma_added(args, "rpc-listen-port"@, value);
    lemma_added(args, "rpc-secret"@, value);
    lemma_added(args, "dir"@, value);
    lemma_added(args, "max-concurrent-downloads"@, value);
    lemma_added(args, "log"@, value);
    lemma_added(args, "log-level"@, value);
    lemma_added(args, "save-session"@, value);
    lemma_added(args, "input-file"@, value);
    lemma_added(args, "enable-upnp"@, value);
    lemma_added(args, "enable-nat-pmp"@, value);
    lemma_added(args, "enable-utp"@, value);
}

proof fn lemma_added(args: Seq<Seq<char>>, key: Seq<char>, value: Seq<char>)
    requires
        !key.contains('='),
    ensures
        args_meaning(args.push(written_option(key, value))).0 == with_option(
            args_meaning(args).0,
            key,
            value,
        ),
{
    let all = args.push(written_option(key, value));
    assert(all.drop_last() =~= args);
    lemma_written_option(key, value);
}

/// An option of another name is kept as an option of the engine, in order.
pub proof fn law_other_options_are_kept(args: Seq<Seq<char>>, key: Seq<char>, value: Seq<char>)
    requires
        !key.contains('='),
        key != "rpc-listen-port"@ && key != "rpc-secret"@ && key != "dir"@,
        key != "max-concurrent-downloads"@ && key != "log"@ && key != "log-level"@,
        key != "save-session"@ && key != "input-file"@,
        key != "enable-upnp"@ && key != "enable-nat-pmp"@ && key != "enable-utp"@,
    ensures
        args_meaning(args.push(written_option(key, value))).0 == (ConfigView {
            initial_options: args_meaning(args).0.initial_options.push((key, value)),
            ..args_meaning(args).0
        }),
{
    lemma_added(args, key, value);
}

} // verus!
