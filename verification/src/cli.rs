//! The command line: what the arguments ask for, and the server settings
//! that follow from them and the project's configuration.

use vstd::prelude::*;
use crate::config::{
    config_db_path, config_host, config_port, config_queue_workers, config_workers, TitaniumConfig,
};
use crate::server::ServerConfig;
use crate::text::{chars_of, parse_usize, parse_usize_spec, string_of};

verus! {

/// What the command line asks for.
pub enum CliCommand {
    /// Run the development server.
    Serve,
    /// Run the server and open the studio, for the given project.
    Studio(String),
    /// Check and package the given project.
    Build(String),
    /// Apply the given project's migrations.
    Migrate(String),
    /// Print facts about the given project.
    Info(String),
    /// Create a project in the given directory.
    New(String),
    /// Print the usage text.
    Help,
}

/// The options read from the command line and the command.
pub struct CliArgs {
    pub host: Option<String>,
    pub port: Option<u16>,
    pub root_dir: String,
    pub db_path: Option<String>,
    pub command: CliCommand,
}

/// The options as values.
pub struct ArgState {
    pub host: Option<Seq<char>>,
    pub port: Option<u16>,
    pub root: Seq<char>,
    pub db: Option<Seq<char>>,
}

/// The command as values.
pub enum CommandView {
    Serve,
    Studio(Seq<char>),
    Build(Seq<char>),
    Migrate(Seq<char>),
    Info(Seq<char>),
    New(Seq<char>),
    Help,
}

/// The port in `-S host:port`: the number, or 8080 where it is not a `u16`.
pub open spec fn port_spec(p: Seq<char>) -> u16 {
    match parse_usize_spec(p) {
        Some(v) => if v <= 65535 {
            v as u16
        } else {
            8080
        },
        None => 8080,
    }
}

/// The argument after `i`, where there is one that does not start with `-`.
pub open spec fn operand(args: Seq<Seq<char>>, i: int) -> Option<Seq<char>> {
    if i + 1 < args.len() && !(args[i + 1].len() > 0 && args[i + 1][0] == '-') {
        Some(args[i + 1])
    } else {
        None
    }
}

/// The project an argument names, or the current root.
pub open spec fn target_of(args: Seq<Seq<char>>, i: int, root: Seq<char>) -> Seq<char> {
    match operand(args, i) {
        Some(t) => t,
        None => root,
    }
}

/// Reads the arguments from index `i` on, in state `st`. `dir_ok[i]` says
/// whether a bare argument names an existing path or a directory with
/// `pages` in it.
pub open spec fn parse_from(args: Seq<Seq<char>>, dir_ok: Seq<bool>, i: int, st: ArgState) -> (ArgState, CommandView)
    decreases args.len() - i,
{
    if i < 0 || i >= args.len() {
        (st, CommandView::Serve)
    } else {
        let a = args[i];
        let has_next = i + 1 < args.len();
        if a == "-S"@ || a == "--server"@ {
            if has_next {
                let addr = args[i + 1];
                let c = crate::text::first_index_of(addr, ':');
                let st2 = if c >= 0 {
                    ArgState {
                        host: Some(addr.take(c)),
                        port: Some(port_spec(addr.skip(c + 1))),
                        ..st
                    }
                } else {
                    ArgState { host: Some(addr), ..st }
                };
                parse_from(args, dir_ok, i + 2, st2)
            } else {
                parse_from(args, dir_ok, i + 1, st)
            }
        } else if a == "-d"@ || a == "--dir"@ {
            if has_next {
                parse_from(args, dir_ok, i + 2, ArgState { root: args[i + 1], ..st })
            } else {
                parse_from(args, dir_ok, i + 1, st)
            }
        } else if a == "--db"@ {
            if has_next {
                parse_from(args, dir_ok, i + 2, ArgState { db: Some(args[i + 1]), ..st })
            } else {
                parse_from(args, dir_ok, i + 1, st)
            }
        } else if a == "dev"@ || a == "serve"@ {
            match operand(args, i) {
                Some(t) => parse_from(args, dir_ok, i + 2, ArgState { root: t, ..st }),
                None => parse_from(args, dir_ok, i + 1, st),
            }
        } else if a == "studio"@ {
            (st, CommandView::Studio(target_of(args, i, st.root)))
        } else if a == "build"@ {
            (st, CommandView::Build(target_of(args, i, st.root)))
        } else if a == "migrate"@ {
            (st, CommandView::Migrate(target_of(args, i, st.root)))
        } else if a == "info"@ {
            (st, CommandView::Info(target_of(args, i, st.root)))
        } else if a == "new"@ || a == "init"@ {
            (st, CommandView::New(if has_next { args[i + 1] } else { st.root }))
        } else if a == "--help"@ || a == "-h"@ {
            (st, CommandView::Help)
        } else if !(a.len() > 0 && a[0] == '-') {
            if i < dir_ok.len() && dir_ok[i] {
                parse_from(args, dir_ok, i + 1, ArgState { root: a, ..st })
            } else {
                parse_from(args, dir_ok, i + 1, st)
            }
        } else {
            parse_from(args, dir_ok, i + 1, st)
        }
    }
}

/// The view of a command.
pub open spec fn command_view(c: CliCommand) -> CommandView {
    match c {
        CliCommand::Serve => CommandView::Serve,
        CliCommand::Studio(t) => CommandView::Studio(t@),
        CliCommand::Build(t) => CommandView::Build(t@),
        CliCommand::Migrate(t) => CommandView::Migrate(t@),
        CliCommand::Info(t) => CommandView::Info(t@),
        CliCommand::New(t) => CommandView::New(t@),
        CliCommand::Help => CommandView::Help,
    }
}

/// The view of the options.
pub open spec fn state_view(a: CliArgs) -> ArgState {
    ArgState {
        host: crate::router::opt_view(a.host),
        port: a.port,
        root: a.root_dir@,
        db: crate::router::opt_view(a.db_path),
    }
}

/// The port of `-S host:port`.
pub fn parse_port(p: &str) -> (r: u16)
    ensures
        r == port_spec(p@),
{
    match parse_usize(&chars_of(p)) {
        Some(v) => if v <= 65535 {
            v as u16
        } else {
            8080
        },
        None => 8080,
    }
}

fn is_text(s: &String, lit: &str) -> (b: bool)
    ensures
        b == (s@ == lit@),
{
    let a = chars_of(s.as_str());
    crate::text::str_eq_chars(lit, &a)
}

fn starts_with_dash(s: &String) -> (b: bool)
    ensures
        b == (s@.len() > 0 && s@[0] == '-'),
{
    let a = chars_of(s.as_str());
    a.len() > 0 && a[0] == '-'
}

fn operand_exec(args: &Vec<String>, i: usize) -> (r: Option<String>)
    requires
        i < args@.len(),
    ensures
        crate::router::opt_view(r) == operand(crate::text::string_views(args@), i as int),
{
    if i < args.len() - 1 && !starts_with_dash(&args[i + 1]) {
        Some(args[i + 1].clone())
    } else {
        None
    }
}

/// Reads the command line `args` (the program's name first), with `cwd`
/// as the project root until an argument names another. `dir_ok[i]` says
/// whether `args[i]` names an existing path or a directory with `pages` in
/// it.
pub fn parse_args(args: &Vec<String>, cwd: &str, dir_ok: &Vec<bool>) -> (r: CliArgs)
    ensures
        ({
            let p = parse_from(
                crate::text::string_views(args@),
                dir_ok@,
                1,
                ArgState { host: None, port: None, root: cwd@, db: None },
            );
            state_view(r) == p.0 && command_view(r.command) == p.1
        }),
{
    let ghost sv = crate::text::string_views(args@);
    let mut host: Option<String> = None;
    let mut port: Option<u16> = None;
    let mut root: String = cwd.to_owned();
    let mut db: Option<String> = None;
    let mut i: usize = 1;
    while i < args.len()
        invariant
            sv == crate::text::string_views(args@),
            i >= 1,
            parse_from(sv, dir_ok@, i as int, ArgState {
                host: crate::router::opt_view(host),
                port,
                root: root@,
                db: crate::router::opt_view(db),
            }) == parse_from(sv, dir_ok@, 1, ArgState { host: None, port: None, root: cwd@, db: None }),
        decreases args.len() - i,
    {
        let a = &args[i];
        assert(sv[i as int] == a@);
        let has_next = i + 1 < args.len();
        if is_text(a, "-S") || is_text(a, "--server") {
            if has_next {
                let addr = chars_of(args[i + 1].as_str());
                assert(sv[i + 1] == addr@);
                match crate::text::find_char(&addr, ':') {
                    Some(c) => {
                        host = Some(string_of(&crate::text::slice(&addr, 0, c)));
                        let rest = string_of(&crate::text::slice(&addr, c + 1, addr.len()));
                        port = Some(parse_port(rest.as_str()));
                        assert(addr@.take(c as int) =~= addr@.subrange(0, c as int));
                        assert(addr@.skip(c + 1) =~= addr@.subrange(c + 1, addr@.len() as int));
                    },
                    None => {
                        host = Some(string_of(&addr));
                    },
                }
                i = i + 2;
            } else {
                i = i + 1;
            }
        } else if is_text(a, "-d") || is_text(a, "--dir") {
            if has_next {
                root = args[i + 1].clone();
                i = i + 2;
            } else {
                i = i + 1;
            }
        } else if is_text(a, "--db") {
            if has_next {
                db = Some(args[i + 1].clone());
                i = i + 2;
            } else {
                i = i + 1;
            }
        } else if is_text(a, "dev") || is_text(a, "serve") {
            match operand_exec(args, i) {
                Some(t) => {
                    root = t;
                    i = i + 2;
                },
                None => {
                    i = i + 1;
                },
            }
        } else if is_text(a, "studio") || is_text(a, "build") || is_text(a, "migrate") || is_text(a, "info") {
            let target = match operand_exec(args, i) {
                Some(t) => t,
                None => root.clone(),
            };
            let command = if is_text(a, "studio") {
                CliCommand::Studio(target)
            } else if is_text(a, "build") {
                CliCommand::Build(target)
            } else if is_text(a, "migrate") {
                CliCommand::Migrate(target)
            } else {
                CliCommand::Info(target)
            };
            return CliArgs { host, port, root_dir: root, db_path: db, command };
        } else if is_text(a, "new") || is_text(a, "init") {
            let target = if has_next {
                args[i + 1].clone()
            } else {
                root.clone()
            };
            return CliArgs { host, port, root_dir: root, db_path: db, command: CliCommand::New(target) };
        } else if is_text(a, "--help") || is_text(a, "-h") {
            return CliArgs { host, port, root_dir: root, db_path: db, command: CliCommand::Help };
        } else if !starts_with_dash(a) {
            if i < dir_ok.len() && dir_ok[i] {
                root = a.clone();
            }
            i = i + 1;
        } else {
            i = i + 1;
        }
    }
    CliArgs { host, port, root_dir: root, db_path: db, command: CliCommand::Serve }
}

/// The server settings: the command line's host, port and database where
/// given, else the configuration's, else `127.0.0.1`, 8080 and the project's
/// database; worker counts from the configuration, else 4 and 2.
pub fn resolve_server_config(
    root_dir: &str,
    host: &Option<String>,
    port: Option<u16>,
    db_path: &Option<String>,
    cfg: &TitaniumConfig,
) -> (r: ServerConfig)
    ensures
        r.root_dir@ == root_dir@,
        r.host@ == match host {
            Some(h) => h@,
            None => config_host(*cfg, "127.0.0.1"@),
        },
        r.port == match port {
            Some(p) => p,
            None => config_port(*cfg, 8080),
        },
        crate::router::opt_view(r.db_path) == Some(match db_path {
            Some(d) => d@,
            None => config_db_path(*cfg, root_dir@),
        }),
        r.workers == config_workers(*cfg, 4),
        r.queue_workers == config_queue_workers(*cfg, 2),
{
    let h = match host {
        Some(h) => h.clone(),
        None => cfg.host("127.0.0.1"),
    };
    let p = match port {
        Some(p) => p,
        None => cfg.port(8080),
    };
    let d = match db_path {
        Some(d) => d.clone(),
        None => cfg.db_path(root_dir),
    };
    ServerConfig {
        root_dir: root_dir.to_owned(),
        host: h,
        port: p,
        db_path: Some(d),
        workers: cfg.workers(4),
        queue_workers: cfg.queue_workers(2),
    }
}

/// The studio's address for a host and port.
pub fn studio_url(host: &str, port: u16) -> (r: String)
    ensures
        r@ == "http://"@ + host@ + ":"@ + crate::text::nat_decimal(port as nat) + "/__titanium_studio"@,
{
    let mut out: Vec<char> = Vec::new();
    crate::text::push_str(&mut out, "http://");
    crate::text::push_str(&mut out, host);
    crate::text::push_str(&mut out, ":");
    crate::text::push_decimal(&mut out, port as u64);
    crate::text::push_str(&mut out, "/__titanium_studio");
    string_of(&out)
}

} // verus!
