//! From the tokenizer's accumulator to a typed configuration: determine the
//! mode, check which options it allows, and fill in the defaults.

use vstd::prelude::*;

use crate::bytes::bytes_equal;
use crate::cli::{ob, os, tokenize, tokenize_from, raw_empty_view, Raw, RawView};
use crate::config::{
    crlf_marker, default_end_marker_stdout, default_error_marker_stderr, error_word, lf_marker,
    opt_bytes, vecs_view, Bind, BindView, ClientConfig, ClientView, Config, ConfigView, CtlRoute,
    FileInput, FileInputView, GeneralAction, GeneralView, PidfileSpec, PidfileView, ServerConfig,
    ServerView, DEFAULT_ADDR, DEFAULT_PORT,
};
use crate::error::{AppError, EXIT_USAGE};
use crate::text::{cat, cat3, owned};

verus! {

// ---- the rules --------------------------------------------------------------------

/// `o`'s value, or `d` when it was not given.
pub open spec fn bytes_or(o: Option<Seq<u8>>, d: Seq<u8>) -> Seq<u8> {
    match o {
        Some(v) => v,
        None => d,
    }
}

/// The value of an optional-value option: `None` when absent or given bare.
pub open spec fn flat<T>(o: Option<Option<T>>) -> Option<T> {
    match o {
        Some(Some(v)) => Some(v),
        _ => None,
    }
}

pub open spec fn not_allowed_msg(opt: Seq<char>, mode: Seq<char>) -> Seq<char> {
    opt + " is not allowed when running in "@ + mode + " mode"@
}

pub open spec fn general_only_msg(opt: Seq<char>) -> Seq<char> {
    opt + " is only valid in server or client mode"@
}

pub open spec fn invalid_ctl_msg(mode: Seq<char>) -> Seq<char> {
    "invalid --ctl mode '"@ + mode + "'; expected ignore, stdout, or stderr"@
}

/// Where to listen or connect.
pub open spec fn bind_of(r: RawView) -> Result<BindView, Seq<char>> {
    if r.unixsocket is Some && r.addr is Some {
        Err("-a and -u cannot be combined"@)
    } else if r.unixsocket is Some {
        if r.port is Some {
            Err("-p is only allowed together with -a"@)
        } else {
            Ok(BindView::Unix { path: flat(r.unixsocket) })
        }
    } else {
        Ok(
            BindView::Tcp {
                addr: match flat(r.addr) {
                    Some(a) => a,
                    None => DEFAULT_ADDR@,
                },
                port: match r.port {
                    Some(p) => p,
                    None => DEFAULT_PORT,
                },
            },
        )
    }
}

/// The first option given that the server does not take.
pub open spec fn server_rejects(r: RawView) -> Option<Seq<char>> {
    if r.arginput is Some {
        Some("--arginput"@)
    } else if r.fileinput is Some {
        Some("--fileinput"@)
    } else if r.suffix is Some {
        Some("--suffix"@)
    } else if r.ctl is Some {
        Some("--ctl"@)
    } else if r.kill is Some {
        Some("--kill"@)
    } else if r.timeout is Some {
        Some("--timeout"@)
    } else {
        None
    }
}

/// The first option given that the client does not take.
pub open spec fn client_rejects(r: RawView) -> Option<Seq<char>> {
    if r.exec_argv is Some {
        Some("--exec"@)
    } else if r.restart {
        Some("--restart"@)
    } else if r.response_timeout is Some {
        Some("--response-timeout"@)
    } else if r.ready_marker_stdout is Some {
        Some("--ready-marker-stdout"@)
    } else if r.ready_marker_stderr is Some {
        Some("--ready-marker-stderr"@)
    } else if r.ready_wait is Some {
        Some("--ready-wait"@)
    } else if r.ready_marker_timeout is Some {
        Some("--ready-marker-timeout"@)
    } else if r.warmup is Some {
        Some("--warmup-input"@)
    } else if r.warmup_marker_stdout is Some {
        Some("--warmup-marker-stdout"@)
    } else if r.warmup_marker_stderr is Some {
        Some("--warmup-marker-stderr"@)
    } else if r.warmup_wait is Some {
        Some("--warmup-wait"@)
    } else if r.warmup_marker_timeout is Some {
        Some("--warmup-marker-timeout"@)
    } else if r.pidfile is Some {
        Some("--pidfile"@)
    } else if r.kill is Some {
        Some("--kill"@)
    } else {
        None
    }
}

/// The first option given that only a server or a client takes.
pub open spec fn general_rejects(r: RawView) -> Option<Seq<char>> {
    if r.addr is Some {
        Some("-a"@)
    } else if r.port is Some {
        Some("-p"@)
    } else if r.unixsocket is Some {
        Some("-u"@)
    } else if r.exec_argv is Some {
        Some("-e"@)
    } else if r.restart {
        Some("--restart"@)
    } else if r.raw {
        Some("--raw"@)
    } else if r.pidfile is Some {
        Some("--pidfile"@)
    } else if r.arginput is Some {
        Some("--arginput"@)
    } else if r.fileinput is Some {
        Some("--fileinput"@)
    } else if r.suffix is Some {
        Some("--suffix"@)
    } else if r.end_marker_stdout is Some {
        Some("--end-marker-stdout"@)
    } else if r.end_marker_stderr is Some {
        Some("--end-marker-stderr"@)
    } else if r.error_marker_stdout is Some {
        Some("--error-marker-stdout"@)
    } else if r.error_marker_stderr is Some {
        Some("--error-marker-stderr"@)
    } else if r.ready_marker_stdout is Some {
        Some("--ready-marker-stdout"@)
    } else if r.ready_marker_stderr is Some {
        Some("--ready-marker-stderr"@)
    } else if r.ready_wait is Some {
        Some("--ready-wait"@)
    } else if r.ready_marker_timeout is Some {
        Some("--ready-marker-timeout"@)
    } else if r.warmup is Some {
        Some("--warmup-input"@)
    } else if r.warmup_marker_stdout is Some {
        Some("--warmup-marker-stdout"@)
    } else if r.warmup_marker_stderr is Some {
        Some("--warmup-marker-stderr"@)
    } else if r.warmup_wait is Some {
        Some("--warmup-wait"@)
    } else if r.warmup_marker_timeout is Some {
        Some("--warmup-marker-timeout"@)
    } else if r.ctl is Some {
        Some("--ctl"@)
    } else if r.timeout is Some {
        Some("--timeout"@)
    } else if r.response_timeout is Some {
        Some("--response-timeout"@)
    } else if r.strip_marker_stdout {
        Some("--strip-marker-stdout"@)
    } else if r.strip_marker_stderr {
        Some("--strip-marker-stderr"@)
    } else {
        None
    }
}

/// The readiness and warmup options that do not fit together.
pub open spec fn boot_conflict(r: RawView) -> Option<Seq<char>> {
    let has_ready = bytes_or(r.ready_marker_stdout, seq![]).len() > 0 || bytes_or(
        r.ready_marker_stderr,
        seq![],
    ).len() > 0;
    let warmup = bytes_or(r.warmup, seq![]);
    let has_warmup_marker = bytes_or(r.warmup_marker_stdout, seq![]).len() > 0 || bytes_or(
        r.warmup_marker_stderr,
        seq![],
    ).len() > 0;
    let has_warmup_end = has_warmup_marker || r.warmup_wait is Some;
    if has_ready && r.ready_wait is Some {
        Some(
            "--ready-wait cannot be combined with --ready-marker-stdout or --ready-marker-stderr"@,
        )
    } else if r.ready_marker_timeout is Some && !has_ready {
        Some("--ready-marker-timeout requires --ready-marker-stdout or --ready-marker-stderr"@)
    } else if warmup.len() > 0 && !has_warmup_end {
        Some(
            "--warmup-input requires a way to detect its end (--warmup-marker-stdout/--warmup-marker-stderr or --warmup-wait)"@,
        )
    } else if warmup.len() == 0 && has_warmup_end {
        Some("--warmup-marker-* / --warmup-wait require --warmup-input"@)
    } else if r.warmup_marker_timeout is Some && !has_warmup_marker {
        Some("--warmup-marker-timeout requires --warmup-marker-stdout or --warmup-marker-stderr"@)
    } else {
        None
    }
}

/// The server configuration, once the checks have passed.
pub open spec fn server_view(r: RawView, bind: BindView, end_default: Seq<u8>) -> ServerView {
    ServerView {
        repl_argv: r.exec_argv->0,
        restart: r.restart,
        bind,
        pidfile: match r.pidfile {
            None => None,
            Some(None) => Some(PidfileView::Default),
            Some(Some(p)) => Some(PidfileView::Path(p)),
        },
        raw: r.raw,
        end_marker_stdout: bytes_or(r.end_marker_stdout, end_default),
        end_marker_stderr: bytes_or(r.end_marker_stderr, seq![]),
        error_marker_stdout: bytes_or(r.error_marker_stdout, seq![]),
        error_marker_stderr: bytes_or(r.error_marker_stderr, error_word()),
        strip_marker_stdout: r.strip_marker_stdout,
        strip_marker_stderr: r.strip_marker_stderr,
        ready_marker_stdout: bytes_or(r.ready_marker_stdout, seq![]),
        ready_marker_stderr: bytes_or(r.ready_marker_stderr, seq![]),
        ready_wait: r.ready_wait,
        ready_marker_timeout: r.ready_marker_timeout,
        warmup: bytes_or(r.warmup, seq![]),
        warmup_marker_stdout: bytes_or(r.warmup_marker_stdout, seq![]),
        warmup_marker_stderr: bytes_or(r.warmup_marker_stderr, seq![]),
        warmup_wait: r.warmup_wait,
        warmup_marker_timeout: r.warmup_marker_timeout,
        response_timeout: r.response_timeout,
    }
}

/// Server mode.
pub open spec fn server_of(r: RawView, end_default: Seq<u8>) -> Result<ConfigView, Seq<char>> {
    match server_rejects(r) {
        Some(opt) => Err(not_allowed_msg(opt, "server"@)),
        None => match bind_of(r) {
            Err(m) => Err(m),
            Ok(bind) => if !(r.exec_argv is Some && r.exec_argv->0.len() > 0) {
                Err("no REPL command given; use -e or -- followed by the command"@)
            } else {
                match boot_conflict(r) {
                    Some(m) => Err(m),
                    None => Ok(ConfigView::Server(server_view(r, bind, end_default))),
                }
            },
        },
    }
}

/// The `--ctl` routing.
pub open spec fn ctl_of(c: Option<Seq<char>>) -> Result<CtlRoute, Seq<char>> {
    match c {
        None => Ok(CtlRoute::Ignore),
        Some(m) => if m == "ignore"@ {
            Ok(CtlRoute::Ignore)
        } else if m == "stdout"@ {
            Ok(CtlRoute::Stdout)
        } else if m == "stderr"@ {
            Ok(CtlRoute::Stderr)
        } else {
            Err(invalid_ctl_msg(m))
        },
    }
}

/// `-f`: `-` is standard input, anything else a path.
pub open spec fn fileinput_of(f: Option<Seq<u8>>) -> Option<FileInputView> {
    match f {
        None => None,
        Some(p) => if p == seq![45u8] {
            Some(FileInputView::Stdin)
        } else {
            Some(FileInputView::Path(p))
        },
    }
}

/// Client mode.
pub open spec fn client_of(r: RawView, end_default: Seq<u8>) -> Result<ConfigView, Seq<char>> {
    match client_rejects(r) {
        Some(opt) => Err(not_allowed_msg(opt, "client"@)),
        None => match bind_of(r) {
            Err(m) => Err(m),
            Ok(bind) => match ctl_of(r.ctl) {
                Err(m) => Err(m),
                Ok(ctl) => Ok(
                    ConfigView::Client(
                        ClientView {
                            bind,
                            arginput: r.arginput,
                            fileinput: fileinput_of(r.fileinput),
                            suffix: bytes_or(r.suffix, seq![]),
                            end_marker_stdout: bytes_or(r.end_marker_stdout, end_default),
                            end_marker_stderr: bytes_or(r.end_marker_stderr, seq![]),
                            error_marker_stdout: bytes_or(r.error_marker_stdout, seq![]),
                            error_marker_stderr: bytes_or(r.error_marker_stderr, error_word()),
                            strip_marker_stdout: r.strip_marker_stdout,
                            strip_marker_stderr: r.strip_marker_stderr,
                            ctl,
                            raw: r.raw,
                            timeout: r.timeout,
                        },
                    ),
                ),
            },
        },
    }
}

/// Neither server nor client: `--kill`, or nothing to do.
pub open spec fn general_of(r: RawView) -> Result<ConfigView, Seq<char>> {
    match general_rejects(r) {
        Some(opt) => Err(general_only_msg(opt)),
        None => match r.kill {
            Some(k) => Ok(ConfigView::General(GeneralView::Kill(k))),
            None => Err("no mode selected; use --server, --client, --kill, or --help"@),
        },
    }
}

/// The configuration the accumulator stands for, or the usage error.
/// `end_default` is the host's default stdout end marker.
pub open spec fn config_of(r: RawView, end_default: Seq<u8>) -> Result<ConfigView, Seq<char>> {
    if r.help {
        Ok(ConfigView::General(GeneralView::Help))
    } else if r.version {
        Ok(ConfigView::General(GeneralView::Version))
    } else if r.server && r.client {
        Err("-s and -c cannot be combined"@)
    } else if r.server {
        server_of(r, end_default)
    } else if r.client {
        client_of(r, end_default)
    } else {
        general_of(r)
    }
}

/// The outcome of a whole command line: every duration text met before
/// tokenizing stopped, and the configuration or the usage error.
pub open spec fn parse_of(args: Seq<Seq<u8>>, end_default: Seq<u8>) -> (Seq<Seq<u8>>, Result<ConfigView, Seq<char>>) {
    let (r, err) = tokenize_from(args, 0, raw_empty_view());
    (
        r.seconds,
        match err {
            Some(m) => Err(m),
            None => config_of(r, end_default),
        },
    )
}

/// Whether a parse result is the one `parse_of` gives.
pub open spec fn parsed_is(p: Parsed, args: Seq<Seq<u8>>, end_default: Seq<u8>) -> bool {
    let (seconds, res) = parse_of(args, end_default);
    &&& vecs_view(p.seconds@) == seconds
    &&& match res {
        Ok(c) => p.result matches Ok(x) && x@ == c,
        Err(m) => p.result matches Err(e) && e.message@ == m && e.code == EXIT_USAGE,
    }
}

// ---- building -------------------------------------------------------------------

/// The result of parsing a command line.
pub struct Parsed {
    /// Every duration value given before tokenizing stopped, as its seconds
    /// text, in command line order. Each must be a positive number of
    /// seconds; the first one that is not is the usage error to report (see
    /// `invalid_timeout`), ahead of `result`.
    pub seconds: Vec<Vec<u8>>,
    /// The configuration, or the usage error.
    pub result: Result<Config, AppError>,
}

fn not_allowed(opt: &str, mode: &str) -> (r: String)
    ensures
        r@ == not_allowed_msg(opt@, mode@),
{
    let mut r = cat3(opt, " is not allowed when running in ", mode);
    r.append(" mode");
    r
}

fn bytes_or_exec(o: Option<Vec<u8>>, d: Vec<u8>) -> (r: Vec<u8>)
    ensures
        r@ == bytes_or(ob(o), d@),
{
    match o {
        Some(v) => v,
        None => d,
    }
}

fn bytes_or_empty(o: Option<Vec<u8>>) -> (r: Vec<u8>)
    ensures
        r@ == bytes_or(ob(o), seq![]),
{
    let r = bytes_or_exec(o, Vec::new());
    assert(r@ =~= bytes_or(ob(o), seq![]));
    r
}

fn given_nonempty(o: &Option<Vec<u8>>) -> (r: bool)
    ensures
        r == (bytes_or(ob(*o), seq![]).len() > 0),
{
    match o {
        Some(v) => v.len() > 0,
        None => false,
    }
}

fn resolve_bind(r: &Raw) -> (b: Result<Bind, String>)
    ensures
        match bind_of(r@) {
            Ok(v) => b matches Ok(x) && x@ == v,
            Err(m) => b matches Err(e) && e@ == m,
        },
{
    if r.unixsocket.is_some() && r.addr.is_some() {
        return Err(owned("-a and -u cannot be combined"));
    }
    match &r.unixsocket {
        Some(u) => {
            if r.port.is_some() {
                return Err(owned("-p is only allowed together with -a"));
            }
            let path = match u {
                Some(p) => Some(crate::cli::copy_bytes(p)),
                None => None,
            };
            Ok(Bind::Unix { path })
        },
        None => {
            let addr = match &r.addr {
                Some(Some(a)) => owned(a.as_str()),
                _ => owned(DEFAULT_ADDR),
            };
            let port = match r.port {
                Some(p) => p,
                None => DEFAULT_PORT,
            };
            Ok(Bind::Tcp { addr, port })
        },
    }
}

fn server_rejects_exec(r: &Raw) -> (o: Option<&'static str>)
    ensures
        match o {
            Some(s) => server_rejects(r@) == Some(s@),
            None => server_rejects(r@) is None,
        },
{
    if r.arginput.is_some() {
        Some("--arginput")
    } else if r.fileinput.is_some() {
        Some("--fileinput")
    } else if r.suffix.is_some() {
        Some("--suffix")
    } else if r.ctl.is_some() {
        Some("--ctl")
    } else if r.kill.is_some() {
        Some("--kill")
    } else if r.timeout.is_some() {
        Some("--timeout")
    } else {
        None
    }
}

fn client_rejects_exec(r: &Raw) -> (o: Option<&'static str>)
    ensures
        match o {
            Some(s) => client_rejects(r@) == Some(s@),
            None => client_rejects(r@) is None,
        },
{
    if r.exec_argv.is_some() {
        Some("--exec")
    } else if r.restart {
        Some("--restart")
    } else if r.response_timeout.is_some() {
        Some("--response-timeout")
    } else if r.ready_marker_stdout.is_some() {
        Some("--ready-marker-stdout")
    } else if r.ready_marker_stderr.is_some() {
        Some("--ready-marker-stderr")
    } else if r.ready_wait.is_some() {
        Some("--ready-wait")
    } else if r.ready_marker_timeout.is_some() {
        Some("--ready-marker-timeout")
    } else if r.warmup.is_some() {
        Some("--warmup-input")
    } else if r.warmup_marker_stdout.is_some() {
        Some("--warmup-marker-stdout")
    } else if r.warmup_marker_stderr.is_some() {
        Some("--warmup-marker-stderr")
    } else if r.warmup_wait.is_some() {
        Some("--warmup-wait")
    } else if r.warmup_marker_timeout.is_some() {
        Some("--warmup-marker-timeout")
    } else if r.pidfile.is_some() {
        Some("--pidfile")
    } else if r.kill.is_some() {
        Some("--kill")
    } else {
        None
    }
}

fn general_rejects_exec(r: &Raw) -> (o: Option<&'static str>)
    ensures
        match o {
            Some(s) => general_rejects(r@) == Some(s@),
            None => general_rejects(r@) is None,
        },
{
    if r.addr.is_some() {
        Some("-a")
    } else if r.port.is_some() {
        Some("-p")
    } else if r.unixsocket.is_some() {
        Some("-u")
    } else if r.exec_argv.is_some() {
        Some("-e")
    } else if r.restart {
        Some("--restart")
    } else if r.raw {
        Some("--raw")
    } else if r.pidfile.is_some() {
        Some("--pidfile")
    } else if r.arginput.is_some() {
        Some("--arginput")
    } else if r.fileinput.is_some() {
        Some("--fileinput")
    } else if r.suffix.is_some() {
        Some("--suffix")
    } else if r.end_marker_stdout.is_some() {
        Some("--end-marker-stdout")
    } else if r.end_marker_stderr.is_some() {
        Some("--end-marker-stderr")
    } else if r.error_marker_stdout.is_some() {
        Some("--error-marker-stdout")
    } else if r.error_marker_stderr.is_some() {
        Some("--error-marker-stderr")
    } else if r.ready_marker_stdout.is_some() {
        Some("--ready-marker-stdout")
    } else if r.ready_marker_stderr.is_some() {
        Some("--ready-marker-stderr")
    } else if r.ready_wait.is_some() {
        Some("--ready-wait")
    } else if r.ready_marker_timeout.is_some() {
        Some("--ready-marker-timeout")
    } else if r.warmup.is_some() {
        Some("--warmup-input")
    } else if r.warmup_marker_stdout.is_some() {
        Some("--warmup-marker-stdout")
    } else if r.warmup_marker_stderr.is_some() {
        Some("--warmup-marker-stderr")
    } else if r.warmup_wait.is_some() {
        Some("--warmup-wait")
    } else if r.warmup_marker_timeout.is_some() {
        Some("--warmup-marker-timeout")
    } else if r.ctl.is_some() {
        Some("--ctl")
    } else if r.timeout.is_some() {
        Some("--timeout")
    } else if r.response_timeout.is_some() {
        Some("--response-timeout")
    } else if r.strip_marker_stdout {
        Some("--strip-marker-stdout")
    } else if r.strip_marker_stderr {
        Some("--strip-marker-stderr")
    } else {
        None
    }
}

fn boot_conflict_exec(r: &Raw) -> (o: Option<&'static str>)
    ensures
        match o {
            Some(s) => boot_conflict(r@) == Some(s@),
            None => boot_conflict(r@) is None,
        },
{
    let has_ready = given_nonempty(&r.ready_marker_stdout) || given_nonempty(
        &r.ready_marker_stderr,
    );
    let has_warmup = given_nonempty(&r.warmup);
    let has_warmup_marker = given_nonempty(&r.warmup_marker_stdout) || given_nonempty(
        &r.warmup_marker_stderr,
    );
    let has_warmup_end = has_warmup_marker || r.warmup_wait.is_some();
    if has_ready && r.ready_wait.is_some() {
        Some(
            "--ready-wait cannot be combined with --ready-marker-stdout or --ready-marker-stderr",
        )
    } else if r.ready_marker_timeout.is_some() && !has_ready {
        Some("--ready-marker-timeout requires --ready-marker-stdout or --ready-marker-stderr")
    } else if has_warmup && !has_warmup_end {
        Some(
            "--warmup-input requires a way to detect its end (--warmup-marker-stdout/--warmup-marker-stderr or --warmup-wait)",
        )
    } else if !has_warmup && has_warmup_end {
        Some("--warmup-marker-* / --warmup-wait require --warmup-input")
    } else if r.warmup_marker_timeout.is_some() && !has_warmup_marker {
        Some("--warmup-marker-timeout requires --warmup-marker-stdout or --warmup-marker-stderr")
    } else {
        None
    }
}

fn build_server(raw: Raw, end_default: Vec<u8>) -> (r: Result<Config, String>)
    ensures
        match server_of(raw@, end_default@) {
            Ok(c) => r matches Ok(x) && x@ == c,
            Err(m) => r matches Err(e) && e@ == m,
        },
{
    match server_rejects_exec(&raw) {
        Some(opt) => {
            return Err(not_allowed(opt, "server"));
        },
        None => {},
    }
    let bind = match resolve_bind(&raw) {
        Ok(b) => b,
        Err(m) => {
            return Err(m);
        },
    };
    let has_argv = match &raw.exec_argv {
        Some(v) => v.len() > 0,
        None => false,
    };
    if !has_argv {
        return Err(owned("no REPL command given; use -e or -- followed by the command"));
    }
    match boot_conflict_exec(&raw) {
        Some(m) => {
            return Err(owned(m));
        },
        None => {},
    }
    let ghost rv = raw@;
    let ghost bv = bind@;
    let Raw {
        exec_argv,
        restart,
        pidfile,
        raw: plain,
        end_marker_stdout,
        end_marker_stderr,
        error_marker_stdout,
        error_marker_stderr,
        strip_marker_stdout,
        strip_marker_stderr,
        ready_marker_stdout,
        ready_marker_stderr,
        ready_wait,
        ready_marker_timeout,
        warmup,
        warmup_marker_stdout,
        warmup_marker_stderr,
        warmup_wait,
        warmup_marker_timeout,
        response_timeout,
        ..
    } = raw;
    let repl_argv = match exec_argv {
        Some(v) => v,
        None => Vec::new(),
    };
    let pidfile = match pidfile {
        None => None,
        Some(None) => Some(PidfileSpec::Default),
        Some(Some(p)) => Some(PidfileSpec::Path(p)),
    };
    let cfg = ServerConfig {
        repl_argv,
        restart,
        bind,
        pidfile,
        raw: plain,
        end_marker_stdout: bytes_or_exec(end_marker_stdout, end_default),
        end_marker_stderr: bytes_or_empty(end_marker_stderr),
        error_marker_stdout: bytes_or_empty(error_marker_stdout),
        error_marker_stderr: bytes_or_exec(error_marker_stderr, default_error_marker_stderr()),
        strip_marker_stdout,
        strip_marker_stderr,
        ready_marker_stdout: bytes_or_empty(ready_marker_stdout),
        ready_marker_stderr: bytes_or_empty(ready_marker_stderr),
        ready_wait,
        ready_marker_timeout,
        warmup: bytes_or_empty(warmup),
        warmup_marker_stdout: bytes_or_empty(warmup_marker_stdout),
        warmup_marker_stderr: bytes_or_empty(warmup_marker_stderr),
        warmup_wait,
        warmup_marker_timeout,
        response_timeout,
    };
    assert(cfg@ == server_view(rv, bv, end_default@));
    Ok(Config::Server(cfg))
}

fn ctl_route(c: &Option<String>) -> (r: Result<CtlRoute, String>)
    ensures
        match ctl_of(os(*c)) {
            Ok(v) => r == Ok::<CtlRoute, String>(v),
            Err(m) => r matches Err(e) && e@ == m,
        },
{
    match c {
        None => Ok(CtlRoute::Ignore),
        Some(m) => {
            if crate::cli::is_name(m, "ignore") {
                Ok(CtlRoute::Ignore)
            } else if crate::cli::is_name(m, "stdout") {
                Ok(CtlRoute::Stdout)
            } else if crate::cli::is_name(m, "stderr") {
                Ok(CtlRoute::Stderr)
            } else {
                Err(cat3("invalid --ctl mode '", m.as_str(), "'; expected ignore, stdout, or stderr"))
            }
        },
    }
}

fn build_client(raw: Raw, end_default: Vec<u8>) -> (r: Result<Config, String>)
    ensures
        match client_of(raw@, end_default@) {
            Ok(c) => r matches Ok(x) && x@ == c,
            Err(m) => r matches Err(e) && e@ == m,
        },
{
    match client_rejects_exec(&raw) {
        Some(opt) => {
            return Err(not_allowed(opt, "client"));
        },
        None => {},
    }
    let bind = match resolve_bind(&raw) {
        Ok(b) => b,
        Err(m) => {
            return Err(m);
        },
    };
    let ctl = match ctl_route(&raw.ctl) {
        Ok(c) => c,
        Err(m) => {
            return Err(m);
        },
    };
    let ghost rv = raw@;
    let Raw {
        arginput,
        fileinput,
        suffix,
        end_marker_stdout,
        end_marker_stderr,
        error_marker_stdout,
        error_marker_stderr,
        strip_marker_stdout,
        strip_marker_stderr,
        raw: plain,
        timeout,
        ..
    } = raw;
    let fileinput = match fileinput {
        None => None,
        Some(p) => {
            if p.len() == 1 && p[0] == 45 {
                assert(p@ =~= seq![45u8]);
                Some(FileInput::Stdin)
            } else {
                assert(p@ != seq![45u8]);
                Some(FileInput::Path(p))
            }
        },
    };
    let cfg = ClientConfig {
        bind,
        arginput,
        fileinput,
        suffix: bytes_or_empty(suffix),
        end_marker_stdout: bytes_or_exec(end_marker_stdout, end_default),
        end_marker_stderr: bytes_or_empty(end_marker_stderr),
        error_marker_stdout: bytes_or_empty(error_marker_stdout),
        error_marker_stderr: bytes_or_exec(error_marker_stderr, default_error_marker_stderr()),
        strip_marker_stdout,
        strip_marker_stderr,
        ctl,
        raw: plain,
        timeout,
    };
    Ok(Config::Client(cfg))
}

fn build_general(raw: Raw) -> (r: Result<Config, String>)
    ensures
        match general_of(raw@) {
            Ok(c) => r matches Ok(x) && x@ == c,
            Err(m) => r matches Err(e) && e@ == m,
        },
{
    match general_rejects_exec(&raw) {
        Some(opt) => {
            return Err(cat(opt, " is only valid in server or client mode"));
        },
        None => {},
    }
    match raw.kill {
        Some(k) => Ok(Config::General(GeneralAction::Kill(k))),
        None => Err(owned("no mode selected; use --server, --client, --kill, or --help")),
    }
}

/// Turn the tokenizer's accumulator into a configuration, or the usage error
/// message. `end_default` is the default stdout end marker.
pub fn build_config(raw: Raw, end_default: Vec<u8>) -> (r: Result<Config, String>)
    ensures
        match config_of(raw@, end_default@) {
            Ok(c) => r matches Ok(x) && x@ == c,
            Err(m) => r matches Err(e) && e@ == m,
        },
{
    if raw.help {
        Ok(Config::General(GeneralAction::Help))
    } else if raw.version {
        Ok(Config::General(GeneralAction::Version))
    } else if raw.server && raw.client {
        Err(owned("-s and -c cannot be combined"))
    } else if raw.server {
        build_server(raw, end_default)
    } else if raw.client {
        build_client(raw, end_default)
    } else {
        build_general(raw)
    }
}

/// Parse the program arguments (without the program name), with the given
/// default stdout end marker.
pub fn parse_with(args: &Vec<Vec<u8>>, end_default: Vec<u8>) -> (p: Parsed)
    ensures
        parsed_is(p, vecs_view(args@), end_default@),
{
    let (raw, err) = tokenize(args);
    let mut seconds: Vec<Vec<u8>> = Vec::new();
    crate::cli::copy_args_from(&raw.seconds, 0, &mut seconds);
    assert(vecs_view(seconds@) =~= vecs_view(raw.seconds@));
    let result = match err {
        Some(m) => Err(AppError::usage(m)),
        None => match build_config(raw, end_default) {
            Ok(c) => Ok(c),
            Err(m) => Err(AppError::usage(m)),
        },
    };
    Parsed { seconds, result }
}

/// Parse the program arguments (without the program name), with the host's
/// default stdout end marker.
pub fn parse(args: &Vec<Vec<u8>>) -> (p: Parsed)
    ensures
        parsed_is(p, vecs_view(args@), lf_marker()) || parsed_is(p, vecs_view(args@), crlf_marker()),
{
    parse_with(args, default_end_marker_stdout())
}

/// `--help` and `--version` win over everything else on the command line,
/// even over options that could not be combined.
pub proof fn law_help_and_version_win(r: RawView, end_default: Seq<u8>)
    ensures
        r.help ==> config_of(r, end_default) == Ok::<ConfigView, Seq<char>>(
            ConfigView::General(GeneralView::Help),
        ),
        !r.help && r.version ==> config_of(r, end_default) == Ok::<ConfigView, Seq<char>>(
            ConfigView::General(GeneralView::Version),
        ),
{
}

/// Every configuration the parser gives is one mode's: a server always has a
/// REPL command, and a client or server binds either TCP or a unix socket as
/// asked, never both.
pub proof fn law_server_has_command(r: RawView, end_default: Seq<u8>)
    ensures
        config_of(r, end_default) matches Ok(ConfigView::Server(s)) ==> s.repl_argv.len() > 0,
        config_of(r, end_default) matches Ok(ConfigView::Server(s)) ==> (s.bind is Unix
            == (r.unixsocket is Some)),
        config_of(r, end_default) matches Ok(ConfigView::Client(c)) ==> (c.bind is Unix
            == (r.unixsocket is Some)),
{
}

} // verus!
