//! Typed configuration produced by the command line parser.
//!
//! Paths and argv entries are kept as the raw bytes of the command line
//! arguments. Durations are kept as the seconds text given on the command line;
//! turning that text into a duration is floating-point work left to the
//! program that runs the library.

use vstd::prelude::*;

verus! {

/// Default TCP address used for both binding (server) and connecting (client).
pub const DEFAULT_ADDR: &'static str = "127.0.0.1";

/// Default TCP port.
pub const DEFAULT_PORT: u16 = 44556;

/// Prefix of default / discoverable socket and pid files.
pub const NAME_PREFIX: &'static str = ".replstoke_pid";

/// Suffix of default / discoverable unix socket files.
pub const SOCKET_SUFFIX: &'static str = "_socket";

/// Suffix of default / discoverable pid files.
pub const PIDFILE_SUFFIX: &'static str = "_pidfile";

/// Transport selection, shared by server (listen) and client (connect).
#[derive(Debug, Clone, PartialEq, Eq)]
pub enum Bind {
    Tcp { addr: String, port: u16 },
    /// `None` => server uses its default path, client discovers a single socket.
    Unix { path: Option<Vec<u8>> },
}

pub enum BindView {
    Tcp { addr: Seq<char>, port: u16 },
    Unix { path: Option<Seq<u8>> },
}

impl View for Bind {
    type V = BindView;

    open spec fn view(&self) -> BindView {
        match self {
            Bind::Tcp { addr, port } => BindView::Tcp { addr: addr@, port: *port },
            Bind::Unix { path } => BindView::Unix { path: opt_bytes(*path) },
        }
    }
}

/// The abstract value of an optional byte vector.
pub open spec fn opt_bytes(o: Option<Vec<u8>>) -> Option<Seq<u8>> {
    match o {
        Some(v) => Some(v@),
        None => None,
    }
}

/// The abstract value of a vector of byte vectors.
pub open spec fn vecs_view(v: Seq<Vec<u8>>) -> Seq<Seq<u8>> {
    v.map_values(|x: Vec<u8>| x@)
}

/// How a pidfile path is determined.
#[derive(Debug, Clone, PartialEq, Eq)]
pub enum PidfileSpec {
    /// Use the default `./.replstoke_pid<pid>_<cmdname>_pidfile` name.
    Default,
    /// Use an explicit path.
    Path(Vec<u8>),
}

pub enum PidfileView {
    Default,
    Path(Seq<u8>),
}

impl View for PidfileSpec {
    type V = PidfileView;

    open spec fn view(&self) -> PidfileView {
        match self {
            PidfileSpec::Default => PidfileView::Default,
            PidfileSpec::Path(p) => PidfileView::Path(p@),
        }
    }
}

/// Where the client routes the server's `ctl` status messages.
#[derive(Debug, Clone, Copy, PartialEq, Eq, Structural)]
pub enum CtlRoute {
    Ignore,
    Stdout,
    Stderr,
}

/// Source of the streamed client input (`-f`).
#[derive(Debug, Clone, PartialEq, Eq)]
pub enum FileInput {
    Stdin,
    Path(Vec<u8>),
}

pub enum FileInputView {
    Stdin,
    Path(Seq<u8>),
}

impl View for FileInput {
    type V = FileInputView;

    open spec fn view(&self) -> FileInputView {
        match self {
            FileInput::Stdin => FileInputView::Stdin,
            FileInput::Path(p) => FileInputView::Path(p@),
        }
    }
}

#[derive(Debug)]
pub struct ServerConfig {
    /// argv of the REPL process; `repl_argv[0]` is the executable.
    pub repl_argv: Vec<Vec<u8>>,
    pub restart: bool,
    pub bind: Bind,
    pub pidfile: Option<PidfileSpec>,
    /// Disable the framed protocol (plain byte forwarder).
    pub raw: bool,
    /// Success end-of-response marker watched on stdout; empty disables it.
    pub end_marker_stdout: Vec<u8>,
    /// Success end-of-response marker watched on stderr; empty disables it.
    pub end_marker_stderr: Vec<u8>,
    /// Error end-of-response marker watched on stdout; empty disables it.
    pub error_marker_stdout: Vec<u8>,
    /// Error end-of-response marker watched on stderr; empty disables it.
    pub error_marker_stderr: Vec<u8>,
    /// Strip the matched marker from the stdout stream forwarded to the client.
    pub strip_marker_stdout: bool,
    /// Strip the matched marker from the stderr stream forwarded to the client.
    pub strip_marker_stderr: bool,
    /// Ready marker watched on stdout during the REPL's boot phase.
    pub ready_marker_stdout: Vec<u8>,
    /// Ready marker watched on stderr during the REPL's boot phase.
    pub ready_marker_stderr: Vec<u8>,
    /// Seconds to wait after (re)spawn before treating the REPL as ready.
    pub ready_wait: Option<Vec<u8>>,
    /// Seconds without a ready marker after which the REPL counts as stuck.
    pub ready_marker_timeout: Option<Vec<u8>>,
    /// Input written to the REPL once it has booted, before any client is served.
    pub warmup: Vec<u8>,
    /// Marker on stdout that signals the warmup finished; empty disables it.
    pub warmup_marker_stdout: Vec<u8>,
    /// Marker on stderr that signals the warmup finished; empty disables it.
    pub warmup_marker_stderr: Vec<u8>,
    /// Seconds after which the warmup counts as finished.
    pub warmup_wait: Option<Vec<u8>>,
    /// Seconds without a warmup marker after which the REPL counts as stuck.
    pub warmup_marker_timeout: Option<Vec<u8>>,
    /// Seconds to wait for the REPL to finish after a client disconnects
    /// mid-request. `None` waits indefinitely.
    pub response_timeout: Option<Vec<u8>>,
}

pub struct ServerView {
    pub repl_argv: Seq<Seq<u8>>,
    pub restart: bool,
    pub bind: BindView,
    pub pidfile: Option<PidfileView>,
    pub raw: bool,
    pub end_marker_stdout: Seq<u8>,
    pub end_marker_stderr: Seq<u8>,
    pub error_marker_stdout: Seq<u8>,
    pub error_marker_stderr: Seq<u8>,
    pub strip_marker_stdout: bool,
    pub strip_marker_stderr: bool,
    pub ready_marker_stdout: Seq<u8>,
    pub ready_marker_stderr: Seq<u8>,
    pub ready_wait: Option<Seq<u8>>,
    pub ready_marker_timeout: Option<Seq<u8>>,
    pub warmup: Seq<u8>,
    pub warmup_marker_stdout: Seq<u8>,
    pub warmup_marker_stderr: Seq<u8>,
    pub warmup_wait: Option<Seq<u8>>,
    pub warmup_marker_timeout: Option<Seq<u8>>,
    pub response_timeout: Option<Seq<u8>>,
}

impl View for ServerConfig {
    type V = ServerView;

    open spec fn view(&self) -> ServerView {
        ServerView {
            repl_argv: vecs_view(self.repl_argv@),
            restart: self.restart,
            bind: self.bind@,
            pidfile: match self.pidfile {
                Some(p) => Some(p@),
                None => None,
            },
            raw: self.raw,
            end_marker_stdout: self.end_marker_stdout@,
            end_marker_stderr: self.end_marker_stderr@,
            error_marker_stdout: self.error_marker_stdout@,
            error_marker_stderr: self.error_marker_stderr@,
            strip_marker_stdout: self.strip_marker_stdout,
            strip_marker_stderr: self.strip_marker_stderr,
            ready_marker_stdout: self.ready_marker_stdout@,
            ready_marker_stderr: self.ready_marker_stderr@,
            ready_wait: opt_bytes(self.ready_wait),
            ready_marker_timeout: opt_bytes(self.ready_marker_timeout),
            warmup: self.warmup@,
            warmup_marker_stdout: self.warmup_marker_stdout@,
            warmup_marker_stderr: self.warmup_marker_stderr@,
            warmup_wait: opt_bytes(self.warmup_wait),
            warmup_marker_timeout: opt_bytes(self.warmup_marker_timeout),
            response_timeout: opt_bytes(self.response_timeout),
        }
    }
}

#[derive(Debug)]
pub struct ClientConfig {
    pub bind: Bind,
    pub arginput: Option<Vec<u8>>,
    pub fileinput: Option<FileInput>,
    pub suffix: Vec<u8>,
    /// Success end-of-response marker watched on stdout; empty disables it.
    pub end_marker_stdout: Vec<u8>,
    /// Success end-of-response marker watched on stderr; empty disables it.
    pub end_marker_stderr: Vec<u8>,
    /// Error end-of-response marker watched on stdout; empty disables it.
    pub error_marker_stdout: Vec<u8>,
    /// Error end-of-response marker watched on stderr; empty disables it.
    pub error_marker_stderr: Vec<u8>,
    /// Strip the matched marker from the stdout stream output.
    pub strip_marker_stdout: bool,
    /// Strip the matched marker from the stderr stream output.
    pub strip_marker_stderr: bool,
    /// Where to route the server's ctl status messages.
    pub ctl: CtlRoute,
    /// Disable the framed protocol (plain byte reader, stderr merged into stdout).
    pub raw: bool,
    /// Seconds to wait for a complete response before giving up.
    pub timeout: Option<Vec<u8>>,
}

pub struct ClientView {
    pub bind: BindView,
    pub arginput: Option<Seq<u8>>,
    pub fileinput: Option<FileInputView>,
    pub suffix: Seq<u8>,
    pub end_marker_stdout: Seq<u8>,
    pub end_marker_stderr: Seq<u8>,
    pub error_marker_stdout: Seq<u8>,
    pub error_marker_stderr: Seq<u8>,
    pub strip_marker_stdout: bool,
    pub strip_marker_stderr: bool,
    pub ctl: CtlRoute,
    pub raw: bool,
    pub timeout: Option<Seq<u8>>,
}

impl View for ClientConfig {
    type V = ClientView;

    open spec fn view(&self) -> ClientView {
        ClientView {
            bind: self.bind@,
            arginput: opt_bytes(self.arginput),
            fileinput: match self.fileinput {
                Some(f) => Some(f@),
                None => None,
            },
            suffix: self.suffix@,
            end_marker_stdout: self.end_marker_stdout@,
            end_marker_stderr: self.end_marker_stderr@,
            error_marker_stdout: self.error_marker_stdout@,
            error_marker_stderr: self.error_marker_stderr@,
            strip_marker_stdout: self.strip_marker_stdout,
            strip_marker_stderr: self.strip_marker_stderr,
            ctl: self.ctl,
            raw: self.raw,
            timeout: opt_bytes(self.timeout),
        }
    }
}

#[derive(Debug, PartialEq, Eq)]
pub enum GeneralAction {
    Help,
    Version,
    Kill(Option<Vec<u8>>),
}

pub enum GeneralView {
    Help,
    Version,
    Kill(Option<Seq<u8>>),
}

impl View for GeneralAction {
    type V = GeneralView;

    open spec fn view(&self) -> GeneralView {
        match self {
            GeneralAction::Help => GeneralView::Help,
            GeneralAction::Version => GeneralView::Version,
            GeneralAction::Kill(p) => GeneralView::Kill(opt_bytes(*p)),
        }
    }
}

/// Top-level mode of operation.
#[derive(Debug)]
pub enum Config {
    Server(ServerConfig),
    Client(ClientConfig),
    General(GeneralAction),
}

pub enum ConfigView {
    Server(ServerView),
    Client(ClientView),
    General(GeneralView),
}

impl View for Config {
    type V = ConfigView;

    open spec fn view(&self) -> ConfigView {
        match self {
            Config::Server(s) => ConfigView::Server(s@),
            Config::Client(c) => ConfigView::Client(c@),
            Config::General(g) => ConfigView::General(g@),
        }
    }
}

/// `"\n\n"`: the stdout end marker on unix-like hosts.
pub open spec fn lf_marker() -> Seq<u8> {
    seq![10u8, 10]
}

/// `"\r\n\r\n"`: the stdout end marker on Windows.
pub open spec fn crlf_marker() -> Seq<u8> {
    seq![13u8, 10, 13, 10]
}

/// The host's path separator, `std::path::MAIN_SEPARATOR`: `'\\'` on Windows
/// and `'/'` elsewhere. It depends on the machine, so nothing is promised.
#[verifier::external_body]
fn main_separator() -> char {
    std::path::MAIN_SEPARATOR
}

/// The end marker for a host with the given path separator: Windows hosts
/// (separator `'\\'`) end lines with `"\r\n"`.
pub fn end_marker_for(separator: char) -> (r: Vec<u8>)
    ensures
        r@ == (if separator == '\\' { crlf_marker() } else { lf_marker() }),
{
    let mut r: Vec<u8> = Vec::new();
    if separator == '\\' {
        r.push(13u8);
        r.push(10u8);
        r.push(13u8);
        r.push(10u8);
    } else {
        r.push(10u8);
        r.push(10u8);
    }
    assert(r@ =~= (if separator == '\\' { crlf_marker() } else { lf_marker() }));
    r
}

/// Platform default success end-of-response marker for stdout: `"\n\n"`, or
/// `"\r\n\r\n"` on Windows.
pub fn default_end_marker_stdout() -> (r: Vec<u8>)
    ensures
        r@ == lf_marker() || r@ == crlf_marker(),
{
    end_marker_for(main_separator())
}

/// `"error"`: the default error end-of-response marker for stderr.
pub open spec fn error_word() -> Seq<u8> {
    seq![101u8, 114, 114, 111, 114]
}

/// Default error end-of-response marker for stderr.
pub fn default_error_marker_stderr() -> (r: Vec<u8>)
    ensures
        r@ == error_word(),
{
    let mut r: Vec<u8> = Vec::new();
    r.push(101u8);
    r.push(114u8);
    r.push(114u8);
    r.push(111u8);
    r.push(114u8);
    assert(r@ =~= error_word());
    r
}

} // verus!
