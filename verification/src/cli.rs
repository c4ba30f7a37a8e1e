//! Command line parsing: a hand-written tokenizer feeding a typed [`Config`].
//!
//! Pipeline: `tokenize(argv) -> Raw flags -> determine mode -> validate`.
//!
//! Arguments are byte strings. Option values that are durations are handed on
//! as their seconds text, in the order given, for the caller to convert.

use vstd::prelude::*;
use vstd::string::StringSliceAdditionalSpecFns;
use vstd::utf8::encode_utf8;

use crate::bytes::{
    bytes_equal, find_byte, index_of, lemma_index_of_from, parse_bounded, parse_unsigned_upto,
    slice_range,
};
use crate::config::vecs_view;
use crate::text::{cat3, char_string, lossy_string, owned, utf8_lossy};

verus! {

/// The abstract value of the tokenizer's accumulator.
pub struct RawView {
    pub server: bool,
    pub client: bool,
    pub restart: bool,
    pub strip_marker_stdout: bool,
    pub strip_marker_stderr: bool,
    pub raw: bool,
    pub help: bool,
    pub version: bool,
    pub addr: Option<Option<Seq<char>>>,
    pub port: Option<u16>,
    pub unixsocket: Option<Option<Seq<u8>>>,
    pub pidfile: Option<Option<Seq<u8>>>,
    pub kill: Option<Option<Seq<u8>>>,
    pub arginput: Option<Seq<u8>>,
    pub fileinput: Option<Seq<u8>>,
    pub suffix: Option<Seq<u8>>,
    pub end_marker_stdout: Option<Seq<u8>>,
    pub end_marker_stderr: Option<Seq<u8>>,
    pub error_marker_stdout: Option<Seq<u8>>,
    pub error_marker_stderr: Option<Seq<u8>>,
    pub ready_marker_stdout: Option<Seq<u8>>,
    pub ready_marker_stderr: Option<Seq<u8>>,
    pub warmup: Option<Seq<u8>>,
    pub warmup_marker_stdout: Option<Seq<u8>>,
    pub warmup_marker_stderr: Option<Seq<u8>>,
    pub ready_wait: Option<Seq<u8>>,
    pub ready_marker_timeout: Option<Seq<u8>>,
    pub warmup_wait: Option<Seq<u8>>,
    pub warmup_marker_timeout: Option<Seq<u8>>,
    pub timeout: Option<Seq<u8>>,
    pub response_timeout: Option<Seq<u8>>,
    pub ctl: Option<Seq<char>>,
    pub exec_argv: Option<Seq<Seq<u8>>>,
    /// Every duration value given, in command line order.
    pub seconds: Seq<Seq<u8>>,
}

/// Accumulator filled by the tokenizer; converted to a configuration afterwards.
///
/// Optional-value options use `Option<Option<T>>`: outer `None` = not given,
/// `Some(None)` = given without a value, `Some(Some(v))` = given with a value.
pub struct Raw {
    pub server: bool,
    pub client: bool,
    pub restart: bool,
    pub strip_marker_stdout: bool,
    pub strip_marker_stderr: bool,
    pub raw: bool,
    pub help: bool,
    pub version: bool,
    pub addr: Option<Option<String>>,
    pub port: Option<u16>,
    pub unixsocket: Option<Option<Vec<u8>>>,
    pub pidfile: Option<Option<Vec<u8>>>,
    pub kill: Option<Option<Vec<u8>>>,
    pub arginput: Option<Vec<u8>>,
    pub fileinput: Option<Vec<u8>>,
    pub suffix: Option<Vec<u8>>,
    pub end_marker_stdout: Option<Vec<u8>>,
    pub end_marker_stderr: Option<Vec<u8>>,
    pub error_marker_stdout: Option<Vec<u8>>,
    pub error_marker_stderr: Option<Vec<u8>>,
    pub ready_marker_stdout: Option<Vec<u8>>,
    pub ready_marker_stderr: Option<Vec<u8>>,
    pub warmup: Option<Vec<u8>>,
    pub warmup_marker_stdout: Option<Vec<u8>>,
    pub warmup_marker_stderr: Option<Vec<u8>>,
    pub ready_wait: Option<Vec<u8>>,
    pub ready_marker_timeout: Option<Vec<u8>>,
    pub warmup_wait: Option<Vec<u8>>,
    pub warmup_marker_timeout: Option<Vec<u8>>,
    pub timeout: Option<Vec<u8>>,
    pub response_timeout: Option<Vec<u8>>,
    pub ctl: Option<String>,
    pub exec_argv: Option<Vec<Vec<u8>>>,
    pub seconds: Vec<Vec<u8>>,
}

pub open spec fn ob(o: Option<Vec<u8>>) -> Option<Seq<u8>> {
    match o {
        Some(v) => Some(v@),
        None => None,
    }
}

pub open spec fn oob(o: Option<Option<Vec<u8>>>) -> Option<Option<Seq<u8>>> {
    match o {
        Some(x) => Some(ob(x)),
        None => None,
    }
}

pub open spec fn os(o: Option<String>) -> Option<Seq<char>> {
    match o {
        Some(v) => Some(v@),
        None => None,
    }
}

impl View for Raw {
    type V = RawView;

    open spec fn view(&self) -> RawView {
        RawView {
            server: self.server,
            client: self.client,
            restart: self.restart,
            strip_marker_stdout: self.strip_marker_stdout,
            strip_marker_stderr: self.strip_marker_stderr,
            raw: self.raw,
            help: self.help,
            version: self.version,
            addr: match self.addr {
                Some(x) => Some(os(x)),
                None => None,
            },
            port: self.port,
            unixsocket: oob(self.unixsocket),
            pidfile: oob(self.pidfile),
            kill: oob(self.kill),
            arginput: ob(self.arginput),
            fileinput: ob(self.fileinput),
            suffix: ob(self.suffix),
            end_marker_stdout: ob(self.end_marker_stdout),
            end_marker_stderr: ob(self.end_marker_stderr),
            error_marker_stdout: ob(self.error_marker_stdout),
            error_marker_stderr: ob(self.error_marker_stderr),
            ready_marker_stdout: ob(self.ready_marker_stdout),
            ready_marker_stderr: ob(self.ready_marker_stderr),
            warmup: ob(self.warmup),
            warmup_marker_stdout: ob(self.warmup_marker_stdout),
            warmup_marker_stderr: ob(self.warmup_marker_stderr),
            ready_wait: ob(self.ready_wait),
            ready_marker_timeout: ob(self.ready_marker_timeout),
            warmup_wait: ob(self.warmup_wait),
            warmup_marker_timeout: ob(self.warmup_marker_timeout),
            timeout: ob(self.timeout),
            response_timeout: ob(self.response_timeout),
            ctl: os(self.ctl),
            exec_argv: match self.exec_argv {
                Some(v) => Some(vecs_view(v@)),
                None => None,
            },
            seconds: vecs_view(self.seconds@),
        }
    }
}

/// Nothing given yet.
pub open spec fn raw_empty_view() -> RawView {
    RawView {
        server: false,
        client: false,
        restart: false,
        strip_marker_stdout: false,
        strip_marker_stderr: false,
        raw: false,
        help: false,
        version: false,
        addr: None,
        port: None,
        unixsocket: None,
        pidfile: None,
        kill: None,
        arginput: None,
        fileinput: None,
        suffix: None,
        end_marker_stdout: None,
        end_marker_stderr: None,
        error_marker_stdout: None,
        error_marker_stderr: None,
        ready_marker_stdout: None,
        ready_marker_stderr: None,
        warmup: None,
        warmup_marker_stdout: None,
        warmup_marker_stderr: None,
        ready_wait: None,
        ready_marker_timeout: None,
        warmup_wait: None,
        warmup_marker_timeout: None,
        timeout: None,
        response_timeout: None,
        ctl: None,
        exec_argv: None,
        seconds: Seq::empty(),
    }
}

fn raw_empty() -> (r: Raw)
    ensures
        r@ == raw_empty_view(),
{
    let r = Raw {
        server: false,
        client: false,
        restart: false,
        strip_marker_stdout: false,
        strip_marker_stderr: false,
        raw: false,
        help: false,
        version: false,
        addr: None,
        port: None,
        unixsocket: None,
        pidfile: None,
        kill: None,
        arginput: None,
        fileinput: None,
        suffix: None,
        end_marker_stdout: None,
        end_marker_stderr: None,
        error_marker_stdout: None,
        error_marker_stderr: None,
        ready_marker_stdout: None,
        ready_marker_stderr: None,
        warmup: None,
        warmup_marker_stdout: None,
        warmup_marker_stderr: None,
        ready_wait: None,
        ready_marker_timeout: None,
        warmup_wait: None,
        warmup_marker_timeout: None,
        timeout: None,
        response_timeout: None,
        ctl: None,
        exec_argv: None,
        seconds: Vec::new(),
    };
    assert(r@.seconds =~= Seq::<Seq<u8>>::empty());
    r
}

// ---- option kinds -----------------------------------------------------------

/// Options that take no value.
#[derive(Clone, Copy, PartialEq, Eq, Structural)]
pub enum FlagField {
    Server,
    Client,
    Restart,
    StripOut,
    StripErr,
    Raw,
    Help,
    Version,
}

/// Options whose value, if any, must be attached and names a path.
#[derive(Clone, Copy, PartialEq, Eq, Structural)]
pub enum PathField {
    Unix,
    Pidfile,
    Kill,
}

/// Options that require a byte-string value.
#[derive(Clone, Copy, PartialEq, Eq, Structural)]
pub enum BytesField {
    Arginput,
    Fileinput,
    Suffix,
    EndOut,
    EndErr,
    ErrorOut,
    ErrorErr,
    ReadyOut,
    ReadyErr,
    Warmup,
    WarmupOut,
    WarmupErr,
}

/// Options that require a duration in seconds.
#[derive(Clone, Copy, PartialEq, Eq, Structural)]
pub enum SecondsField {
    ReadyWait,
    ReadyTimeout,
    WarmupWait,
    WarmupTimeout,
    Timeout,
    ResponseTimeout,
}

/// What an option name or letter stands for.
#[derive(Clone, Copy, PartialEq, Eq, Structural)]
pub enum OptKind {
    Flag(FlagField),
    Addr,
    Path(PathField),
    Bytes(BytesField),
    Port,
    Seconds(SecondsField),
    Ctl,
    Exec,
    Unknown,
}

/// The long option names.
pub open spec fn long_kind(name: Seq<char>) -> OptKind {
    if name == "server"@ {
        OptKind::Flag(FlagField::Server)
    } else if name == "client"@ {
        OptKind::Flag(FlagField::Client)
    } else if name == "restart"@ {
        OptKind::Flag(FlagField::Restart)
    } else if name == "strip-marker-stdout"@ {
        OptKind::Flag(FlagField::StripOut)
    } else if name == "strip-marker-stderr"@ {
        OptKind::Flag(FlagField::StripErr)
    } else if name == "raw"@ {
        OptKind::Flag(FlagField::Raw)
    } else if name == "help"@ {
        OptKind::Flag(FlagField::Help)
    } else if name == "version"@ {
        OptKind::Flag(FlagField::Version)
    } else if name == "addr"@ {
        OptKind::Addr
    } else if name == "unixsocket"@ {
        OptKind::Path(PathField::Unix)
    } else if name == "pidfile"@ {
        OptKind::Path(PathField::Pidfile)
    } else if name == "kill"@ {
        OptKind::Path(PathField::Kill)
    } else if name == "port"@ {
        OptKind::Port
    } else if name == "arginput"@ {
        OptKind::Bytes(BytesField::Arginput)
    } else if name == "suffix"@ {
        OptKind::Bytes(BytesField::Suffix)
    } else if name == "end-marker-stdout"@ {
        OptKind::Bytes(BytesField::EndOut)
    } else if name == "end-marker-stderr"@ {
        OptKind::Bytes(BytesField::EndErr)
    } else if name == "error-marker-stdout"@ {
        OptKind::Bytes(BytesField::ErrorOut)
    } else if name == "error-marker-stderr"@ {
        OptKind::Bytes(BytesField::ErrorErr)
    } else if name == "ready-marker-stdout"@ {
        OptKind::Bytes(BytesField::ReadyOut)
    } else if name == "ready-marker-stderr"@ {
        OptKind::Bytes(BytesField::ReadyErr)
    } else if name == "ready-wait"@ {
        OptKind::Seconds(SecondsField::ReadyWait)
    } else if name == "ready-marker-timeout"@ {
        OptKind::Seconds(SecondsField::ReadyTimeout)
    } else if name == "warmup-input"@ {
        OptKind::Bytes(BytesField::Warmup)
    } else if name == "warmup-marker-stdout"@ {
        OptKind::Bytes(BytesField::WarmupOut)
    } else if name == "warmup-marker-stderr"@ {
        OptKind::Bytes(BytesField::WarmupErr)
    } else if name == "warmup-wait"@ {
        OptKind::Seconds(SecondsField::WarmupWait)
    } else if name == "warmup-marker-timeout"@ {
        OptKind::Seconds(SecondsField::WarmupTimeout)
    } else if name == "ctl"@ {
        OptKind::Ctl
    } else if name == "timeout"@ {
        OptKind::Seconds(SecondsField::Timeout)
    } else if name == "response-timeout"@ {
        OptKind::Seconds(SecondsField::ResponseTimeout)
    } else if name == "fileinput"@ {
        OptKind::Bytes(BytesField::Fileinput)
    } else if name == "exec"@ {
        OptKind::Exec
    } else {
        OptKind::Unknown
    }
}

pub(crate) fn is_name(name: &String, lit: &str) -> (r: bool)
    ensures
        r == (name@ == lit@),
{
    *name == owned(lit)
}

fn long_kind_exec(name: &String) -> (k: OptKind)
    ensures
        k == long_kind(name@),
{
    if is_name(name, "server") {
        OptKind::Flag(FlagField::Server)
    } else if is_name(name, "client") {
        OptKind::Flag(FlagField::Client)
    } else if is_name(name, "restart") {
        OptKind::Flag(FlagField::Restart)
    } else if is_name(name, "strip-marker-stdout") {
        OptKind::Flag(FlagField::StripOut)
    } else if is_name(name, "strip-marker-stderr") {
        OptKind::Flag(FlagField::StripErr)
    } else if is_name(name, "raw") {
        OptKind::Flag(FlagField::Raw)
    } else if is_name(name, "help") {
        OptKind::Flag(FlagField::Help)
    } else if is_name(name, "version") {
        OptKind::Flag(FlagField::Version)
    } else if is_name(name, "addr") {
        OptKind::Addr
    } else if is_name(name, "unixsocket") {
        OptKind::Path(PathField::Unix)
    } else if is_name(name, "pidfile") {
        OptKind::Path(PathField::Pidfile)
    } else if is_name(name, "kill") {
        OptKind::Path(PathField::Kill)
    } else if is_name(name, "port") {
        OptKind::Port
    } else if is_name(name, "arginput") {
        OptKind::Bytes(BytesField::Arginput)
    } else if is_name(name, "suffix") {
        OptKind::Bytes(BytesField::Suffix)
    } else if is_name(name, "end-marker-stdout") {
        OptKind::Bytes(BytesField::EndOut)
    } else if is_name(name, "end-marker-stderr") {
        OptKind::Bytes(BytesField::EndErr)
    } else if is_name(name, "error-marker-stdout") {
        OptKind::Bytes(BytesField::ErrorOut)
    } else if is_name(name, "error-marker-stderr") {
        OptKind::Bytes(BytesField::ErrorErr)
    } else if is_name(name, "ready-marker-stdout") {
        OptKind::Bytes(BytesField::ReadyOut)
    } else if is_name(name, "ready-marker-stderr") {
        OptKind::Bytes(BytesField::ReadyErr)
    } else if is_name(name, "ready-wait") {
        OptKind::Seconds(SecondsField::ReadyWait)
    } else if is_name(name, "ready-marker-timeout") {
        OptKind::Seconds(SecondsField::ReadyTimeout)
    } else if is_name(name, "warmup-input") {
        OptKind::Bytes(BytesField::Warmup)
    } else if is_name(name, "warmup-marker-stdout") {
        OptKind::Bytes(BytesField::WarmupOut)
    } else if is_name(name, "warmup-marker-stderr") {
        OptKind::Bytes(BytesField::WarmupErr)
    } else if is_name(name, "warmup-wait") {
        OptKind::Seconds(SecondsField::WarmupWait)
    } else if is_name(name, "warmup-marker-timeout") {
        OptKind::Seconds(SecondsField::WarmupTimeout)
    } else if is_name(name, "ctl") {
        OptKind::Ctl
    } else if is_name(name, "timeout") {
        OptKind::Seconds(SecondsField::Timeout)
    } else if is_name(name, "response-timeout") {
        OptKind::Seconds(SecondsField::ResponseTimeout)
    } else if is_name(name, "fileinput") {
        OptKind::Bytes(BytesField::Fileinput)
    } else if is_name(name, "exec") {
        OptKind::Exec
    } else {
        OptKind::Unknown
    }
}

/// The short option letters.
pub open spec fn short_kind(c: u8) -> OptKind {
    if c == 115 {
        OptKind::Flag(FlagField::Server)
    } else if c == 99 {
        OptKind::Flag(FlagField::Client)
    } else if c == 114 {
        OptKind::Flag(FlagField::Restart)
    } else if c == 104 {
        OptKind::Flag(FlagField::Help)
    } else if c == 97 {
        OptKind::Addr
    } else if c == 117 {
        OptKind::Path(PathField::Unix)
    } else if c == 100 {
        OptKind::Path(PathField::Pidfile)
    } else if c == 107 {
        OptKind::Path(PathField::Kill)
    } else if c == 112 {
        OptKind::Port
    } else if c == 105 {
        OptKind::Bytes(BytesField::Arginput)
    } else if c == 102 {
        OptKind::Bytes(BytesField::Fileinput)
    } else if c == 109 {
        OptKind::Bytes(BytesField::EndOut)
    } else if c == 120 {
        OptKind::Bytes(BytesField::Suffix)
    } else if c == 101 {
        OptKind::Exec
    } else {
        OptKind::Unknown
    }
}

fn short_kind_exec(c: u8) -> (k: OptKind)
    ensures
        k == short_kind(c),
{
    if c == 115 {
        OptKind::Flag(FlagField::Server)
    } else if c == 99 {
        OptKind::Flag(FlagField::Client)
    } else if c == 114 {
        OptKind::Flag(FlagField::Restart)
    } else if c == 104 {
        OptKind::Flag(FlagField::Help)
    } else if c == 97 {
        OptKind::Addr
    } else if c == 117 {
        OptKind::Path(PathField::Unix)
    } else if c == 100 {
        OptKind::Path(PathField::Pidfile)
    } else if c == 107 {
        OptKind::Path(PathField::Kill)
    } else if c == 112 {
        OptKind::Port
    } else if c == 105 {
        OptKind::Bytes(BytesField::Arginput)
    } else if c == 102 {
        OptKind::Bytes(BytesField::Fileinput)
    } else if c == 109 {
        OptKind::Bytes(BytesField::EndOut)
    } else if c == 120 {
        OptKind::Bytes(BytesField::Suffix)
    } else if c == 101 {
        OptKind::Exec
    } else {
        OptKind::Unknown
    }
}

// ---- recording a value ---------------------------------------------------------

pub open spec fn set_flag(r: RawView, f: FlagField) -> RawView {
    match f {
        FlagField::Server => RawView { server: true, ..r },
        FlagField::Client => RawView { client: true, ..r },
        FlagField::Restart => RawView { restart: true, ..r },
        FlagField::StripOut => RawView { strip_marker_stdout: true, ..r },
        FlagField::StripErr => RawView { strip_marker_stderr: true, ..r },
        FlagField::Raw => RawView { raw: true, ..r },
        FlagField::Help => RawView { help: true, ..r },
        FlagField::Version => RawView { version: true, ..r },
    }
}

pub open spec fn set_path(r: RawView, f: PathField, v: Option<Seq<u8>>) -> RawView {
    match f {
        PathField::Unix => RawView { unixsocket: Some(v), ..r },
        PathField::Pidfile => RawView { pidfile: Some(v), ..r },
        PathField::Kill => RawView { kill: Some(v), ..r },
    }
}

pub open spec fn set_bytes(r: RawView, f: BytesField, v: Seq<u8>) -> RawView {
    match f {
        BytesField::Arginput => RawView { arginput: Some(v), ..r },
        BytesField::Fileinput => RawView { fileinput: Some(v), ..r },
        BytesField::Suffix => RawView { suffix: Some(v), ..r },
        BytesField::EndOut => RawView { end_marker_stdout: Some(v), ..r },
        BytesField::EndErr => RawView { end_marker_stderr: Some(v), ..r },
        BytesField::ErrorOut => RawView { error_marker_stdout: Some(v), ..r },
        BytesField::ErrorErr => RawView { error_marker_stderr: Some(v), ..r },
        BytesField::ReadyOut => RawView { ready_marker_stdout: Some(v), ..r },
        BytesField::ReadyErr => RawView { ready_marker_stderr: Some(v), ..r },
        BytesField::Warmup => RawView { warmup: Some(v), ..r },
        BytesField::WarmupOut => RawView { warmup_marker_stdout: Some(v), ..r },
        BytesField::WarmupErr => RawView { warmup_marker_stderr: Some(v), ..r },
    }
}

pub open spec fn set_seconds(r: RawView, f: SecondsField, v: Seq<u8>) -> RawView {
    let r2 = RawView { seconds: r.seconds.push(v), ..r };
    match f {
        SecondsField::ReadyWait => RawView { ready_wait: Some(v), ..r2 },
        SecondsField::ReadyTimeout => RawView { ready_marker_timeout: Some(v), ..r2 },
        SecondsField::WarmupWait => RawView { warmup_wait: Some(v), ..r2 },
        SecondsField::WarmupTimeout => RawView { warmup_marker_timeout: Some(v), ..r2 },
        SecondsField::Timeout => RawView { timeout: Some(v), ..r2 },
        SecondsField::ResponseTimeout => RawView { response_timeout: Some(v), ..r2 },
    }
}

impl Raw {
    fn set_flag(&mut self, f: FlagField)
        ensures
            final(self)@ == set_flag(old(self)@, f),
    {
        match f {
            FlagField::Server => self.server = true,
            FlagField::Client => self.client = true,
            FlagField::Restart => self.restart = true,
            FlagField::StripOut => self.strip_marker_stdout = true,
            FlagField::StripErr => self.strip_marker_stderr = true,
            FlagField::Raw => self.raw = true,
            FlagField::Help => self.help = true,
            FlagField::Version => self.version = true,
        }
    }

    fn set_path(&mut self, f: PathField, v: Option<Vec<u8>>)
        ensures
            final(self)@ == set_path(old(self)@, f, ob(v)),
    {
        match f {
            PathField::Unix => self.unixsocket = Some(v),
            PathField::Pidfile => self.pidfile = Some(v),
            PathField::Kill => self.kill = Some(v),
        }
    }

    fn set_bytes(&mut self, f: BytesField, v: Vec<u8>)
        ensures
            final(self)@ == set_bytes(old(self)@, f, v@),
    {
        match f {
            BytesField::Arginput => self.arginput = Some(v),
            BytesField::Fileinput => self.fileinput = Some(v),
            BytesField::Suffix => self.suffix = Some(v),
            BytesField::EndOut => self.end_marker_stdout = Some(v),
            BytesField::EndErr => self.end_marker_stderr = Some(v),
            BytesField::ErrorOut => self.error_marker_stdout = Some(v),
            BytesField::ErrorErr => self.error_marker_stderr = Some(v),
            BytesField::ReadyOut => self.ready_marker_stdout = Some(v),
            BytesField::ReadyErr => self.ready_marker_stderr = Some(v),
            BytesField::Warmup => self.warmup = Some(v),
            BytesField::WarmupOut => self.warmup_marker_stdout = Some(v),
            BytesField::WarmupErr => self.warmup_marker_stderr = Some(v),
        }
    }

    fn set_seconds(&mut self, f: SecondsField, v: Vec<u8>)
        ensures
            final(self)@ == set_seconds(old(self)@, f, v@),
    {
        let copy = slice_range(v.as_slice(), 0, v.len());
        proof {
            assert(v@.subrange(0, v@.len() as int) =~= v@);
        }
        let ghost before = vecs_view(self.seconds@);
        self.seconds.push(copy);
        assert(vecs_view(self.seconds@) =~= before.push(v@));
        match f {
            SecondsField::ReadyWait => self.ready_wait = Some(v),
            SecondsField::ReadyTimeout => self.ready_marker_timeout = Some(v),
            SecondsField::WarmupWait => self.warmup_wait = Some(v),
            SecondsField::WarmupTimeout => self.warmup_marker_timeout = Some(v),
            SecondsField::Timeout => self.timeout = Some(v),
            SecondsField::ResponseTimeout => self.response_timeout = Some(v),
        }
    }
}


// ---- messages -------------------------------------------------------------------

pub open spec fn no_value_msg(name: Seq<char>) -> Seq<char> {
    "option '--"@ + name + "' does not take a value"@
}

pub open spec fn needs_arg_msg(name: Seq<char>) -> Seq<char> {
    "option '--"@ + name + "' requires an argument"@
}

pub open spec fn unknown_long_msg(name: Seq<char>) -> Seq<char> {
    "unknown option '--"@ + name + "'"@
}

pub open spec fn short_needs_arg_msg(c: u8) -> Seq<char> {
    "option '-"@ + seq![c as char] + "' requires an argument"@
}

pub open spec fn unknown_short_msg(c: u8) -> Seq<char> {
    "unknown option '-"@ + seq![c as char] + "'"@
}

pub open spec fn invalid_port_msg(v: Seq<u8>) -> Seq<char> {
    "invalid port number '"@ + utf8_lossy(v) + "'"@
}

/// The message for a duration that is not a positive number of seconds.
pub open spec fn invalid_timeout_msg(v: Seq<u8>) -> Seq<char> {
    "invalid timeout '"@ + utf8_lossy(v) + "'; expected a positive number of seconds"@
}

/// Build the usage error for a duration text that is not a positive number
/// of seconds.
pub fn invalid_timeout(text: &[u8]) -> (e: crate::error::AppError)
    ensures
        e.message@ == invalid_timeout_msg(text@),
        e.code == crate::error::EXIT_USAGE,
{
    let t = lossy_string(text);
    crate::error::AppError::usage(
        cat3("invalid timeout '", t.as_str(), "'; expected a positive number of seconds"),
    )
}

/// The optional-value options whose value must be attached, by the token that
/// spells them: the short letter and long name to suggest.
pub open spec fn hint_for(prev: Seq<u8>) -> Option<(char, Seq<char>)> {
    if prev == "-a".spec_bytes() || prev == "--addr".spec_bytes() {
        Some(('a', "addr"@))
    } else if prev == "-u".spec_bytes() || prev == "--unixsocket".spec_bytes() {
        Some(('u', "unixsocket"@))
    } else if prev == "-d".spec_bytes() || prev == "--pidfile".spec_bytes() {
        Some(('d', "pidfile"@))
    } else if prev == "-k".spec_bytes() || prev == "--kill".spec_bytes() {
        Some(('k', "kill"@))
    } else {
        None
    }
}

/// The error for a stray positional. If it immediately follows a bare
/// optional-value option, hint that such options need an attached value.
pub open spec fn unexpected_msg(arg: Seq<char>, prev: Option<Seq<u8>>) -> Seq<char> {
    let plain = "unexpected argument '"@ + arg + "'"@;
    match prev {
        Some(p) => match hint_for(p) {
            Some((short, long)) => "unexpected argument '"@ + arg + "'; did you mean -"@ + seq![short]
                + arg + " or --"@ + long + "="@ + arg
                + "? optional-value options take their value attached, not as a separate argument"@,
            None => plain,
        },
        None => plain,
    }
}

fn is_token(p: &[u8], lit: &str) -> (r: bool)
    ensures
        r == (p@ == lit.spec_bytes()),
{
    bytes_equal(p, lit.as_bytes())
}

fn hint_for_exec(prev: &[u8]) -> (r: Option<(char, String)>)
    ensures
        match r {
            Some((c, l)) => hint_for(prev@) == Some((c, l@)),
            None => hint_for(prev@) is None,
        },
{
    if is_token(prev, "-a") || is_token(prev, "--addr") {
        Some(('a', owned("addr")))
    } else if is_token(prev, "-u") || is_token(prev, "--unixsocket") {
        Some(('u', owned("unixsocket")))
    } else if is_token(prev, "-d") || is_token(prev, "--pidfile") {
        Some(('d', owned("pidfile")))
    } else if is_token(prev, "-k") || is_token(prev, "--kill") {
        Some(('k', owned("kill")))
    } else {
        None
    }
}

fn unexpected_argument(arg: &String, prev: Option<&Vec<u8>>) -> (r: String)
    ensures
        r@ == unexpected_msg(
            arg@,
            match prev {
                Some(p) => Some(p@),
                None => None,
            },
        ),
{
    let hint = match prev {
        Some(p) => hint_for_exec(p.as_slice()),
        None => None,
    };
    match hint {
        Some((short, long)) => {
            let a = arg.as_str();
            let mut m = cat3("unexpected argument '", a, "'; did you mean -");
            let sc = char_string(short);
            m.append(sc.as_str());
            m.append(a);
            m.append(" or --");
            m.append(long.as_str());
            m.append("=");
            m.append(a);
            m.append(
                "? optional-value options take their value attached, not as a separate argument",
            );
            m
        },
        None => cat3("unexpected argument '", arg.as_str(), "'"),
    }
}

// ---- handling one option ----------------------------------------------------------

/// The value of an option that requires one: attached, or else the next
/// argument (which is then consumed).
pub open spec fn long_required(value: Option<Seq<u8>>, args: Seq<Seq<u8>>, i: int) -> Option<(Seq<u8>, int)> {
    match value {
        Some(v) => Some((v, i)),
        None => if 0 <= i < args.len() {
            Some((args[i], i + 1))
        } else {
            None
        },
    }
}

/// Like `long_required`, for a short option whose value may follow the letter
/// in the same token.
pub open spec fn short_required(attached: Seq<u8>, args: Seq<Seq<u8>>, i: int) -> Option<(Seq<u8>, int)> {
    if attached.len() > 0 {
        Some((attached, i))
    } else if 0 <= i < args.len() {
        Some((args[i], i + 1))
    } else {
        None
    }
}

/// A port number: what `u16::from_str` makes of the text.
pub open spec fn port_of(v: Seq<u8>) -> Option<u16> {
    match parse_bounded(encode_utf8(utf8_lossy(v)), 65535) {
        Some(p) => Some(p as u16),
        None => None,
    }
}

pub open spec fn lossy_opt(o: Option<Seq<u8>>) -> Option<Seq<char>> {
    match o {
        Some(v) => Some(utf8_lossy(v)),
        None => None,
    }
}

/// Record the value `v` of an option of the given kind.
pub open spec fn value_opt(r: RawView, kind: OptKind, v: Seq<u8>, i: int) -> Result<(RawView, int, bool), Seq<char>> {
    match kind {
        OptKind::Bytes(f) => Ok((set_bytes(r, f, v), i, false)),
        OptKind::Port => match port_of(v) {
            Some(p) => Ok((RawView { port: Some(p), ..r }, i, false)),
            None => Err(invalid_port_msg(v)),
        },
        OptKind::Seconds(f) => Ok((set_seconds(r, f, v), i, false)),
        OptKind::Ctl => Ok((RawView { ctl: Some(utf8_lossy(v)), ..r }, i, false)),
        _ => Ok((r, i, false)),
    }
}

/// A long option `--name[=value]`; `i` is the index of the next argument.
/// The result is the updated accumulator, the next index, and whether
/// tokenizing stops here (the rest belongs to the REPL command).
pub open spec fn long_opt(r: RawView, name: Seq<char>, value: Option<Seq<u8>>, args: Seq<Seq<u8>>, i: int) -> Result<(RawView, int, bool), Seq<char>> {
    match long_kind(name) {
        OptKind::Flag(f) => if value is Some {
            Err(no_value_msg(name))
        } else {
            Ok((set_flag(r, f), i, false))
        },
        OptKind::Addr => Ok((RawView { addr: Some(lossy_opt(value)), ..r }, i, false)),
        OptKind::Path(f) => Ok((set_path(r, f, value), i, false)),
        OptKind::Unknown => Err(unknown_long_msg(name)),
        OptKind::Exec => Ok(
            (
                RawView {
                    exec_argv: Some(
                        (match value {
                            Some(v) => seq![v],
                            None => Seq::empty(),
                        }) + args.subrange(i, args.len() as int),
                    ),
                    ..r
                },
                args.len() as int,
                true,
            ),
        ),
        kind => match long_required(value, args, i) {
            None => Err(needs_arg_msg(name)),
            Some((v, i2)) => value_opt(r, kind, v, i2),
        },
    }
}

/// A cluster of short options `-abc` (without the dash), from letter `j` on.
pub open spec fn short_opts(r: RawView, chars: Seq<u8>, j: nat, args: Seq<Seq<u8>>, i: int) -> Result<(RawView, int, bool), Seq<char>>
    decreases chars.len() - j,
{
    if j >= chars.len() {
        Ok((r, i, false))
    } else {
        let c = chars[j as int];
        let attached = chars.subrange((j + 1) as int, chars.len() as int);
        match short_kind(c) {
            OptKind::Flag(f) => short_opts(set_flag(r, f), chars, j + 1, args, i),
            OptKind::Addr => Ok(
                (
                    RawView {
                        addr: Some(
                            if attached.len() == 0 {
                                None
                            } else {
                                Some(utf8_lossy(attached))
                            },
                        ),
                        ..r
                    },
                    i,
                    false,
                ),
            ),
            OptKind::Path(f) => Ok(
                (
                    set_path(
                        r,
                        f,
                        if attached.len() == 0 {
                            None
                        } else {
                            Some(attached)
                        },
                    ),
                    i,
                    false,
                ),
            ),
            OptKind::Unknown => Err(unknown_short_msg(c)),
            OptKind::Exec => Ok(
                (
                    RawView {
                        exec_argv: Some(
                            (if attached.len() == 0 {
                                Seq::empty()
                            } else {
                                seq![attached]
                            }) + args.subrange(i, args.len() as int),
                        ),
                        ..r
                    },
                    args.len() as int,
                    true,
                ),
            ),
            kind => match short_required(attached, args, i) {
                None => Err(short_needs_arg_msg(c)),
                Some((v, i2)) => value_opt(r, kind, v, i2),
            },
        }
    }
}

pub(crate) fn copy_bytes(v: &Vec<u8>) -> (r: Vec<u8>)
    ensures
        r@ == v@,
{
    let r = slice_range(v.as_slice(), 0, v.len());
    assert(v@.subrange(0, v@.len() as int) =~= v@);
    r
}

/// `args[from..]`, copied.
pub(crate) fn copy_args_from(args: &Vec<Vec<u8>>, from: usize, into: &mut Vec<Vec<u8>>)
    requires
        from <= args@.len(),
    ensures
        vecs_view(final(into)@) == vecs_view(old(into)@) + vecs_view(args@).subrange(
            from as int,
            args@.len() as int,
        ),
{
    let ghost start = vecs_view(into@);
    let mut k: usize = from;
    while k < args.len()
        invariant
            from <= k <= args@.len(),
            vecs_view(into@) == start + vecs_view(args@).subrange(from as int, k as int),
        decreases args@.len() - k,
    {
        let c = copy_bytes(&args[k]);
        let ghost before = vecs_view(into@);
        into.push(c);
        assert(vecs_view(into@) =~= before.push(args@[k as int]@));
        k = k + 1;
        assert(vecs_view(into@) =~= start + vecs_view(args@).subrange(from as int, k as int));
    }
}

fn apply_value(raw: &mut Raw, kind: OptKind, v: Vec<u8>) -> (r: Result<(), String>)
    ensures
        match value_opt(old(raw)@, kind, v@, 0) {
            Ok((r2, _, _)) => r is Ok && final(raw)@ == r2,
            Err(m) => r matches Err(e) && e@ == m && final(raw)@ == old(raw)@,
        },
{
    match kind {
        OptKind::Bytes(f) => {
            raw.set_bytes(f, v);
            Ok(())
        },
        OptKind::Port => {
            let text = lossy_string(v.as_slice());
            match parse_unsigned_upto(text.as_str().as_bytes(), 65535) {
                Some(p) => {
                    raw.port = Some(p as u16);
                    Ok(())
                },
                None => Err(cat3("invalid port number '", text.as_str(), "'")),
            }
        },
        OptKind::Seconds(f) => {
            raw.set_seconds(f, v);
            Ok(())
        },
        OptKind::Ctl => {
            raw.ctl = Some(lossy_string(v.as_slice()));
            Ok(())
        },
        _ => Ok(()),
    }
}

/// Handle `--name[=value]`; `i` indexes the next argument and is advanced past
/// a consumed value. Returns whether tokenizing stops here.
fn handle_long(
    raw: &mut Raw,
    name: &String,
    value: Option<Vec<u8>>,
    args: &Vec<Vec<u8>>,
    i: &mut usize,
) -> (r: Result<bool, String>)
    requires
        *old(i) <= args@.len(),
    ensures
        match long_opt(old(raw)@, name@, ob(value), vecs_view(args@), *old(i) as int) {
            Ok((r2, i2, stop)) => r == Ok::<bool, String>(stop) && final(raw)@ == r2 && *final(i)
                == i2,
            Err(m) => r matches Err(e) && e@ == m && final(raw)@.seconds == old(raw)@.seconds,
        },
{
    let kind = long_kind_exec(name);
    match kind {
        OptKind::Flag(f) => {
            if value.is_some() {
                return Err(cat3("option '--", name.as_str(), "' does not take a value"));
            }
            raw.set_flag(f);
            Ok(false)
        },
        OptKind::Addr => {
            raw.addr = Some(
                match value {
                    Some(v) => Some(lossy_string(v.as_slice())),
                    None => None,
                },
            );
            Ok(false)
        },
        OptKind::Path(f) => {
            raw.set_path(f, value);
            Ok(false)
        },
        OptKind::Unknown => Err(cat3("unknown option '--", name.as_str(), "'")),
        OptKind::Exec => {
            let mut argv: Vec<Vec<u8>> = Vec::new();
            let ghost first: Seq<Seq<u8>> = match ob(value) {
                Some(v) => seq![v],
                None => Seq::empty(),
            };
            match value {
                Some(v) => {
                    argv.push(v);
                },
                None => {},
            }
            assert(vecs_view(argv@) =~= first);
            copy_args_from(args, *i, &mut argv);
            *i = args.len();
            raw.exec_argv = Some(argv);
            Ok(true)
        },
        _ => {
            let v = match value {
                Some(v) => v,
                None => {
                    if *i < args.len() {
                        let v = copy_bytes(&args[*i]);
                        *i = *i + 1;
                        v
                    } else {
                        return Err(cat3("option '--", name.as_str(), "' requires an argument"));
                    }
                },
            };
            match apply_value(raw, kind, v) {
                Ok(()) => Ok(false),
                Err(e) => Err(e),
            }
        },
    }
}


/// Handle a cluster of short options (the token without its dash); `i` indexes
/// the next argument. Returns whether tokenizing stops here.
fn handle_short(raw: &mut Raw, chars: &[u8], args: &Vec<Vec<u8>>, i: &mut usize) -> (r: Result<
    bool,
    String,
>)
    requires
        *old(i) <= args@.len(),
    ensures
        match short_opts(old(raw)@, chars@, 0, vecs_view(args@), *old(i) as int) {
            Ok((r2, i2, stop)) => r == Ok::<bool, String>(stop) && final(raw)@ == r2 && *final(i)
                == i2,
            Err(m) => r matches Err(e) && e@ == m && final(raw)@.seconds == old(raw)@.seconds,
        },
{
    let ghost goal = short_opts(raw@, chars@, 0, vecs_view(args@), *i as int);
    let n: usize = chars.len();
    let mut j: usize = 0;
    while j < n
        invariant
            j <= n,
            n == chars@.len(),
            *i <= args@.len(),
            *i == *old(i),
            raw@.seconds == old(raw)@.seconds,
            goal == short_opts(old(raw)@, chars@, 0, vecs_view(args@), *old(i) as int),
            goal == short_opts(raw@, chars@, j as nat, vecs_view(args@), *i as int),
        decreases n - j,
    {
        let c = chars[j];
        let ghost attached = chars@.subrange(j + 1, n as int);
        match short_kind_exec(c) {
            OptKind::Flag(f) => {
                raw.set_flag(f);
                j = j + 1;
            },
            OptKind::Addr => {
                let v = if j + 1 < n {
                    Some(lossy_string(slice_range(chars, j + 1, n).as_slice()))
                } else {
                    None
                };
                raw.addr = Some(v);
                return Ok(false);
            },
            OptKind::Path(f) => {
                let v = if j + 1 < n {
                    Some(slice_range(chars, j + 1, n))
                } else {
                    None
                };
                raw.set_path(f, v);
                return Ok(false);
            },
            OptKind::Unknown => {
                let cs = char_string(c as char);
                return Err(cat3("unknown option '-", cs.as_str(), "'"));
            },
            OptKind::Exec => {
                let mut argv: Vec<Vec<u8>> = Vec::new();
                if j + 1 < n {
                    argv.push(slice_range(chars, j + 1, n));
                }
                assert(vecs_view(argv@) =~= (if attached.len() == 0 {
                    Seq::<Seq<u8>>::empty()
                } else {
                    seq![attached]
                }));
                copy_args_from(args, *i, &mut argv);
                *i = args.len();
                raw.exec_argv = Some(argv);
                return Ok(true);
            },
            kind => {
                let v = if j + 1 < n {
                    slice_range(chars, j + 1, n)
                } else if *i < args.len() {
                    let v = copy_bytes(&args[*i]);
                    *i = *i + 1;
                    v
                } else {
                    let cs = char_string(c as char);
                    return Err(cat3("option '-", cs.as_str(), "' requires an argument"));
                };
                return match apply_value(raw, kind, v) {
                    Ok(()) => Ok(false),
                    Err(e) => Err(e),
                };
            },
        }
    }
    Ok(false)
}

/// Tokenize `args[i..]` into the accumulator `r`: the accumulator at the end,
/// and the usage error message if tokenizing failed (the accumulator is then
/// the one before the offending argument).
pub open spec fn tokenize_from(args: Seq<Seq<u8>>, i: int, r: RawView) -> (RawView, Option<Seq<char>>)
    decreases args.len() - i,
{
    if i < 0 || i >= args.len() {
        (r, None)
    } else {
        let a = args[i];
        if a == seq![45u8, 45] {
            (RawView { exec_argv: Some(args.subrange(i + 1, args.len() as int)), ..r }, None)
        } else if a.len() >= 2 && a[0] == 45 && a[1] == 45 {
            let body = a.subrange(2, a.len() as int);
            let (nb, value) = match index_of(body, 61) {
                Some(eq) => (body.subrange(0, eq as int), Some(body.subrange(eq + 1int, body.len() as int))),
                None => (body, None),
            };
            match long_opt(r, utf8_lossy(nb), value, args, i + 1) {
                Err(m) => (r, Some(m)),
                Ok((r2, i2, stop)) => if stop || i2 <= i || i2 > args.len() {
                    (r2, None)
                } else {
                    tokenize_from(args, i2, r2)
                },
            }
        } else if a.len() > 1 && a[0] == 45 {
            match short_opts(r, a.subrange(1, a.len() as int), 0, args, i + 1) {
                Err(m) => (r, Some(m)),
                Ok((r2, i2, stop)) => if stop || i2 <= i || i2 > args.len() {
                    (r2, None)
                } else {
                    tokenize_from(args, i2, r2)
                },
            }
        } else {
            (
                r,
                Some(
                    unexpected_msg(
                        utf8_lossy(a),
                        if i > 0 {
                            Some(args[i - 1])
                        } else {
                            None
                        },
                    ),
                ),
            )
        }
    }
}

proof fn lemma_long_opt_advances(r: RawView, name: Seq<char>, value: Option<Seq<u8>>, args: Seq<Seq<u8>>, i: int)
    requires
        0 <= i <= args.len(),
    ensures
        long_opt(r, name, value, args, i) matches Ok((_, i2, stop)) ==> i <= i2 <= args.len(),
{
}

proof fn lemma_short_opts_advances(r: RawView, chars: Seq<u8>, j: nat, args: Seq<Seq<u8>>, i: int)
    requires
        0 <= i <= args.len(),
    ensures
        short_opts(r, chars, j, args, i) matches Ok((_, i2, stop)) ==> i <= i2 <= args.len(),
    decreases chars.len() - j,
{
    if j < chars.len() {
        let c = chars[j as int];
        match short_kind(c) {
            OptKind::Flag(f) => lemma_short_opts_advances(set_flag(r, f), chars, j + 1, args, i),
            _ => {},
        }
    }
}

/// Tokenize the arguments (without the program name). Returns the accumulator
/// and, if tokenizing failed, the usage error message.
pub fn tokenize(args: &Vec<Vec<u8>>) -> (r: (Raw, Option<String>))
    ensures
        os(r.1) == tokenize_from(vecs_view(args@), 0, raw_empty_view()).1,
        r.1 is None ==> r.0@ == tokenize_from(vecs_view(args@), 0, raw_empty_view()).0,
        r.0@.seconds == tokenize_from(vecs_view(args@), 0, raw_empty_view()).0.seconds,
{
    let ghost av = vecs_view(args@);
    let ghost goal = tokenize_from(av, 0, raw_empty_view());
    let mut raw = raw_empty();
    let mut i: usize = 0;
    while i < args.len()
        invariant
            i <= args@.len(),
            av == vecs_view(args@),
            goal == tokenize_from(av, 0, raw_empty_view()),
            goal == tokenize_from(av, i as int, raw@),
        decreases args@.len() - i,
    {
        let a: &Vec<u8> = &args[i];
        assert(av[i as int] == a@);
        let n: usize = a.len();
        if n == 2 && a[0] == 45 && a[1] == 45 {
            let mut argv: Vec<Vec<u8>> = Vec::new();
            assert(vecs_view(argv@) =~= Seq::<Seq<u8>>::empty());
            copy_args_from(args, i + 1, &mut argv);
            assert(Seq::<Seq<u8>>::empty() + av.subrange(i + 1, av.len() as int) =~= av.subrange(
                i + 1,
                av.len() as int,
            ));
            raw.exec_argv = Some(argv);
            assert(a@ == seq![45u8, 45]);
            return (raw, None);
        }
        assert(a@ != seq![45u8, 45]);
        if n >= 2 && a[0] == 45 && a[1] == 45 {
            let body = slice_range(a.as_slice(), 2, n);
            let (name_bytes, value) = match find_byte(body.as_slice(), 61, 0) {
                Some(eq) => {
                    proof {
                        lemma_index_of_from(body@, 61, 0);
                    }
                    (
                        slice_range(body.as_slice(), 0, eq),
                        Some(slice_range(body.as_slice(), eq + 1, body.len())),
                    )
                },
                None => (body, None),
            };
            let name = lossy_string(name_bytes.as_slice());
            let mut next: usize = i + 1;
            proof {
                lemma_long_opt_advances(raw@, name@, ob(value), av, i + 1);
            }
            match handle_long(&mut raw, &name, value, args, &mut next) {
                Err(m) => {
                    return (raw, Some(m));
                },
                Ok(stop) => {
                    if stop {
                        return (raw, None);
                    }
                },
            }
            i = next;
        } else if n > 1 && a[0] == 45 {
            let chars = slice_range(a.as_slice(), 1, n);
            let mut next: usize = i + 1;
            proof {
                lemma_short_opts_advances(raw@, chars@, 0, av, i + 1);
            }
            match handle_short(&mut raw, chars.as_slice(), args, &mut next) {
                Err(m) => {
                    return (raw, Some(m));
                },
                Ok(stop) => {
                    if stop {
                        return (raw, None);
                    }
                },
            }
            i = next;
        } else {
            let arg = lossy_string(a.as_slice());
            let prev = if i > 0 {
                Some(&args[i - 1])
            } else {
                None
            };
            let m = unexpected_argument(&arg, prev);
            return (raw, Some(m));
        }
    }
    (raw, None)
}


// ---- properties of the tokenizer -----------------------------------------------------

/// `--` is an alias of `-e`: at the position where either stands as an
/// option, everything after it becomes the REPL command and tokenizing stops.
pub proof fn law_double_dash_is_exec(args: Seq<Seq<u8>>, i: int, r: RawView)
    requires
        0 <= i < args.len(),
    ensures
        tokenize_from(args.update(i, seq![45u8, 45]), i, r) == tokenize_from(
            args.update(i, seq![45u8, 101]),
            i,
            r,
        ),
        tokenize_from(args.update(i, seq![45u8, 45]), i, r) == (
            RawView { exec_argv: Some(args.subrange(i + 1, args.len() as int)), ..r },
            None::<Seq<char>>,
        ),
{
    let dd = args.update(i, seq![45u8, 45]);
    let e = args.update(i, seq![45u8, 101]);
    assert(dd.subrange(i + 1, dd.len() as int) =~= args.subrange(i + 1, args.len() as int));
    assert(e.subrange(i + 1, e.len() as int) =~= args.subrange(i + 1, args.len() as int));
    assert(e[i].subrange(1, e[i].len() as int) =~= seq![101u8]);
    assert(seq![101u8].subrange(1, 1) =~= Seq::<u8>::empty());
    assert(Seq::<Seq<u8>>::empty() + args.subrange(i + 1, args.len() as int) =~= args.subrange(
        i + 1,
        args.len() as int,
    ));
}

/// Optional-value options (`-a`, `-u`, `-d`, `-k` and their long forms)
/// take their value only when it is attached: they never consume the next
/// argument.
pub proof fn law_optional_values_are_attached(
    r: RawView,
    name: Seq<char>,
    value: Option<Seq<u8>>,
    chars: Seq<u8>,
    args: Seq<Seq<u8>>,
    i: int,
)
    ensures
        (long_kind(name) is Addr || long_kind(name) is Path) ==> (long_opt(r, name, value, args, i)
            matches Ok((_, next, stop)) && next == i && !stop),
        chars.len() > 0 && (short_kind(chars[0]) is Addr || short_kind(chars[0]) is Path)
            ==> (short_opts(r, chars, 0, args, i) matches Ok((_, next, stop)) && next == i && !stop),
{
}

// ---- properties of the option table --------------------------------------------------

/// Each short letter is an abbreviation of its long name: `-s`/`--server`,
/// `-c`/`--client`, `-r`/`--restart`, `-h`/`--help`, `-a`/`--addr`,
/// `-u`/`--unixsocket`, `-d`/`--pidfile`, `-k`/`--kill`, `-p`/`--port`,
/// `-i`/`--arginput`, `-f`/`--fileinput`, `-m`/`--end-marker-stdout`,
/// `-x`/`--suffix` and `-e`/`--exec` select the same option, the one the name
/// says.
pub proof fn law_short_letters_match_long_names()
    ensures
        long_kind("server"@) == short_kind(115u8),
        short_kind(115u8) == OptKind::Flag(FlagField::Server),
        long_kind("client"@) == short_kind(99u8),
        short_kind(99u8) == OptKind::Flag(FlagField::Client),
        long_kind("restart"@) == short_kind(114u8),
        short_kind(114u8) == OptKind::Flag(FlagField::Restart),
        long_kind("help"@) == short_kind(104u8),
        short_kind(104u8) == OptKind::Flag(FlagField::Help),
        long_kind("addr"@) == short_kind(97u8),
        short_kind(97u8) == OptKind::Addr,
        long_kind("unixsocket"@) == short_kind(117u8),
        short_kind(117u8) == OptKind::Path(PathField::Unix),
        long_kind("pidfile"@) == short_kind(100u8),
        short_kind(100u8) == OptKind::Path(PathField::Pidfile),
        long_kind("kill"@) == short_kind(107u8),
        short_kind(107u8) == OptKind::Path(PathField::Kill),
        long_kind("port"@) == short_kind(112u8),
        short_kind(112u8) == OptKind::Port,
        long_kind("arginput"@) == short_kind(105u8),
        short_kind(105u8) == OptKind::Bytes(BytesField::Arginput),
        long_kind("fileinput"@) == short_kind(102u8),
        short_kind(102u8) == OptKind::Bytes(BytesField::Fileinput),
        long_kind("end-marker-stdout"@) == short_kind(109u8),
        short_kind(109u8) == OptKind::Bytes(BytesField::EndOut),
        long_kind("suffix"@) == short_kind(120u8),
        short_kind(120u8) == OptKind::Bytes(BytesField::Suffix),
        long_kind("exec"@) == short_kind(101u8),
        short_kind(101u8) == OptKind::Exec,
{
    reveal_strlit("server");
    reveal_strlit("client");
    reveal_strlit("restart");
    reveal_strlit("strip-marker-stdout");
    reveal_strlit("strip-marker-stderr");
    reveal_strlit("raw");
    reveal_strlit("help");
    reveal_strlit("version");
    reveal_strlit("addr");
    reveal_strlit("unixsocket");
    reveal_strlit("pidfile");
    reveal_strlit("kill");
    reveal_strlit("port");
    reveal_strlit("arginput");
    reveal_strlit("suffix");
    reveal_strlit("end-marker-stdout");
    reveal_strlit("end-marker-stderr");
    reveal_strlit("error-marker-stdout");
    reveal_strlit("error-marker-stderr");
    reveal_strlit("ready-marker-stdout");
    reveal_strlit("ready-marker-stderr");
    reveal_strlit("ready-wait");
    reveal_strlit("ready-marker-timeout");
    reveal_strlit("warmup-input");
    reveal_strlit("warmup-marker-stdout");
    reveal_strlit("warmup-marker-stderr");
    reveal_strlit("warmup-wait");
    reveal_strlit("warmup-marker-timeout");
    reveal_strlit("ctl");
    reveal_strlit("timeout");
    reveal_strlit("response-timeout");
    reveal_strlit("fileinput");
    reveal_strlit("exec");
    assert("client"@[0] != "server"@[0]);
    assert("restart"@.len() != "server"@.len());
    assert("restart"@.len() != "client"@.len());
    assert("help"@.len() != "server"@.len());
    assert("help"@.len() != "client"@.len());
    assert("help"@.len() != "restart"@.len());
    assert("help"@.len() != "strip-marker-stdout"@.len());
    assert("help"@.len() != "strip-marker-stderr"@.len());
    assert("help"@.len() != "raw"@.len());
    assert("addr"@.len() != "server"@.len());
    assert("addr"@.len() != "client"@.len());
    assert("addr"@.len() != "restart"@.len());
    assert("addr"@.len() != "strip-marker-stdout"@.len());
    assert("addr"@.len() != "strip-marker-stderr"@.len());
    assert("addr"@.len() != "raw"@.len());
    assert("addr"@[0] != "help"@[0]);
    assert("addr"@.len() != "version"@.len());
    assert("unixsocket"@.len() != "server"@.len());
    assert("unixsocket"@.len() != "client"@.len());
    assert("unixsocket"@.len() != "restart"@.len());
    assert("unixsocket"@.len() != "strip-marker-stdout"@.len());
    assert("unixsocket"@.len() != "strip-marker-stderr"@.len());
    assert("unixsocket"@.len() != "raw"@.len());
    assert("unixsocket"@.len() != "help"@.len());
    assert("unixsocket"@.len() != "version"@.len());
    assert("unixsocket"@.len() != "addr"@.len());
    assert("pidfile"@.len() != "server"@.len());
    assert("pidfile"@.len() != "client"@.len());
    assert("pidfile"@[0] != "restart"@[0]);
    assert("pidfile"@.len() != "strip-marker-stdout"@.len());
    assert("pidfile"@.len() != "strip-marker-stderr"@.len());
    assert("pidfile"@.len() != "raw"@.len());
    assert("pidfile"@.len() != "help"@.len());
    assert("pidfile"@[0] != "version"@[0]);
    assert("pidfile"@.len() != "addr"@.len());
    assert("pidfile"@.len() != "unixsocket"@.len());
    assert("kill"@.len() != "server"@.len());
    assert("kill"@.len() != "client"@.len());
    assert("kill"@.len() != "restart"@.len());
    assert("kill"@.len() != "strip-marker-stdout"@.len());
    assert("kill"@.len() != "strip-marker-stderr"@.len());
    assert("kill"@.len() != "raw"@.len());
    assert("kill"@[0] != "help"@[0]);
    assert("kill"@.len() != "version"@.len());
    assert("kill"@[0] != "addr"@[0]);
    assert("kill"@.len() != "unixsocket"@.len());
    assert("kill"@.len() != "pidfile"@.len());
    assert("port"@.len() != "server"@.len());
    assert("port"@.len() != "client"@.len());
    assert("port"@.len() != "restart"@.len());
    assert("port"@.len() != "strip-marker-stdout"@.len());
    assert("port"@.len() != "strip-marker-stderr"@.len());
    assert("port"@.len() != "raw"@.len());
    assert("port"@[0] != "help"@[0]);
    assert("port"@.len() != "version"@.len());
    assert("port"@[0] != "addr"@[0]);
    assert("port"@.len() != "unixsocket"@.len());
    assert("port"@.len() != "pidfile"@.len());
    assert("port"@[0] != "kill"@[0]);
    assert("arginput"@.len() != "server"@.len());
    assert("arginput"@.len() != "client"@.len());
    assert("arginput"@.len() != "restart"@.len());
    assert("arginput"@.len() != "strip-marker-stdout"@.len());
    assert("arginput"@.len() != "strip-marker-stderr"@.len());
    assert("arginput"@.len() != "raw"@.len());
    assert("arginput"@.len() != "help"@.len());
    assert("arginput"@.len() != "version"@.len());
    assert("arginput"@.len() != "addr"@.len());
    assert("arginput"@.len() != "unixsocket"@.len());
    assert("arginput"@.len() != "pidfile"@.len());
    assert("arginput"@.len() != "kill"@.len());
    assert("arginput"@.len() != "port"@.len());
    assert("fileinput"@.len() != "server"@.len());
    assert("fileinput"@.len() != "client"@.len());
    assert("fileinput"@.len() != "restart"@.len());
    assert("fileinput"@.len() != "strip-marker-stdout"@.len());
    assert("fileinput"@.len() != "strip-marker-stderr"@.len());
    assert("fileinput"@.len() != "raw"@.len());
    assert("fileinput"@.len() != "help"@.len());
    assert("fileinput"@.len() != "version"@.len());
    assert("fileinput"@.len() != "addr"@.len());
    assert("fileinput"@.len() != "unixsocket"@.len());
    assert("fileinput"@.len() != "pidfile"@.len());
    assert("fileinput"@.len() != "kill"@.len());
    assert("fileinput"@.len() != "port"@.len());
    assert("fileinput"@.len() != "arginput"@.len());
    assert("fileinput"@.len() != "suffix"@.len());
    assert("fileinput"@.len() != "end-marker-stdout"@.len());
    assert("fileinput"@.len() != "end-marker-stderr"@.len());
    assert("fileinput"@.len() != "error-marker-stdout"@.len());
    assert("fileinput"@.len() != "error-marker-stderr"@.len());
    assert("fileinput"@.len() != "ready-marker-stdout"@.len());
    assert("fileinput"@.len() != "ready-marker-stderr"@.len());
    assert("fileinput"@.len() != "ready-wait"@.len());
    assert("fileinput"@.len() != "ready-marker-timeout"@.len());
    assert("fileinput"@.len() != "warmup-input"@.len());
    assert("fileinput"@.len() != "warmup-marker-stdout"@.len());
    assert("fileinput"@.len() != "warmup-marker-stderr"@.len());
    assert("fileinput"@.len() != "warmup-wait"@.len());
    assert("fileinput"@.len() != "warmup-marker-timeout"@.len());
    assert("fileinput"@.len() != "ctl"@.len());
    assert("fileinput"@.len() != "timeout"@.len());
    assert("fileinput"@.len() != "response-timeout"@.len());
    assert("end-marker-stdout"@.len() != "server"@.len());
    assert("end-marker-stdout"@.len() != "client"@.len());
    assert("end-marker-stdout"@.len() != "restart"@.len());
    assert("end-marker-stdout"@.len() != "strip-marker-stdout"@.len());
    assert("end-marker-stdout"@.len() != "strip-marker-stderr"@.len());
    assert("end-marker-stdout"@.len() != "raw"@.len());
    assert("end-marker-stdout"@.len() != "help"@.len());
    assert("end-marker-stdout"@.len() != "version"@.len());
    assert("end-marker-stdout"@.len() != "addr"@.len());
    assert("end-marker-stdout"@.len() != "unixsocket"@.len());
    assert("end-marker-stdout"@.len() != "pidfile"@.len());
    assert("end-marker-stdout"@.len() != "kill"@.len());
    assert("end-marker-stdout"@.len() != "port"@.len());
    assert("end-marker-stdout"@.len() != "arginput"@.len());
    assert("end-marker-stdout"@.len() != "suffix"@.len());
    assert("suffix"@[1] != "server"@[1]);
    assert("suffix"@[0] != "client"@[0]);
    assert("suffix"@.len() != "restart"@.len());
    assert("suffix"@.len() != "strip-marker-stdout"@.len());
    assert("suffix"@.len() != "strip-marker-stderr"@.len());
    assert("suffix"@.len() != "raw"@.len());
    assert("suffix"@.len() != "help"@.len());
    assert("suffix"@.len() != "version"@.len());
    assert("suffix"@.len() != "addr"@.len());
    assert("suffix"@.len() != "unixsocket"@.len());
    assert("suffix"@.len() != "pidfile"@.len());
    assert("suffix"@.len() != "kill"@.len());
    assert("suffix"@.len() != "port"@.len());
    assert("suffix"@.len() != "arginput"@.len());
    assert("exec"@.len() != "server"@.len());
    assert("exec"@.len() != "client"@.len());
    assert("exec"@.len() != "restart"@.len());
    assert("exec"@.len() != "strip-marker-stdout"@.len());
    assert("exec"@.len() != "strip-marker-stderr"@.len());
    assert("exec"@.len() != "raw"@.len());
    assert("exec"@[0] != "help"@[0]);
    assert("exec"@.len() != "version"@.len());
    assert("exec"@[0] != "addr"@[0]);
    assert("exec"@.len() != "unixsocket"@.len());
    assert("exec"@.len() != "pidfile"@.len());
    assert("exec"@[0] != "kill"@[0]);
    assert("exec"@[0] != "port"@[0]);
    assert("exec"@.len() != "arginput"@.len());
    assert("exec"@.len() != "suffix"@.len());
    assert("exec"@.len() != "end-marker-stdout"@.len());
    assert("exec"@.len() != "end-marker-stderr"@.len());
    assert("exec"@.len() != "error-marker-stdout"@.len());
    assert("exec"@.len() != "error-marker-stderr"@.len());
    assert("exec"@.len() != "ready-marker-stdout"@.len());
    assert("exec"@.len() != "ready-marker-stderr"@.len());
    assert("exec"@.len() != "ready-wait"@.len());
    assert("exec"@.len() != "ready-marker-timeout"@.len());
    assert("exec"@.len() != "warmup-input"@.len());
    assert("exec"@.len() != "warmup-marker-stdout"@.len());
    assert("exec"@.len() != "warmup-marker-stderr"@.len());
    assert("exec"@.len() != "warmup-wait"@.len());
    assert("exec"@.len() != "warmup-marker-timeout"@.len());
    assert("exec"@.len() != "ctl"@.len());
    assert("exec"@.len() != "timeout"@.len());
    assert("exec"@.len() != "response-timeout"@.len());
    assert("exec"@.len() != "fileinput"@.len());
}

/// No two long option names select the same option: a known option is
/// selected by exactly one name.
pub proof fn law_long_names_distinct(a: Seq<char>, b: Seq<char>)
    requires
        long_kind(a) == long_kind(b),
        !(long_kind(a) is Unknown),
    ensures
        a == b,
{
}

/// No two short letters select the same option.
pub proof fn law_short_letters_distinct(a: u8, b: u8)
    requires
        short_kind(a) == short_kind(b),
        !(short_kind(a) is Unknown),
    ensures
        a == b,
{
}

} // verus!
