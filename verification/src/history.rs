//! The `clipmesh history` subcommand: list a node's remembered clipboard contents, print
//! one, or put one back on its clipboard.

use crate::backoff::Nanos;
use crate::config::{with_default_port, with_port, Config};
use crate::offer::{bytes_of, offer_pairs, types_of};
use crate::paste::{available, list_available, parsed_as, printed, select_fault};
use crate::paste::{selected, take_selected};
use crate::protocol::{human, human_bytes, HistoryEntry, HistoryMiss, HistoryRequest};
use crate::protocol::{HistoryResult, SelectionKind, Unavailable};
use crate::text::{chars_of, decimal, decimal_of, find_char, has_prefix, join, join_of, quote};
use crate::text::{push_spaces, quoted, repeat, same, starts_with, string_of, strip_prefix, texts};
use crate::text::{opt_text, trim_end, trim_end_of};
use vstd::prelude::*;
use vstd::utf8::encode_utf8;

verus! {

/// How long to wait for the node's answer.
pub const HISTORY_TIMEOUT: Nanos = 10_000_000_000;

/// How many characters of an entry's hash the listing prints.
pub const ID_CHARS: usize = 8;

/// How the subcommand is used.
pub const USAGE: &'static str =
    "usage: clipmesh history list                      (what this node remembers)\n\
    \x20      clipmesh history get <e> [-t <mime>] [-n]  (print one entry)\n\
    \x20      clipmesh history restore <e>               (put it back on the clipboard)\n\
    \x20      ... <e> is a row number or an ID, both from `history list`\n\
    \x20      ... each also taking [--node <host[:port]>] [--config <path>]";

/// What the invocation asks the node to do.
#[derive(Debug, Clone, PartialEq, Eq)]
pub enum Command {
    List,
    /// Print entry `entry`: a row number or an id; the node decides which.
    Get { entry: String },
    Restore { entry: String },
}

/// Parsed arguments of the subcommand.
#[derive(Debug, Clone, PartialEq, Eq)]
pub struct HistoryArgs {
    pub command: Command,
    /// Print this exact MIME type (`-t`/`--type`); `None` auto-selects.
    pub type_: Option<String>,
    /// Suppress the trailing newline for text types (`-n`/`--no-newline`).
    pub no_newline: bool,
    /// Node to talk to (`--node`); `None` means this host's own daemon.
    pub node: Option<String>,
    pub config: Option<String>,
}

/// What the invocation asks the node to do, over texts.
#[verifier::ext_equal]
pub enum CommandView {
    List,
    Get(Seq<char>),
    Restore(Seq<char>),
}

impl View for Command {
    type V = CommandView;

    open spec fn view(&self) -> CommandView {
        match *self {
            Command::List => CommandView::List,
            Command::Get { entry } => CommandView::Get(entry@),
            Command::Restore { entry } => CommandView::Restore(entry@),
        }
    }
}

/// The flags and the rest of the arguments, over texts.
#[verifier::ext_equal]
pub struct FlagsView {
    pub type_: Option<Seq<char>>,
    pub no_newline: bool,
    pub node: Option<Seq<char>>,
    pub config: Option<Seq<char>>,
    pub ids: Seq<Seq<char>>,
}

/// Parsed arguments, over texts.
#[verifier::ext_equal]
pub struct HistoryView {
    pub command: CommandView,
    pub type_: Option<Seq<char>>,
    pub no_newline: bool,
    pub node: Option<Seq<char>>,
    pub config: Option<Seq<char>>,
}

impl View for HistoryArgs {
    type V = HistoryView;

    open spec fn view(&self) -> HistoryView {
        HistoryView {
            command: self.command@,
            type_: opt_text(self.type_),
            no_newline: self.no_newline,
            node: opt_text(self.node),
            config: opt_text(self.config),
        }
    }
}

/// The place of the first `=`, or the end.
pub open spec fn equals_at(s: Seq<char>) -> int
    decreases s.len(),
{
    if s.len() == 0 || s[0] == '=' {
        0
    } else {
        1 + equals_at(s.skip(1))
    }
}

/// A flag and the value attached to it: `--type=text/plain`, or `-ttext/plain`, where a
/// short flag is exactly two characters. (A second character beyond ASCII starts no
/// value: no flag has one.)
pub open spec fn split_flag(arg: Seq<char>) -> (Seq<char>, Option<Seq<char>>) {
    if has_prefix(arg, "--"@) {
        let i = equals_at(arg);
        if i < arg.len() {
            (arg.take(i), Some(arg.skip(i + 1)))
        } else {
            (arg, None)
        }
    } else if arg.len() > 2 && arg[0] == '-' && arg[1] <= '\x7f' {
        (arg.take(2), Some(arg.skip(2)))
    } else {
        (arg, None)
    }
}

proof fn lemma_equals_at(s: Seq<char>, n: nat)
    requires
        n <= s.len(),
        forall|k: int| 0 <= k < n ==> s[k] != '=',
        n < s.len() ==> s[n as int] == '=',
    ensures
        equals_at(s) == n,
    decreases n,
{
    if n > 0 {
        lemma_equals_at(s.skip(1), (n - 1) as nat);
    }
}

fn split_flag_of(arg: &str) -> (r: (String, Option<String>))
    ensures
        (r.0@, opt_text(r.1)) == split_flag(arg@),
{
    let v = chars_of(arg);
    let n: usize = v.len();
    if starts_with(arg, "--") {
        let i: usize = find_char(&v, 0, '=');
        proof {
            lemma_equals_at(v@, i as nat);
        }
        if i < n {
            proof {
                assert(v@.subrange(0, i as int) =~= v@.take(i as int));
                assert(v@.subrange(i + 1, n as int) =~= v@.skip(i + 1));
            }
            return (string_of(&v, 0, i), Some(string_of(&v, i + 1, n)));
        }
    } else if n > 2 && v[0] == '-' && v[1] <= '\x7f' {
        proof {
            assert(v@.subrange(0, 2) =~= v@.take(2));
            assert(v@.subrange(2, n as int) =~= v@.skip(2));
        }
        return (string_of(&v, 0, 2), Some(string_of(&v, 2, n)));
    }
    (arg.to_string(), None)
}

/// What a flag of the subcommand is.
#[derive(Clone, Copy, PartialEq, Eq, Structural)]
pub enum HistoryFlag {
    Type,
    NoNewline,
    Node,
    Config,
    /// No flag at all: an entry.
    Entry,
    Unknown,
}

/// What a flag of the subcommand is.
pub open spec fn history_flag(flag: Seq<char>) -> HistoryFlag {
    if flag == "-t"@ || flag == "--type"@ {
        HistoryFlag::Type
    } else if flag == "-n"@ || flag == "--no-newline"@ {
        HistoryFlag::NoNewline
    } else if flag == "--node"@ {
        HistoryFlag::Node
    } else if flag == "--config"@ {
        HistoryFlag::Config
    } else if !has_prefix(flag, "-"@) {
        HistoryFlag::Entry
    } else {
        HistoryFlag::Unknown
    }
}

fn history_flag_of(flag: &str) -> (r: HistoryFlag)
    ensures
        r == history_flag(flag@),
{
    if same(flag, "-t") || same(flag, "--type") {
        HistoryFlag::Type
    } else if same(flag, "-n") || same(flag, "--no-newline") {
        HistoryFlag::NoNewline
    } else if same(flag, "--node") {
        HistoryFlag::Node
    } else if same(flag, "--config") {
        HistoryFlag::Config
    } else if !starts_with(flag, "-") {
        HistoryFlag::Entry
    } else {
        HistoryFlag::Unknown
    }
}

/// No flags.
pub open spec fn no_flags() -> FlagsView {
    FlagsView { type_: None, no_newline: false, node: None, config: None, ids: Seq::empty() }
}

/// The flags after a value was given to one of them.
pub open spec fn with_value(v: FlagsView, flag: HistoryFlag, value: Seq<char>) -> FlagsView {
    match flag {
        HistoryFlag::Type => FlagsView { type_: Some(value), ..v },
        HistoryFlag::Node => FlagsView { node: Some(value), ..v },
        _ => FlagsView { config: Some(value), ..v },
    }
}

/// What the arguments from the `i`th on mean, beside those before them.
pub open spec fn flags_parsed(args: Seq<Seq<char>>, i: int, v: FlagsView) -> Result<
    FlagsView,
    Seq<char>,
>
    decreases args.len() - i,
{
    if i >= args.len() {
        Ok(v)
    } else {
        let (name, attached) = split_flag(args[i]);
        let flag = history_flag(name);
        match flag {
            HistoryFlag::Unknown => Err("unknown history flag: "@ + name + "\n"@ + USAGE@),
            HistoryFlag::NoNewline => if attached is Some {
                Err(name + " does not take a value"@)
            } else {
                flags_parsed(args, i + 1, FlagsView { no_newline: true, ..v })
            },
            HistoryFlag::Entry => flags_parsed(
                args,
                i + 1,
                FlagsView { ids: v.ids.push(args[i]), ..v },
            ),
            _ => match attached {
                Some(value) => flags_parsed(args, i + 1, with_value(v, flag, value)),
                None => if i + 1 < args.len() {
                    flags_parsed(args, i + 2, with_value(v, flag, args[i + 1]))
                } else {
                    Err(name + " needs a value"@)
                },
            },
        }
    }
}

/// The one entry that a command takes.
pub open spec fn one_entry(what: Seq<char>, ids: Seq<Seq<char>>) -> Result<Seq<char>, Seq<char>> {
    if ids.len() == 1 {
        Ok(ids[0])
    } else if ids.len() == 0 {
        Err(
            "history "@ + what + " needs the number or id `clipmesh history list` printed\n"@
                + USAGE@,
        )
    } else {
        Err(
            "history "@ + what + " takes one entry; got "@ + decimal(ids.len()) + "\n"@
                + USAGE@,
        )
    }
}

/// The command that a verb means with some entries.
pub open spec fn command_parsed(verb: Seq<char>, ids: Seq<Seq<char>>) -> Result<
    CommandView,
    Seq<char>,
> {
    if verb == "list"@ {
        if ids.len() > 0 {
            Err("history list takes no arguments; got "@ + quoted(ids[0]) + "\n"@ + USAGE@)
        } else {
            Ok(CommandView::List)
        }
    } else if verb == "get"@ {
        match one_entry("get"@, ids) {
            Ok(e) => Ok(CommandView::Get(e)),
            Err(m) => Err(m),
        }
    } else if verb == "restore"@ {
        match one_entry("restore"@, ids) {
            Ok(e) => Ok(CommandView::Restore(e)),
            Err(m) => Err(m),
        }
    } else {
        Err("unknown history command "@ + quoted(verb) + "\n"@ + USAGE@)
    }
}

/// What the arguments mean: a verb, and behind it flags and entries in any order. The
/// output flags are refused where there is no output.
pub open spec fn history_parsed(args: Seq<Seq<char>>) -> Result<HistoryView, Seq<char>> {
    if args.len() == 0 {
        Err(USAGE@)
    } else {
        match flags_parsed(args, 1, no_flags()) {
            Err(m) => Err(m),
            Ok(v) => match command_parsed(args[0], v.ids) {
                Err(m) => Err(m),
                Ok(command) => if !(command is Get) && (v.type_ is Some || v.no_newline) {
                    Err(
                        "-t/--type and -n/--no-newline only apply to `history get`"@ + "\n"@ + USAGE@,
                    )
                } else {
                    Ok(
                        HistoryView {
                            command,
                            type_: v.type_,
                            no_newline: v.no_newline,
                            node: v.node,
                            config: v.config,
                        },
                    )
                },
            },
        }
    }
}

struct Flags {
    type_: Option<String>,
    no_newline: bool,
    node: Option<String>,
    config: Option<String>,
    ids: Vec<String>,
}

impl View for Flags {
    type V = FlagsView;

    closed spec fn view(&self) -> FlagsView {
        FlagsView {
            type_: opt_text(self.type_),
            no_newline: self.no_newline,
            node: opt_text(self.node),
            config: opt_text(self.config),
            ids: texts(self.ids@),
        }
    }
}

fn with_usage(text: &str) -> (r: String)
    ensures
        r@ == text@ + "\n"@ + USAGE@,
{
    let mut s = text.to_string();
    s.append("\n");
    s.append(USAGE);
    s
}

fn parse_flags(args: &[String]) -> (r: Result<Flags, String>)
    requires
        args.len() > 0,
    ensures
        parsed_as(r, flags_parsed(texts(args@), 1, no_flags())),
{
    let mut out = Flags {
        type_: None,
        no_newline: false,
        node: None,
        config: None,
        ids: Vec::new(),
    };
    let ghost all = texts(args@);
    proof {
        assert(texts(out.ids@) =~= Seq::<Seq<char>>::empty());
    }
    let mut i: usize = 1;
    while i < args.len()
        invariant
            1 <= i <= args.len(),
            all == texts(args@),
            flags_parsed(all, 1, no_flags()) == flags_parsed(all, i as int, out@),
        decreases args.len() - i,
    {
        let (name, attached) = split_flag_of(args[i].as_str());
        let flag = history_flag_of(name.as_str());
        match flag {
            HistoryFlag::Unknown => {
                let mut e = "unknown history flag: ".to_string();
                e.append(name.as_str());
                return Err(with_usage(e.as_str()));
            },
            HistoryFlag::NoNewline => {
                if attached.is_some() {
                    let mut e = name;
                    e.append(" does not take a value");
                    return Err(e);
                }
                out.no_newline = true;
                i += 1;
            },
            HistoryFlag::Entry => {
                let ghost was = texts(out.ids@);
                out.ids.push(args[i].clone());
                proof {
                    assert(texts(out.ids@) =~= was.push(all[i as int]));
                }
                i += 1;
            },
            HistoryFlag::Type | HistoryFlag::Node | HistoryFlag::Config => {
                let value;
                match attached {
                    Some(v) => {
                        value = v;
                        i += 1;
                    },
                    None => {
                        if args.len() - i < 2 {
                            let mut e = name;
                            e.append(" needs a value");
                            return Err(e);
                        }
                        value = args[i + 1].clone();
                        i += 2;
                    },
                }
                match flag {
                    HistoryFlag::Type => {
                        out.type_ = Some(value);
                    },
                    HistoryFlag::Node => {
                        out.node = Some(value);
                    },
                    _ => {
                        out.config = Some(value);
                    },
                }
            },
        }
    }
    Ok(out)
}

fn one_entry_of(what: &str, ids: &[String]) -> (r: Result<String, String>)
    ensures
        match (r, one_entry(what@, texts(ids@))) {
            (Ok(e), Ok(v)) => e@ == v,
            (Err(e), Err(m)) => e@ == m,
            _ => false,
        },
{
    if ids.len() == 1 {
        return Ok(ids[0].clone());
    }
    let mut e = "history ".to_string();
    e.append(what);
    if ids.len() == 0 {
        e.append(" needs the number or id `clipmesh history list` printed\n");
    } else {
        e.append(" takes one entry; got ");
        e.append(decimal_of(ids.len() as u128).as_str());
        e.append("\n");
    }
    e.append(USAGE);
    Err(e)
}

fn command_of(verb: &str, ids: &[String]) -> (r: Result<Command, String>)
    ensures
        parsed_as(r, command_parsed(verb@, texts(ids@))),
{
    if same(verb, "list") {
        if ids.len() > 0 {
            let mut e = "history list takes no arguments; got ".to_string();
            e.append(quote(ids[0].as_str()).as_str());
            proof {
                assert(texts(ids@)[0] == ids@[0]@);
            }
            return Err(with_usage(e.as_str()));
        }
        return Ok(Command::List);
    }
    if same(verb, "get") {
        return match one_entry_of("get", ids) {
            Ok(entry) => Ok(Command::Get { entry }),
            Err(e) => Err(e),
        };
    }
    if same(verb, "restore") {
        return match one_entry_of("restore", ids) {
            Ok(entry) => Ok(Command::Restore { entry }),
            Err(e) => Err(e),
        };
    }
    let mut e = "unknown history command ".to_string();
    e.append(quote(verb).as_str());
    Err(with_usage(e.as_str()))
}

impl HistoryArgs {
    /// Parses `list|get|restore` plus its flags. Both spellings of an attached value are
    /// taken, the short one split by position, so that `-ttext/plain;charset=utf-8` survives
    /// its own `=`.
    pub fn parse(args: &[String]) -> (r: Result<HistoryArgs, String>)
        ensures
            parsed_as(r, history_parsed(texts(args@))),
    {
        if args.len() == 0 {
            return Err(USAGE.to_string());
        }
        let flags = match parse_flags(args) {
            Ok(f) => f,
            Err(e) => {
                return Err(e);
            },
        };
        let command = match command_of(args[0].as_str(), flags.ids.as_slice()) {
            Ok(c) => c,
            Err(e) => {
                return Err(e);
            },
        };
        let prints = match &command {
            Command::Get { .. } => true,
            _ => false,
        };
        if !prints && (flags.type_.is_some() || flags.no_newline) {
            return Err(
                with_usage("-t/--type and -n/--no-newline only apply to `history get`"),
            );
        }
        Ok(
            HistoryArgs {
                command,
                type_: flags.type_,
                no_newline: flags.no_newline,
                node: flags.node,
                config: flags.config,
            },
        )
    }
}

/// The address at which the daemon that listens on `listen` is reached from its own host:
/// one that listens on every interface is reached on the loopback one.
pub open spec fn loopback(listen: Seq<char>) -> Seq<char> {
    if has_prefix(listen, "0.0.0.0:"@) {
        "127.0.0.1:"@ + listen.skip("0.0.0.0:"@.len() as int)
    } else if has_prefix(listen, "[::]:"@) {
        "[::1]:"@ + listen.skip("[::]:"@.len() as int)
    } else {
        listen
    }
}

/// The address of this host's own daemon.
pub fn local_addr(cfg: &Config) -> (r: String)
    ensures
        r@ == loopback(cfg.listen@),
{
    if let Some(port) = strip_prefix(cfg.listen.as_str(), "0.0.0.0:") {
        let mut s = "127.0.0.1:".to_string();
        s.append(port.as_str());
        return s;
    }
    if let Some(port) = strip_prefix(cfg.listen.as_str(), "[::]:") {
        let mut s = "[::1]:".to_string();
        s.append(port.as_str());
        return s;
    }
    cfg.listen.clone()
}

/// The node to talk to: `--node` when given (a bare host gets the configured port), else
/// this host's own daemon. A history is per node, so peers are not raced.
pub fn target(cfg: &Config, node: Option<&str>) -> (r: String)
    ensures
        r@ == (match node {
            Some(n) => with_port(n@, decimal(cfg.port as nat)),
            None => loopback(cfg.listen@),
        }),
{
    match node {
        Some(n) => {
            let port = decimal_of(cfg.port as u128);
            with_default_port(n, port.as_str())
        },
        None => local_addr(cfg),
    }
}

/// Whether a request asks what the arguments ask.
pub open spec fn asks(v: HistoryView, req: HistoryRequest) -> bool {
    match v.command {
        CommandView::List => req is List,
        CommandView::Get(e) => req matches HistoryRequest::Get { entry, type_ } && entry@ == e
            && opt_text(type_) == v.type_,
        CommandView::Restore(e) => req matches HistoryRequest::Restore { entry } && entry@ == e,
    }
}

/// The request for the arguments.
pub fn request(args: &HistoryArgs) -> (r: HistoryRequest)
    ensures
        asks(args@, r),
{
    match &args.command {
        Command::List => HistoryRequest::List,
        Command::Get { entry } => HistoryRequest::Get {
            entry: entry.clone(),
            type_: match &args.type_ {
                Some(t) => Some(t.clone()),
                None => None,
            },
        },
        Command::Restore { entry } => HistoryRequest::Restore { entry: entry.clone() },
    }
}

/// What is being waited for, for the timeout message.
pub fn awaited(command: &Command) -> (r: &'static str)
    ensures
        r@ == (if command@ is List {
            "history listing"@
        } else {
            "clipboard"@
        }),
{
    match command {
        Command::List => "history listing",
        _ => "clipboard",
    }
}

/// The selection an entry came from, in `wl-paste`'s vocabulary.
pub open spec fn place_name(kind: SelectionKind) -> Seq<char> {
    match kind {
        SelectionKind::Clipboard => "clipboard"@,
        SelectionKind::Selection => "primary"@,
    }
}

/// The selection an entry came from, in `wl-paste`'s vocabulary.
pub fn where_of(kind: SelectionKind) -> (r: &'static str)
    ensures
        r@ == place_name(kind),
{
    match kind {
        SelectionKind::Clipboard => "clipboard",
        SelectionKind::Selection => "primary",
    }
}

/// A short age token: "just now", "45s", "3m", "2h", "4d".
pub open spec fn age_text(ms: nat) -> Seq<char> {
    if ms < 5_000 {
        "just now"@
    } else if ms < 60_000 {
        decimal(ms / 1_000) + "s"@
    } else if ms < 3_600_000 {
        decimal(ms / 60_000) + "m"@
    } else if ms < 86_400_000 {
        decimal(ms / 3_600_000) + "h"@
    } else {
        decimal(ms / 86_400_000) + "d"@
    }
}

/// A short age token: "just now", "45s", "3m", "2h", "4d".
pub fn age(ms: u64) -> (r: String)
    ensures
        r@ == age_text(ms as nat),
{
    if ms < 5_000 {
        return "just now".to_string();
    }
    let (n, unit): (u64, &str) = if ms < 60_000 {
        (ms / 1_000, "s")
    } else if ms < 3_600_000 {
        (ms / 60_000, "m")
    } else if ms < 86_400_000 {
        (ms / 3_600_000, "h")
    } else {
        (ms / 86_400_000, "d")
    };
    let mut s = decimal_of(n as u128);
    s.append(unit);
    s
}

/// The names of the types of an entry.
pub open spec fn entry_types(types: Seq<(String, u64)>) -> Seq<Seq<char>> {
    types.map_values(|t: (String, u64)| t.0@)
}

/// What an entry's content column says: its preview, or its type names when nothing in it
/// is text.
pub open spec fn content_text(e: HistoryEntry) -> Seq<char> {
    match e.preview {
        Some(p) => p@,
        None => join(entry_types(e.types@), ", "@),
    }
}

/// What an entry's content column says.
pub fn content_of(entry: &HistoryEntry) -> (r: String)
    ensures
        r@ == content_text(*entry),
{
    match &entry.preview {
        Some(p) => p.clone(),
        None => {
            let mut names: Vec<String> = Vec::new();
            let mut i: usize = 0;
            while i < entry.types.len()
                invariant
                    i <= entry.types@.len(),
                    names@.len() == i,
                    forall|k: int| 0 <= k < i ==> (#[trigger] names@[k])@ == entry.types@[k].0@,
                decreases entry.types@.len() - i,
            {
                names.push(entry.types[i].0.clone());
                i += 1;
            }
            proof {
                assert(texts(names@) =~= entry_types(entry.types@));
            }
            join_of(names.as_slice(), ", ")
        },
    }
}

/// The hexadecimal digits.
pub const HEX: [char; 16] = [
    '0', '1', '2', '3', '4', '5', '6', '7', '8', '9', 'a', 'b', 'c', 'd', 'e', 'f',
];

/// The hexadecimal digit at a place of a hash.
pub open spec fn hex_at(hash: Seq<u8>, i: int) -> char {
    if i % 2 == 0 {
        HEX@[hash[i / 2] as int / 16]
    } else {
        HEX@[hash[i / 2] as int % 16]
    }
}

/// The id a listing prints for an entry: the first characters of its content hash.
pub open spec fn id_text(hash: Seq<u8>) -> Seq<char> {
    Seq::new(ID_CHARS as nat, |i: int| hex_at(hash, i))
}

/// The id a listing prints for an entry: the first [`ID_CHARS`] hex characters of its
/// content hash.
pub fn short_id(hash: &[u8; 32]) -> (r: String)
    ensures
        r@ == id_text(hash@),
{
    let digits = HEX;
    let mut s = String::new();
    let mut i: usize = 0;
    while i < ID_CHARS
        invariant
            i <= ID_CHARS,
            digits == HEX,
            s@.len() == i,
            forall|k: int| 0 <= k < i ==> s@[k] == hex_at(hash@, k),
        decreases ID_CHARS - i,
    {
        let b: u8 = hash[i / 2];
        let nibble: u8 = if i % 2 == 0 {
            b / 16
        } else {
            b % 16
        };
        s.push(digits[nibble as usize]);
        i += 1;
    }
    assert(s@ =~= id_text(hash@));
    s
}

/// The row of an entry.
pub open spec fn row_of(e: HistoryEntry) -> Seq<Seq<char>> {
    seq![
        decimal(e.index as nat),
        id_text(e.hash@),
        age_text(e.age_ms as nat),
        place_name(e.kind),
        human((e.bytes as usize) as nat),
        content_text(e),
    ]
}

/// The header of the table.
pub open spec fn header_row() -> Seq<Seq<char>> {
    seq!["#"@, "ID"@, "AGE"@, "WHERE"@, "SIZE"@, "CONTENT"@]
}

/// The table: the header, and a row for each entry.
pub open spec fn table_of(entries: Seq<HistoryEntry>) -> Seq<Seq<Seq<char>>> {
    seq![header_row()] + entries.map_values(|e: HistoryEntry| row_of(e))
}

/// The width of a column: that of its widest cell.
pub open spec fn column_width(table: Seq<Seq<Seq<char>>>, c: int) -> nat
    decreases table.len(),
{
    if table.len() == 0 {
        0
    } else {
        let rest = column_width(table.drop_last(), c);
        let cell = table.last()[c].len();
        if cell > rest {
            cell
        } else {
            rest
        }
    }
}

/// The first `n` cells of a row, each padded to the width of its column and two spaces
/// more.
pub open spec fn padded_cells(row: Seq<Seq<char>>, table: Seq<Seq<Seq<char>>>, n: nat) -> Seq<char>
    decreases n,
{
    if n == 0 {
        Seq::empty()
    } else {
        let c = n - 1;
        padded_cells(row, table, (n - 1) as nat) + row[c] + repeat(
            ' ',
            (column_width(table, c) - row[c].len() + 2) as nat,
        )
    }
}

/// A row as a line: the content column runs to the end and is never padded.
pub open spec fn row_line(row: Seq<Seq<char>>, table: Seq<Seq<Seq<char>>>) -> Seq<char> {
    trim_end(padded_cells(row, table, 5) + row[5]) + "\n"@
}

/// The lines of some rows.
pub open spec fn row_lines(rows: Seq<Seq<Seq<char>>>, table: Seq<Seq<Seq<char>>>) -> Seq<char>
    decreases rows.len(),
{
    if rows.len() == 0 {
        Seq::empty()
    } else {
        row_lines(rows.drop_last(), table) + row_line(rows.last(), table)
    }
}

/// The `history list` output.
pub open spec fn listing(entries: Seq<HistoryEntry>, addr: Seq<char>) -> Seq<char> {
    decimal(entries.len()) + " remembered clipboard(s) on "@ + addr + "\n\n"@ + row_lines(
        table_of(entries),
        table_of(entries),
    )
        + "\nPut one back with: clipmesh history restore <#>, or its ID — a later copy renumbers the rows but never the ids\n"@
}

/// The cells of a table.
pub open spec fn cells(rows: Seq<Vec<String>>) -> Seq<Seq<Seq<char>>> {
    rows.map_values(|row: Vec<String>| texts(row@))
}

/// A row of six cells.
fn six(a: String, b: String, c: String, d: String, e: String, f: String) -> (r: Vec<String>)
    ensures
        texts(r@) == seq![a@, b@, c@, d@, e@, f@],
{
    let mut r: Vec<String> = Vec::new();
    r.push(a);
    r.push(b);
    r.push(c);
    r.push(d);
    r.push(e);
    r.push(f);
    assert(texts(r@) =~= seq![a@, b@, c@, d@, e@, f@]);
    r
}

fn table(entries: &[HistoryEntry]) -> (r: Vec<Vec<String>>)
    ensures
        cells(r@) == table_of(entries@),
{
    let mut r: Vec<Vec<String>> = Vec::new();
    r.push(
        six(
            "#".to_string(),
            "ID".to_string(),
            "AGE".to_string(),
            "WHERE".to_string(),
            "SIZE".to_string(),
            "CONTENT".to_string(),
        ),
    );
    let mut i: usize = 0;
    while i < entries.len()
        invariant
            i <= entries@.len(),
            r@.len() == i + 1,
            texts(r@[0]@) == header_row(),
            forall|k: int| 0 <= k < i ==> texts((#[trigger] r@[k + 1])@) == row_of(entries@[k]),
        decreases entries@.len() - i,
    {
        let e = &entries[i];
        let row = six(
            decimal_of(e.index as u128),
            short_id(&e.hash),
            age(e.age_ms),
            where_of(e.kind).to_string(),
            human_bytes(e.bytes as usize),
            content_of(e),
        );
        proof {
            assert(texts(row@) == row_of(entries@[i as int]));
        }
        r.push(row);
        i += 1;
    }
    proof {
        let t = table_of(entries@);
        assert forall|k: int| 0 <= k < t.len() implies cells(r@)[k] == t[k] by {
            if k > 0 {
                assert(texts(r@[(k - 1) + 1]@) == row_of(entries@[k - 1]));
            }
        }
        assert(cells(r@) =~= t);
    }
    r
}

fn width(rows: &[Vec<String>], c: usize) -> (r: usize)
    requires
        c < 6,
        forall|k: int| 0 <= k < rows@.len() ==> (#[trigger] rows@[k])@.len() == 6,
    ensures
        r == column_width(cells(rows@), c as int),
        forall|k: int|
            0 <= k < rows@.len() ==> (#[trigger] rows@[k])@[c as int]@.len() <= r,
{
    let ghost t = cells(rows@);
    let mut w: usize = 0;
    let mut i: usize = 0;
    proof {
        assert(t.take(0) =~= Seq::<Seq<Seq<char>>>::empty());
    }
    while i < rows.len()
        invariant
            i <= rows@.len(),
            c < 6,
            t == cells(rows@),
            forall|k: int| 0 <= k < rows@.len() ==> (#[trigger] rows@[k])@.len() == 6,
            w == column_width(t.take(i as int), c as int),
            forall|k: int| 0 <= k < i ==> (#[trigger] rows@[k])@[c as int]@.len() <= w,
        decreases rows@.len() - i,
    {
        let n: usize = chars_of(rows[i][c].as_str()).len();
        proof {
            assert(t.take(i + 1).drop_last() =~= t.take(i as int));
            assert(t.take(i + 1).last() == texts(rows@[i as int]@));
        }
        if n > w {
            w = n;
        }
        i += 1;
    }
    proof {
        assert(t.take(t.len() as int) =~= t);
    }
    w
}

fn line(row: &[String], rows: &[Vec<String>]) -> (r: String)
    requires
        cells(rows@).contains(texts(row@)),
        forall|k: int| 0 <= k < rows@.len() ==> (#[trigger] rows@[k])@.len() == 6,
    ensures
        r@ == row_line(texts(row@), cells(rows@)),
{
    let ghost t = cells(rows@);
    let ghost cs = texts(row@);
    proof {
        let k = choose|k: int| 0 <= k < t.len() && t[k] == cs;
        assert(t[k].len() == rows@[k]@.len());
    }
    let mut out = String::new();
    let mut c: usize = 0;
    while c < 5
        invariant
            c <= 5,
            t == cells(rows@),
            cs == texts(row@),
            cs.len() == 6,
            t.contains(cs),
            forall|k: int| 0 <= k < rows@.len() ==> (#[trigger] rows@[k])@.len() == 6,
            out@ == padded_cells(cs, t, c as nat),
        decreases 5 - c,
    {
        let w: usize = width(rows, c);
        let n: usize = chars_of(row[c].as_str()).len();
        let ghost before = out@;
        proof {
            let k = choose|k: int| 0 <= k < t.len() && t[k] == cs;
            assert(texts(rows@[k]@)[c as int] == cs[c as int]);
            assert(rows@[k]@[c as int]@.len() <= w);
        }
        out.append(row[c].as_str());
        push_spaces(&mut out, w - n);
        push_spaces(&mut out, 2);
        proof {
            let total = (w - n + 2) as nat;
            assert(out@ =~= before + cs[c as int] + repeat(' ', total));
        }
        c += 1;
    }
    out.append(row[5].as_str());
    let mut r = trim_end_of(out.as_str());
    r.append("\n");
    r
}

/// The `history list` table.
pub fn render_listing(entries: &[HistoryEntry], addr: &str) -> (r: String)
    ensures
        r@ == listing(entries@, addr@),
{
    let rows = table(entries);
    let ghost t = cells(rows@);
    let mut out = decimal_of(entries.len() as u128);
    out.append(" remembered clipboard(s) on ");
    out.append(addr);
    out.append("\n\n");
    let ghost head = out@;
    let mut i: usize = 0;
    proof {
        assert(t.take(0) =~= Seq::<Seq<Seq<char>>>::empty());
        assert(head + Seq::<char>::empty() =~= head);
        assert(t.len() == table_of(entries@).len());
        assert forall|k: int| 0 <= k < rows@.len() implies (#[trigger] rows@[k])@.len() == 6 by {
            assert(t[k].len() == rows@[k]@.len());
            assert(t[k] == table_of(entries@)[k]);
            if k > 0 {
                assert(table_of(entries@)[k] == row_of(entries@[k - 1]));
            }
        }
    }
    while i < rows.len()
        invariant
            i <= rows@.len(),
            t == cells(rows@),
            forall|k: int| 0 <= k < rows@.len() ==> (#[trigger] rows@[k])@.len() == 6,
            out@ == head + row_lines(t.take(i as int), t),
        decreases rows@.len() - i,
    {
        proof {
            assert(t.take(i + 1).drop_last() =~= t.take(i as int));
            assert(t[i as int] == texts(rows@[i as int]@));
        }
        let text = line(rows[i].as_slice(), rows.as_slice());
        let ghost before = row_lines(t.take(i as int), t);
        out.append(text.as_str());
        proof {
            assert(out@ =~= head + (before + text@));
        }
        i += 1;
    }
    proof {
        assert(t.take(t.len() as int) =~= t);
    }
    out.append(
        "\nPut one back with: clipmesh history restore <#>, or its ID — a later copy renumbers the rows but never the ids\n",
    );
    out
}

/// The `history restore` confirmation, which names whether the mesh followed.
pub open spec fn restored_text(addr: Seq<char>, kind: SelectionKind, broadcast: bool) -> Seq<char> {
    if broadcast {
        "Put it back on "@ + addr + "'s "@ + place_name(kind) + " and sent it to the mesh."@
    } else {
        "Put it back on "@ + addr + "'s "@ + place_name(kind)
            + ". Not sent to the mesh — that node does not send this selection."@
    }
}

/// The `history restore` confirmation.
pub fn render_restored(addr: &str, kind: SelectionKind, broadcast: bool) -> (r: String)
    ensures
        r@ == restored_text(addr@, kind, broadcast),
{
    let mut s = "Put it back on ".to_string();
    s.append(addr);
    s.append("'s ");
    s.append(where_of(kind));
    if broadcast {
        s.append(" and sent it to the mesh.");
    } else {
        s.append(". Not sent to the mesh — that node does not send this selection.");
    }
    s
}

/// Why the content filters of a node let nothing of an entry pass.
pub open spec fn filter_text(reason: Unavailable) -> Seq<char> {
    match reason {
        Unavailable::Denied =>
            "every type in it is now denied by that node's MIME rules (see `clipmesh --rules` on that host)"@,
        Unavailable::TooLarge => "it now exceeds that node's max_payload_size"@,
        Unavailable::Sensitive => "it is flagged as a password-manager secret"@,
        _ => "nothing in it passes that node's content filters"@,
    }
}

fn filter_reason(reason: Unavailable) -> (r: &'static str)
    ensures
        r@ == filter_text(reason),
{
    match reason {
        Unavailable::Denied =>
            "every type in it is now denied by that node's MIME rules (see `clipmesh --rules` on that host)",
        Unavailable::TooLarge => "it now exceeds that node's max_payload_size",
        Unavailable::Sensitive => "it is flagged as a password-manager secret",
        _ => "nothing in it passes that node's content filters",
    }
}

/// A node's reason for having nothing to give, for the user.
pub open spec fn explanation(miss: HistoryMiss, addr: Seq<char>) -> Seq<char> {
    match miss {
        HistoryMiss::Disabled => addr
            + " is not keeping a clipboard history (history_entries = 0 in its config)"@,
        HistoryMiss::Empty => addr + " has not remembered any clipboard contents yet"@,
        HistoryMiss::NoSuchEntry { entries } => addr + " has no such entry: it remembers "@
            + decimal(entries as nat) + ", numbered 1 to "@ + decimal(entries as nat)
            + ", and no id there starts with that (`clipmesh history list` shows what is left — an entry may have been dropped to stay under that node's history limits, and a copy since your last listing renumbers the rows but never the ids)"@,
        HistoryMiss::Ambiguous { matches: n } => "that id matches "@ + decimal(n as nat)
            + " remembered clipboards on "@ + addr + " — type more of it"@,
        HistoryMiss::NotOffered { available: types } =>
            "that entry does not offer the requested type (available: "@ + available(
            texts(types@),
        ) + ")"@,
        HistoryMiss::NotSynced => addr
            + " does not handle the selection that entry came from — for a middle-click selection it needs sync_selection, and the GNOME backend has none at all"@,
        HistoryMiss::Filtered(reason) => addr + " still has that entry, but "@ + filter_text(reason)
            + " — its content filters have changed since it was remembered"@,
        HistoryMiss::WriteFailed => addr
            + " could not write the entry to its clipboard; its log says why"@,
    }
}

fn after(addr: &str, text: &str) -> (r: String)
    ensures
        r@ == addr@ + text@,
{
    let mut s = addr.to_string();
    s.append(text);
    s
}

/// Renders a node's reason for having nothing to give, in the second person.
pub fn explain(miss: &HistoryMiss, addr: &str) -> (r: String)
    ensures
        r@ == explanation(*miss, addr@),
{
    match miss {
        HistoryMiss::Disabled => after(
            addr,
            " is not keeping a clipboard history (history_entries = 0 in its config)",
        ),
        HistoryMiss::Empty => after(addr, " has not remembered any clipboard contents yet"),
        HistoryMiss::NoSuchEntry { entries } => {
            let n = decimal_of(*entries as u128);
            let mut s = after(addr, " has no such entry: it remembers ");
            s.append(n.as_str());
            s.append(", numbered 1 to ");
            s.append(n.as_str());
            s.append(
                ", and no id there starts with that (`clipmesh history list` shows what is left — an entry may have been dropped to stay under that node's history limits, and a copy since your last listing renumbers the rows but never the ids)",
            );
            s
        },
        HistoryMiss::Ambiguous { matches: n } => {
            let mut s = "that id matches ".to_string();
            s.append(decimal_of(*n as u128).as_str());
            s.append(" remembered clipboards on ");
            s.append(addr);
            s.append(" — type more of it");
            s
        },
        HistoryMiss::NotOffered { available: types } => {
            let mut s = "that entry does not offer the requested type (available: ".to_string();
            s.append(list_available(types.as_slice()).as_str());
            s.append(")");
            s
        },
        HistoryMiss::NotSynced => after(
            addr,
            " does not handle the selection that entry came from — for a middle-click selection it needs sync_selection, and the GNOME backend has none at all",
        ),
        HistoryMiss::Filtered(reason) => {
            let mut s = after(addr, " still has that entry, but ");
            s.append(filter_reason(*reason));
            s.append(" — its content filters have changed since it was remembered");
            s
        },
        HistoryMiss::WriteFailed => after(
            addr,
            " could not write the entry to its clipboard; its log says why",
        ),
    }
}

/// What the subcommand does with a node's answer.
pub enum Outcome {
    /// Print these bytes.
    Print(Vec<u8>),
    /// Fail with this message.
    Fail(String),
    /// The answer has not the shape that the request asks for.
    Mismatch(HistoryResult),
}

/// What is done with a node's answer to the arguments.
pub open spec fn answered(v: HistoryView, result: HistoryResult, addr: Seq<char>, r: Outcome) -> bool {
    match (result, v.command) {
        (HistoryResult::List(entries), CommandView::List) => r matches Outcome::Print(bytes)
            && bytes@ == encode_utf8(listing(entries@, addr)),
        (HistoryResult::Offer(offer), CommandView::Get(_)) => {
            let pairs = offer_pairs(offer);
            let types = types_of(pairs);
            match selected(v.type_, types) {
                Some(i) => bytes_of(pairs, types[i]) matches Some(data)
                    && r matches Outcome::Print(bytes) && bytes@ == printed(
                    data,
                    types[i],
                    v.no_newline,
                ),
                None => r matches Outcome::Fail(e) && e@ == select_fault(v.type_, types),
            }
        },
        (HistoryResult::Restored { kind, broadcast }, CommandView::Restore(_)) => r
            matches Outcome::Print(bytes) && bytes@ == encode_utf8(
            restored_text(addr, kind, broadcast) + "\n"@,
        ),
        (HistoryResult::Failed(miss), _) => r matches Outcome::Fail(e) && e@ == explanation(
            miss,
            addr,
        ),
        _ => r == Outcome::Mismatch(result),
    }
}

/// What is done with a node's answer: a listing, a confirmation or the content of an entry
/// is printed, and a miss is explained.
pub fn answer(args: &HistoryArgs, result: HistoryResult, addr: &str) -> (r: Outcome)
    ensures
        answered(args@, result, addr@, r),
{
    match (result, &args.command) {
        (HistoryResult::List(entries), Command::List) => {
            let text = render_listing(entries.as_slice(), addr);
            Outcome::Print(crate::clipboard::atoms::copy_bytes(text.as_str().as_bytes()))
        },
        (HistoryResult::Offer(offer), Command::Get { .. }) => {
            let requested = match &args.type_ {
                Some(t) => Some(t.as_str()),
                None => None,
            };
            match take_selected(requested, offer, args.no_newline) {
                Ok(bytes) => Outcome::Print(bytes),
                Err(e) => Outcome::Fail(e),
            }
        },
        (HistoryResult::Restored { kind, broadcast }, Command::Restore { .. }) => {
            let mut text = render_restored(addr, kind, broadcast);
            text.append("\n");
            Outcome::Print(crate::clipboard::atoms::copy_bytes(text.as_str().as_bytes()))
        },
        (HistoryResult::Failed(miss), _) => Outcome::Fail(explain(&miss, addr)),
        (other, _) => Outcome::Mismatch(other),
    }
}

} // verus!
