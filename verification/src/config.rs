//! The configuration: its on-disk shape, and the values that a node runs with.

use crate::digest::{blake3_digest, blake3_hash};
use crate::text::{chars_of, contains_char, decimal, decimal_of, find_last, has_suffix, last_index};
use crate::text::{parse_unsigned, quote, quoted, string_of, strip_suffix, texts, trim, trim_of};
use crate::text::{opt_text, unsigned};
use vstd::prelude::*;
use vstd::utf8::encode_utf8;

verus! {

/// Which way clipboard contents travel.
#[derive(Debug, Clone, Copy, PartialEq, Eq, Structural)]
pub enum Direction {
    Both,
    SendOnly,
    ReceiveOnly,
}

/// What to do with a MIME type that has no rule in the rules file yet.
#[derive(Debug, Clone, Copy, PartialEq, Eq, Structural)]
pub enum MimePolicy {
    Allow,
    Deny,
}

/// Which clipboard backend to run.
#[derive(Debug, Clone, Copy, PartialEq, Eq, Structural)]
pub enum BackendChoice {
    /// Ask the compositor.
    Auto,
    /// The Wayland data-control protocol.
    DataControl,
    /// Mutter's clipboard API.
    Mutter,
}

/// Whether to mirror one local selection into the other on this host, one boolean
/// per direction.
#[derive(Debug, Clone, Copy, PartialEq, Eq, Structural)]
pub struct LinkSelections {
    /// A Ctrl+C clipboard copy is also written to the middle-click selection.
    pub clipboard_to_selection: bool,
    /// A mouse text selection is also written to the Ctrl+C clipboard.
    pub selection_to_clipboard: bool,
}

impl Default for LinkSelections {
    /// No mirroring in either direction.
    fn default() -> (r: LinkSelections)
        ensures
            !r.clipboard_to_selection,
            !r.selection_to_clipboard,
    {
        LinkSelections { clipboard_to_selection: false, selection_to_clipboard: false }
    }
}

/// Every key the config file accepts.
pub const RAW_CONFIG_KEYS: [&'static str; 20] = [
    "listen",
    "port",
    "peers",
    "psk",
    "psk_file",
    "psk_env",
    "max_payload_size",
    "debounce_ms",
    "sync_selection",
    "link_selections",
    "direction",
    "exclude_sensitive",
    "resync_on_connect",
    "share_mime_rules",
    "verbose",
    "log_level",
    "unknown_mime",
    "synthesize_text_plain",
    "take_ownership",
    "mime_rules_file",
];

/// The port where the file sets none.
pub fn default_port() -> (r: u16)
    ensures
        r == 48100,
{
    48100
}

/// The limit on a whole offer where the file sets none.
pub fn default_max_payload() -> (r: String)
    ensures
        r@ == "32MiB"@,
{
    "32MiB".to_string()
}

/// The quiet period where the file sets none.
pub fn default_debounce_ms() -> (r: u64)
    ensures
        r == 100,
{
    100
}

/// The direction where the file sets none.
pub fn default_direction() -> (r: Direction)
    ensures
        r == Direction::Both,
{
    Direction::Both
}

/// What the options that are on by default default to.
pub fn default_true() -> (r: bool)
    ensures
        r,
{
    true
}

/// The log level where the file sets none.
pub fn default_log_level() -> (r: String)
    ensures
        r@ == "info"@,
{
    "info".to_string()
}

/// The policy for unknown types where the file sets none.
pub fn default_unknown_mime() -> (r: MimePolicy)
    ensures
        r == MimePolicy::Deny,
{
    MimePolicy::Deny
}

/// The on-disk shape of the configuration: what each key of the file says, where
/// the file has it.
#[derive(Debug, Clone)]
pub struct RawConfig {
    /// Bind address (host or IP, no port); combined with `port`.
    pub listen: String,
    /// Port to listen on, and the default for peers that omit their own.
    pub port: Option<u16>,
    pub peers: Option<Vec<String>>,
    pub psk: Option<String>,
    pub psk_file: Option<String>,
    pub psk_env: Option<String>,
    pub max_payload_size: Option<String>,
    pub debounce_ms: Option<u64>,
    pub sync_selection: Option<bool>,
    pub link_selections: Option<LinkSelections>,
    pub direction: Option<Direction>,
    pub exclude_sensitive: Option<bool>,
    pub resync_on_connect: Option<bool>,
    pub share_mime_rules: Option<bool>,
    pub verbose: Option<bool>,
    pub log_level: Option<String>,
    pub unknown_mime: Option<MimePolicy>,
    pub synthesize_text_plain: Option<bool>,
    pub take_ownership: Option<bool>,
    pub mime_rules_file: Option<String>,
}

impl RawConfig {
    /// A file that holds nothing but `listen`.
    pub fn new(listen: String) -> (r: RawConfig)
        ensures
            r.listen@ == listen@,
            r.port is None,
            r.peers is None,
            r.psk is None,
            r.psk_file is None,
            r.psk_env is None,
            r.max_payload_size is None,
            r.debounce_ms is None,
            r.sync_selection is None,
            r.link_selections is None,
            r.direction is None,
            r.exclude_sensitive is None,
            r.resync_on_connect is None,
            r.share_mime_rules is None,
            r.verbose is None,
            r.log_level is None,
            r.unknown_mime is None,
            r.synthesize_text_plain is None,
            r.take_ownership is None,
            r.mime_rules_file is None,
    {
        RawConfig {
            listen,
            port: None,
            peers: None,
            psk: None,
            psk_file: None,
            psk_env: None,
            max_payload_size: None,
            debounce_ms: None,
            sync_selection: None,
            link_selections: None,
            direction: None,
            exclude_sensitive: None,
            resync_on_connect: None,
            share_mime_rules: None,
            verbose: None,
            log_level: None,
            unknown_mime: None,
            synthesize_text_plain: None,
            take_ownership: None,
            mime_rules_file: None,
        }
    }
}

/// The values that a node runs with.
#[derive(Debug, Clone, PartialEq, Eq)]
pub struct Config {
    pub listen: String,
    /// The configured port: the default applied to any peer (or `--node` paste
    /// target) given without an explicit port.
    pub port: u16,
    pub peers: Vec<String>,
    /// 32-byte Noise PSK, derived from the configured secret via BLAKE3.
    pub psk: [u8; 32],
    pub max_payload_size: usize,
    pub debounce_ms: u64,
    pub sync_selection: bool,
    /// Local clipboard and selection mirroring (distinct from `sync_selection`).
    pub link_selections: LinkSelections,
    pub direction: Direction,
    pub exclude_sensitive: bool,
    /// Push current clipboard state to peers when they (re)connect.
    pub resync_on_connect: bool,
    /// Share the per-type MIME-rules file across the mesh.
    pub share_mime_rules: bool,
    /// Log a one-line summary for every detected copy and every received update.
    pub verbose: bool,
    pub log_level: String,
    /// Allow or deny a MIME type that is not yet listed in the rules file.
    pub unknown_mime: MimePolicy,
    /// Back-fill text/plain from a legacy text atom on the capture side.
    pub synthesize_text_plain: bool,
    /// After a local copy, re-offer the selection so that this node owns it.
    pub take_ownership: bool,
    /// Path to the per-type rules file; `None` keeps the rules in memory only.
    pub mime_rules_path: Option<String>,
}

/// Why a text is not a size.
#[derive(Debug, Clone, PartialEq, Eq)]
pub enum SizeError {
    /// The number in this text cannot be read.
    Invalid(String),
    /// The size that this text writes does not fit.
    Overflows(String),
}

/// The number part of a size, and how many bytes its unit has.
pub open spec fn size_parts(t: Seq<char>) -> (Seq<char>, nat) {
    if has_suffix(t, "MiB"@) {
        (t.take(t.len() - "MiB"@.len()), 1024 * 1024)
    } else if has_suffix(t, "KiB"@) {
        (t.take(t.len() - "KiB"@.len()), 1024)
    } else if has_suffix(t, "B"@) {
        (t.take(t.len() - "B"@.len()), 1)
    } else {
        (t, 1)
    }
}

/// The count in a size, in units, where it is a number.
pub open spec fn size_count(s: Seq<char>) -> Option<nat> {
    unsigned(trim(size_parts(trim(s)).0), usize::MAX as nat)
}

/// The bytes in one unit of a size.
pub open spec fn size_unit(s: Seq<char>) -> nat {
    size_parts(trim(s)).1
}

/// The size in bytes that `s` writes, where it is one that fits.
pub open spec fn size_value(s: Seq<char>) -> Option<nat> {
    match size_count(s) {
        Some(n) if n * size_unit(s) <= usize::MAX => Some(n * size_unit(s)),
        _ => None,
    }
}

/// Parses "8MiB" / "512KiB" / "64B" / "1048576" into bytes.
pub fn parse_size(s: &str) -> (r: Result<usize, SizeError>)
    ensures
        match r {
            Ok(n) => size_value(s@) == Some(n as nat),
            Err(SizeError::Invalid(t)) => size_count(s@) is None && t@ == trim(s@),
            Err(SizeError::Overflows(t)) => size_count(s@) is Some && size_value(s@) is None && t@
                == trim(s@),
        },
{
    let t = trim_of(s);
    let mib = strip_suffix(t.as_str(), "MiB");
    let kib = strip_suffix(t.as_str(), "KiB");
    let b = strip_suffix(t.as_str(), "B");
    let unit: usize = if mib.is_some() {
        1024 * 1024
    } else if kib.is_some() {
        1024
    } else {
        1
    };
    let num: String = match mib {
        Some(n) => n,
        None => match kib {
            Some(n) => n,
            None => match b {
                Some(n) => n,
                None => t.clone(),
            },
        },
    };
    match parse_unsigned(trim_of(num.as_str()).as_str(), usize::MAX as u64) {
        None => Err(SizeError::Invalid(t)),
        Some(n) => match (n as usize).checked_mul(unit) {
            Some(v) => Ok(v),
            None => Err(SizeError::Overflows(t)),
        },
    }
}

/// The port portion of a `host:port` address: what follows the closing `]:` of a
/// bracketed address, else what follows the only colon. An empty one is none.
pub open spec fn port_in(a: Seq<char>) -> Option<Seq<char>> {
    if a.len() > 0 && a[0] == '[' {
        let i = last_index(a, ']');
        if i >= 0 && i + 2 < a.len() && a[i + 1] == ':' {
            Some(a.skip(i + 2))
        } else {
            None
        }
    } else {
        let i = last_index(a, ':');
        if i >= 0 && i + 1 < a.len() && !a.take(i).contains(':') {
            Some(a.skip(i + 1))
        } else {
            None
        }
    }
}

/// The port portion of a `host:port` address, or `None` if it has none.
pub fn port_of(addr: &str) -> (r: Option<String>)
    ensures
        match r {
            Some(p) => port_in(addr@) == Some(p@),
            None => port_in(addr@) is None,
        },
{
    let v = chars_of(addr);
    proof {
        crate::text::lemma_last_index(addr@, ']');
        crate::text::lemma_last_index(addr@, ':');
    }
    if v.len() > 0 && v[0] == '[' {
        return match find_last(&v, ']') {
            Some(i) if v.len() - i > 2 && v[i + 1] == ':' => Some(string_of(&v, i + 2, v.len())),
            _ => None,
        };
    }
    match find_last(&v, ':') {
        Some(i) => {
            let head = string_of(&v, 0, i);
            if i + 1 < v.len() && !contains_char(head.as_str(), ':') {
                Some(string_of(&v, i + 1, v.len()))
            } else {
                None
            }
        },
        None => None,
    }
}

/// `addr` with `port` appended where it carries none; a bare IPv6 literal is put
/// in brackets first.
pub open spec fn with_port(addr: Seq<char>, port: Seq<char>) -> Seq<char> {
    if port_in(addr) is Some {
        addr
    } else if !(addr.len() > 0 && addr[0] == '[') && addr.contains(':') {
        "["@ + addr + "]:"@ + port
    } else {
        addr + ":"@ + port
    }
}

/// Appends `default_port` to an address that lacks one. Addresses that already
/// carry a port are returned unchanged.
pub fn with_default_port(addr: &str, default_port: &str) -> (r: String)
    ensures
        r@ == with_port(addr@, default_port@),
{
    if port_of(addr).is_some() {
        return addr.to_string();
    }
    let v = chars_of(addr);
    if !(v.len() > 0 && v[0] == '[') && contains_char(addr, ':') {
        let mut s = "[".to_string();
        s.append(addr);
        s.append("]:");
        s.append(default_port);
        s
    } else {
        let mut s = addr.to_string();
        s.append(":");
        s.append(default_port);
        s
    }
}

/// Whether an address starts with a bracket that is closed, with nothing or a colon
/// behind the last closing bracket.
pub open spec fn closed_bracket(a: Seq<char>) -> bool {
    let i = last_index(a, ']');
    &&& i >= 0
    &&& i + 1 == a.len() || a[i + 1] == ':'
}

proof fn lemma_last_index_is(s: Seq<char>, c: char, i: int)
    requires
        0 <= i < s.len(),
        s[i] == c,
        forall|k: int| i < k < s.len() ==> s[k] != c,
    ensures
        last_index(s, c) == i,
{
    crate::text::lemma_last_index(s, c);
}

/// Whether a bracketed address ends in a colon without a port behind it.
pub open spec fn dangling_colon(a: Seq<char>) -> bool {
    a.len() > 0 && a[0] == '[' && last_index(a, ']') + 2 == a.len()
}

/// An address to which a port was added carries one from then on: that port, unless the
/// address ended in a colon, or the one that it had. Adding a port again, whichever,
/// changes nothing. An address that opens a bracket has to close it.
pub proof fn with_port_carries_a_port(addr: Seq<char>, port: Seq<char>, other: Seq<char>)
    requires
        port.len() > 0,
        crate::text::all_digits(port),
        addr.len() > 0 && addr[0] == '[' ==> closed_bracket(addr),
    ensures
        port_in(with_port(addr, port)) is Some,
        !dangling_colon(addr) ==> port_in(with_port(addr, port)) == (match port_in(addr) {
            Some(own) => Some(own),
            None => Some(port),
        }),
        with_port(with_port(addr, port), other) == with_port(addr, port),
{
    reveal_strlit("[");
    reveal_strlit("]:");
    reveal_strlit(":");
    let p = port;
    crate::text::lemma_last_index(addr, ']');
    crate::text::lemma_last_index(addr, ':');
    let r = with_port(addr, p);
    if port_in(addr) is None {
        if !(addr.len() > 0 && addr[0] == '[') && addr.contains(':') {
            assert(r =~= "["@ + addr + "]:"@ + p);
            let i = 1 + addr.len() as int;
            assert(r[i] == ']' && r[i + 1] == ':' && r[0] == '[');
            assert forall|k: int| i < k < r.len() implies r[k] != ']' by {
                if k > i + 1 {
                    assert(r[k] == p[k - i - 2]);
                }
            }
            lemma_last_index_is(r, ']', i);
            assert(r.skip(i + 2) =~= p);
        } else if addr.len() > 0 && addr[0] == '[' {
            assert(r =~= addr + ":"@ + p);
            let i = last_index(addr, ']');
            assert(r[i] == ']' && r[0] == '[');
            assert(r[i + 1] == ':');
            assert forall|k: int| i < k < r.len() implies r[k] != ']' by {
                if k < addr.len() {
                    assert(r[k] == addr[k]);
                } else if k > addr.len() {
                    assert(r[k] == p[k - addr.len() - 1]);
                }
            }
            lemma_last_index_is(r, ']', i);
            assert(i + 1 == addr.len() ==> r.skip(i + 2) =~= p);
        } else {
            assert(r =~= addr + ":"@ + p);
            let i = addr.len() as int;
            assert(r[i] == ':');
            assert forall|k: int| i < k < r.len() implies r[k] != ':' by {
                assert(r[k] == p[k - addr.len() - 1]);
            }
            lemma_last_index_is(r, ':', i);
            assert(r.take(i) =~= addr);
            assert(r.skip(i + 1) =~= p);
            assert(!(r[0] == '[')) by {
                if addr.len() > 0 {
                    assert(r[0] == addr[0]);
                }
            }
        }
    }
}

/// Whether a text begins with a `~` that stands for the home directory.
pub open spec fn has_tilde(s: Seq<char>) -> bool {
    s.len() > 0 && s[0] == '~' && (s.len() == 1 || s[1] == '/')
}

/// What a leading `~` is replaced by: `~` alone, and `~` before a slash, stand for
/// the home directory, whatever that is; any other text stays.
pub open spec fn tilde_expands(s: Seq<char>, r: Seq<char>) -> bool {
    if has_tilde(s) {
        exists|home: Seq<char>| r == #[trigger] (home + s.skip(1))
    } else {
        r == s
    }
}

/// `shellexpand::tilde`: expands a leading `~`. Which home directory it finds, and
/// whether it finds one, is up to the environment.
#[verifier::external_body]
pub(crate) fn tilde(s: &str) -> (r: String)
    ensures
        tilde_expands(s@, r@),
{
    shellexpand::tilde(s).into_owned()
}

/// The configuration root that `$XDG_CONFIG_HOME` and the default give: a value
/// that is not an absolute path is ignored.
pub open spec fn root_of(xdg_config_home: Option<Seq<char>>, default: Seq<char>) -> Seq<char> {
    match xdg_config_home {
        Some(dir) if crate::fsutil::is_absolute(dir) => dir,
        _ => default,
    }
}

/// The configuration root that `$XDG_CONFIG_HOME` and the default give: a value
/// that is not an absolute path is ignored.
pub fn choose_root(xdg_config_home: Option<String>, default: String) -> (r: String)
    ensures
        r@ == root_of(
            match xdg_config_home {
                Some(d) => Some(d@),
                None => None,
            },
            default@,
        ),
{
    match xdg_config_home {
        Some(dir) => {
            if crate::fsutil::absolute(dir.as_str()) {
                dir
            } else {
                default
            }
        },
        None => default,
    }
}

/// The XDG config root for a given `$XDG_CONFIG_HOME` value; the default is
/// `~/.config`.
pub fn config_root(xdg_config_home: Option<String>) -> (r: String)
    ensures
        exists|default: Seq<char>| #[trigger]
            tilde_expands("~/.config"@, default) && r@ == root_of(
                match xdg_config_home {
                    Some(d) => Some(d@),
                    None => None,
                },
                default,
            ),
{
    let default = tilde("~/.config");
    let ghost d = default@;
    let r = choose_root(xdg_config_home, default);
    assert(tilde_expands("~/.config"@, d));
    r
}

/// The default config path under the root that `$XDG_CONFIG_HOME` gives.
pub fn default_config_path(xdg_config_home: Option<String>) -> (r: String)
    ensures
        exists|default: Seq<char>| #[trigger]
            tilde_expands("~/.config"@, default) && r@ == crate::fsutil::joined(
                crate::fsutil::joined(
                    root_of(
                        match xdg_config_home {
                            Some(d) => Some(d@),
                            None => None,
                        },
                        default,
                    ),
                    "clipmesh"@,
                ),
                "config.toml"@,
            ),
{
    let root = config_root(xdg_config_home);
    let dir = crate::fsutil::join_path(root.as_str(), "clipmesh");
    crate::fsutil::join_path(dir.as_str(), "config.toml")
}

/// Where the preshared secret comes from.
#[derive(Debug, PartialEq, Eq)]
pub enum PskSource {
    /// The secret itself.
    Inline(String),
    /// The path of a file that holds it.
    File(String),
    /// The name of an environment variable that holds it.
    Env(String),
}

/// Why a configuration cannot be used.
#[derive(Debug, PartialEq, Eq)]
pub enum ConfigError {
    /// Not exactly one of psk, psk_file and psk_env is set.
    NotOnePskSource,
    /// The file of this path cannot be read.
    PskFileUnreadable(String),
    /// The environment variable of this name cannot be read.
    PskEnvUnreadable(String),
    /// The preshared secret is empty.
    EmptySecret,
    /// `listen` holds a port.
    ListenHasPort { port: String, listen: String },
    /// The number in the size cannot be read.
    InvalidSize(String),
    /// The size does not fit.
    SizeOverflows(String),
    /// The size is 0.
    ZeroPayloadSize,
}

/// Why a configuration cannot be used, over texts.
#[verifier::ext_equal]
pub enum ConfigFault {
    NotOnePskSource,
    PskFileUnreadable(Seq<char>),
    PskEnvUnreadable(Seq<char>),
    EmptySecret,
    ListenHasPort { port: Seq<char>, listen: Seq<char> },
    InvalidSize(Seq<char>),
    SizeOverflows(Seq<char>),
    ZeroPayloadSize,
}

impl View for ConfigError {
    type V = ConfigFault;

    open spec fn view(&self) -> ConfigFault {
        match *self {
            ConfigError::NotOnePskSource => ConfigFault::NotOnePskSource,
            ConfigError::PskFileUnreadable(p) => ConfigFault::PskFileUnreadable(p@),
            ConfigError::PskEnvUnreadable(v) => ConfigFault::PskEnvUnreadable(v@),
            ConfigError::EmptySecret => ConfigFault::EmptySecret,
            ConfigError::ListenHasPort { port, listen } => ConfigFault::ListenHasPort {
                port: port@,
                listen: listen@,
            },
            ConfigError::InvalidSize(s) => ConfigFault::InvalidSize(s@),
            ConfigError::SizeOverflows(s) => ConfigFault::SizeOverflows(s@),
            ConfigError::ZeroPayloadSize => ConfigFault::ZeroPayloadSize,
        }
    }
}

/// What a configuration error says.
pub open spec fn fault_message(f: ConfigFault) -> Seq<char> {
    match f {
        ConfigFault::NotOnePskSource => "exactly one of psk, psk_file, psk_env must be set"@,
        ConfigFault::PskFileUnreadable(p) => "reading psk_file "@ + p,
        ConfigFault::PskEnvUnreadable(v) => "reading psk_env "@ + v,
        ConfigFault::EmptySecret => "preshared secret is empty"@,
        ConfigFault::ListenHasPort { port, listen } => "listen must not include a port (found "@
            + quoted(port) + " in "@ + quoted(listen)
            + "); set the port with the separate `port` field instead"@,
        ConfigFault::InvalidSize(s) => "invalid size: "@ + quoted(s),
        ConfigFault::SizeOverflows(s) => "size overflows: "@ + quoted(s),
        ConfigFault::ZeroPayloadSize => "max_payload_size must be greater than 0"@,
    }
}

impl ConfigError {
    /// What the error says.
    pub fn message(&self) -> (r: String)
        ensures
            r@ == fault_message(self@),
    {
        match self {
            ConfigError::NotOnePskSource =>
                "exactly one of psk, psk_file, psk_env must be set".to_string(),
            ConfigError::PskFileUnreadable(p) => {
                let mut s = "reading psk_file ".to_string();
                s.append(p.as_str());
                s
            },
            ConfigError::PskEnvUnreadable(v) => {
                let mut s = "reading psk_env ".to_string();
                s.append(v.as_str());
                s
            },
            ConfigError::EmptySecret => "preshared secret is empty".to_string(),
            ConfigError::ListenHasPort { port, listen } => {
                let mut s = "listen must not include a port (found ".to_string();
                s.append(quote(port.as_str()).as_str());
                s.append(" in ");
                s.append(quote(listen.as_str()).as_str());
                s.append("); set the port with the separate `port` field instead");
                s
            },
            ConfigError::InvalidSize(t) => {
                let mut s = "invalid size: ".to_string();
                s.append(quote(t.as_str()).as_str());
                s
            },
            ConfigError::SizeOverflows(t) => {
                let mut s = "size overflows: ".to_string();
                s.append(quote(t.as_str()).as_str());
                s
            },
            ConfigError::ZeroPayloadSize => "max_payload_size must be greater than 0".to_string(),
        }
    }
}

/// Where the file takes the secret from, over texts.
pub enum SourceView {
    Inline(Seq<char>),
    File(Seq<char>),
    Env(Seq<char>),
}

/// The one source of the secret that the file sets.
pub open spec fn source_in(raw: RawConfig) -> Option<SourceView> {
    match (raw.psk, raw.psk_file, raw.psk_env) {
        (Some(s), None, None) => Some(SourceView::Inline(s@)),
        (None, Some(f), None) => Some(SourceView::File(f@)),
        (None, None, Some(v)) => Some(SourceView::Env(v@)),
        _ => None,
    }
}

/// The secret, given what was read from the source (`None`: nothing could be).
pub open spec fn secret_from(
    source: SourceView,
    path: Seq<char>,
    read: Option<Seq<char>>,
) -> Result<Seq<char>, ConfigFault> {
    match source {
        SourceView::Inline(s) => Ok(s),
        SourceView::File(_) => match read {
            Some(t) => Ok(trim(t)),
            None => Err(ConfigFault::PskFileUnreadable(path)),
        },
        SourceView::Env(v) => match read {
            Some(t) => Ok(t),
            None => Err(ConfigFault::PskEnvUnreadable(v)),
        },
    }
}

/// What is wrong with the file, given the path that its psk_file expands to and
/// what was read from the source of the secret.
pub open spec fn fault_in(
    raw: RawConfig,
    path: Seq<char>,
    read: Option<Seq<char>>,
) -> Option<ConfigFault> {
    match source_in(raw) {
        None => Some(ConfigFault::NotOnePskSource),
        Some(source) => match secret_from(source, path, read) {
            Err(f) => Some(f),
            Ok(secret) => {
                let size = payload_text(raw);
                if secret.len() == 0 {
                    Some(ConfigFault::EmptySecret)
                } else if port_in(raw.listen@) is Some {
                    Some(
                        ConfigFault::ListenHasPort {
                            port: port_in(raw.listen@)->0,
                            listen: raw.listen@,
                        },
                    )
                } else if size_count(size) is None {
                    Some(ConfigFault::InvalidSize(trim(size)))
                } else if size_value(size) is None {
                    Some(ConfigFault::SizeOverflows(trim(size)))
                } else if size_value(size) == Some(0nat) {
                    Some(ConfigFault::ZeroPayloadSize)
                } else {
                    None
                }
            },
        },
    }
}

/// The limit on a whole offer, as the file writes it or by default.
pub open spec fn payload_text(raw: RawConfig) -> Seq<char> {
    match raw.max_payload_size {
        Some(s) => s@,
        None => "32MiB"@,
    }
}

/// The peers that the file lists.
pub open spec fn listed_peers(raw: RawConfig) -> Seq<Seq<char>> {
    match raw.peers {
        Some(p) => texts(p@),
        None => Seq::empty(),
    }
}

/// The value of an option, or its default.
pub open spec fn or_default<T>(o: Option<T>, default: T) -> T {
    match o {
        Some(v) => v,
        None => default,
    }
}

/// Whether `cfg` is what the file means, with this secret and this rules file.
pub open spec fn means(
    cfg: Config,
    raw: RawConfig,
    secret: Seq<char>,
    rules_path: Option<Seq<char>>,
) -> bool {
    let port = or_default(raw.port, 48100);
    &&& cfg.listen@ == with_port(raw.listen@, decimal(port as nat))
    &&& cfg.port == port
    &&& texts(cfg.peers@) == listed_peers(raw).map_values(
        |p: Seq<char>| with_port(p, decimal(port as nat)),
    )
    &&& cfg.psk@ == blake3_digest(encode_utf8(secret))
    &&& size_value(payload_text(raw)) == Some(cfg.max_payload_size as nat)
    &&& cfg.debounce_ms == or_default(raw.debounce_ms, 100)
    &&& cfg.sync_selection == or_default(raw.sync_selection, false)
    &&& cfg.link_selections == or_default(
        raw.link_selections,
        LinkSelections { clipboard_to_selection: false, selection_to_clipboard: false },
    )
    &&& cfg.direction == or_default(raw.direction, Direction::Both)
    &&& cfg.exclude_sensitive == or_default(raw.exclude_sensitive, true)
    &&& cfg.resync_on_connect == or_default(raw.resync_on_connect, true)
    &&& cfg.share_mime_rules == or_default(raw.share_mime_rules, true)
    &&& cfg.verbose == or_default(raw.verbose, false)
    &&& cfg.log_level@ == (match raw.log_level {
        Some(l) => l@,
        None => "info"@,
    })
    &&& cfg.unknown_mime == or_default(raw.unknown_mime, MimePolicy::Deny)
    &&& cfg.synthesize_text_plain == or_default(raw.synthesize_text_plain, false)
    &&& cfg.take_ownership == or_default(raw.take_ownership, false)
    &&& match rules_path {
        Some(p) => cfg.mime_rules_path is Some && cfg.mime_rules_path->0@ == p,
        None => cfg.mime_rules_path is None,
    }
}

/// Whether `r` is what a file is parsed to, given the path that its psk_file expands to and
/// what was read from the source of the secret.
pub open spec fn is_parsed(
    raw: RawConfig,
    psk_path: Seq<char>,
    read: Option<Seq<char>>,
    r: Result<Config, ConfigError>,
) -> bool {
    match r {
        Err(e) => fault_in(raw, psk_path, read) == Some(e@),
        Ok(cfg) => {
            &&& fault_in(raw, psk_path, read) is None
            &&& means(
                cfg,
                raw,
                secret_from(source_in(raw)->0, psk_path, read)->Ok_0,
                opt_text(cfg.mime_rules_path),
            )
            &&& raw.mime_rules_file is None ==> cfg.mime_rules_path is None
            &&& raw.mime_rules_file matches Some(f) ==> {
                &&& cfg.mime_rules_path is Some
                &&& tilde_expands(f@, cfg.mime_rules_path->0@)
            }
        },
    }
}

/// The rules file that applies where the config file at `path` names none.
pub open spec fn rules_beside(path: Seq<char>) -> Seq<char> {
    crate::fsutil::joined(
        crate::fsutil::dir_of(crate::fsutil::std_parent(path)),
        "mimetypes"@,
    )
}

/// Whether `after` is the configuration `before` of the file at `path` in every value, with
/// the rules file beside the config where it has none.
pub open spec fn is_placed(before: Config, path: Seq<char>, after: Config) -> bool {
    &&& after == (Config { mime_rules_path: after.mime_rules_path, ..before })
    &&& after.mime_rules_path is Some
    &&& before.mime_rules_path is Some ==> after.mime_rules_path == before.mime_rules_path
    &&& before.mime_rules_path is None ==> after.mime_rules_path->0@ == rules_beside(path)
}

/// Whether the file at `path` loads as `r`, where it was parsed to `c`.
pub open spec fn completes(
    c: Result<Config, ConfigError>,
    path: Seq<char>,
    r: Result<Config, ConfigError>,
) -> bool {
    match (c, r) {
        (Ok(before), Ok(after)) => is_placed(before, path, after),
        (Err(e), Err(f)) => e == f,
        _ => false,
    }
}

/// Whether two configurations agree in every value but the rules file.
pub open spec fn agree(a: Config, b: Config) -> bool {
    &&& a.listen@ == b.listen@
    &&& a.port == b.port
    &&& texts(a.peers@) == texts(b.peers@)
    &&& a.psk@ == b.psk@
    &&& a.max_payload_size == b.max_payload_size
    &&& a.debounce_ms == b.debounce_ms
    &&& a.sync_selection == b.sync_selection
    &&& a.link_selections == b.link_selections
    &&& a.direction == b.direction
    &&& a.exclude_sensitive == b.exclude_sensitive
    &&& a.resync_on_connect == b.resync_on_connect
    &&& a.share_mime_rules == b.share_mime_rules
    &&& a.verbose == b.verbose
    &&& a.log_level@ == b.log_level@
    &&& a.unknown_mime == b.unknown_mime
    &&& a.synthesize_text_plain == b.synthesize_text_plain
    &&& a.take_ownership == b.take_ownership
}

/// Whether the file at `path` loads as `r`: as it is parsed, with the rules file beside the
/// config where it names none.
pub open spec fn is_loaded(
    path: Seq<char>,
    raw: RawConfig,
    psk_path: Seq<char>,
    read: Option<Seq<char>>,
    r: Result<Config, ConfigError>,
) -> bool {
    exists|c: Result<Config, ConfigError>| #[trigger]
        is_parsed(raw, psk_path, read, c) && completes(c, path, r)
}

/// Loading agrees with parsing: a file loads if it can be parsed, and with the same fault if
/// it cannot. The values are the same but for the rules file, which is the parsed one where
/// the file names one, and else the one beside the config. (A leading `~` is expanded anew
/// each time, and stands for whatever home directory is found then.)
pub proof fn loading_agrees_with_parsing(
    path: Seq<char>,
    raw: RawConfig,
    psk_path: Seq<char>,
    read: Option<Seq<char>>,
    c: Result<Config, ConfigError>,
    r: Result<Config, ConfigError>,
)
    requires
        is_parsed(raw, psk_path, read, c),
        is_loaded(path, raw, psk_path, read, r),
    ensures
        c is Ok <==> r is Ok,
        c matches Err(e) ==> (r matches Err(f) && f@ == e@),
        c matches Ok(a) ==> (r matches Ok(b) && {
            &&& agree(a, b)
            &&& b.mime_rules_path is Some
            &&& a.mime_rules_path is None ==> b.mime_rules_path->0@ == rules_beside(path)
            &&& raw.mime_rules_file matches Some(f) ==> {
                &&& a.mime_rules_path is Some
                &&& tilde_expands(f@, a.mime_rules_path->0@)
                &&& tilde_expands(f@, b.mime_rules_path->0@)
                &&& !has_tilde(f@) ==> a.mime_rules_path->0@ == b.mime_rules_path->0@
            }
        }),
{
}

/// The source of the secret that the file sets; the path of a file still as
/// written.
fn one_source(raw: &RawConfig) -> (r: Option<PskSource>)
    ensures
        match r {
            Some(PskSource::Inline(s)) => source_in(*raw) == Some(SourceView::Inline(s@)),
            Some(PskSource::File(f)) => source_in(*raw) == Some(SourceView::File(f@)),
            Some(PskSource::Env(v)) => source_in(*raw) == Some(SourceView::Env(v@)),
            None => source_in(*raw) is None,
        },
{
    match (&raw.psk, &raw.psk_file, &raw.psk_env) {
        (Some(s), None, None) => Some(PskSource::Inline(s.clone())),
        (None, Some(f), None) => Some(PskSource::File(f.clone())),
        (None, None, Some(v)) => Some(PskSource::Env(v.clone())),
        _ => None,
    }
}

/// Each of `peers` with the default port where it has none.
fn peers_with_port(peers: &[String], port: &str) -> (r: Vec<String>)
    ensures
        texts(r@) == texts(peers@).map_values(|p: Seq<char>| with_port(p, port@)),
{
    let mut r: Vec<String> = Vec::new();
    let mut i: usize = 0;
    while i < peers.len()
        invariant
            i <= peers@.len(),
            r@.len() == i,
            forall|k: int| 0 <= k < i ==> r@[k]@ == with_port(peers@[k]@, port@),
        decreases peers@.len() - i,
    {
        r.push(with_default_port(peers[i].as_str(), port));
        i += 1;
    }
    proof {
        assert(texts(r@) =~= texts(peers@).map_values(|p: Seq<char>| with_port(p, port@)));
    }
    r
}

impl Config {
    /// Where the secret is to be read from; of a file, the path with its leading
    /// `~` expanded.
    pub fn psk_source(raw: &RawConfig) -> (r: Result<PskSource, ConfigError>)
        ensures
            match r {
                Ok(PskSource::Inline(s)) => source_in(*raw) == Some(SourceView::Inline(s@)),
                Ok(PskSource::File(p)) => {
                    source_in(*raw) matches Some(SourceView::File(f)) && tilde_expands(f, p@)
                },
                Ok(PskSource::Env(v)) => source_in(*raw) == Some(SourceView::Env(v@)),
                Err(e) => source_in(*raw) is None && e@ == ConfigFault::NotOnePskSource,
            },
    {
        match one_source(raw) {
            Some(PskSource::File(f)) => Ok(PskSource::File(tilde(f.as_str()))),
            Some(source) => Ok(source),
            None => Err(ConfigError::NotOnePskSource),
        }
    }

    /// The configuration that a file means, given the path that its psk_file expands
    /// to, what was read from the source of the secret, and the path of the rules
    /// file.
    pub fn resolve(
        raw: RawConfig,
        psk_path: String,
        read: Option<String>,
        rules_path: Option<String>,
    ) -> (r: Result<Config, ConfigError>)
        ensures
            match r {
                Err(e) => fault_in(raw, psk_path@, opt_text(read)) == Some(e@),
                Ok(cfg) => {
                    &&& fault_in(raw, psk_path@, opt_text(read)) is None
                    &&& source_in(raw) is Some
                    &&& secret_from(source_in(raw)->0, psk_path@, opt_text(read)) is Ok
                    &&& means(
                        cfg,
                        raw,
                        secret_from(source_in(raw)->0, psk_path@, opt_text(read))->Ok_0,
                        opt_text(rules_path),
                    )
                },
            },
    {
        let secret: String = match one_source(&raw) {
            None => {
                return Err(ConfigError::NotOnePskSource);
            },
            Some(PskSource::Inline(s)) => s,
            Some(PskSource::File(_)) => match read {
                Some(t) => trim_of(t.as_str()),
                None => {
                    return Err(ConfigError::PskFileUnreadable(psk_path));
                },
            },
            Some(PskSource::Env(v)) => match read {
                Some(t) => t,
                None => {
                    return Err(ConfigError::PskEnvUnreadable(v));
                },
            },
        };
        if secret.as_str().is_empty() {
            return Err(ConfigError::EmptySecret);
        }
        if let Some(port) = port_of(raw.listen.as_str()) {
            return Err(ConfigError::ListenHasPort { port, listen: raw.listen });
        }
        let size = match &raw.max_payload_size {
            Some(s) => s.clone(),
            None => default_max_payload(),
        };
        let max_payload_size: usize = match parse_size(size.as_str()) {
            Ok(n) => n,
            Err(SizeError::Invalid(s)) => {
                return Err(ConfigError::InvalidSize(s));
            },
            Err(SizeError::Overflows(s)) => {
                return Err(ConfigError::SizeOverflows(s));
            },
        };
        if max_payload_size == 0 {
            return Err(ConfigError::ZeroPayloadSize);
        }
        let port: u16 = match raw.port {
            Some(p) => p,
            None => default_port(),
        };
        let port_text = decimal_of(port as u128);
        let peers = match &raw.peers {
            Some(p) => peers_with_port(p, port_text.as_str()),
            None => Vec::new(),
        };
        proof {
            if raw.peers is None {
                assert(texts(peers@) =~= listed_peers(raw).map_values(
                    |p: Seq<char>| with_port(p, decimal(port as nat)),
                ));
            }
        }
        Ok(
            Config {
                listen: with_default_port(raw.listen.as_str(), port_text.as_str()),
                port,
                peers,
                psk: blake3_hash(secret.as_str().as_bytes()),
                max_payload_size,
                debounce_ms: match raw.debounce_ms {
                    Some(n) => n,
                    None => default_debounce_ms(),
                },
                sync_selection: match raw.sync_selection {
                    Some(b) => b,
                    None => false,
                },
                link_selections: match raw.link_selections {
                    Some(l) => l,
                    None => LinkSelections::default(),
                },
                direction: match raw.direction {
                    Some(d) => d,
                    None => default_direction(),
                },
                exclude_sensitive: match raw.exclude_sensitive {
                    Some(b) => b,
                    None => default_true(),
                },
                resync_on_connect: match raw.resync_on_connect {
                    Some(b) => b,
                    None => default_true(),
                },
                share_mime_rules: match raw.share_mime_rules {
                    Some(b) => b,
                    None => default_true(),
                },
                verbose: match raw.verbose {
                    Some(b) => b,
                    None => false,
                },
                log_level: match raw.log_level {
                    Some(l) => l,
                    None => default_log_level(),
                },
                unknown_mime: match raw.unknown_mime {
                    Some(p) => p,
                    None => default_unknown_mime(),
                },
                synthesize_text_plain: match raw.synthesize_text_plain {
                    Some(b) => b,
                    None => false,
                },
                take_ownership: match raw.take_ownership {
                    Some(b) => b,
                    None => false,
                },
                mime_rules_path: rules_path,
            },
        )
    }

    /// The configuration that a file means, given the path that its psk_file expands
    /// to and what was read from the source of the secret. The rules file is the one
    /// that the file names, with its leading `~` expanded, or none.
    pub fn from_toml(raw: RawConfig, psk_path: String, read: Option<String>) -> (r: Result<
        Config,
        ConfigError,
    >)
        ensures
            is_parsed(raw, psk_path@, opt_text(read), r),
    {
        let rules_path: Option<String> = match &raw.mime_rules_file {
            Some(f) => Some(tilde(f.as_str())),
            None => None,
        };
        Config::resolve(raw, psk_path, read, rules_path)
    }

    /// The configuration that the file at `path` means: as [`Config::from_toml`], with
    /// the rules file `mimetypes` beside the config where it names none.
    pub fn load(path: &str, raw: RawConfig, psk_path: String, read: Option<String>) -> (r: Result<
        Config,
        ConfigError,
    >)
        ensures
            is_loaded(path@, raw, psk_path@, opt_text(read), r),
    {
        let ghost (given, secret_path, found) = (raw, psk_path@, opt_text(read));
        let parsed = Config::from_toml(raw, psk_path, read);
        let ghost c = parsed;
        let r = match parsed {
            Ok(cfg) => Ok(cfg.placed(path)),
            Err(e) => Err(e),
        };
        proof {
            assert(is_parsed(given, secret_path, found, c) && completes(c, path@, r));
        }
        r
    }

    /// The configuration of the file at `path`: the same in every value, with the rules file
    /// `mimetypes` beside the config where it has none.
    pub fn placed(self, path: &str) -> (r: Config)
        ensures
            is_placed(self, path@, r),
    {
        let mut cfg = self;
        if cfg.mime_rules_path.is_none() {
            let dir = crate::fsutil::parent_dir(path);
            cfg.mime_rules_path = Some(crate::fsutil::join_path(dir.as_str(), "mimetypes"));
        }
        cfg
    }

    /// A configuration for tests: what a minimal file means, but for an ephemeral port,
    /// no quiet period, rules kept to the host, and every unknown type allowed.
    pub fn for_test(secret: &str) -> (cfg: Config)
        requires
            secret@.len() > 0,
        ensures
            cfg.listen@ == "127.0.0.1:0"@,
            cfg.port == 48100,
            cfg.peers@.len() == 0,
            cfg.psk@ == blake3_digest(encode_utf8(secret@)),
            cfg.max_payload_size == 32 * 1024 * 1024,
            cfg.debounce_ms == 0,
            !cfg.sync_selection,
            !cfg.link_selections.clipboard_to_selection,
            !cfg.link_selections.selection_to_clipboard,
            cfg.direction == Direction::Both,
            cfg.exclude_sensitive,
            cfg.resync_on_connect,
            !cfg.share_mime_rules,
            !cfg.verbose,
            cfg.log_level@ == "info"@,
            cfg.unknown_mime == MimePolicy::Allow,
            !cfg.synthesize_text_plain,
            !cfg.take_ownership,
            cfg.mime_rules_path is None,
    {
        let mut raw = RawConfig::new("127.0.0.1".to_string());
        raw.psk = Some(secret.to_string());
        let ghost minimal = raw;
        proof {
            lemma_minimal_is_sound(minimal);
        }
        let resolved = Config::resolve(raw, String::new(), None, None);
        proof {
            assert(resolved is Ok);
        }
        let mut cfg = resolved.unwrap();
        proof {
            assert(texts(cfg.peers@).len() == listed_peers(minimal).len());
        }
        cfg.listen = "127.0.0.1:0".to_string();
        cfg.debounce_ms = 0;
        cfg.share_mime_rules = false;
        cfg.unknown_mime = MimePolicy::Allow;
        cfg
    }
}

proof fn lemma_default_payload()
    ensures
        size_value("32MiB"@) == Some((32 * 1024 * 1024) as nat),
        size_count("32MiB"@) == Some(32nat),
{
    reveal_strlit("32MiB");
    reveal_strlit("MiB");
    let s = "32MiB"@;
    assert(s.len() == 5);
    assert(!crate::text::is_space(s[0]) && !crate::text::is_space(s[4]));
    assert(crate::text::trim_start(s) == s);
    assert(trim(s) == s);
    assert(s.skip(2) =~= "MiB"@);
    assert(size_unit(s) == 1024 * 1024);
    let n = s.take(2);
    assert(n =~= seq!['3', '2']);
    assert(!crate::text::is_space(n[0]) && !crate::text::is_space(n[1]));
    assert(trim(n) == n);
    assert(crate::text::unsigned_digits(n) == n);
    reveal_with_fuel(crate::text::digits_value, 3);
    assert(n.drop_last() =~= seq!['3']);
    assert(n.drop_last().drop_last() =~= Seq::<char>::empty());
    assert(crate::text::digits_value(n) == 32);
    assert(crate::text::all_digits(n));
}

proof fn lemma_minimal_is_sound(raw: RawConfig)
    requires
        raw.listen@ == "127.0.0.1"@,
        raw.max_payload_size is None,
        raw.psk is Some,
        raw.psk->0@.len() > 0,
        raw.psk_file is None,
        raw.psk_env is None,
    ensures
        fault_in(raw, Seq::empty(), None) is None,
        size_value(payload_text(raw)) == Some((32 * 1024 * 1024) as nat),
{
    reveal_strlit("127.0.0.1");
    lemma_default_payload();
    crate::text::lemma_last_index("127.0.0.1"@, ':');
}

} // verus!
