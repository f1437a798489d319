//! The configuration: each option, the secret, sizes and addresses.

use crate::config::{MimePolicy, RawConfig, SizeError};
use crate::config::{choose_root, with_default_port, Direction};
use crate::config::{default_config_path, PskSource};
use crate::config::{has_tilde, is_parsed, parse_size, port_in};
use crate::config::{size_value, tilde_expands, with_port, Config, ConfigError, ConfigFault};
use crate::digest::blake3_digest;
use crate::laws::cli::{stands_at, stands_in};
use crate::text::{decimal, has_suffix, is_space, last_index, opt_text, texts, trim};
use crate::text::{trim_end, trim_start};
use crate::text::quoted;
use vstd::prelude::*;
use vstd::utf8::encode_utf8;

verus! {

/// Whether each option of the file has the value that it sets, or its default, whatever the
/// other options say.
pub open spec fn has_its_options(raw: RawConfig, cfg: Config) -> bool {
    &&& raw.port matches Some(n) ==> cfg.port == n
    &&& raw.port is None ==> cfg.port == 48100
    &&& raw.debounce_ms matches Some(n) ==> cfg.debounce_ms == n
    &&& raw.debounce_ms is None ==> cfg.debounce_ms == 100
    &&& raw.sync_selection matches Some(b) ==> cfg.sync_selection == b
    &&& raw.sync_selection is None ==> !cfg.sync_selection
    &&& raw.link_selections matches Some(l) ==> cfg.link_selections == l
    &&& raw.link_selections is None ==> !cfg.link_selections.clipboard_to_selection
        && !cfg.link_selections.selection_to_clipboard
    &&& raw.direction matches Some(d) ==> cfg.direction == d
    &&& raw.direction is None ==> cfg.direction == Direction::Both
    &&& raw.exclude_sensitive matches Some(b) ==> cfg.exclude_sensitive == b
    &&& raw.exclude_sensitive is None ==> cfg.exclude_sensitive
    &&& raw.resync_on_connect matches Some(b) ==> cfg.resync_on_connect == b
    &&& raw.resync_on_connect is None ==> cfg.resync_on_connect
    &&& raw.share_mime_rules matches Some(b) ==> cfg.share_mime_rules == b
    &&& raw.share_mime_rules is None ==> cfg.share_mime_rules
    &&& raw.verbose matches Some(b) ==> cfg.verbose == b
    &&& raw.verbose is None ==> !cfg.verbose
    &&& raw.log_level matches Some(l) ==> cfg.log_level@ == l@
    &&& raw.log_level is None ==> cfg.log_level@ == "info"@
    &&& raw.unknown_mime matches Some(p) ==> cfg.unknown_mime == p
    &&& raw.unknown_mime is None ==> cfg.unknown_mime == MimePolicy::Deny
    &&& raw.synthesize_text_plain matches Some(b) ==> cfg.synthesize_text_plain == b
    &&& raw.synthesize_text_plain is None ==> !cfg.synthesize_text_plain
    &&& raw.take_ownership matches Some(b) ==> cfg.take_ownership == b
    &&& raw.take_ownership is None ==> !cfg.take_ownership
    &&& raw.max_payload_size matches Some(s) ==> size_value(s@) == Some(
        cfg.max_payload_size as nat,
    )
    &&& raw.max_payload_size is None ==> cfg.max_payload_size == 32 * 1024 * 1024
}

/// Each option goes into the value of its own name: it is what the file sets, or the default
/// where the file does not set it.
pub proof fn each_option_has_its_own_value(
    raw: RawConfig,
    psk_path: String,
    read: Option<String>,
    cfg: Config,
)
    requires
        call_ensures(Config::from_toml, (raw, psk_path, read), Ok(cfg)),
    ensures
        has_its_options(raw, cfg),
        raw.mime_rules_file is None ==> cfg.mime_rules_path is None,
        raw.mime_rules_file matches Some(f) ==> cfg.mime_rules_path is Some && (!has_tilde(f@)
            ==> cfg.mime_rules_path->0@ == f@),
{
    lemma_default_size();
}

/// The same of a file that is loaded from its place.
pub proof fn each_loaded_option_has_its_own_value(
    path: &str,
    raw: RawConfig,
    psk_path: String,
    read: Option<String>,
    cfg: Config,
)
    requires
        call_ensures(Config::load, (path, raw, psk_path, read), Ok(cfg)),
    ensures
        has_its_options(raw, cfg),
        raw.mime_rules_file matches Some(f) ==> cfg.mime_rules_path is Some && (!has_tilde(f@)
            ==> cfg.mime_rules_path->0@ == f@),
        raw.mime_rules_file is None ==> cfg.mime_rules_path is Some && cfg.mime_rules_path->0@
            == crate::fsutil::joined(
            crate::fsutil::dir_of(crate::fsutil::std_parent(path@)),
            "mimetypes"@,
        ),
{
    lemma_default_size();
    let c = choose|c: Result<Config, ConfigError>| #[trigger]
        is_parsed(raw, psk_path@, opt_text(read), c) && crate::config::completes(
            c,
            path@,
            Ok(cfg),
        );
    assert(c is Ok);
}

/// The same of a file whose rules file is given.
pub proof fn each_resolved_option_has_its_own_value(
    raw: RawConfig,
    psk_path: String,
    read: Option<String>,
    rules_path: Option<String>,
    cfg: Config,
)
    requires
        call_ensures(Config::resolve, (raw, psk_path, read, rules_path), Ok(cfg)),
    ensures
        has_its_options(raw, cfg),
        opt_text(cfg.mime_rules_path) == opt_text(rules_path),
{
    lemma_default_size();
}

proof fn lemma_default_size()
    ensures
        size_value("32MiB"@) == Some((32 * 1024 * 1024) as nat),
{
    reveal_strlit("32MiB");
    reveal_strlit("MiB");
    a_size_is_a_number_and_a_unit(32);
    crate::laws::text::a_decimal_has_its_value(32);
    let d = decimal(32);
    reveal_with_fuel(decimal, 3);
    assert(d =~= seq!['3', '2']);
    assert("32MiB"@ =~= d + "MiB"@);
}

/// An option that two files set alike has the same value in both, whatever else they set.
pub proof fn an_option_depends_on_its_own_key_alone(
    a: RawConfig,
    a_path: String,
    a_read: Option<String>,
    x: Config,
    b: RawConfig,
    b_path: String,
    b_read: Option<String>,
    y: Config,
)
    requires
        call_ensures(Config::from_toml, (a, a_path, a_read), Ok(x)),
        call_ensures(Config::from_toml, (b, b_path, b_read), Ok(y)),
    ensures
        a.port == b.port ==> x.port == y.port,
        a.port == b.port && a.listen@ == b.listen@ ==> x.listen@ == y.listen@,
        a.debounce_ms == b.debounce_ms ==> x.debounce_ms == y.debounce_ms,
        a.sync_selection == b.sync_selection ==> x.sync_selection == y.sync_selection,
        a.link_selections == b.link_selections ==> x.link_selections == y.link_selections,
        a.direction == b.direction ==> x.direction == y.direction,
        a.exclude_sensitive == b.exclude_sensitive ==> x.exclude_sensitive == y.exclude_sensitive,
        a.resync_on_connect == b.resync_on_connect ==> x.resync_on_connect == y.resync_on_connect,
        a.share_mime_rules == b.share_mime_rules ==> x.share_mime_rules == y.share_mime_rules,
        a.verbose == b.verbose ==> x.verbose == y.verbose,
        opt_text(a.log_level) == opt_text(b.log_level) ==> x.log_level@ == y.log_level@,
        a.unknown_mime == b.unknown_mime ==> x.unknown_mime == y.unknown_mime,
        a.synthesize_text_plain == b.synthesize_text_plain ==> x.synthesize_text_plain
            == y.synthesize_text_plain,
        a.take_ownership == b.take_ownership ==> x.take_ownership == y.take_ownership,
        opt_text(a.max_payload_size) == opt_text(b.max_payload_size) ==> x.max_payload_size
            == y.max_payload_size,
{
}

/// The node listens where the file says, on the configured port; and each peer that is listed
/// is dialed, in the order of the list, on that port unless it names its own.
pub proof fn the_addresses_get_the_port(
    raw: RawConfig,
    psk_path: String,
    read: Option<String>,
    cfg: Config,
    i: int,
)
    requires
        call_ensures(Config::from_toml, (raw, psk_path, read), Ok(cfg)),
    ensures
        cfg.listen@ == with_port(raw.listen@, decimal(cfg.port as nat)),
        raw.peers is None ==> cfg.peers@.len() == 0,
        raw.peers matches Some(p) ==> cfg.peers@.len() == p@.len() && (0 <= i < p@.len()
            ==> cfg.peers@[i]@ == with_port(p@[i]@, decimal(cfg.port as nat))),
{
    assert(texts(cfg.peers@).len() == cfg.peers@.len());
    if let Some(p) = raw.peers {
        assert(texts(p@).len() == p@.len());
        if 0 <= i < p@.len() {
            assert(texts(cfg.peers@)[i] == cfg.peers@[i]@);
            assert(texts(p@)[i] == p@[i]@);
        }
    } else {
        assert(crate::config::listed_peers(raw).len() == 0);
    }
}

/// The key of the mesh is the digest of the secret: of the one in the file, of the text of the
/// secret's file without the white space around it, or of the variable.
pub proof fn the_key_is_the_digest_of_the_secret(
    raw: RawConfig,
    psk_path: String,
    read: Option<String>,
    cfg: Config,
)
    requires
        call_ensures(Config::from_toml, (raw, psk_path, read), Ok(cfg)),
    ensures
        raw.psk matches Some(s) ==> cfg.psk@ == blake3_digest(encode_utf8(s@)),
        raw.psk_file is Some ==> read is Some && cfg.psk@ == blake3_digest(
            encode_utf8(trim(read->0@)),
        ),
        raw.psk_env is Some ==> read is Some && cfg.psk@ == blake3_digest(encode_utf8(read->0@)),
{
}

/// A file is refused unless it sets exactly one source of the secret.
pub proof fn exactly_one_source_is_asked_for(
    raw: RawConfig,
    psk_path: String,
    read: Option<String>,
    r: Result<Config, ConfigError>,
)
    requires
        call_ensures(Config::from_toml, (raw, psk_path, read), r),
    ensures
        r is Ok ==> {
            ||| raw.psk is Some && raw.psk_file is None && raw.psk_env is None
            ||| raw.psk is None && raw.psk_file is Some && raw.psk_env is None
            ||| raw.psk is None && raw.psk_file is None && raw.psk_env is Some
        },
        raw.psk is None && raw.psk_file is None && raw.psk_env is None ==> (r matches Err(e) && e@
            == ConfigFault::NotOnePskSource),
        (raw.psk is Some && raw.psk_file is Some) || (raw.psk is Some && raw.psk_env is Some) || (
        raw.psk_file is Some && raw.psk_env is Some) ==> (r matches Err(e) && e@
            == ConfigFault::NotOnePskSource),
{
}

/// A file with a secret of its own is accepted if the secret is not empty, `listen` names no
/// port, and the limit on a payload is a size that is not zero; and refused if not.
pub proof fn a_sound_file_is_accepted(
    raw: RawConfig,
    psk_path: String,
    read: Option<String>,
    r: Result<Config, ConfigError>,
)
    requires
        call_ensures(Config::from_toml, (raw, psk_path, read), r),
        raw.psk is Some,
        raw.psk_file is None,
        raw.psk_env is None,
    ensures
        r is Ok <==> {
            &&& raw.psk->0@.len() > 0
            &&& port_in(raw.listen@) is None
            &&& raw.max_payload_size matches Some(s) ==> (size_value(s@) matches Some(n) && n > 0)
        },
        raw.psk->0@.len() == 0 ==> (r matches Err(e) && e@ == ConfigFault::EmptySecret),
        raw.psk->0@.len() > 0 && port_in(raw.listen@) is Some ==> (r matches Err(e)
            && e@ is ListenHasPort),
{
    lemma_default_size();
}

/// A secret that cannot be read is not passed over, nor an empty one.
pub proof fn an_unreadable_secret_is_refused(
    raw: RawConfig,
    psk_path: String,
    read: Option<String>,
    r: Result<Config, ConfigError>,
)
    requires
        call_ensures(Config::from_toml, (raw, psk_path, read), r),
        raw.psk is None,
        raw.psk_file is Some <==> raw.psk_env is None,
    ensures
        read is None && raw.psk_file is Some ==> (r matches Err(e) && e@
            == ConfigFault::PskFileUnreadable(psk_path@)),
        read is None && raw.psk_env is Some ==> (r matches Err(e) && e@
            == ConfigFault::PskEnvUnreadable(raw.psk_env->0@)),
        read is Some && trim(read->0@).len() == 0 && raw.psk_file is Some ==> (r matches Err(e)
            && e@ == ConfigFault::EmptySecret),
        read is Some && read->0@.len() == 0 && raw.psk_env is Some ==> (r matches Err(e) && e@
            == ConfigFault::EmptySecret),
{
}

proof fn lemma_untouched(s: Seq<char>)
    requires
        s.len() > 0,
        !is_space(s[0]),
        !is_space(s.last()),
    ensures
        trim(s) == s,
{
    assert(trim_start(s) == s);
}

/// Whether a unit of sizes, or none, has so many bytes.
spec fn is_unit(unit: Seq<char>, bytes: nat) -> bool {
    ||| unit == "MiB"@ && bytes == 1024 * 1024
    ||| unit == "KiB"@ && bytes == 1024
    ||| unit == "B"@ && bytes == 1
    ||| unit.len() == 0 && bytes == 1
}

proof fn lemma_sized(n: nat, gap: Seq<char>, unit: Seq<char>, bytes: nat)
    requires
        gap.len() == 0 || gap == seq![' '],
        is_unit(unit, bytes),
        unit.len() == 0 ==> gap.len() == 0,
    ensures
        size_value(decimal(n) + gap + unit) == (if n <= usize::MAX && n * bytes <= usize::MAX {
            Some(n * bytes)
        } else {
            None
        }),
{
    reveal_strlit("MiB");
    reveal_strlit("KiB");
    reveal_strlit("B");
    let d = decimal(n);
    crate::laws::text::a_number_is_read_as_it_is_written(n, usize::MAX as nat, d);
    crate::laws::text::a_decimal_has_its_value(n);
    let s = d + gap + unit;
    assert('0' <= d[0] <= '9');
    assert('0' <= d.last() <= '9');
    assert(s[0] == d[0]);
    lemma_untouched(d);
    if unit.len() == 0 {
        assert(s =~= d);
    } else {
        assert(s.last() == unit.last());
    }
    lemma_untouched(s);
    let (m, k, b) = ("MiB"@, "KiB"@, "B"@);
    assert(m.len() == 3 && m[0] == 'M' && m[1] == 'i' && m[2] == 'B');
    assert(k.len() == 3 && k[0] == 'K' && k[1] == 'i' && k[2] == 'B');
    assert(b.len() == 1 && b[0] == 'B');
    if has_suffix(s, m) {
        assert(s.skip(s.len() - 3)[0] == 'M' && s.skip(s.len() - 3)[2] == 'B');
    }
    if has_suffix(s, k) {
        assert(s.skip(s.len() - 3)[0] == 'K' && s.skip(s.len() - 3)[2] == 'B');
    }
    if has_suffix(s, b) {
        assert(s.skip(s.len() - 1)[0] == 'B');
    }
    let front = d + gap;
    if unit.len() > 0 {
        assert(s.skip(s.len() - unit.len()) =~= unit);
        assert(s.take(s.len() - unit.len()) =~= front);
        if unit == b {
            if has_suffix(s, m) {
                assert(s.skip(s.len() - 3)[1] == s[s.len() - 2]);
            }
            if has_suffix(s, k) {
                assert(s.skip(s.len() - 3)[1] == s[s.len() - 2]);
            }
        } else if unit == k {
            assert(!has_suffix(s, m)) by {
                if has_suffix(s, m) {
                    assert(s.skip(s.len() - 3)[0] == k[0]);
                }
            }
        }
    }
    if gap.len() == 0 {
        assert(front =~= d);
    } else {
        assert(front.drop_last() =~= d);
        assert(trim_start(front) == front);
        assert(trim_end(front) == trim_end(d));
    }
    assert(trim(front) == d);
}

/// A size is a number and a unit: mebibytes, kibibytes or bytes, and bytes without one; with or
/// without a space between them. One that does not fit is none.
pub proof fn a_size_is_a_number_and_a_unit(n: nat)
    ensures
        n * 1048576 <= usize::MAX ==> size_value(decimal(n) + "MiB"@) == Some(n * 1048576),
        n * 1048576 <= usize::MAX ==> size_value(decimal(n) + " "@ + "MiB"@) == Some(n * 1048576),
        n * 1024 <= usize::MAX ==> size_value(decimal(n) + "KiB"@) == Some(n * 1024),
        n <= usize::MAX ==> size_value(decimal(n) + "B"@) == Some(n),
        n <= usize::MAX ==> size_value(decimal(n)) == Some(n),
        n * 1048576 > usize::MAX ==> size_value(decimal(n) + "MiB"@) is None,
        n * 1024 > usize::MAX ==> size_value(decimal(n) + "KiB"@) is None,
        n > usize::MAX ==> size_value(decimal(n)) is None,
{
    let none = Seq::<char>::empty();
    reveal_strlit("MiB");
    lemma_sized(n, none, "MiB"@, 1024 * 1024);
    reveal_strlit(" ");
    assert(" "@ =~= seq![' ']);
    lemma_sized(n, " "@, "MiB"@, 1024 * 1024);
    lemma_sized(n, none, "KiB"@, 1024);
    lemma_sized(n, none, "B"@, 1);
    lemma_sized(n, none, none, 1);
    let d = decimal(n);
    assert(d + none =~= d);
    assert(d + none + none =~= d);
    assert(n * 1 == n);
}

/// What is read as a size is the same with white space around it; and a size that is read is
/// the bytes that the text writes.
pub proof fn white_space_around_a_size_does_not_count(
    a: &str,
    b: &str,
    x: Result<usize, SizeError>,
    y: Result<usize, SizeError>,
)
    requires
        call_ensures(parse_size, (a,), x),
        call_ensures(parse_size, (b,), y),
        trim(a@) == trim(b@),
    ensures
        x is Ok <==> y is Ok,
        x matches Ok(n) ==> (y matches Ok(m) && n == m),
        x matches Ok(n) ==> size_value(a@) == Some(n as nat),
        x is Err ==> size_value(a@) is None,
{
}

proof fn lemma_last_of(a: Seq<char>, c: char, b: Seq<char>)
    requires
        !b.contains(c),
    ensures
        last_index(a + seq![c] + b, c) == a.len(),
{
    let s = a + seq![c] + b;
    crate::text::lemma_last_index(s, c);
    let i = last_index(s, c);
    assert(s[a.len() as int] == c);
    if i > a.len() {
        assert(b[i - a.len() - 1] == c);
    }
}

/// An address without brackets has a port if one colon stands in it: what is behind the colon.
pub proof fn the_port_is_behind_the_only_colon(host: Seq<char>, port: Seq<char>)
    requires
        !host.contains(':'),
        host.len() == 0 || host[0] != '[',
        !port.contains(':'),
    ensures
        port.len() > 0 ==> port_in(host + seq![':'] + port) == Some(port),
        port.len() == 0 ==> port_in(host + seq![':'] + port) is None,
        port_in(host) is None,
{
    let s = host + seq![':'] + port;
    lemma_last_of(host, ':', port);
    assert(s.take(host.len() as int) =~= host);
    assert(s.skip(host.len() as int + 1) =~= port);
    crate::text::lemma_last_index(host, ':');
    if host.len() > 0 {
        assert(s[0] == host[0]);
    }
}

/// An address without brackets in which more than one colon stands is an IPv6 one without a
/// port.
pub proof fn a_bare_ipv6_address_has_no_port(a: Seq<char>, b: Seq<char>, c: Seq<char>)
    requires
        a.len() == 0 || a[0] != '[',
    ensures
        port_in(a + seq![':'] + b + seq![':'] + c) is None,
{
    let s = a + seq![':'] + b + seq![':'] + c;
    let i = last_index(s, ':');
    crate::text::lemma_last_index(s, ':');
    let n = a.len() as int;
    assert(s[n] == ':');
    assert(s[n + 1 + b.len()] == ':');
    if i >= 0 {
        assert(n < i);
        assert(s.take(i)[n] == ':');
    }
    if a.len() > 0 {
        assert(s[0] == a[0]);
    }
}

/// An address in brackets has the port that stands behind them and a colon.
pub proof fn the_port_is_behind_the_brackets(host: Seq<char>, port: Seq<char>)
    requires
        !port.contains(']'),
    ensures
        port.len() > 0 ==> port_in(seq!['['] + host + seq![']'] + seq![':'] + port) == Some(port),
        port_in(seq!['['] + host + seq![']']) is None,
{
    let a = seq!['['] + host;
    let s = a + seq![']'] + seq![':'] + port;
    let tail = seq![':'] + port;
    assert(!tail.contains(']')) by {
        if tail.contains(']') {
            let i = choose|i: int| 0 <= i < tail.len() && tail[i] == ']';
            assert(port[i - 1] == ']');
        }
    }
    lemma_last_of(a, ']', tail);
    assert(a + seq![']'] + tail =~= s);
    assert(s[0] == '[');
    assert(s[a.len() as int + 1] == ':');
    assert(s.skip(a.len() as int + 2) =~= port);
    let t = a + seq![']'];
    lemma_last_of(a, ']', Seq::empty());
    assert(a + seq![']'] + Seq::<char>::empty() =~= t);
    assert(t[0] == '[');
}

/// The default port is appended to an address that has none, behind brackets where the address
/// is a bare IPv6 one; an address with a port stays.
pub proof fn the_default_port_is_appended(addr: &str, port: &str, r: String)
    requires
        call_ensures(with_default_port, (addr, port), r),
    ensures
        port_in(addr@) is Some ==> r@ == addr@,
        !addr@.contains(':') ==> r@ == addr@ + seq![':'] + port@,
        port_in(addr@) is None && addr@.contains(':') && addr@[0] != '[' ==> r@ == seq!['[']
            + addr@ + seq![']', ':'] + port@,
        port_in(addr@) is None && addr@.len() > 0 && addr@[0] == '[' ==> r@ == addr@ + seq![':']
            + port@,
{
    reveal_strlit(":");
    reveal_strlit("[");
    reveal_strlit("]:");
    assert(":"@ =~= seq![':']);
    assert("["@ =~= seq!['[']);
    assert("]:"@ =~= seq![']', ':']);
    if !addr@.contains(':') {
        crate::text::lemma_last_index(addr@, ':');
        if addr@.len() > 0 && addr@[0] == '[' && port_in(addr@) is Some {
            assert(addr@.contains(':'));
        }
    }
    if addr@.contains(':') {
        assert(addr@.len() > 0);
    }
}

/// The configuration root is that of the environment if it is an absolute path, and else the
/// default.
pub proof fn an_absolute_root_counts(xdg: Option<String>, default: String, r: String)
    requires
        call_ensures(choose_root, (xdg, default), r),
    ensures
        xdg matches Some(d) ==> (d@.len() > 0 && d@[0] == '/' ==> r@ == d@),
        xdg matches Some(d) ==> (d@.len() == 0 || d@[0] != '/' ==> r@ == default@),
        xdg is None ==> r@ == default@,
{
}

/// A text that does not begin with `~` alone, or with `~` and a slash, is not expanded; of one
/// that does, what is behind the `~` stays.
pub proof fn only_a_leading_tilde_is_expanded(s: Seq<char>, r: Seq<char>)
    requires
        tilde_expands(s, r),
    ensures
        s.len() == 0 || s[0] != '~' ==> r == s,
        s.len() > 1 && s[1] != '/' ==> r == s,
        s.len() > 0 && s[0] == '~' ==> has_suffix(r, s.skip(1)),
{
    if has_tilde(s) {
        let home = choose|home: Seq<char>| r == #[trigger] (home + s.skip(1));
        assert(r.skip(r.len() - s.skip(1).len()) =~= s.skip(1));
    } else if s.len() > 0 {
        assert(r.skip(1) =~= s.skip(1));
    }
}

/// What is said of a config that cannot be used names what is wrong with it.
pub proof fn an_error_names_what_is_wrong(e: &ConfigError, r: String)
    requires
        call_ensures(ConfigError::message, (e,), r),
    ensures
        e@ matches ConfigFault::PskFileUnreadable(p) ==> r@ == "reading psk_file "@ + p,
        e@ matches ConfigFault::PskEnvUnreadable(v) ==> r@ == "reading psk_env "@ + v,
        e@ matches ConfigFault::ListenHasPort { port, listen } ==> stands_in(quoted(port), r@)
            && stands_in(quoted(listen), r@),
        e@ matches ConfigFault::InvalidSize(s) ==> r@ == "invalid size: "@ + quoted(s),
        e@ matches ConfigFault::SizeOverflows(s) ==> r@ == "size overflows: "@ + quoted(s),
        e@ is NotOnePskSource ==> r@ == "exactly one of psk, psk_file, psk_env must be set"@,
        e@ is EmptySecret ==> r@ == "preshared secret is empty"@,
        e@ is ZeroPayloadSize ==> r@ == "max_payload_size must be greater than 0"@,
{
    if let ConfigFault::ListenHasPort { port, listen } = e@ {
        let (p, l) = (quoted(port), quoted(listen));
        let a = "listen must not include a port (found "@;
        let b = a + p + " in "@;
        assert(r@.subrange(a.len() as int, (a.len() + p.len()) as int) =~= p);
        assert(stands_at(p, r@, a.len() as int));
        assert(r@.subrange(b.len() as int, (b.len() + l.len()) as int) =~= l);
        assert(stands_at(l, r@, b.len() as int));
    }
}

/// The secret is asked from the one source that is set, of its own kind; where none or more than
/// one is set there is nothing to ask.
pub proof fn the_one_source_is_asked(raw: &RawConfig, r: Result<PskSource, ConfigError>)
    requires
        call_ensures(Config::psk_source, (raw,), r),
    ensures
        raw.psk matches Some(s) ==> (raw.psk_file is None && raw.psk_env is None ==> (
        r matches Ok(PskSource::Inline(t)) && t@ == s@)),
        raw.psk_env matches Some(v) ==> (raw.psk is None && raw.psk_file is None ==> (
        r matches Ok(PskSource::Env(t)) && t@ == v@)),
        raw.psk_file matches Some(f) ==> (raw.psk is None && raw.psk_env is None ==> (
        r matches Ok(PskSource::File(t)) && (!has_tilde(f@) ==> t@ == f@))),
        r is Err <==> (raw.psk is None && raw.psk_file is None && raw.psk_env is None) || (
        raw.psk is Some && raw.psk_file is Some) || (raw.psk is Some && raw.psk_env is Some) || (
        raw.psk_file is Some && raw.psk_env is Some),
{
}

/// The config file is looked for in a directory of its own below the configuration root.
pub proof fn the_config_has_a_place_of_its_own(xdg: Option<String>, r: String)
    requires
        call_ensures(default_config_path, (xdg,), r),
    ensures
        has_suffix(r@, "clipmesh/config.toml"@),
        xdg matches Some(d) ==> (d@.len() > 0 && d@[0] == '/' && d@.last() != '/' ==> r@ == d@
            + "/clipmesh/config.toml"@),
{
    let x = match xdg {
        Some(d) => Some(d@),
        None => None,
    };
    let default = choose|default: Seq<char>| #[trigger]
        tilde_expands("~/.config"@, default) && r@ == crate::fsutil::joined(
            crate::fsutil::joined(crate::config::root_of(x, default), "clipmesh"@),
            "config.toml"@,
        );
    let root = crate::config::root_of(x, default);
    reveal_strlit("clipmesh");
    reveal_strlit("config.toml");
    reveal_strlit("/");
    reveal_strlit("clipmesh/config.toml");
    reveal_strlit("/clipmesh/config.toml");
    let dir = crate::fsutil::joined(root, "clipmesh"@);
    assert(dir.last() == 'h');
    assert(r@ =~= dir + "/"@ + "config.toml"@);
    let end = "clipmesh/config.toml"@;
    assert("clipmesh"@ + "/"@ + "config.toml"@ =~= end);
    assert(r@.skip(r@.len() - end.len()) =~= end);
    if let Some(d) = xdg {
        if d@.len() > 0 && d@[0] == '/' && d@.last() != '/' {
            assert(root == d@);
            assert(r@ =~= d@ + "/clipmesh/config.toml"@);
        }
    }
}

/// What is wrong with a file is told in this order: the source of the secret, reading it, an empty
/// secret, a port in the address, and the size.
pub proof fn the_first_fault_is_told(
    raw: RawConfig,
    psk_path: String,
    read: Option<String>,
    r: Result<Config, ConfigError>,
    size: Seq<char>,
)
    requires
        call_ensures(Config::from_toml, (raw, psk_path, read), r),
        (raw.psk is Some && raw.psk_file is None && raw.psk_env is None) || (raw.psk is None
            && raw.psk_file is Some && raw.psk_env is None) || (raw.psk is None && raw.psk_file
            is None && raw.psk_env is Some),
        size == (match raw.max_payload_size {
            Some(s) => s@,
            None => "32MiB"@,
        }),
    ensures
        ({
            let unread = raw.psk is None && read is None;
            let secret = if raw.psk is Some {
                raw.psk->0@
            } else if raw.psk_file is Some {
                trim(read->0@)
            } else {
                read->0@
            };
            &&& unread && raw.psk_file is Some ==> (r matches Err(e) && e@
                == ConfigFault::PskFileUnreadable(psk_path@))
            &&& unread && raw.psk_env is Some ==> (r matches Err(e) && e@
                == ConfigFault::PskEnvUnreadable(raw.psk_env->0@))
            &&& !unread && secret.len() == 0 ==> (r matches Err(e) && e@ is EmptySecret)
            &&& !unread && secret.len() > 0 ==> (port_in(raw.listen@) matches Some(p) ==> (
            r matches Err(e) && e@ == (ConfigFault::ListenHasPort {
                port: p,
                listen: raw.listen@,
            })))
            &&& !unread && secret.len() > 0 && port_in(raw.listen@) is None ==> {
                &&& size_value(size) is None ==> (r matches Err(e) && (e@
                    == ConfigFault::InvalidSize(trim(size)) || e@ == ConfigFault::SizeOverflows(
                    trim(size),
                )))
                &&& size_value(size) == Some(0nat) ==> (r matches Err(e) && e@ is ZeroPayloadSize)
                &&& size_value(size) matches Some(n) ==> (n > 0 ==> r is Ok)
            }
        }),
{
}

} // verus!
