//! `wl-paste` impersonation mode: pull the current clipboard from a clipmesh node and
//! print it, for hosts with no compositor (or scripts) that want the mesh's clipboard.

use crate::backoff::Nanos;
use crate::client::{ask, closed_message, ended_message, timeout_message, AskEvent, AskStep};
use crate::clipboard::narrowed;
use crate::config::{with_default_port, with_port, Config};
use crate::glob::same_folded;
use crate::node_id::NodeId;
use crate::offer::{bytes_of, new_offer, offer_at, offer_insert, offer_len, offer_pairs};
use crate::offer::{offer_take, offer_types, types_of, with_pair, Offer, Pair};
use crate::protocol::{folded_prefix, is_text, kind_name, type_matches, GetResult, GetWant};
use crate::protocol::{Message, SelectionKind, Unavailable};
use crate::text::{clone_texts, decimal, decimal_of, join, join_of, opt_text, quote, quoted};
use crate::text::{same, texts};
use vstd::prelude::*;
use vstd::utf8::encode_utf8;

verus! {

/// How long to wait for the node's answer.
pub const PASTE_TIMEOUT: Nanos = 10_000_000_000;

/// Parsed `wl-paste`-style arguments for paste mode. `list` takes precedence over `type_`
/// and `no_newline`.
#[derive(Debug, Clone, PartialEq, Eq)]
pub struct PasteArgs {
    /// Which selection to pull: CLIPBOARD by default, SELECTION with `-p`.
    pub kind: SelectionKind,
    /// Print this exact MIME type (`-t`/`--type`); `None` auto-selects.
    pub type_: Option<String>,
    /// List the offered types instead of printing content (`-l`/`--list-types`).
    pub list: bool,
    /// Suppress the trailing newline for text types (`-n`/`--no-newline`).
    pub no_newline: bool,
    /// Node to pull from (`--node`); `None` races every configured peer.
    pub node: Option<String>,
    /// Config file (`--config`); `None` uses the default path.
    pub config: Option<String>,
}

/// Parsed arguments, over texts.
#[verifier::ext_equal]
pub struct PasteView {
    pub kind: SelectionKind,
    pub type_: Option<Seq<char>>,
    pub list: bool,
    pub no_newline: bool,
    pub node: Option<Seq<char>>,
    pub config: Option<Seq<char>>,
}

impl View for PasteArgs {
    type V = PasteView;

    open spec fn view(&self) -> PasteView {
        PasteView {
            kind: self.kind,
            type_: opt_text(self.type_),
            list: self.list,
            no_newline: self.no_newline,
            node: opt_text(self.node),
            config: opt_text(self.config),
        }
    }
}

/// What an argument of paste mode is.
#[derive(Clone, Copy, PartialEq, Eq, Structural)]
pub enum PasteFlag {
    Type,
    List,
    NoNewline,
    Primary,
    Node,
    Config,
    Watch,
    Unknown,
}

/// What an argument of paste mode is.
pub open spec fn paste_flag(arg: Seq<char>) -> PasteFlag {
    if arg == "-t"@ || arg == "--type"@ {
        PasteFlag::Type
    } else if arg == "-l"@ || arg == "--list-types"@ {
        PasteFlag::List
    } else if arg == "-n"@ || arg == "--no-newline"@ {
        PasteFlag::NoNewline
    } else if arg == "-p"@ || arg == "--primary"@ {
        PasteFlag::Primary
    } else if arg == "--node"@ {
        PasteFlag::Node
    } else if arg == "--config"@ {
        PasteFlag::Config
    } else if arg == "-w"@ || arg == "--watch"@ {
        PasteFlag::Watch
    } else {
        PasteFlag::Unknown
    }
}

fn paste_flag_of(arg: &str) -> (r: PasteFlag)
    ensures
        r == paste_flag(arg@),
{
    if same(arg, "-t") || same(arg, "--type") {
        PasteFlag::Type
    } else if same(arg, "-l") || same(arg, "--list-types") {
        PasteFlag::List
    } else if same(arg, "-n") || same(arg, "--no-newline") {
        PasteFlag::NoNewline
    } else if same(arg, "-p") || same(arg, "--primary") {
        PasteFlag::Primary
    } else if same(arg, "--node") {
        PasteFlag::Node
    } else if same(arg, "--config") {
        PasteFlag::Config
    } else if same(arg, "-w") || same(arg, "--watch") {
        PasteFlag::Watch
    } else {
        PasteFlag::Unknown
    }
}

/// The arguments when none is given.
pub open spec fn paste_defaults() -> PasteView {
    PasteView {
        kind: SelectionKind::Clipboard,
        type_: None,
        list: false,
        no_newline: false,
        node: None,
        config: None,
    }
}

/// What the arguments from the `i`th on mean, beside those before them.
pub open spec fn paste_parsed(args: Seq<Seq<char>>, i: int, v: PasteView) -> Result<
    PasteView,
    Seq<char>,
>
    decreases args.len() - i,
{
    if i >= args.len() {
        Ok(v)
    } else {
        let flag = paste_flag(args[i]);
        match flag {
            PasteFlag::List => paste_parsed(args, i + 1, PasteView { list: true, ..v }),
            PasteFlag::NoNewline => paste_parsed(args, i + 1, PasteView { no_newline: true, ..v }),
            PasteFlag::Primary => paste_parsed(
                args,
                i + 1,
                PasteView { kind: SelectionKind::Selection, ..v },
            ),
            PasteFlag::Watch => Err(
                args[i]
                    + " is not supported by clipmesh's wl-paste mode (one-shot paste only)"@,
            ),
            PasteFlag::Unknown => Err("unknown paste flag: "@ + args[i]),
            _ => if i + 1 >= args.len() {
                Err(args[i] + " needs a value"@)
            } else {
                let value = Some(args[i + 1]);
                let now = match flag {
                    PasteFlag::Type => PasteView { type_: value, ..v },
                    PasteFlag::Node => PasteView { node: value, ..v },
                    _ => PasteView { config: value, ..v },
                };
                paste_parsed(args, i + 2, now)
            },
        }
    }
}

/// Whether a parse gave what is meant.
pub open spec fn parsed_as<A: View>(r: Result<A, String>, meant: Result<A::V, Seq<char>>) -> bool {
    match (r, meant) {
        (Ok(a), Ok(v)) => a@ == v,
        (Err(e), Err(m)) => e@ == m,
        _ => false,
    }
}

impl PasteArgs {
    /// Parses a `wl-paste`-style argument list (a practical subset, plus the `--node` and
    /// `--config` extensions). Rejects `--watch` and unknown flags rather than mis-parsing
    /// them.
    pub fn parse(args: &[String]) -> (r: Result<PasteArgs, String>)
        ensures
            parsed_as(r, paste_parsed(texts(args@), 0, paste_defaults())),
    {
        let mut out = PasteArgs {
            kind: SelectionKind::Clipboard,
            type_: None,
            list: false,
            no_newline: false,
            node: None,
            config: None,
        };
        let ghost all = texts(args@);
        let mut i: usize = 0;
        while i < args.len()
            invariant
                i <= args.len(),
                all == texts(args@),
                paste_parsed(all, 0, paste_defaults()) == paste_parsed(all, i as int, out@),
            decreases args.len() - i,
        {
            let arg = args[i].as_str();
            let flag = paste_flag_of(arg);
            match flag {
                PasteFlag::List => {
                    out.list = true;
                    i += 1;
                },
                PasteFlag::NoNewline => {
                    out.no_newline = true;
                    i += 1;
                },
                PasteFlag::Primary => {
                    out.kind = SelectionKind::Selection;
                    i += 1;
                },
                PasteFlag::Watch => {
                    let mut e = arg.to_string();
                    e.append(
                        " is not supported by clipmesh's wl-paste mode (one-shot paste only)",
                    );
                    return Err(e);
                },
                PasteFlag::Unknown => {
                    let mut e = "unknown paste flag: ".to_string();
                    e.append(arg);
                    return Err(e);
                },
                PasteFlag::Type | PasteFlag::Node | PasteFlag::Config => {
                    if args.len() - i < 2 {
                        let mut e = arg.to_string();
                        e.append(" needs a value");
                        return Err(e);
                    }
                    let value = args[i + 1].clone();
                    match flag {
                        PasteFlag::Type => {
                            out.type_ = Some(value);
                        },
                        PasteFlag::Node => {
                            out.node = Some(value);
                        },
                        _ => {
                            out.config = Some(value);
                        },
                    }
                    i += 2;
                },
            }
        }
        Ok(out)
    }
}

/// The first type that satisfies a request.
pub open spec fn first_matching(types: Seq<Seq<char>>, want: Seq<char>) -> Option<int> {
    first_with(types, |t: Seq<char>| same_folded(encode_utf8(t), encode_utf8(want)))
}

/// The place of the first text with a property.
pub open spec fn first_with(types: Seq<Seq<char>>, p: spec_fn(Seq<char>) -> bool) -> Option<int>
    decreases types.len(),
{
    if types.len() == 0 {
        None
    } else {
        match first_with(types.drop_last(), p) {
            Some(i) => Some(i),
            None => if p(types.last()) {
                Some(types.len() - 1)
            } else {
                None
            },
        }
    }
}

/// The first textual type.
pub open spec fn first_text(types: Seq<Seq<char>>) -> Option<int> {
    first_with(types, |t: Seq<char>| folded_prefix(encode_utf8(t), encode_utf8("text/"@)))
}

/// The type to print: the one requested, or else `text/plain;charset=utf-8`, then
/// `text/plain`, then the first textual type, then the first.
pub open spec fn selected(requested: Option<Seq<char>>, types: Seq<Seq<char>>) -> Option<int> {
    match requested {
        Some(want) => first_matching(types, want),
        None => match first_matching(types, "text/plain;charset=utf-8"@) {
            Some(i) => Some(i),
            None => match first_matching(types, "text/plain"@) {
                Some(i) => Some(i),
                None => match first_text(types) {
                    Some(i) => Some(i),
                    None => if types.len() > 0 {
                        Some(0)
                    } else {
                        None
                    },
                },
            },
        },
    }
}

pub proof fn lemma_first_with(types: Seq<Seq<char>>, p: spec_fn(Seq<char>) -> bool)
    ensures
        match first_with(types, p) {
            Some(i) => {
                &&& 0 <= i < types.len()
                &&& p(types[i])
                &&& forall|k: int| 0 <= k < i ==> !p(#[trigger] types[k])
            },
            None => forall|k: int| 0 <= k < types.len() ==> !p(#[trigger] types[k]),
        },
    decreases types.len(),
{
    if types.len() > 0 {
        let rest = types.drop_last();
        lemma_first_with(rest, p);
        assert forall|k: int| 0 <= k < rest.len() implies rest[k] == types[k] by {}
        match first_with(rest, p) {
            Some(i) => {
                assert forall|k: int| 0 <= k < i implies !p(#[trigger] types[k]) by {
                    assert(!p(rest[k]));
                }
            },
            None => {
                assert forall|k: int| 0 <= k < rest.len() implies !p(#[trigger] types[k]) by {
                    assert(!p(rest[k]));
                }
            },
        }
    }
}

proof fn lemma_first_is(types: Seq<Seq<char>>, p: spec_fn(Seq<char>) -> bool, i: int)
    requires
        0 <= i < types.len(),
        p(types[i]),
        forall|k: int| 0 <= k < i ==> !p(#[trigger] types[k]),
    ensures
        first_with(types, p) == Some(i),
{
    lemma_first_with(types, p);
    match first_with(types, p) {
        Some(j) => {
            if j < i {
                assert(!p(types[j]));
            } else if i < j {
                assert(!p(types[i]));
            }
        },
        None => {
            assert(!p(types[i]));
        },
    }
}

proof fn lemma_narrowed_first(pairs: Seq<Pair>, want: Seq<char>)
    ensures
        match first_matching(types_of(pairs), want) {
            Some(i) => {
                &&& 0 <= i < pairs.len()
                &&& narrowed(pairs, want).len() > 0
                &&& narrowed(pairs, want)[0] == pairs[i]
            },
            None => narrowed(pairs, want).len() == 0,
        },
        forall|k: int|
            0 <= k < narrowed(pairs, want).len() ==> same_folded(
                encode_utf8((#[trigger] narrowed(pairs, want)[k]).0),
                encode_utf8(want),
            ),
    decreases pairs.len(),
{
    if pairs.len() > 0 {
        lemma_narrowed_first(pairs.drop_last(), want);
        assert(types_of(pairs).drop_last() =~= types_of(pairs.drop_last()));
        assert(types_of(pairs).last() == pairs.last().0);
    }
}

/// A node that narrows its content to a request and a client that looks for the requested
/// type agree. Something is left exactly when the content has such a type, and the client
/// then prints the same representation as it would of the whole content.
pub proof fn what_a_node_narrows_to_is_found(pairs: Seq<Pair>, want: Seq<char>)
    ensures
        match selected(Some(want), types_of(pairs)) {
            Some(i) => {
                &&& selected(Some(want), types_of(narrowed(pairs, want))) == Some(0int)
                &&& narrowed(pairs, want).len() > 0
                &&& narrowed(pairs, want)[0] == pairs[i]
            },
            None => narrowed(pairs, want).len() == 0,
        },
{
    lemma_narrowed_first(pairs, want);
    let left = types_of(narrowed(pairs, want));
    let p = |t: Seq<char>| same_folded(encode_utf8(t), encode_utf8(want));
    if left.len() > 0 {
        assert(left[0] == narrowed(pairs, want)[0].0);
        lemma_first_is(left, p, 0);
    }
}

fn find_matching(offer: &Offer, want: &str) -> (r: Option<usize>)
    ensures
        match r {
            Some(i) => first_matching(types_of(offer_pairs(*offer)), want@) == Some(i as int) && i
                < offer_pairs(*offer).len(),
            None => first_matching(types_of(offer_pairs(*offer)), want@) is None,
        },
{
    let n: usize = offer_len(offer);
    let ghost types = types_of(offer_pairs(*offer));
    let ghost p = |t: Seq<char>| same_folded(encode_utf8(t), encode_utf8(want@));
    let mut i: usize = 0;
    while i < n
        invariant
            i <= n,
            n == offer_pairs(*offer).len(),
            types == types_of(offer_pairs(*offer)),
            p == (|t: Seq<char>| same_folded(encode_utf8(t), encode_utf8(want@))),
            forall|k: int| 0 <= k < i ==> !p(#[trigger] types[k]),
        decreases n - i,
    {
        let (mime, _) = offer_at(offer, i);
        assert(types[i as int] == mime@);
        if type_matches(mime.as_str(), want) {
            proof {
                lemma_first_is(types, p, i as int);
            }
            return Some(i);
        }
        i += 1;
    }
    proof {
        lemma_first_with(types, p);
        if let Some(j) = first_with(types, p) {
            assert(!p(types[j]));
        }
    }
    None
}

fn find_text(offer: &Offer) -> (r: Option<usize>)
    ensures
        match r {
            Some(i) => first_text(types_of(offer_pairs(*offer))) == Some(i as int) && i
                < offer_pairs(*offer).len(),
            None => first_text(types_of(offer_pairs(*offer))) is None,
        },
{
    let n: usize = offer_len(offer);
    let ghost types = types_of(offer_pairs(*offer));
    let ghost p = |t: Seq<char>| folded_prefix(encode_utf8(t), encode_utf8("text/"@));
    let mut i: usize = 0;
    while i < n
        invariant
            i <= n,
            n == offer_pairs(*offer).len(),
            types == types_of(offer_pairs(*offer)),
            p == (|t: Seq<char>| folded_prefix(encode_utf8(t), encode_utf8("text/"@))),
            forall|k: int| 0 <= k < i ==> !p(#[trigger] types[k]),
        decreases n - i,
    {
        let (mime, _) = offer_at(offer, i);
        assert(types[i as int] == mime@);
        if is_text(mime.as_str()) {
            proof {
                lemma_first_is(types, p, i as int);
            }
            return Some(i);
        }
        i += 1;
    }
    proof {
        lemma_first_with(types, p);
        if let Some(j) = first_with(types, p) {
            assert(!p(types[j]));
        }
    }
    None
}

/// A comma-separated list of offered types, for error messages.
pub open spec fn available(types: Seq<Seq<char>>) -> Seq<char> {
    if types.len() == 0 {
        "none"@
    } else {
        join(types, ", "@)
    }
}

/// A comma-separated list of offered types, for error messages.
pub fn list_available(types: &[String]) -> (r: String)
    ensures
        r@ == available(texts(types@)),
{
    if types.len() == 0 {
        return "none".to_string();
    }
    join_of(types, ", ")
}

/// Why no type can be printed.
pub open spec fn select_fault(requested: Option<Seq<char>>, types: Seq<Seq<char>>) -> Seq<char> {
    match requested {
        Some(want) => "type "@ + quoted(want) + " is not offered (available: "@ + available(types)
            + ")"@,
        None => "the clipboard is empty"@,
    }
}

/// Picks the type to print. With an explicit request, requires an exact
/// (case-insensitive) match. Otherwise prefers `text/plain;charset=utf-8`, then
/// `text/plain`, then the first `text/*`, then the first offered type.
pub fn select_type<'a>(requested: Option<&str>, offer: &'a Offer) -> (r: Result<&'a str, String>)
    ensures
        ({
            let types = types_of(offer_pairs(*offer));
            let want = match requested {
                Some(w) => Some(w@),
                None => None,
            };
            match r {
                Ok(mime) => selected(want, types) matches Some(i) && 0 <= i < types.len() && mime@
                    == types[i],
                Err(e) => selected(want, types) is None && e@ == select_fault(want, types),
            }
        }),
{
    let found = match requested {
        Some(want) => find_matching(offer, want),
        None => {
            let utf8 = find_matching(offer, "text/plain;charset=utf-8");
            if utf8.is_some() {
                utf8
            } else {
                let plain = find_matching(offer, "text/plain");
                if plain.is_some() {
                    plain
                } else {
                    let text = find_text(offer);
                    if text.is_some() {
                        text
                    } else if offer_len(offer) > 0 {
                        Some(0)
                    } else {
                        None
                    }
                }
            }
        },
    };
    match found {
        Some(i) => {
            let (mime, _) = offer_at(offer, i);
            Ok(mime.as_str())
        },
        None => match requested {
            Some(want) => {
                let mut e = "type ".to_string();
                e.append(quote(want).as_str());
                e.append(" is not offered (available: ");
                let types = offer_types(offer);
                e.append(list_available(types.as_slice()).as_str());
                e.append(")");
                Err(e)
            },
            None => Err("the clipboard is empty".to_string()),
        },
    }
}

/// Types, one per line.
pub open spec fn type_lines(types: Seq<Seq<char>>) -> Seq<char>
    decreases types.len(),
{
    if types.len() == 0 {
        Seq::empty()
    } else {
        type_lines(types.drop_last()) + types.last() + "\n"@
    }
}

/// The offered types, one per line in advertise order, newline-terminated.
pub fn list_types(offer: &Offer) -> (r: String)
    ensures
        r@ == type_lines(types_of(offer_pairs(*offer))),
{
    let types = offer_types(offer);
    let ghost all = texts(types@);
    let mut s = String::new();
    let mut i: usize = 0;
    proof {
        assert(all.take(0) =~= Seq::<Seq<char>>::empty());
    }
    while i < types.len()
        invariant
            i <= types@.len(),
            all == texts(types@),
            s@ == type_lines(all.take(i as int)),
        decreases types@.len() - i,
    {
        proof {
            assert(all.take(i + 1).drop_last() =~= all.take(i as int));
            assert(all.take(i + 1).last() == types@[i as int]@);
        }
        s.append(types[i].as_str());
        s.append("\n");
        i += 1;
    }
    proof {
        assert(all.take(all.len() as int) =~= all);
    }
    s
}

/// The bytes to print for a representation: a textual one gets a newline at its end,
/// unless that is suppressed.
pub open spec fn printed(data: Seq<u8>, mime: Seq<char>, no_newline: bool) -> Seq<u8> {
    if !no_newline && folded_prefix(encode_utf8(mime), encode_utf8("text/"@)) {
        data.push(10u8)
    } else {
        data
    }
}

/// The bytes to emit for `mime`: the representation's data, with a trailing newline
/// appended for `text/*` types unless `no_newline`. Binary-safe.
pub fn render(data: Vec<u8>, mime: &str, no_newline: bool) -> (r: Vec<u8>)
    ensures
        r@ == printed(data@, mime@, no_newline),
{
    let mut data = data;
    if !no_newline && is_text(mime) {
        data.push(10u8);
    }
    data
}

/// What is said when there is no node to paste from.
pub open spec fn no_target() -> Seq<char> {
    "no node to paste from: pass --node <host[:port]> or list a peer in the config"@
}

/// The node addresses to try: just `--node` if given (config port applied to a bare
/// host), else every configured peer.
pub fn resolve_targets(pa: &PasteArgs, cfg: &Config) -> (r: Result<Vec<String>, String>)
    ensures
        match (pa@.node, r) {
            (Some(node), Ok(targets)) => texts(targets@) == seq![
                with_port(node, decimal(cfg.port as nat)),
            ],
            (None, Ok(targets)) => cfg.peers@.len() > 0 && texts(targets@) == texts(cfg.peers@),
            (None, Err(e)) => cfg.peers@.len() == 0 && e@ == no_target(),
            (Some(_), Err(_)) => false,
        },
{
    match &pa.node {
        Some(node) => {
            let port = decimal_of(cfg.port as u128);
            let mut targets: Vec<String> = Vec::new();
            targets.push(with_default_port(node.as_str(), port.as_str()));
            proof {
                assert(texts(targets@) =~= seq![with_port(node@, decimal(cfg.port as nat))]);
            }
            Ok(targets)
        },
        None => {
            if cfg.peers.len() == 0 {
                return Err(
                    "no node to paste from: pass --node <host[:port]> or list a peer in the config".to_string(),
                );
            }
            Ok(clone_texts(cfg.peers.as_slice()))
        },
    }
}

/// How much of the offer an invocation needs: names but no bytes, exactly one
/// representation, or all of them.
pub open spec fn needed(v: PasteView, want: GetWant) -> bool {
    if v.list {
        want is TypesOnly
    } else {
        match v.type_ {
            Some(t) => want matches GetWant::One(w) && w@ == t,
            None => want is All,
        }
    }
}

/// How much of the offer this invocation needs, so that the node can send only that.
pub fn narrowing(pa: &PasteArgs) -> (r: GetWant)
    ensures
        needed(pa@, r),
{
    if pa.list {
        return GetWant::TypesOnly;
    }
    match &pa.type_ {
        Some(t) => GetWant::One(t.clone()),
        None => GetWant::All,
    }
}

/// The bytes paste mode writes for a fetched offer: either the type listing (`-l`) or the
/// selected representation.
pub fn output_bytes(pa: &PasteArgs, offer: Offer) -> (r: Result<Vec<u8>, String>)
    ensures
        ({
            let pairs = offer_pairs(offer);
            let types = types_of(pairs);
            match r {
                Ok(bytes) => if pa.list {
                    bytes@ == encode_utf8(type_lines(types))
                } else {
                    selected(pa@.type_, types) matches Some(i) && bytes_of(pairs, types[i])
                        matches Some(data) && bytes@ == printed(data, types[i], pa.no_newline)
                },
                Err(e) => !pa.list && selected(pa@.type_, types) is None && e@ == select_fault(
                    pa@.type_,
                    types,
                ),
            }
        }),
{
    if pa.list {
        let text = list_types(&offer);
        return Ok(crate::clipboard::atoms::copy_bytes(text.as_str().as_bytes()));
    }
    let requested = match &pa.type_ {
        Some(t) => Some(t.as_str()),
        None => None,
    };
    take_selected(requested, offer, pa.no_newline)
}

/// The bytes of the selected representation of an offer.
pub fn take_selected(requested: Option<&str>, offer: Offer, no_newline: bool) -> (r: Result<
    Vec<u8>,
    String,
>)
    ensures
        ({
            let pairs = offer_pairs(offer);
            let types = types_of(pairs);
            let want = match requested {
                Some(w) => Some(w@),
                None => None,
            };
            match r {
                Ok(bytes) => selected(want, types) matches Some(i) && bytes_of(pairs, types[i])
                    matches Some(data) && bytes@ == printed(data, types[i], no_newline),
                Err(e) => selected(want, types) is None && e@ == select_fault(want, types),
            }
        }),
{
    let mime = match select_type(requested, &offer) {
        Ok(mime) => mime.to_string(),
        Err(e) => {
            return Err(e);
        },
    };
    proof {
        let pairs = offer_pairs(offer);
        crate::offer::lemma_place_of(pairs, mime@);
        let want = match requested {
            Some(w) => Some(w@),
            None => None,
        };
        let i = selected(want, types_of(pairs))->0;
        assert(pairs[i].0 == mime@);
    }
    let data = offer_take(offer, mime.as_str()).unwrap();
    Ok(render(data, mime.as_str(), no_newline))
}

/// The representations of a list of types without content: a type that repeats counts
/// once.
pub open spec fn bare_pairs(types: Seq<Seq<char>>) -> Seq<Pair>
    decreases types.len(),
{
    if types.len() == 0 {
        Seq::empty()
    } else {
        with_pair(bare_pairs(types.drop_last()), types.last(), Seq::empty())
    }
}

fn bare_offer(types: &[String]) -> (r: Offer)
    ensures
        offer_pairs(r) == bare_pairs(texts(types@)),
{
    let mut r = new_offer();
    let ghost all = texts(types@);
    let mut i: usize = 0;
    proof {
        assert(all.take(0) =~= Seq::<Seq<char>>::empty());
    }
    while i < types.len()
        invariant
            i <= types@.len(),
            all == texts(types@),
            offer_pairs(r) == bare_pairs(all.take(i as int)),
        decreases types@.len() - i,
    {
        proof {
            assert(all.take(i + 1).drop_last() =~= all.take(i as int));
            assert(all.take(i + 1).last() == types@[i as int]@);
        }
        offer_insert(&mut r, types[i].clone(), Vec::new());
        i += 1;
    }
    proof {
        assert(all.take(all.len() as int) =~= all);
    }
    r
}

/// Why a node hands nothing back, for the user.
pub open spec fn reason_text(reason: Unavailable, addr: Seq<char>, want: SelectionKind) -> Seq<
    char,
> {
    let kind = kind_name(want);
    match reason {
        Unavailable::Empty => "the "@ + kind + " clipboard on "@ + addr + " is empty"@,
        Unavailable::NotSynced => addr + " does not serve its "@ + kind
            + " selection — it is configured receive-only, or (for --primary) without sync_selection"@,
        Unavailable::Sensitive => "the "@ + kind + " clipboard on "@ + addr
            + " is flagged as a password-manager secret"@,
        Unavailable::Denied => "every type in the "@ + kind + " clipboard on "@ + addr
            + " is denied by that node's MIME rules (see `clipmesh --rules` on that host)"@,
        Unavailable::TooLarge => "the "@ + kind + " clipboard on "@ + addr
            + " exceeds that node's max_payload_size"@,
        Unavailable::Unreadable => addr + " could not read its "@ + kind
            + " clipboard; its log says why"@,
    }
}

/// `a`, `b` and so on behind each other.
fn said(a: &str, b: &str, c: &str, d: &str, e: &str) -> (r: String)
    ensures
        r@ == a@ + b@ + c@ + d@ + e@,
{
    let mut s = a.to_string();
    s.append(b);
    s.append(c);
    s.append(d);
    s.append(e);
    s
}

/// Turns a node's answer into an offer or a specific error: each failure names its own
/// cause.
pub fn interpret(result: GetResult, addr: &str, want: SelectionKind) -> (r: Result<Offer, String>)
    ensures
        match (result, r) {
            (GetResult::Offer(o), Ok(got)) => got == o,
            (GetResult::Types(types), Ok(got)) => offer_pairs(got) == bare_pairs(texts(types@)),
            (GetResult::NotOffered { available: types }, Err(e)) => e@
                == "that type is not offered by "@ + addr@ + " (available: "@ + available(
                texts(types@),
            ) + ")"@,
            (GetResult::Unavailable(reason), Err(e)) => e@ == reason_text(reason, addr@, want),
            _ => false,
        },
{
    let kind = want.name();
    match result {
        GetResult::Offer(o) => Ok(o),
        GetResult::Types(types) => Ok(bare_offer(types.as_slice())),
        GetResult::NotOffered { available: types } => {
            let list = list_available(types.as_slice());
            Err(
                said(
                    "that type is not offered by ",
                    addr,
                    " (available: ",
                    list.as_str(),
                    ")",
                ),
            )
        },
        GetResult::Unavailable(reason) => Err(explain_reason(reason, addr, kind, Ghost(want))),
    }
}

fn explain_reason(
    reason: Unavailable,
    addr: &str,
    kind: &str,
    Ghost(want): Ghost<SelectionKind>,
) -> (r: String)
    requires
        kind@ == kind_name(want),
    ensures
        r@ == reason_text(reason, addr@, want),
{
    match reason {
        Unavailable::Empty => said("the ", kind, " clipboard on ", addr, " is empty"),
        Unavailable::NotSynced => {
            let mut s = addr.to_string();
            s.append(" does not serve its ");
            s.append(kind);
            s.append(
                " selection — it is configured receive-only, or (for --primary) without sync_selection",
            );
            s
        },
        Unavailable::Sensitive => said(
            "the ",
            kind,
            " clipboard on ",
            addr,
            " is flagged as a password-manager secret",
        ),
        Unavailable::Denied => said(
            "every type in the ",
            kind,
            " clipboard on ",
            addr,
            " is denied by that node's MIME rules (see `clipmesh --rules` on that host)",
        ),
        Unavailable::TooLarge => said(
            "the ",
            kind,
            " clipboard on ",
            addr,
            " exceeds that node's max_payload_size",
        ),
        Unavailable::Unreadable => {
            let mut s = addr.to_string();
            s.append(" could not read its ");
            s.append(kind);
            s.append(" clipboard; its log says why");
            s
        },
    }
}

/// What happens while the clipboard is being fetched.
pub enum FetchEvent {
    /// The time is over.
    Deadline,
    /// The connection ended, with its error if it failed.
    Ended(Option<String>),
    /// The connection to this node is registered.
    Connected(NodeId),
    /// A message came.
    Inbound(Message),
    /// No more messages will come.
    InboundClosed,
}

/// What a fetch does next.
pub enum FetchStep {
    /// Ask this node for the selection, and wait.
    Ask(NodeId),
    /// Wait.
    Wait,
    /// This is the outcome.
    Done(Result<Offer, String>),
}

/// One step of fetching the selection `want` from `addr`: asks once connected, and takes
/// the first reply about that selection. Anything else that comes is passed over.
pub fn fetch_offer(addr: &str, want: SelectionKind, timeout: &str, event: FetchEvent) -> (r:
    FetchStep)
    ensures
        match event {
            FetchEvent::Deadline => r matches FetchStep::Done(Err(e)) && e@ == timeout_message(
                addr@,
                timeout@,
                "clipboard"@,
            ),
            FetchEvent::Ended(cause) => r matches FetchStep::Done(Err(e)) && e@ == ended_message(
                addr@,
                opt_text(cause),
            ),
            FetchEvent::Connected(node) => r == FetchStep::Ask(node),
            FetchEvent::Inbound(Message::GetReply { kind, result }) => if kind == want {
                r matches FetchStep::Done(outcome) && match (result, outcome) {
                    (GetResult::Offer(o), Ok(got)) => got == o,
                    (GetResult::Types(types), Ok(got)) => offer_pairs(got) == bare_pairs(
                        texts(types@),
                    ),
                    (GetResult::NotOffered { available: types }, Err(e)) => e@
                        == "that type is not offered by "@ + addr@ + " (available: "@ + available(
                        texts(types@),
                    ) + ")"@,
                    (GetResult::Unavailable(reason), Err(e)) => e@ == reason_text(
                        reason,
                        addr@,
                        want,
                    ),
                    _ => false,
                }
            } else {
                r is Wait
            },
            FetchEvent::Inbound(_) => r is Wait,
            FetchEvent::InboundClosed => r matches FetchStep::Done(Err(e)) && e@ == closed_message(
                addr@,
            ),
        },
{
    let asked: AskEvent<GetResult> = match event {
        FetchEvent::Deadline => AskEvent::Deadline,
        FetchEvent::Ended(cause) => AskEvent::Ended(cause),
        FetchEvent::Connected(node) => AskEvent::Connected(node),
        FetchEvent::Inbound(Message::GetReply { kind, result }) => {
            if kind == want {
                AskEvent::Inbound(Some(result))
            } else {
                AskEvent::Inbound(None)
            }
        },
        FetchEvent::Inbound(_) => AskEvent::Inbound(None),
        FetchEvent::InboundClosed => AskEvent::InboundClosed,
    };
    match ask(addr, timeout, "clipboard", asked) {
        AskStep::Ask(node) => FetchStep::Ask(node),
        AskStep::Wait => FetchStep::Wait,
        AskStep::Answer(result) => FetchStep::Done(interpret(result, addr, want)),
        AskStep::Fail(e) => FetchStep::Done(Err(e)),
    }
}

/// Fetches that race each other: the first success wins.
pub struct Race {
    total: usize,
    failed: usize,
    last: Option<String>,
}

/// Fetches that race each other.
#[verifier::ext_equal]
pub struct RaceView {
    pub total: nat,
    pub failed: nat,
    pub last: Option<Seq<char>>,
}

impl View for Race {
    type V = RaceView;

    closed spec fn view(&self) -> RaceView {
        RaceView {
            total: self.total as nat,
            failed: self.failed as nat,
            last: opt_text(self.last),
        }
    }
}

/// Starts a race across every target: unreachable, timed-out, or wrongly-configured nodes
/// are tolerated as long as one succeeds.
pub fn fetch_from_any(targets: &[String]) -> (r: Race)
    ensures
        r@ == (RaceView { total: targets@.len(), failed: 0, last: None }),
{
    Race { total: targets.len(), failed: 0, last: None }
}

/// What is said when every fetch failed: a single one says it itself, of several the last
/// error is reported.
pub open spec fn race_lost(total: nat, last: Option<Seq<char>>) -> Seq<char> {
    let cause = match last {
        Some(e) => e,
        None => "no nodes to paste from"@,
    };
    if total == 1 && last is Some {
        cause
    } else {
        "couldn't paste from any of "@ + decimal(total) + " nodes: "@ + cause
    }
}

impl Race {
    /// Why the race is lost, once every fetch has failed.
    pub fn lost(&self) -> (r: Option<String>)
        ensures
            match r {
                Some(e) => self@.failed == self@.total && e@ == race_lost(
                    self@.total,
                    self@.last,
                ),
                None => self@.failed != self@.total,
            },
    {
        if self.failed != self.total {
            return None;
        }
        let cause = match &self.last {
            Some(e) => e.as_str(),
            None => "no nodes to paste from",
        };
        if self.total == 1 && self.last.is_some() {
            return Some(cause.to_string());
        }
        let mut s = "couldn't paste from any of ".to_string();
        s.append(decimal_of(self.total as u128).as_str());
        s.append(" nodes: ");
        s.append(cause);
        Some(s)
    }

    /// Takes the outcome of one fetch. Returns the outcome of the race, once it has one.
    pub fn joined(&mut self, result: Result<Offer, String>) -> (r: Option<Result<Offer, String>>)
        requires
            old(self)@.failed < old(self)@.total,
        ensures
            match result {
                Ok(offer) => r == Some(Ok::<Offer, String>(offer)) && final(self)@ == old(self)@,
                Err(cause) => {
                    &&& final(self)@ == (RaceView {
                        total: old(self)@.total,
                        failed: old(self)@.failed + 1,
                        last: Some(cause@),
                    })
                    &&& if old(self)@.failed + 1 == old(self)@.total {
                        r matches Some(Err(e)) && e@ == race_lost(old(self)@.total, Some(cause@))
                    } else {
                        r is None
                    }
                },
            },
    {
        match result {
            Ok(offer) => Some(Ok(offer)),
            Err(cause) => {
                self.failed = self.failed + 1;
                self.last = Some(cause);
                match self.lost() {
                    Some(e) => Some(Err(e)),
                    None => None,
                }
            },
        }
    }
}

} // verus!
