//! The canonical config-file template and the `--sync-config` normalizer.
//!
//! One ordered list of [`Block`]s describes every option, its comment, and its default.
//! [`render`] emits the file from that template, overlaying the user's present values:
//! options the user set are active with their values; the rest are commented defaults.

use crate::config::RAW_CONFIG_KEYS;
use crate::config_reading::{config_parts, config_table, lemma_config_is_plain};
use crate::config_reading::{lemma_config_reads_back, lemma_template_keys_are_distinct};
use crate::order::{ascending, distinct, sort_order};
use crate::text::{flag, flag_of, join, join_of, lines, lines_of, same, texts, trim_end};
use crate::text::{contains_text, trim_end_of, trim_of};
use crate::toml::{bare_texts, canonical_text, canonical_texts, doc_content, doc_readable};
use crate::toml::{document_field, document_has_table, document_keys, document_value, field};
use crate::toml::{holds_plain, is_canonical, item_bare_text, item_elements, item_flag};
use crate::toml::{parse_document, plain_text, reads_plainly, toml_document, trees, TextTree};
use crate::toml::{toml_error_text, toml_fault, TomlDoc, TomlView};
use toml_edit::{DocumentMut, Item};
use vstd::prelude::*;

verus! {

/// What a commented-out line in the generated file is showing.
#[derive(Debug, Clone, Copy)]
pub enum Shown {
    /// Exactly the value the parser applies when the key is absent.
    Default(&'static str),
    /// An illustrative value only: uncommenting such a line does change behaviour.
    Sample(&'static str),
}

/// The text rendered beside the key.
pub open spec fn shown_text(s: Shown) -> Seq<char> {
    match s {
        Shown::Default(text) => text@,
        Shown::Sample(text) => text@,
    }
}

impl Shown {
    /// The TOML text rendered beside the key.
    pub fn text(self) -> (r: &'static str)
        ensures
            r@ == shown_text(self),
    {
        match self {
            Shown::Default(text) => text,
            Shown::Sample(text) => text,
        }
    }
}

/// One block of the canonical config file, in render order.
#[derive(Debug, Clone, Copy)]
pub enum Block {
    /// Free prose not tied to a key (e.g. the file header).
    Prose(&'static str),
    /// A required scalar (no usable default): always active. `sample` is the illustrative
    /// value of the example file.
    Required { key: &'static str, comment: &'static str, sample: &'static str },
    /// An optional scalar: active with the user's value when present, else
    /// `# key = <shown>`.
    Optional { key: &'static str, comment: &'static str, shown: Shown },
    /// The psk source group: exactly one of psk_file/psk/psk_env is active.
    PskGroup { comment: &'static str },
    /// The `[link_selections]` table; always rendered last.
    LinkSelections { comment: &'static str },
}

/// A top-level key and the text of its value.
pub type Setting = (Seq<char>, Seq<char>);

/// The user's present values, extracted from their config file.
#[derive(Debug, Clone)]
pub struct Values {
    /// Present top-level key and canonical (decor-stripped) value text.
    pub scalars: Vec<(String, String)>,
    /// The `[link_selections]` table if present: (clipboard_to_selection,
    /// selection_to_clipboard).
    pub link: Option<(bool, bool)>,
}

/// The user's present values.
#[verifier::ext_equal]
pub struct ValuesView {
    pub settings: Seq<Setting>,
    pub link: Option<(bool, bool)>,
}

impl View for Values {
    type V = ValuesView;

    open spec fn view(&self) -> ValuesView {
        ValuesView {
            settings: self.scalars@.map_values(|p: (String, String)| (p.0@, p.1@)),
            link: self.link,
        }
    }
}

/// The value of a key: where one is set twice, the later counts.
pub open spec fn setting(settings: Seq<Setting>, key: Seq<char>) -> Option<Seq<char>>
    decreases settings.len(),
{
    if settings.len() == 0 {
        None
    } else if settings.last().0 == key {
        Some(settings.last().1)
    } else {
        setting(settings.drop_last(), key)
    }
}

impl Values {
    /// No values at all.
    pub fn new() -> (r: Values)
        ensures
            r@ == (ValuesView { settings: Seq::empty(), link: None }),
    {
        let r = Values { scalars: Vec::new(), link: None };
        assert(r@.settings =~= Seq::<Setting>::empty());
        r
    }

    /// The value of a key.
    pub fn get(&self, key: &str) -> (r: Option<&String>)
        ensures
            match r {
                Some(v) => setting(self@.settings, key@) == Some(v@),
                None => setting(self@.settings, key@) is None,
            },
    {
        let mut i: usize = self.scalars.len();
        let ghost all = self@.settings;
        proof {
            assert(all.take(i as int) =~= all);
        }
        while i > 0
            invariant
                i <= self.scalars@.len(),
                all == self@.settings,
                setting(all, key@) == setting(all.take(i as int), key@),
            decreases i,
        {
            proof {
                assert(all.take(i as int).drop_last() =~= all.take(i - 1));
                assert(all.take(i as int).last() == all[i - 1]);
            }
            if same(self.scalars[i - 1].0.as_str(), key) {
                return Some(&self.scalars[i - 1].1);
            }
            i = i - 1;
        }
        None
    }

    fn set(&mut self, key: String, value: String)
        ensures
            final(self)@.settings == old(self)@.settings.push((key@, value@)),
            final(self)@.link == old(self)@.link,
    {
        let ghost was = self@.settings;
        self.scalars.push((key, value));
        assert(self@.settings =~= was.push((key@, value@)));
    }
}

/// A comment line: a blank line is `#`.
pub open spec fn comment_line(line: Seq<char>) -> Seq<char> {
    if line.len() == 0 {
        "#\n"@
    } else {
        "# "@ + line + "\n"@
    }
}

/// The comment lines of a list of lines.
pub open spec fn comment_lines(lines: Seq<Seq<char>>) -> Seq<char>
    decreases lines.len(),
{
    if lines.len() == 0 {
        Seq::empty()
    } else {
        comment_lines(lines.drop_last()) + comment_line(lines.last())
    }
}

/// A text as a comment.
pub open spec fn comment(text: Seq<char>) -> Seq<char> {
    comment_lines(lines(text))
}

/// Renders each comment line as `# line` (a blank line becomes `#`).
fn push_comment(text: &str, out: &mut String)
    ensures
        final(out)@ == old(out)@ + comment(text@),
{
    let all = lines_of(text);
    let ghost start = out@;
    let ghost ls = texts(all@);
    let mut i: usize = 0;
    proof {
        assert(ls.take(0) =~= Seq::<Seq<char>>::empty());
        assert(start + Seq::<char>::empty() =~= start);
    }
    while i < all.len()
        invariant
            i <= all@.len(),
            ls == texts(all@),
            out@ == start + comment_lines(ls.take(i as int)),
        decreases all@.len() - i,
    {
        let line = all[i].as_str();
        let ghost before = comment_lines(ls.take(i as int));
        proof {
            assert(ls.take(i + 1).drop_last() =~= ls.take(i as int));
            assert(ls.take(i + 1).last() == line@);
        }
        if line.is_empty() {
            out.append("#\n");
        } else {
            out.append("# ");
            out.append(line);
            out.append("\n");
        }
        proof {
            assert(out@ =~= start + (before + comment_line(line@)));
        }
        i += 1;
    }
    proof {
        assert(ls.take(ls.len() as int) =~= ls);
    }
}

/// A setting as a line.
pub open spec fn active(key: Seq<char>, value: Seq<char>) -> Seq<char> {
    key + " = "@ + value
}

/// A setting as a commented-out line.
pub open spec fn commented(key: Seq<char>, value: Seq<char>) -> Seq<char> {
    "# "@ + active(key, value)
}

/// One optional option line: active at the user's value when they set it, else the
/// commented default.
pub open spec fn option_line(key: Seq<char>, v: ValuesView, default: Seq<char>) -> Seq<char> {
    match setting(v.settings, key) {
        Some(value) => active(key, value) + "\n"@,
        None => commented(key, default) + "\n"@,
    }
}

fn push_active(key: &str, value: &str, out: &mut String)
    ensures
        final(out)@ == old(out)@ + (active(key@, value@) + "\n"@),
{
    let ghost start = out@;
    out.append(key);
    out.append(" = ");
    out.append(value);
    out.append("\n");
    assert(out@ =~= start + (active(key@, value@) + "\n"@));
}

fn push_option(key: &str, values: &Values, default: &str, out: &mut String)
    ensures
        final(out)@ == old(out)@ + option_line(key@, values@, default@),
{
    match values.get(key) {
        Some(v) => push_active(key, v.as_str(), out),
        None => {
            let ghost start = out@;
            out.append("# ");
            push_active(key, default, out);
            assert(out@ =~= start + (commented(key@, default@) + "\n"@));
        },
    }
}

/// The `[link_selections]` table, commented out where the user has none.
pub open spec fn link_lines(link: Option<(bool, bool)>) -> Seq<char> {
    match link {
        Some((c2s, s2c)) => "[link_selections]\n"@ + ("clipboard_to_selection = "@ + flag(c2s)
            + "\n"@) + ("selection_to_clipboard = "@ + flag(s2c) + "\n"@),
        None => "# [link_selections]\n"@ + "# clipboard_to_selection = false\n"@
            + "# selection_to_clipboard = false\n"@,
    }
}

/// The psk sources, each active or commented out.
pub open spec fn psk_lines(v: ValuesView) -> Seq<char> {
    option_line("psk_file"@, v, "\"~/.config/clipmesh/psk\""@) + option_line(
        "psk"@,
        v,
        "\"supersecret\""@,
    ) + option_line("psk_env"@, v, "\"CLIPMESH_PSK\""@)
}

/// A block of the file.
pub open spec fn block_text(b: Block, v: ValuesView) -> Seq<char> {
    match b {
        Block::Prose(text) => comment(text@),
        Block::Required { key, comment: note, sample } => comment(note@) + (active(
            key@,
            match setting(v.settings, key@) {
                Some(value) => value,
                None => sample@,
            },
        ) + "\n"@),
        Block::Optional { key, comment: note, shown } => comment(note@) + option_line(
            key@,
            v,
            shown_text(shown),
        ),
        Block::PskGroup { comment: note } => comment(note@) + psk_lines(v),
        Block::LinkSelections { comment: note } => comment(note@) + link_lines(v.link),
    }
}

fn push_link(link: Option<(bool, bool)>, out: &mut String)
    ensures
        final(out)@ == old(out)@ + link_lines(link),
{
    let ghost start = out@;
    match link {
        Some((c2s, s2c)) => {
            out.append("[link_selections]\n");
            out.append("clipboard_to_selection = ");
            out.append(flag_of(c2s));
            out.append("\n");
            out.append("selection_to_clipboard = ");
            out.append(flag_of(s2c));
            out.append("\n");
        },
        None => {
            out.append("# [link_selections]\n");
            out.append("# clipboard_to_selection = false\n");
            out.append("# selection_to_clipboard = false\n");
        },
    }
    assert(out@ =~= start + link_lines(link));
}

fn push_psk(values: &Values, out: &mut String)
    ensures
        final(out)@ == old(out)@ + psk_lines(values@),
{
    let ghost start = out@;
    push_option("psk_file", values, "\"~/.config/clipmesh/psk\"", out);
    push_option("psk", values, "\"supersecret\"", out);
    push_option("psk_env", values, "\"CLIPMESH_PSK\"", out);
    assert(out@ =~= start + psk_lines(values@));
}

fn push_block(block: &Block, values: &Values, out: &mut String)
    ensures
        final(out)@ == old(out)@ + block_text(*block, values@),
{
    let ghost start = out@;
    match block {
        Block::Prose(text) => push_comment(text, out),
        Block::Required { key, comment: note, sample } => {
            push_comment(note, out);
            match values.get(key) {
                Some(v) => push_active(key, v.as_str(), out),
                None => push_active(key, sample, out),
            }
            assert(out@ =~= start + block_text(*block, values@));
        },
        Block::Optional { key, comment: note, shown } => {
            push_comment(note, out);
            push_option(key, values, shown.text(), out);
            assert(out@ =~= start + block_text(*block, values@));
        },
        Block::PskGroup { comment: note } => {
            push_comment(note, out);
            push_psk(values, out);
            assert(out@ =~= start + block_text(*block, values@));
        },
        Block::LinkSelections { comment: note } => {
            push_comment(note, out);
            push_link(values.link, out);
            assert(out@ =~= start + block_text(*block, values@));
        },
    }
}

/// The blocks, each followed by a blank line.
pub open spec fn blocks_text(blocks: Seq<Block>, v: ValuesView) -> Seq<char>
    decreases blocks.len(),
{
    if blocks.len() == 0 {
        Seq::empty()
    } else {
        blocks_text(blocks.drop_last(), v) + block_text(blocks.last(), v) + "\n"@
    }
}

/// The whole file: the blocks with a blank line between them, and exactly one line end at
/// the end.
pub open spec fn rendered(blocks: Seq<Block>, v: ValuesView) -> Seq<char> {
    trim_end(blocks_text(blocks, v)) + "\n"@
}

/// Renders the whole file: each block's comment, then its option line(s), then a single
/// blank line. Exactly one trailing newline at the end.
pub fn render(template: &[Block], values: &Values) -> (r: String)
    ensures
        r@ == rendered(template@, values@),
{
    let mut out = String::new();
    let mut i: usize = 0;
    proof {
        assert(template@.take(0) =~= Seq::<Block>::empty());
    }
    while i < template.len()
        invariant
            i <= template@.len(),
            out@ == blocks_text(template@.take(i as int), values@),
        decreases template@.len() - i,
    {
        proof {
            assert(template@.take(i + 1).drop_last() =~= template@.take(i as int));
        }
        push_block(&template[i], values, &mut out);
        out.append("\n");
        i += 1;
    }
    proof {
        assert(template@.take(template@.len() as int) =~= template@);
    }
    let mut r = trim_end_of(out.as_str());
    r.append("\n");
    r
}

pub const HEADER: &'static str = "clipmesh configuration. Generate/refresh with `clipmesh --sync-config`:\n\
    it fills in every option and these comments, keeping the values you've\n\
    set. A commented-out line means the option is unset and its default\n\
    applies; the value shown is that default, except where the comment\n\
    calls it an example. clipmesh watches this file and restarts to apply\n\
    a change.";

pub const LISTEN_NOTE: &'static str = "0.0.0.0 binds every interface; restrict to a specific LAN address (or\n\
    firewall the port) on hosts reachable from untrusted networks. Traffic is\n\
    Noise-encrypted, so peers without the psk can neither read nor inject.";

pub const PORT_NOTE: &'static str = "Port to listen on. Peers below that omit their own port reuse this one.\n\
    Put the port here, not in `listen`.";

pub const PEERS_NOTE: &'static str = "List every other node directly. clipmesh connects peers point-to-point\n\
    and never forwards between them, so a node left out here won't receive\n\
    copies. Add \":port\" to override the shared port for one peer.\n\
    The hosts below are an example: unset, this node dials nobody and only\n\
    accepts connections others make to it.";

pub const PSK_NOTE: &'static str = "Exactly one of psk_file / psk / psk_env must be set: psk_file points to a\n\
    file holding the shared secret, psk is the secret inline, psk_env names an\n\
    environment variable holding it. The values below are examples — every\n\
    node in the mesh must end up with the same secret.";

pub const OPTIONAL_NOTE: &'static str = "Everything below is optional.";

pub const MAX_PAYLOAD_SIZE_NOTE: &'static str = "Skip clipboard contents larger than this (whole offer).";

pub const DEBOUNCE_MS_NOTE: &'static str = "Quiet period (ms) before broadcasting, to coalesce rapid copies.";

pub const SYNC_SELECTION_NOTE: &'static str = "Also sync the middle-click selection across the mesh.";

pub const DIRECTION_NOTE: &'static str = "\"both\" | \"send_only\" | \"receive_only\".";

pub const EXCLUDE_SENSITIVE_NOTE: &'static str = "Skip password-manager-flagged contents.";

pub const RESYNC_ON_CONNECT_NOTE: &'static str = "Push current clipboard to peers when they (re)connect.";

pub const SHARE_MIME_RULES_NOTE: &'static str = "Share the MIME-rules file across the mesh (whole-file last-writer-wins:\n\
    the most recently edited file wins outright and replaces the others, not\n\
    a per-type merge). Turn off to keep each host's rules independent.";

pub const VERBOSE_NOTE: &'static str = "Log a one-line summary (at info level, so needs log_level >= info) per\n\
    detected copy and received update.";

pub const LOG_LEVEL_NOTE: &'static str = "Overridable with RUST_LOG.";

pub const UNKNOWN_MIME_NOTE: &'static str = "What to do with a MIME type that has no rule yet: \"deny\" syncs nothing\n\
    until you allow it; \"allow\" syncs everything not explicitly denied.";

pub const SYNTHESIZE_TEXT_PLAIN_NOTE: &'static str = "When a copied selection offers only a legacy X11 plain-text atom\n\
    (UTF8_STRING/STRING/TEXT) and no text/plain* rep, synthesize\n\
    text/plain;charset=utf-8 and text/plain from it so Wayland-native apps\n\
    can paste it. The synthesized types go through the MIME rules below.";

pub const TAKE_OWNERSHIP_NOTE: &'static str = "After a local copy, re-offer the selection so clipmesh owns it: the\n\
    clipboard then survives the source app exiting, and (with\n\
    synthesize_text_plain) X11-sourced content pastes on THIS host too. Never\n\
    re-owns password-manager-flagged content while exclude_sensitive is on.";

pub const MIME_RULES_FILE_NOTE: &'static str = "Per-type allow/deny rules file (TOML). Defaults to \"mimetypes\" beside\n\
    this config, wherever this config lives — so the path below is an example\n\
    of that, not a fixed default: setting it pins the rules file even if the\n\
    config moves. clipmesh creates the file, appends any new type it sees (per\n\
    unknown_mime), keeps it sorted, and reloads on change. Edit it or run\n\
    `clipmesh --allow/--deny \"<glob>\"` (and `clipmesh --rules` to list).";

pub const LINK_NOTE: &'static str = "Locally mirror between the Ctrl+C clipboard and the mouse-highlight /\n\
    middle-click selection on THIS host (separate from sync_selection, which\n\
    is mesh-wide). Each direction is independent and off unless true.\n\
    WARNING: selection_to_clipboard makes selecting any text overwrite your\n\
    clipboard — and, because the clipboard is always synced when this node\n\
    sends, your peers' clipboards too.";

/// The canonical config file.
pub open spec fn template_blocks() -> Seq<Block> {
    seq![
        Block::Prose(HEADER),
        Block::Required { key: "listen", comment: LISTEN_NOTE, sample: "\"0.0.0.0\"" },
        Block::Optional {
            key: "port",
            comment: PORT_NOTE,
            shown: Shown::Default("48100"),
        },
        Block::Optional {
            key: "peers",
            comment: PEERS_NOTE,
            shown: Shown::Sample("[\"host-b\", \"host-c\"]"),
        },
        Block::PskGroup { comment: PSK_NOTE },
        Block::Prose(OPTIONAL_NOTE),
        Block::Optional {
            key: "max_payload_size",
            comment: MAX_PAYLOAD_SIZE_NOTE,
            shown: Shown::Default("\"32MiB\""),
        },
        Block::Optional {
            key: "debounce_ms",
            comment: DEBOUNCE_MS_NOTE,
            shown: Shown::Default("100"),
        },
        Block::Optional {
            key: "sync_selection",
            comment: SYNC_SELECTION_NOTE,
            shown: Shown::Default("false"),
        },
        Block::Optional {
            key: "direction",
            comment: DIRECTION_NOTE,
            shown: Shown::Default("\"both\""),
        },
        Block::Optional {
            key: "exclude_sensitive",
            comment: EXCLUDE_SENSITIVE_NOTE,
            shown: Shown::Default("true"),
        },
        Block::Optional {
            key: "resync_on_connect",
            comment: RESYNC_ON_CONNECT_NOTE,
            shown: Shown::Default("true"),
        },
        Block::Optional {
            key: "share_mime_rules",
            comment: SHARE_MIME_RULES_NOTE,
            shown: Shown::Default("true"),
        },
        Block::Optional {
            key: "verbose",
            comment: VERBOSE_NOTE,
            shown: Shown::Default("false"),
        },
        Block::Optional {
            key: "log_level",
            comment: LOG_LEVEL_NOTE,
            shown: Shown::Default("\"info\""),
        },
        Block::Optional {
            key: "unknown_mime",
            comment: UNKNOWN_MIME_NOTE,
            shown: Shown::Default("\"deny\""),
        },
        Block::Optional {
            key: "synthesize_text_plain",
            comment: SYNTHESIZE_TEXT_PLAIN_NOTE,
            shown: Shown::Default("false"),
        },
        Block::Optional {
            key: "take_ownership",
            comment: TAKE_OWNERSHIP_NOTE,
            shown: Shown::Default("false"),
        },
        Block::Optional {
            key: "mime_rules_file",
            comment: MIME_RULES_FILE_NOTE,
            shown: Shown::Sample("\"~/.config/clipmesh/mimetypes\""),
        },
        Block::LinkSelections { comment: LINK_NOTE },
    ]
}

/// The canonical config file.
pub fn template() -> (r: Vec<Block>)
    ensures
        r@ == template_blocks(),
{
    let r = vec![
        Block::Prose(HEADER),
        Block::Required { key: "listen", comment: LISTEN_NOTE, sample: "\"0.0.0.0\"" },
        Block::Optional {
            key: "port",
            comment: PORT_NOTE,
            shown: Shown::Default("48100"),
        },
        Block::Optional {
            key: "peers",
            comment: PEERS_NOTE,
            shown: Shown::Sample("[\"host-b\", \"host-c\"]"),
        },
        Block::PskGroup { comment: PSK_NOTE },
        Block::Prose(OPTIONAL_NOTE),
        Block::Optional {
            key: "max_payload_size",
            comment: MAX_PAYLOAD_SIZE_NOTE,
            shown: Shown::Default("\"32MiB\""),
        },
        Block::Optional {
            key: "debounce_ms",
            comment: DEBOUNCE_MS_NOTE,
            shown: Shown::Default("100"),
        },
        Block::Optional {
            key: "sync_selection",
            comment: SYNC_SELECTION_NOTE,
            shown: Shown::Default("false"),
        },
        Block::Optional {
            key: "direction",
            comment: DIRECTION_NOTE,
            shown: Shown::Default("\"both\""),
        },
        Block::Optional {
            key: "exclude_sensitive",
            comment: EXCLUDE_SENSITIVE_NOTE,
            shown: Shown::Default("true"),
        },
        Block::Optional {
            key: "resync_on_connect",
            comment: RESYNC_ON_CONNECT_NOTE,
            shown: Shown::Default("true"),
        },
        Block::Optional {
            key: "share_mime_rules",
            comment: SHARE_MIME_RULES_NOTE,
            shown: Shown::Default("true"),
        },
        Block::Optional {
            key: "verbose",
            comment: VERBOSE_NOTE,
            shown: Shown::Default("false"),
        },
        Block::Optional {
            key: "log_level",
            comment: LOG_LEVEL_NOTE,
            shown: Shown::Default("\"info\""),
        },
        Block::Optional {
            key: "unknown_mime",
            comment: UNKNOWN_MIME_NOTE,
            shown: Shown::Default("\"deny\""),
        },
        Block::Optional {
            key: "synthesize_text_plain",
            comment: SYNTHESIZE_TEXT_PLAIN_NOTE,
            shown: Shown::Default("false"),
        },
        Block::Optional {
            key: "take_ownership",
            comment: TAKE_OWNERSHIP_NOTE,
            shown: Shown::Default("false"),
        },
        Block::Optional {
            key: "mime_rules_file",
            comment: MIME_RULES_FILE_NOTE,
            shown: Shown::Sample("\"~/.config/clipmesh/mimetypes\""),
        },
        Block::LinkSelections { comment: LINK_NOTE },
    ];
    assert(r@ =~= template_blocks());
    r
}

/// One scalar key the template renders, and what the template knows about it.
#[derive(Debug, Clone, Copy)]
pub struct TemplateKey {
    pub key: &'static str,
    /// The value shown beside the key while the user hasn't set it.
    pub shown: Shown,
    /// Whether it is a plain setting that a config may leave out: `listen` and the psk
    /// sources are not.
    pub optional: bool,
}

/// The keys that a block renders.
pub open spec fn block_keys(b: Block) -> Seq<TemplateKey> {
    match b {
        Block::Prose(_) | Block::LinkSelections { .. } => Seq::empty(),
        Block::Required { key, sample, .. } => seq![
            TemplateKey { key, shown: Shown::Sample(sample), optional: false },
        ],
        Block::Optional { key, shown, .. } => seq![TemplateKey { key, shown, optional: true }],
        Block::PskGroup { .. } => seq![
            TemplateKey {
                key: "psk_file",
                shown: Shown::Sample("\"~/.config/clipmesh/psk\""),
                optional: false,
            },
            TemplateKey {
                key: "psk",
                shown: Shown::Sample("\"supersecret\""),
                optional: false,
            },
            TemplateKey {
                key: "psk_env",
                shown: Shown::Sample("\"CLIPMESH_PSK\""),
                optional: false,
            },
        ],
    }
}

/// The keys that some blocks render, in order.
pub open spec fn keys_of(blocks: Seq<Block>) -> Seq<TemplateKey>
    decreases blocks.len(),
{
    if blocks.len() == 0 {
        Seq::empty()
    } else {
        keys_of(blocks.drop_last()) + block_keys(blocks.last())
    }
}

/// Every scalar key the template can render, in order.
pub fn key_defaults() -> (r: Vec<TemplateKey>)
    ensures
        r@ == keys_of(template_blocks()),
{
    let blocks = template();
    let mut r: Vec<TemplateKey> = Vec::new();
    let mut i: usize = 0;
    proof {
        assert(blocks@.take(0) =~= Seq::<Block>::empty());
    }
    while i < blocks.len()
        invariant
            i <= blocks@.len(),
            r@ == keys_of(blocks@.take(i as int)),
        decreases blocks@.len() - i,
    {
        let ghost was = r@;
        proof {
            assert(blocks@.take(i + 1).drop_last() =~= blocks@.take(i as int));
        }
        match blocks[i] {
            Block::Prose(_) => {},
            Block::LinkSelections { .. } => {},
            Block::Required { key, sample, .. } => {
                r.push(TemplateKey { key, shown: Shown::Sample(sample), optional: false });
            },
            Block::Optional { key, shown, .. } => {
                r.push(TemplateKey { key, shown, optional: true });
            },
            Block::PskGroup { .. } => {
                r.push(
                    TemplateKey {
                        key: "psk_file",
                        shown: Shown::Sample("\"~/.config/clipmesh/psk\""),
                        optional: false,
                    },
                );
                r.push(
                    TemplateKey {
                        key: "psk",
                        shown: Shown::Sample("\"supersecret\""),
                        optional: false,
                    },
                );
                r.push(
                    TemplateKey {
                        key: "psk_env",
                        shown: Shown::Sample("\"CLIPMESH_PSK\""),
                        optional: false,
                    },
                );
            },
        }
        proof {
            assert(r@ =~= was + block_keys(blocks@[i as int]));
        }
        i += 1;
    }
    proof {
        assert(blocks@.take(blocks@.len() as int) =~= blocks@);
    }
    r
}

/// The names of some keys.
pub open spec fn names(keys: Seq<TemplateKey>) -> Seq<Seq<char>> {
    keys.map_values(|k: TemplateKey| k.key@)
}

/// Every top-level scalar key the template can render.
pub fn template_keys() -> (r: Vec<String>)
    ensures
        texts(r@) == names(keys_of(template_blocks())),
{
    let keys = key_defaults();
    let mut r: Vec<String> = Vec::new();
    let mut i: usize = 0;
    while i < keys.len()
        invariant
            i <= keys@.len(),
            r@.len() == i,
            forall|k: int| 0 <= k < i ==> (#[trigger] r@[k])@ == keys@[k].key@,
        decreases keys@.len() - i,
    {
        r.push(keys[i].key.to_string());
        i += 1;
    }
    proof {
        assert(texts(r@) =~= names(keys@));
    }
    r
}

/// The names of the keys that a config may leave out.
pub open spec fn optional_names(keys: Seq<TemplateKey>) -> Seq<Seq<char>>
    decreases keys.len(),
{
    if keys.len() == 0 {
        Seq::empty()
    } else if keys.last().optional {
        optional_names(keys.drop_last()).push(keys.last().key@)
    } else {
        optional_names(keys.drop_last())
    }
}

/// The optional scalar keys in the template.
pub fn optional_keys() -> (r: Vec<String>)
    ensures
        texts(r@) == optional_names(keys_of(template_blocks())),
{
    let keys = key_defaults();
    let mut r: Vec<String> = Vec::new();
    let mut i: usize = 0;
    proof {
        assert(keys@.take(0) =~= Seq::<TemplateKey>::empty());
        assert(texts(r@) =~= Seq::<Seq<char>>::empty());
    }
    while i < keys.len()
        invariant
            i <= keys@.len(),
            texts(r@) == optional_names(keys@.take(i as int)),
        decreases keys@.len() - i,
    {
        let ghost was = texts(r@);
        proof {
            assert(keys@.take(i + 1).drop_last() =~= keys@.take(i as int));
        }
        if keys[i].optional {
            r.push(keys[i].key.to_string());
            proof {
                assert(texts(r@) =~= was.push(keys@[i as int].key@));
            }
        }
        i += 1;
    }
    proof {
        assert(keys@.take(keys@.len() as int) =~= keys@);
    }
    r
}

/// The value that some keys show for the key `key`: the first one counts.
pub open spec fn value_shown(keys: Seq<TemplateKey>, key: Seq<char>) -> Option<Seq<char>>
    decreases keys.len(),
{
    if keys.len() == 0 {
        None
    } else if keys[0].key@ == key {
        Some(shown_text(keys[0].shown))
    } else {
        value_shown(keys.skip(1), key)
    }
}

/// The value the template shows for `key`, whatever kind of block it is in.
pub fn template_value(key: &str) -> (r: Option<&'static str>)
    ensures
        match r {
            Some(v) => value_shown(keys_of(template_blocks()), key@) == Some(v@),
            None => value_shown(keys_of(template_blocks()), key@) is None,
        },
{
    let keys = key_defaults();
    let mut i: usize = 0;
    proof {
        assert(keys@.skip(0) =~= keys@);
    }
    while i < keys.len()
        invariant
            i <= keys@.len(),
            keys@ == keys_of(template_blocks()),
            value_shown(keys@, key@) == value_shown(keys@.skip(i as int), key@),
        decreases keys@.len() - i,
    {
        proof {
            assert(keys@.skip(i as int).skip(1) =~= keys@.skip(i + 1));
        }
        if same(keys[i].key, key) {
            return Some(keys[i].shown.text());
        }
        i += 1;
    }
    None
}

/// The keys that the example file shows active.
pub open spec fn example_names() -> Seq<Seq<char>> {
    seq!["listen"@, "port"@, "peers"@, "psk_file"@]
}

/// The values of the example file, taken from the template itself, so that an active line
/// in the example can't disagree with the commented default shown beside it.
pub open spec fn example_settings() -> Seq<Setting> {
    example_names().map_values(
        |k: Seq<char>| (k, value_shown(keys_of(template_blocks()), k)->0),
    )
}

proof fn lemma_keys_of_template()
    ensures
        keys_of(template_blocks()) == keys_of(template_blocks().take(5)) + keys_of(
            template_blocks().skip(5),
        ),
        keys_of(template_blocks().take(5)) == seq![
            TemplateKey { key: "listen", shown: Shown::Sample("\"0.0.0.0\""), optional: false },
            TemplateKey { key: "port", shown: Shown::Default("48100"), optional: true },
            TemplateKey {
                key: "peers",
                shown: Shown::Sample("[\"host-b\", \"host-c\"]"),
                optional: true,
            },
        ] + block_keys(template_blocks()[4]),
{
    let t = template_blocks();
    lemma_keys_of_concat(t.take(5), t.skip(5));
    assert(t.take(5) + t.skip(5) =~= t);
    let five = t.take(5);
    assert(five.drop_last() =~= t.take(4));
    assert(t.take(4).drop_last() =~= t.take(3));
    assert(t.take(3).drop_last() =~= t.take(2));
    assert(t.take(2).drop_last() =~= t.take(1));
    assert(t.take(1).drop_last() =~= Seq::<Block>::empty());
    reveal_with_fuel(keys_of, 7);
    assert(keys_of(five) =~= seq![
        TemplateKey { key: "listen", shown: Shown::Sample("\"0.0.0.0\""), optional: false },
        TemplateKey { key: "port", shown: Shown::Default("48100"), optional: true },
        TemplateKey {
            key: "peers",
            shown: Shown::Sample("[\"host-b\", \"host-c\"]"),
            optional: true,
        },
    ] + block_keys(t[4]));
}

proof fn lemma_keys_of_concat(a: Seq<Block>, b: Seq<Block>)
    ensures
        keys_of(a + b) == keys_of(a) + keys_of(b),
    decreases b.len(),
{
    if b.len() == 0 {
        assert(a + b =~= a);
        assert(keys_of(a) + keys_of(b) =~= keys_of(a));
    } else {
        assert((a + b).drop_last() =~= a + b.drop_last());
        lemma_keys_of_concat(a, b.drop_last());
        assert(keys_of(a) + (keys_of(b.drop_last()) + block_keys(b.last())) =~= keys_of(a)
            + keys_of(b.drop_last()) + block_keys(b.last()));
    }
}

/// The four values that the example file shows.
pub proof fn lemma_example()
    ensures
        value_shown(keys_of(template_blocks()), "listen"@) == Some("\"0.0.0.0\""@),
        value_shown(keys_of(template_blocks()), "port"@) == Some("48100"@),
        value_shown(keys_of(template_blocks()), "peers"@) == Some(
            "[\"host-b\", \"host-c\"]"@,
        ),
        value_shown(keys_of(template_blocks()), "psk_file"@) == Some(
            "\"~/.config/clipmesh/psk\""@,
        ),
{
    lemma_keys_of_template();
    reveal_strlit("listen");
    reveal_strlit("port");
    reveal_strlit("peers");
    reveal_strlit("psk_file");
    let keys = keys_of(template_blocks());
    assert(keys[0].key@ == "listen"@);
    assert(keys[1].key@ == "port"@);
    assert(keys[2].key@ == "peers"@);
    assert(keys[3].key@ == "psk_file"@);
    assert(keys.skip(1).skip(1) =~= keys.skip(2));
    assert(keys.skip(2).skip(1) =~= keys.skip(3));
    assert("listen"@.len() == 6 && "port"@.len() == 4 && "peers"@.len() == 5
        && "psk_file"@.len() == 8);
    reveal_with_fuel(value_shown, 5);
}

/// The illustrative values of the example file: it shows `listen`, `port`, `peers` and
/// `psk_file` active, everything else commented.
pub fn example_values() -> (r: Values)
    ensures
        r@ == (ValuesView { settings: example_settings(), link: None }),
{
    let mut r = Values::new();
    proof {
        lemma_example();
    }
    r.set("listen".to_string(), template_value("listen").unwrap().to_string());
    r.set("port".to_string(), template_value("port").unwrap().to_string());
    r.set("peers".to_string(), template_value("peers").unwrap().to_string());
    r.set("psk_file".to_string(), template_value("psk_file").unwrap().to_string());
    assert(r@.settings =~= example_settings());
    r
}

/// The shipped example config, generated from the template.
pub fn render_example() -> (r: String)
    ensures
        r@ == rendered(
            template_blocks(),
            (ValuesView { settings: example_settings(), link: None }),
        ),
{
    let blocks = template();
    let values = example_values();
    render(blocks.as_slice(), &values)
}

proof fn lemma_canonical_texts(elements: Seq<TextTree>)
    ensures
        canonical_texts(elements).len() == elements.len(),
        forall|i: int|
            0 <= i < elements.len() ==> (#[trigger] canonical_texts(elements)[i])
                == canonical_text(elements[i]),
    decreases elements.len(),
{
    if elements.len() > 0 {
        lemma_canonical_texts(elements.drop_last());
    }
}

/// A value as canonical TOML.
fn canonical(item: &Item) -> (r: String)
    ensures
        r@ == canonical_text(bare_texts(*item)),
    decreases bare_texts(*item),
{
    let ghost tree = bare_texts(*item);
    match item_elements(item) {
        Some(items) => {
            let mut parts: Vec<String> = Vec::new();
            let mut i: usize = 0;
            while i < items.len()
                invariant
                    i <= items@.len(),
                    tree == bare_texts(*item),
                    tree == TextTree::Node(trees(items@)),
                    parts@.len() == i,
                    forall|k: int|
                        0 <= k < i ==> (#[trigger] parts@[k])@ == canonical_text(
                            trees(items@)[k],
                        ),
                decreases items@.len() - i,
            {
                proof {
                    assert(tree->Node_0[i as int] == bare_texts(items@[i as int]));
                    assert(decreases_to!(tree => tree->Node_0[i as int]));
                }
                parts.push(canonical(&items[i]));
                i += 1;
            }
            proof {
                lemma_canonical_texts(trees(items@));
                assert(texts(parts@) =~= canonical_texts(trees(items@)));
            }
            let mut r = "[".to_string();
            let inner = join_of(parts.as_slice(), ", ");
            r.append(inner.as_str());
            r.append("]");
            r
        },
        None => {
            let text = item_bare_text(item);
            trim_of(text.as_str())
        },
    }
}

/// The value that a document sets for a scalar key. `link_selections` is none, even
/// where it is written inline.
pub open spec fn value_in(doc: TomlDoc, key: Seq<char>) -> Option<Seq<char>> {
    if key != "link_selections"@ && doc.texts.dom().contains(key) {
        Some(canonical_text(doc.texts[key]))
    } else {
        None
    }
}

/// The direction `key` of the `link_selections` table, which is off unless true.
pub open spec fn link_direction(doc: TomlDoc, key: Seq<char>) -> bool {
    field(doc, "link_selections"@, key) == Some(TomlView::Flag(true))
}

/// The `link_selections` table, inline or with a header.
pub open spec fn link_in(doc: TomlDoc) -> Option<(bool, bool)> {
    match doc.fields.get("link_selections"@) {
        Some(v) => if v is Inline || v is Section {
            Some(
                (
                    link_direction(doc, "clipboard_to_selection"@),
                    link_direction(doc, "selection_to_clipboard"@),
                ),
            )
        } else {
            None
        },
        None => None,
    }
}

/// Whether `v` holds what a document sets, each key once.
pub open spec fn extracted(v: ValuesView, doc: TomlDoc) -> bool {
    &&& v.link == link_in(doc)
    &&& forall|key: Seq<char>| #[trigger] setting(v.settings, key) == value_in(doc, key)
    &&& distinct(setting_names(v.settings))
}

/// Whether every value is written in canonical TOML.
pub open spec fn all_canonical(settings: Seq<Setting>) -> bool {
    forall|key: Seq<char>| (#[trigger] setting(settings, key)) matches Some(text) ==> is_canonical(
        text,
    )
}

/// Whether `v` are the values of a config that loads: `listen` is set, every key is one of
/// the template, and every value is written in canonical TOML.
pub open spec fn is_complete(v: ValuesView) -> bool {
    &&& setting(v.settings, "listen"@) is Some
    &&& all_canonical(v.settings)
    &&& forall|key: Seq<char>| (#[trigger] setting(v.settings, key)) is Some ==> names(
        keys_of(template_blocks()),
    ).contains(key)
}

/// Whether two lists of values set the same.
pub open spec fn same_settings(a: ValuesView, b: ValuesView) -> bool {
    &&& a.link == b.link
    &&& forall|key: Seq<char>| #[trigger] setting(a.settings, key) == setting(b.settings, key)
}

/// The keys of some settings.
pub open spec fn setting_names(settings: Seq<Setting>) -> Seq<Seq<char>> {
    settings.map_values(|s: Setting| s.0)
}

fn link_flag(doc: &DocumentMut, key: &str) -> (r: bool)
    ensures
        r == link_direction(doc_content(*doc), key@),
{
    match document_field(doc, "link_selections", key) {
        Some(item) => match item_flag(&item) {
            Some(b) => b,
            None => false,
        },
        None => false,
    }
}

proof fn lemma_setting(settings: Seq<Setting>, key: Seq<char>)
    ensures
        setting(settings, key) is Some <==> setting_names(settings).contains(key),
    decreases settings.len(),
{
    let ns = setting_names(settings);
    if settings.len() > 0 {
        let rest = settings.drop_last();
        lemma_setting(rest, key);
        assert(ns[settings.len() - 1] == settings.last().0);
        if setting_names(rest).contains(key) {
            let i = choose|i: int| 0 <= i < rest.len() && setting_names(rest)[i] == key;
            assert(ns[i] == key);
        }
        if ns.contains(key) {
            let i = choose|i: int| 0 <= i < ns.len() && ns[i] == key;
            if i < rest.len() {
                assert(setting_names(rest)[i] == key);
            }
        }
    }
}

/// The values that a document sets.
pub fn values_in(doc: &DocumentMut) -> (r: Values)
    ensures
        extracted(r@, doc_content(*doc)),
        doc_readable(*doc) ==> all_canonical(r@.settings),
{
    let ghost d = doc_content(*doc);
    let mut r = Values::new();
    if document_has_table(doc, "link_selections") {
        r.link = Some(
            (link_flag(doc, "clipboard_to_selection"), link_flag(doc, "selection_to_clipboard")),
        );
    }
    let keys = document_keys(doc);
    let ghost ks = texts(keys@);
    let mut i: usize = 0;
    proof {
        assert(r@.settings =~= Seq::<Setting>::empty());
        assert(setting_names(r@.settings) =~= Seq::<Seq<char>>::empty());
        assert(ks.take(0) =~= Seq::<Seq<char>>::empty());
    }
    while i < keys.len()
        invariant
            i <= keys@.len(),
            ks == texts(keys@),
            d == doc_content(*doc),
            distinct(ks),
            r@.link == link_in(d),
            distinct(setting_names(r@.settings)),
            doc_readable(*doc) ==> all_canonical(r@.settings),
            forall|key: Seq<char>|
                #[trigger] setting(r@.settings, key) == (if ks.take(i as int).contains(key) {
                    value_in(d, key)
                } else {
                    None
                }),
        decreases keys@.len() - i,
    {
        let key = &keys[i];
        let ghost was = r@.settings;
        proof {
            let (a, b) = (ks.take(i as int), ks.take(i + 1));
            assert(b =~= a.push(key@));
            assert forall|k: Seq<char>| b.contains(k) <==> a.contains(k) || k == key@ by {
                assert(b[i as int] == key@);
                if a.contains(k) {
                    let j = choose|j: int| 0 <= j < a.len() && a[j] == k;
                    assert(b[j] == k);
                }
                if b.contains(k) {
                    let j = choose|j: int| 0 <= j < b.len() && b[j] == k;
                    if j < i {
                        assert(a[j] == k);
                    }
                }
            }
            if a.contains(key@) {
                let j = choose|j: int| 0 <= j < a.len() && a[j] == key@;
                assert(ks[j] != ks[i as int]);
            }
            assert(setting(was, key@) is None);
            lemma_setting(was, key@);
        }
        if !same(key.as_str(), "link_selections") {
            if let Some(item) = document_value(doc, key.as_str()) {
                let value = canonical(&item);
                let ghost text = value@;
                r.set(key.clone(), value);
                proof {
                    let now = r@.settings;
                    assert(now.drop_last() =~= was);
                    assert(setting_names(now) =~= setting_names(was).push(key@));
                    assert(value_in(d, key@) == Some(text));
                    assert forall|k: Seq<char>| k != key@ implies #[trigger] setting(now, k)
                        == setting(was, k) by {}
                }
            }
        }
        i += 1;
    }
    proof {
        assert(ks.take(ks.len() as int) =~= ks);
        assert forall|key: Seq<char>| #[trigger] setting(r@.settings, key) == value_in(
            d,
            key,
        ) by {
            if !ks.contains(key) {
                assert(!d.fields.dom().contains(key));
                assert(!d.texts.dom().contains(key));
            }
        }
    }
    r
}

/// Parses config text and collects the values it sets, or says what is wrong with a text that
/// isn't valid TOML. The canonical text of a config's values reads as these values.
pub fn extract_values(text: &str) -> (r: Result<Values, String>)
    ensures
        match r {
            Ok(v) => toml_document(text@) matches Some(doc) && extracted(v@, doc)
                && all_canonical(v@.settings),
            Err(fault) => toml_document(text@) is None && fault@ == toml_fault(text@),
        },
        forall|v: ValuesView| #[trigger]
            is_complete(v) && text@ == rendered(template_blocks(), v) ==> (r matches Ok(again)
                && same_settings(again@, v)),
{
    let r = match parse_document(text) {
        Ok(doc) => Ok(values_in(&doc)),
        Err(e) => Err(toml_error_text(&e)),
    };
    proof {
        assert forall|v: ValuesView| #[trigger] is_complete(v) && text@ == rendered(
            template_blocks(),
            v,
        ) implies (r matches Ok(again) && same_settings(again@, v)) by {
            let (parts, table) = (config_parts(v), config_table(v));
            lemma_config_is_plain(v);
            assert(text@ == plain_text(parts, table));
            normalizing_twice_changes_nothing(v, toml_document(text@)->0, r->Ok_0@);
        }
    }
    r
}

/// What `sync_config` did, for the CLI summary.
#[derive(Debug)]
pub enum SyncOutcome {
    /// The file already matched the canonical render; nothing is to be written.
    Unchanged,
    /// The file is rewritten; `added` lists options that gained a commented default (i.e.
    /// keys in the template the user had not set).
    Rewrote { added: Vec<String> },
}

/// Why a config file is not normalized.
#[derive(Debug)]
pub enum SyncError {
    /// It does not load.
    Unloadable,
    /// It is not TOML: what is wrong with it.
    Malformed(String),
    /// It holds keys that the template can't render.
    Unknown(String),
}

/// The message for keys that the template can't render.
pub open spec fn unknown_message(path: Seq<char>, list: Seq<Seq<char>>) -> Seq<char> {
    path + " has option(s) the canonical template doesn't know: "@ + join(list, ", "@)
        + ". Rewriting would drop them, so nothing was written — remove them, or fix the typo, and re-run."@
}

/// Whether `list` lists the keys that the template can't render, in ascending order.
pub open spec fn lists_unknown(list: Seq<Seq<char>>, doc: TomlDoc) -> bool {
    &&& ascending(list)
    &&& distinct(list)
    &&& forall|key: Seq<char>| #[trigger]
        list.contains(key) <==> value_in(doc, key) is Some && !names(
            keys_of(template_blocks()),
        ).contains(key)
}

/// Whether a document holds a key that the template can't render.
pub open spec fn has_unknown(doc: TomlDoc) -> bool {
    exists|key: Seq<char>| #[trigger]
        value_in(doc, key) is Some && !names(keys_of(template_blocks())).contains(key)
}

/// The optional keys that the user has not set.
pub open spec fn unset(optional: Seq<Seq<char>>, settings: Seq<Setting>) -> Seq<Seq<char>>
    decreases optional.len(),
{
    if optional.len() == 0 {
        Seq::empty()
    } else if setting(settings, optional.last()) is None {
        unset(optional.drop_last(), settings).push(optional.last())
    } else {
        unset(optional.drop_last(), settings)
    }
}

/// The keys that the template can't render, in ascending order.
fn unknown_keys(values: &Values, Ghost(doc): Ghost<TomlDoc>) -> (r: Vec<String>)
    requires
        extracted(values@, doc),
    ensures
        lists_unknown(texts(r@), doc),
{
    let known = template_keys();
    let ghost ns = names(keys_of(template_blocks()));
    let ghost all = setting_names(values@.settings);
    let mut found: Vec<String> = Vec::new();
    let mut i: usize = 0;
    proof {
        assert(texts(found@) =~= Seq::<Seq<char>>::empty());
    }
    while i < values.scalars.len()
        invariant
            i <= values.scalars@.len(),
            all == setting_names(values@.settings),
            all.len() == values.scalars@.len(),
            distinct(all),
            ns == texts(known@),
            distinct(texts(found@)),
            forall|key: Seq<char>| #[trigger]
                texts(found@).contains(key) <==> all.take(i as int).contains(key)
                    && !ns.contains(key),
        decreases values.scalars@.len() - i,
    {
        let key = &values.scalars[i].0;
        let ghost was = texts(found@);
        proof {
            assert(all[i as int] == key@);
            let (a, b) = (all.take(i as int), all.take(i + 1));
            assert(b =~= a.push(key@));
            assert forall|k: Seq<char>| #[trigger] b.contains(k) <==> a.contains(k) || k
                == key@ by {
                lemma_push_contains(a, key@, k);
            }
            if a.contains(key@) {
                let j = choose|j: int| 0 <= j < a.len() && a[j] == key@;
                assert(all[j] != all[i as int]);
            }
        }
        if !contains_text(known.as_slice(), key.as_str()) {
            found.push(key.clone());
            proof {
                assert(texts(found@) =~= was.push(key@));
                assert forall|k: Seq<char>| #[trigger] texts(found@).contains(k) <==> was.contains(
                    k,
                ) || k == key@ by {
                    lemma_push_contains(was, key@, k);
                }
                assert(!was.contains(key@));
            }
        }
        i += 1;
    }
    let order = sort_order(found.as_slice());
    let ghost fs = texts(found@);
    let mut r: Vec<String> = Vec::new();
    let mut j: usize = 0;
    while j < order.len()
        invariant
            j <= order@.len(),
            order@.len() == found@.len(),
            forall|k: int| 0 <= k < order@.len() ==> (#[trigger] order@[k]) < found@.len(),
            r@.len() == j,
            forall|k: int| 0 <= k < j ==> (#[trigger] r@[k])@ == found@[order@[k] as int]@,
        decreases order@.len() - j,
    {
        r.push(found[order[j]].clone());
        j += 1;
    }
    proof {
        assert(all.take(all.len() as int) =~= all);
        let list = texts(r@);
        assert forall|k: int| 0 <= k < list.len() implies #[trigger] list[k]
            == fs[order@[k] as int] by {
            assert(r@[k]@ == found@[order@[k] as int]@);
        }
        assert forall|key: Seq<char>| #[trigger] list.contains(key) <==> fs.contains(key) by {
            if list.contains(key) {
                let k = choose|k: int| 0 <= k < list.len() && list[k] == key;
                assert(fs[order@[k] as int] == key);
            }
            if fs.contains(key) {
                let k = choose|k: int| 0 <= k < fs.len() && fs[k] == key;
                assert(order@.contains(k as usize));
                let m = choose|m: int| 0 <= m < order@.len() && order@[m] == k as usize;
                assert(list[m] == key);
            }
        }
        assert forall|key: Seq<char>| #[trigger] list.contains(key) <==> value_in(doc, key) is Some
            && !ns.contains(key) by {
            lemma_setting(values@.settings, key);
            assert(setting(values@.settings, key) == value_in(doc, key));
        }
    }
    r
}

proof fn lemma_push_contains(s: Seq<Seq<char>>, x: Seq<char>, k: Seq<char>)
    ensures
        s.push(x).contains(k) <==> s.contains(k) || k == x,
{
    let now = s.push(x);
    assert(now[s.len() as int] == x);
    if s.contains(k) {
        let j = choose|j: int| 0 <= j < s.len() && s[j] == k;
        assert(now[j] == k);
    }
    if now.contains(k) {
        let j = choose|j: int| 0 <= j < now.len() && now[j] == k;
        if j < s.len() {
            assert(s[j] == k);
        }
    }
}

/// The optional keys that the user has not set.
fn unset_keys(values: &Values) -> (r: Vec<String>)
    ensures
        texts(r@) == unset(optional_names(keys_of(template_blocks())), values@.settings),
{
    let all = optional_keys();
    let ghost ks = texts(all@);
    let mut r: Vec<String> = Vec::new();
    let mut i: usize = 0;
    proof {
        assert(ks.take(0) =~= Seq::<Seq<char>>::empty());
        assert(texts(r@) =~= Seq::<Seq<char>>::empty());
    }
    while i < all.len()
        invariant
            i <= all@.len(),
            ks == texts(all@),
            texts(r@) == unset(ks.take(i as int), values@.settings),
        decreases all@.len() - i,
    {
        let ghost was = texts(r@);
        proof {
            assert(ks.take(i + 1).drop_last() =~= ks.take(i as int));
            assert(ks.take(i + 1).last() == all@[i as int]@);
        }
        if values.get(all[i].as_str()).is_none() {
            r.push(all[i].clone());
            proof {
                assert(texts(r@) =~= was.push(all@[i as int]@));
            }
        }
        i += 1;
    }
    proof {
        assert(ks.take(ks.len() as int) =~= ks);
    }
    r
}

/// What the config file at `path` with the text `current` is normalized to: the template
/// overlaid with the user's present values. A config that does not load, or that holds a
/// key the template can't render, is left untouched. On a rewrite the new text comes
/// beside the outcome, for [`crate::fsutil::write_atomic`]. It reads as the same values (see
/// [`extract_values`]), and a file that holds it is left as it is.
pub fn sync_config(path: &str, loads: bool, current: &str) -> (r: Result<
    (SyncOutcome, Option<String>),
    SyncError,
>)
    ensures
        match r {
            Err(SyncError::Unloadable) => !loads,
            Err(SyncError::Malformed(fault)) => loads && toml_document(current@) is None && fault@
                == toml_fault(current@),
            Err(SyncError::Unknown(message)) => {
                &&& loads
                &&& toml_document(current@) matches Some(doc) && has_unknown(doc) && exists|
                    list: Seq<Seq<char>>,
                | #[trigger]
                    lists_unknown(list, doc) && message@ == unknown_message(path@, list)
            },
            Ok((outcome, text)) => {
                &&& loads
                &&& toml_document(current@) matches Some(doc) && !has_unknown(doc) && exists|
                    v: ValuesView,
                | #[trigger]
                    extracted(v, doc) && (value_in(doc, "listen"@) is Some ==> is_complete(v))
                        && match outcome {
                        SyncOutcome::Unchanged => {
                            &&& rendered(template_blocks(), v) == current@
                            &&& text is None
                        },
                        SyncOutcome::Rewrote { added } => {
                            &&& rendered(template_blocks(), v) != current@
                            &&& text matches Some(t) && t@ == rendered(template_blocks(), v)
                            &&& texts(added@) == unset(
                                optional_names(keys_of(template_blocks())),
                                v.settings,
                            )
                        },
                    }
            },
        },
        forall|v: ValuesView| #[trigger]
            is_complete(v) && loads && current@ == rendered(template_blocks(), v) ==> (
            r matches Ok((SyncOutcome::Unchanged, None))),
{
    if !loads {
        return Err(SyncError::Unloadable);
    }
    let values = match extract_values(current) {
        Ok(v) => v,
        Err(fault) => {
            return Err(SyncError::Malformed(fault));
        },
    };
    let ghost doc = toml_document(current@)->0;
    let ghost v = values@;
    proof {
        assert forall|w: ValuesView| #[trigger] is_complete(w) && current@ == rendered(
            template_blocks(),
            w,
        ) implies !has_unknown(doc) && rendered(template_blocks(), v) == current@ by {
            the_order_of_the_settings_does_not_matter(template_blocks(), v, w);
            if has_unknown(doc) {
                let key = choose|key: Seq<char>| #[trigger]
                    value_in(doc, key) is Some && !names(keys_of(template_blocks())).contains(key);
                assert(setting(v.settings, key) == value_in(doc, key));
                assert(setting(w.settings, key) is Some);
            }
        }
    }
    let unknown = unknown_keys(&values, Ghost(doc));
    let ghost list = texts(unknown@);
    if unknown.len() > 0 {
        proof {
            assert(list.contains(list[0]));
            assert(value_in(doc, list[0]) is Some);
        }
        let mut message = path.to_string();
        message.append(" has option(s) the canonical template doesn't know: ");
        let keys = join_of(unknown.as_slice(), ", ");
        message.append(keys.as_str());
        message.append(
            ". Rewriting would drop them, so nothing was written — remove them, or fix the typo, and re-run.",
        );
        return Err(SyncError::Unknown(message));
    }
    proof {
        if has_unknown(doc) {
            let key = choose|key: Seq<char>| #[trigger]
                value_in(doc, key) is Some && !names(keys_of(template_blocks())).contains(key);
            assert(list.contains(key));
        }
    }
    let blocks = template();
    let text = render(blocks.as_slice(), &values);
    if same(text.as_str(), current) {
        return Ok((SyncOutcome::Unchanged, None));
    }
    let added = unset_keys(&values);
    Ok((SyncOutcome::Rewrote { added }, Some(text)))
}

/// What is rendered depends on the value of each key alone, not on the order in which the
/// file sets them.
pub proof fn the_order_of_the_settings_does_not_matter(
    blocks: Seq<Block>,
    a: ValuesView,
    b: ValuesView,
)
    requires
        a.link == b.link,
        forall|key: Seq<char>| #[trigger] setting(a.settings, key) == setting(b.settings, key),
    ensures
        blocks_text(blocks, a) == blocks_text(blocks, b),
        rendered(blocks, a) == rendered(blocks, b),
    decreases blocks.len(),
{
    if blocks.len() > 0 {
        the_order_of_the_settings_does_not_matter(blocks.drop_last(), a, b);
        assert(setting(a.settings, "psk_file"@) == setting(b.settings, "psk_file"@));
        assert(setting(a.settings, "psk"@) == setting(b.settings, "psk"@));
        assert(setting(a.settings, "psk_env"@) == setting(b.settings, "psk_env"@));
        assert(block_text(blocks.last(), a) == block_text(blocks.last(), b));
    }
}

/// Normalizing loses no setting and changes none: the text that a config's values render to
/// is read as the same values, and they render to the same text.
pub proof fn normalizing_twice_changes_nothing(v: ValuesView, d: TomlDoc, again: ValuesView)
    requires
        is_complete(v),
        reads_plainly(rendered(template_blocks(), v), Some(d)),
        extracted(again, d),
    ensures
        same_settings(again, v),
        rendered(template_blocks(), again) == rendered(template_blocks(), v),
{
    lemma_config_is_plain(v);
    assert(holds_plain(d, config_parts(v), config_table(v)));
    lemma_config_reads_back(v, d, again);
    the_order_of_the_settings_does_not_matter(template_blocks(), again, v);
}

/// What a loader makes of a document, where it goes by the value of each key and the
/// `link_selections` table.
pub open spec fn loaded<C>(
    load: spec_fn(spec_fn(Seq<char>) -> Option<Seq<char>>, Option<(bool, bool)>) -> C,
    doc: TomlDoc,
) -> C {
    load(|key: Seq<char>| value_in(doc, key), link_in(doc))
}

/// A rewritten config loads as the same configuration: whatever a loader makes of the value
/// of each key and the `link_selections` table, it makes the same of the document before
/// the rewrite and of what the rewritten text is read as.
pub proof fn a_rewritten_config_loads_the_same<C>(
    load: spec_fn(spec_fn(Seq<char>) -> Option<Seq<char>>, Option<(bool, bool)>) -> C,
    before: TomlDoc,
    v: ValuesView,
    after: TomlDoc,
    again: ValuesView,
)
    requires
        extracted(v, before),
        is_complete(v),
        reads_plainly(rendered(template_blocks(), v), Some(after)),
        extracted(again, after),
    ensures
        loaded(load, after) == loaded(load, before),
{
    normalizing_twice_changes_nothing(v, after, again);
    let (x, y) = (
        |key: Seq<char>| value_in(before, key),
        |key: Seq<char>| value_in(after, key),
    );
    assert forall|key: Seq<char>| #[trigger] x(key) == y(key) by {
        assert(setting(v.settings, key) == value_in(before, key));
        assert(setting(again.settings, key) == value_in(after, key));
    }
    assert(x =~= y);
}

/// Whether a text is empty or ends a line.
pub open spec fn ends_line(text: Seq<char>) -> bool {
    text.len() == 0 || text.last() == '\n'
}

/// Whether `line` stands in `text` from a line's start, followed by its end, after `skip`
/// characters.
pub open spec fn line_at(text: Seq<char>, line: Seq<char>, skip: int) -> bool {
    &&& 0 <= skip
    &&& skip + line.len() < text.len()
    &&& ends_line(text.take(skip))
    &&& text.subrange(skip, skip + line.len()) == line
    &&& text[skip + line.len()] == '\n'
}

/// Whether `line` is a line of `text`.
#[verifier::opaque]
pub open spec fn has_line(text: Seq<char>, line: Seq<char>) -> bool {
    exists|skip: int| #[trigger] line_at(text, line, skip)
}

proof fn lemma_line_in_context(before: Seq<char>, text: Seq<char>, after: Seq<char>, line: Seq<char>)
    requires
        has_line(text, line),
        ends_line(before),
    ensures
        has_line(before + text + after, line),
{
    reveal(has_line);
    let skip = choose|skip: int| #[trigger] line_at(text, line, skip);
    let all = before + text + after;
    let at = before.len() + skip;
    assert(all.subrange(at, at + line.len()) =~= text.subrange(skip, skip + line.len()));
    assert(ends_line(all.take(at))) by {
        if skip > 0 {
            assert(all.take(at).last() == text.take(skip).last());
        } else {
            assert(all.take(at) =~= before);
        }
    }
    assert(line_at(all, line, at));
}

proof fn lemma_own_line(line: Seq<char>)
    ensures
        has_line(line + "\n"@, line),
{
    reveal(has_line);
    reveal_strlit("\n");
    let text = line + "\n"@;
    assert(text.subrange(0, line.len() as int) =~= line);
    assert(line_at(text, line, 0));
}

proof fn lemma_comment_ends_line(ls: Seq<Seq<char>>)
    ensures
        ends_line(comment_lines(ls)),
{
    reveal_strlit("\n");
    reveal_strlit("#\n");
    if ls.len() > 0 {
        let c = comment_line(ls.last());
        assert(c.last() == '\n');
        assert(comment_lines(ls).last() == c.last());
    }
}

proof fn lemma_blocks_end_line(blocks: Seq<Block>, v: ValuesView)
    ensures
        ends_line(blocks_text(blocks, v)),
{
    reveal_strlit("\n");
}

/// The line that a block shows for one of its keys.
pub open spec fn key_line(b: Block, k: TemplateKey, v: ValuesView) -> Seq<char> {
    match setting(v.settings, k.key@) {
        Some(value) => active(k.key@, value),
        None => if b is Required {
            active(k.key@, shown_text(k.shown))
        } else {
            commented(k.key@, shown_text(k.shown))
        },
    }
}

proof fn lemma_line_of_three(
    before: Seq<char>,
    a: Seq<char>,
    b: Seq<char>,
    c: Seq<char>,
    i: int,
    line: Seq<char>,
)
    requires
        ends_line(before),
        ends_line(a),
        ends_line(b),
        0 <= i < 3,
        (if i == 0 {
            a
        } else if i == 1 {
            b
        } else {
            c
        }) == line + "\n"@,
    ensures
        has_line(before + (a + b + c), line),
{
    lemma_own_line(line);
    let none = Seq::<char>::empty();
    if i == 0 {
        lemma_line_in_context(before, a, b + c, line);
        assert(before + a + (b + c) =~= before + (a + b + c));
    } else if i == 1 {
        assert(ends_line(before + a));
        lemma_line_in_context(before + a, b, c, line);
        assert(before + a + b + c =~= before + (a + b + c));
    } else {
        assert(ends_line(before + a + b));
        lemma_line_in_context(before + a + b, c, none, line);
        assert(before + a + b + c + none =~= before + (a + b + c));
    }
}

proof fn lemma_option_ends_line(key: Seq<char>, v: ValuesView, default: Seq<char>)
    ensures
        ends_line(option_line(key, v, default)),
{
    reveal_strlit("\n");
}

proof fn lemma_block_has_line(b: Block, v: ValuesView, i: int)
    requires
        0 <= i < block_keys(b).len(),
    ensures
        has_line(block_text(b, v), key_line(b, block_keys(b)[i], v)),
{
    let none = Seq::<char>::empty();
    let k = block_keys(b)[i];
    let line = key_line(b, k, v);
    lemma_own_line(line);
    match b {
        Block::Required { comment: note, .. } => {
            lemma_comment_ends_line(lines(note@));
            lemma_line_in_context(comment(note@), line + "\n"@, none, line);
            assert(comment(note@) + (line + "\n"@) + none =~= block_text(b, v));
        },
        Block::Optional { comment: note, .. } => {
            lemma_comment_ends_line(lines(note@));
            lemma_line_in_context(comment(note@), line + "\n"@, none, line);
            assert(comment(note@) + (line + "\n"@) + none =~= block_text(b, v));
        },
        Block::PskGroup { comment: note } => {
            lemma_comment_ends_line(lines(note@));
            lemma_option_ends_line("psk_file"@, v, "\"~/.config/clipmesh/psk\""@);
            lemma_option_ends_line("psk"@, v, "\"supersecret\""@);
            lemma_line_of_three(
                comment(note@),
                option_line("psk_file"@, v, "\"~/.config/clipmesh/psk\""@),
                option_line("psk"@, v, "\"supersecret\""@),
                option_line("psk_env"@, v, "\"CLIPMESH_PSK\""@),
                i,
                line,
            );
        },
        _ => {},
    }
}

proof fn lemma_blocks_have_line(blocks: Seq<Block>, v: ValuesView, n: int, i: int)
    requires
        0 <= n < blocks.len(),
        0 <= i < block_keys(blocks[n]).len(),
    ensures
        has_line(blocks_text(blocks, v), key_line(blocks[n], block_keys(blocks[n])[i], v)),
    decreases blocks.len(),
{
    let rest = blocks.drop_last();
    let line = key_line(blocks[n], block_keys(blocks[n])[i], v);
    let none = Seq::<char>::empty();
    if n < blocks.len() - 1 {
        lemma_blocks_have_line(rest, v, n, i);
        lemma_line_in_context(
            none,
            blocks_text(rest, v),
            block_text(blocks.last(), v) + "\n"@,
            line,
        );
        assert(none + blocks_text(rest, v) + (block_text(blocks.last(), v) + "\n"@)
            =~= blocks_text(blocks, v));
    } else {
        lemma_block_has_line(blocks[n], v, i);
        lemma_blocks_end_line(rest, v);
        lemma_line_in_context(blocks_text(rest, v), block_text(blocks[n], v), "\n"@, line);
    }
}

pub proof fn lemma_key_has_block(blocks: Seq<Block>, k: int) -> (at: (int, int))
    requires
        0 <= k < keys_of(blocks).len(),
    ensures
        0 <= at.0 < blocks.len(),
        0 <= at.1 < block_keys(blocks[at.0]).len(),
        block_keys(blocks[at.0])[at.1] == keys_of(blocks)[k],
    decreases blocks.len(),
{
    let rest = keys_of(blocks.drop_last());
    if k < rest.len() {
        lemma_key_has_block(blocks.drop_last(), k)
    } else {
        (blocks.len() - 1, k - rest.len())
    }
}

/// The rendered template is its blocks, but for the blank line behind the last one.
proof fn lemma_rendered(v: ValuesView)
    ensures
        rendered(template_blocks(), v) == blocks_text(template_blocks().drop_last(), v)
            + block_text(template_blocks().last(), v),
{
    reveal_strlit("\n");
    reveal_strlit("true");
    reveal_strlit("false");
    reveal_strlit("# selection_to_clipboard = false\n");
    let t = template_blocks();
    let all = blocks_text(t, v);
    let body = blocks_text(t.drop_last(), v) + block_text(t.last(), v);
    assert(t.last() is LinkSelections);
    let lines = link_lines(v.link);
    assert(block_text(t.last(), v) == comment(t.last()->LinkSelections_comment@) + lines);
    assert(lines.len() >= 2 && lines.last() == '\n' && lines[lines.len() - 2] == 'e');
    assert(body.last() == '\n' && body[body.len() - 2] == 'e');
    let trimmed = body.drop_last();
    assert(all =~= body + "\n"@);
    assert(all.drop_last() =~= body);
    assert(!crate::text::is_space('e')) by {
        assert('e' as u32 == 101);
    }
    assert(crate::text::is_space('\n')) by {
        assert('\n' as u32 == 10);
    }
    assert(trimmed.last() == 'e');
    reveal_with_fuel(trim_end, 4);
    assert(trim_end(all) == trimmed);
    assert(trimmed + "\n"@ =~= body);
}

proof fn lemma_template_has_line(v: ValuesView, k: int) -> (b: Block)
    requires
        0 <= k < keys_of(template_blocks()).len(),
    ensures
        has_line(
            rendered(template_blocks(), v),
            key_line(b, keys_of(template_blocks())[k], v),
        ),
        template_blocks().contains(b),
        block_keys(b).contains(keys_of(template_blocks())[k]),
{
    let t = template_blocks();
    let at = lemma_key_has_block(t, k);
    let b = t[at.0];
    let key = block_keys(b)[at.1];
    assert(!(b is LinkSelections));
    assert(t[t.len() - 1] is LinkSelections);
    assert(at.0 < t.len() - 1);
    let rest = t.drop_last();
    assert(rest[at.0] == b);
    lemma_blocks_have_line(rest, v, at.0, at.1);
    lemma_rendered(v);
    let none = Seq::<char>::empty();
    lemma_line_in_context(
        none,
        blocks_text(rest, v),
        block_text(t.last(), v),
        key_line(b, key, v),
    );
    assert(none + blocks_text(rest, v) + block_text(t.last(), v) =~= rendered(t, v));
    b
}

/// An option that the user set stays set: the rewritten file has its line, with the user's
/// value.
pub proof fn a_set_option_stays_set(v: ValuesView, k: int)
    requires
        0 <= k < keys_of(template_blocks()).len(),
        setting(v.settings, keys_of(template_blocks())[k].key@) is Some,
    ensures
        ({
            let key = keys_of(template_blocks())[k].key@;
            has_line(rendered(template_blocks(), v), active(key, setting(v.settings, key)->0))
        }),
{
    let _ = lemma_template_has_line(v, k);
}

/// An option that the user has not set is shown: the rewritten file has its line,
/// commented out unless the option is required, with the value that the template shows.
pub proof fn an_unset_option_is_shown(v: ValuesView, k: int)
    requires
        0 <= k < keys_of(template_blocks()).len(),
        setting(v.settings, keys_of(template_blocks())[k].key@) is None,
    ensures
        ({
            let key = keys_of(template_blocks())[k];
            has_line(
                rendered(template_blocks(), v),
                if key.key@ == "listen"@ {
                    active(key.key@, shown_text(key.shown))
                } else {
                    commented(key.key@, shown_text(key.shown))
                },
            )
        }),
{
    let b = lemma_template_has_line(v, k);
    let t = template_blocks();
    let key = keys_of(t)[k];
    let n = choose|n: int| 0 <= n < t.len() && t[n] == b;
    reveal_strlit("listen");
    lemma_other_keys_are_not_listen(n);
    let i = choose|i: int| 0 <= i < block_keys(b).len() && block_keys(b)[i] == key;
    if b is Required {
        assert(key.key@ == "listen"@);
    } else {
        assert(key.key@ != "listen"@);
    }
}

proof fn lemma_other_keys_are_not_listen(n: int)
    requires
        0 <= n < template_blocks().len(),
    ensures
        template_blocks()[n] is Required ==> template_blocks()[n]->Required_key@ == "listen"@,
        !(template_blocks()[n] is Required) ==> forall|i: int|
            0 <= i < block_keys(template_blocks()[n]).len() ==> (#[trigger] block_keys(
                template_blocks()[n],
            )[i]).key@ != "listen"@,
{
    reveal_strlit("listen");
    reveal_strlit("port");
    reveal_strlit("peers");
    reveal_strlit("psk_file");
    reveal_strlit("psk");
    reveal_strlit("psk_env");
    reveal_strlit("max_payload_size");
    reveal_strlit("debounce_ms");
    reveal_strlit("sync_selection");
    reveal_strlit("direction");
    reveal_strlit("exclude_sensitive");
    reveal_strlit("resync_on_connect");
    reveal_strlit("share_mime_rules");
    reveal_strlit("verbose");
    reveal_strlit("log_level");
    reveal_strlit("unknown_mime");
    reveal_strlit("synthesize_text_plain");
    reveal_strlit("take_ownership");
    reveal_strlit("mime_rules_file");
    assert("listen"@.len() == 6);
}

/// The template can render every option that the parser accepts, but for the
/// `link_selections` table, which has a block of its own.
pub proof fn every_option_has_a_block(n: int)
    requires
        0 <= n < RAW_CONFIG_KEYS@.len(),
        RAW_CONFIG_KEYS@[n]@ != "link_selections"@,
    ensures
        names(keys_of(template_blocks())).contains(RAW_CONFIG_KEYS@[n]@),
{
    let t = template_blocks();
    let key = RAW_CONFIG_KEYS@[n]@;
    let at: int = if n == 0 {
        1
    } else if n == 1 {
        2
    } else if n == 2 {
        3
    } else if n <= 5 {
        4
    } else if n <= 8 {
        n
    } else {
        n - 1
    };
    let i: int = if n == 3 {
        1
    } else if n == 4 {
        0
    } else if n == 5 {
        2
    } else {
        0
    };
    assert(block_keys(t[at])[i].key@ == key);
    lemma_block_key_is_listed(t, at, i);
}

/// The template renders nothing but options that the parser accepts, and each of them once.
pub proof fn every_block_is_of_an_option(k: int)
    requires
        0 <= k < keys_of(template_blocks()).len(),
    ensures
        exists|n: int|
            0 <= n < RAW_CONFIG_KEYS@.len() && #[trigger] RAW_CONFIG_KEYS@[n]@ == names(
                keys_of(template_blocks()),
            )[k],
        distinct(names(keys_of(template_blocks()))),
{
    let t = template_blocks();
    let (at, i) = lemma_key_has_block(t, k);
    let n: int = if at <= 3 {
        at - 1
    } else if at == 4 {
        if i == 0 {
            4
        } else if i == 1 {
            3
        } else {
            5
        }
    } else if at <= 8 {
        at
    } else {
        at + 1
    };
    assert(RAW_CONFIG_KEYS@[n]@ == block_keys(t[at])[i].key@);
    assert(names(keys_of(t))[k] == RAW_CONFIG_KEYS@[n]@);
    lemma_template_keys_are_distinct();
}

proof fn lemma_block_key_is_listed(blocks: Seq<Block>, n: int, i: int)
    requires
        0 <= n < blocks.len(),
        0 <= i < block_keys(blocks[n]).len(),
    ensures
        names(keys_of(blocks)).contains(block_keys(blocks[n])[i].key@),
    decreases blocks.len(),
{
    let rest = blocks.drop_last();
    let all = names(keys_of(blocks));
    let key = block_keys(blocks[n])[i].key@;
    if n < blocks.len() - 1 {
        lemma_block_key_is_listed(rest, n, i);
        let j = choose|j: int| 0 <= j < names(keys_of(rest)).len() && names(keys_of(rest))[j] == key;
        assert(all[j] == key);
    } else {
        assert(all[keys_of(rest).len() + i] == key);
    }
}

} // verus!
