//! The config file that is written for the user: what it shows, and what it keeps of theirs.

use crate::config::{Direction, MimePolicy};
use crate::config::{default_debounce_ms, default_log_level, default_max_payload, default_port};
use crate::config::{default_direction, default_true, default_unknown_mime};
use crate::config_template::{Block, Setting, SyncError, SyncOutcome, TemplateKey, Values};
use crate::config_template::{block_text, blocks_text, comment, comment_lines, commented};
use crate::config_template::{example_values, has_unknown, lemma_example};
use crate::config_template::{keys_of, lemma_key_has_block, link_in, link_lines, lists_unknown, names};
use crate::config_template::{option_line, optional_names, setting};
use crate::config_template::{shown_text, sync_config, template_blocks, unset, value_in, value_shown};
use crate::config_template::ValuesView;
use crate::laws::cli::stands_in;
use crate::text::{decimal, flag, has_prefix};
use crate::toml::{canonical_text, canonical_texts, field, toml_document, TextTree, TomlDoc, TomlView};
use vstd::prelude::*;

verus! {

/// Setting a key gives it that value and leaves every other key as it was.
pub proof fn the_last_value_of_a_key_counts(
    settings: Seq<Setting>,
    key: Seq<char>,
    value: Seq<char>,
    other: Seq<char>,
)
    ensures
        setting(settings.push((key, value)), key) == Some(value),
        other != key ==> setting(settings.push((key, value)), other) == setting(settings, other),
        setting(Seq::empty(), key) is None,
{
    assert(settings.push((key, value)).drop_last() =~= settings);
}

/// Every line of a comment is commented out by itself, an empty one as well.
pub proof fn every_line_is_commented_out(a: Seq<Seq<char>>, x: Seq<char>, b: Seq<Seq<char>>)
    ensures
        comment_lines(a + seq![x] + b) == comment_lines(a) + (if x.len() == 0 {
            seq!['#', '\n']
        } else {
            seq!['#', ' '] + x + seq!['\n']
        }) + comment_lines(b),
        comment_lines(Seq::empty()).len() == 0,
    decreases b.len(),
{
    reveal_strlit("#\n");
    reveal_strlit("# ");
    reveal_strlit("\n");
    let all = a + seq![x] + b;
    let line = if x.len() == 0 {
        seq!['#', '\n']
    } else {
        seq!['#', ' '] + x + seq!['\n']
    };
    assert(crate::config_template::comment_line(x) =~= line);
    if b.len() == 0 {
        assert(all.drop_last() =~= a);
    } else {
        every_line_is_commented_out(a, x, b.drop_last());
        assert(all.drop_last() =~= a + seq![x] + b.drop_last());
        assert(all.last() == b.last());
    }
    assert(comment_lines(all) =~= comment_lines(a) + line + comment_lines(b));
}

/// An option that is set stands on its line as it is set, one that is not is commented out at
/// its default.
pub proof fn an_unset_option_is_commented_out(key: Seq<char>, v: ValuesView, default: Seq<char>)
    ensures
        setting(v.settings, key) matches Some(value) ==> option_line(key, v, default) == key
            + seq![' ', '=', ' '] + value + seq!['\n'],
        setting(v.settings, key) is None ==> option_line(key, v, default) == seq!['#', ' '] + key
            + seq![' ', '=', ' '] + default + seq!['\n'],
{
    reveal_strlit("# ");
    reveal_strlit(" = ");
    reveal_strlit("\n");
    assert("# "@ =~= seq!['#', ' ']);
    assert(" = "@ =~= seq![' ', '=', ' ']);
    assert("\n"@ =~= seq!['\n']);
    assert(commented(key, default) =~= seq!['#', ' '] + key + seq![' ', '=', ' '] + default);
}

/// Every block stands in the file, in order, with an empty line behind it.
pub proof fn every_block_is_written(a: Seq<Block>, b: Block, c: Seq<Block>, v: ValuesView)
    ensures
        blocks_text(a + seq![b] + c, v) == blocks_text(a, v) + block_text(b, v) + seq!['\n']
            + blocks_text(c, v),
        blocks_text(Seq::empty(), v).len() == 0,
    decreases c.len(),
{
    reveal_strlit("\n");
    assert("\n"@ =~= seq!['\n']);
    let all = a + seq![b] + c;
    if c.len() == 0 {
        assert(all.drop_last() =~= a);
        assert(blocks_text(c, v) =~= Seq::empty());
    } else {
        every_block_is_written(a, b, c.drop_last(), v);
        assert(all.drop_last() =~= a + seq![b] + c.drop_last());
        assert(all.last() == c.last());
        let x = blocks_text(a, v) + block_text(b, v) + seq!['\n'];
        let (y, z) = (blocks_text(c.drop_last(), v), block_text(c.last(), v));
        assert(x + y + z + seq!['\n'] =~= x + (y + z + seq!['\n']));
    }
    assert(blocks_text(all, v) =~= blocks_text(a, v) + block_text(b, v) + seq!['\n'] + blocks_text(
        c,
        v,
    ));
}

/// What a block shows follows its own comment.
pub proof fn a_comment_stands_above_its_option(v: ValuesView, b: Block)
    ensures
        b matches Block::Prose(note) ==> block_text(b, v) == comment(note@),
        b matches Block::Required { comment: note, .. } ==> has_prefix(
            block_text(b, v),
            comment(note@),
        ),
        b matches Block::Optional { comment: note, .. } ==> has_prefix(
            block_text(b, v),
            comment(note@),
        ),
        b matches Block::PskGroup { comment: note } ==> has_prefix(
            block_text(b, v),
            comment(note@),
        ),
        b matches Block::LinkSelections { comment: note } ==> has_prefix(
            block_text(b, v),
            comment(note@),
        ),
{
    let text = block_text(b, v);
    match b {
        Block::Prose(_) => {},
        Block::Required { comment: note, .. } => {
            assert(text.take(comment(note@).len() as int) =~= comment(note@));
        },
        Block::Optional { comment: note, .. } => {
            assert(text.take(comment(note@).len() as int) =~= comment(note@));
        },
        Block::PskGroup { comment: note } => {
            assert(text.take(comment(note@).len() as int) =~= comment(note@));
        },
        Block::LinkSelections { comment: note } => {
            assert(text.take(comment(note@).len() as int) =~= comment(note@));
        },
    }
}

/// Each direction of the link has a line of its own below the table's header, with its own
/// value; where the user has no such table, all of it is commented out.
pub proof fn each_direction_has_its_line(c2s: bool, s2c: bool)
    ensures
        link_lines(Some((c2s, s2c))) == "[link_selections]\n"@ + "clipboard_to_selection = "@
            + flag(c2s) + "\nselection_to_clipboard = "@ + flag(s2c) + "\n"@,
        link_lines(None)
            == "# [link_selections]\n# clipboard_to_selection = false\n# selection_to_clipboard = false\n"@,
{
    reveal_strlit("\n");
    reveal_strlit("selection_to_clipboard = ");
    reveal_strlit("\nselection_to_clipboard = ");
    assert("\n"@ + "selection_to_clipboard = "@ =~= "\nselection_to_clipboard = "@);
    let head = "[link_selections]\n"@ + "clipboard_to_selection = "@ + flag(c2s);
    assert(link_lines(Some((c2s, s2c))) =~= head + ("\n"@ + "selection_to_clipboard = "@) + flag(
        s2c,
    ) + "\n"@);
    reveal_strlit("# [link_selections]\n");
    reveal_strlit("# clipboard_to_selection = false\n");
    reveal_strlit("# selection_to_clipboard = false\n");
    reveal_strlit(
        "# [link_selections]\n# clipboard_to_selection = false\n# selection_to_clipboard = false\n",
    );
    assert(link_lines(None)
        =~= "# [link_selections]\n# clipboard_to_selection = false\n# selection_to_clipboard = false\n"@);
}

/// Each direction of the link is read from its own key, and is off unless the file says `true`.
pub proof fn each_direction_is_read_from_its_key(doc: TomlDoc)
    ensures
        link_in(doc) is Some <==> (doc.fields.get("link_selections"@) matches Some(t) && (
        t is Inline || t is Section)),
        link_in(doc) matches Some((c2s, s2c)) ==> {
            &&& c2s <==> field(doc, "link_selections"@, "clipboard_to_selection"@) == Some(
                TomlView::Flag(true),
            )
            &&& s2c <==> field(doc, "link_selections"@, "selection_to_clipboard"@) == Some(
                TomlView::Flag(true),
            )
        },
        value_in(doc, "link_selections"@) is None,
{
}

/// What the template shows as an option's default is what the loader takes where the option is
/// missing.
pub proof fn the_defaults_shown_are_the_defaults_taken(
    k: int,
    port: u16,
    size: String,
    quiet: u64,
    direction: Direction,
    on: bool,
    level: String,
    unknown: MimePolicy,
)
    requires
        0 <= k < keys_of(template_blocks()).len(),
        call_ensures(default_port, (), port),
        call_ensures(default_max_payload, (), size),
        call_ensures(default_debounce_ms, (), quiet),
        call_ensures(default_direction, (), direction),
        call_ensures(default_true, (), on),
        call_ensures(default_log_level, (), level),
        call_ensures(default_unknown_mime, (), unknown),
    ensures
        ({
            let name = keys_of(template_blocks())[k].key@;
            let shown = shown_text(keys_of(template_blocks())[k].shown);
            &&& name == "port"@ ==> shown == decimal(port as nat)
            &&& name == "max_payload_size"@ ==> shown == seq!['"'] + size@ + seq!['"']
            &&& name == "debounce_ms"@ ==> shown == decimal(quiet as nat)
            &&& name == "direction"@ ==> shown == "\"both\""@ && direction is Both
            &&& name == "exclude_sensitive"@ ==> shown == flag(on)
            &&& name == "resync_on_connect"@ ==> shown == flag(on)
            &&& name == "share_mime_rules"@ ==> shown == flag(on)
            &&& name == "sync_selection"@ ==> shown == flag(false)
            &&& name == "verbose"@ ==> shown == flag(false)
            &&& name == "log_level"@ ==> shown == seq!['"'] + level@ + seq!['"']
            &&& name == "unknown_mime"@ ==> shown == "\"deny\""@ && unknown is Deny
            &&& name == "synthesize_text_plain"@ ==> shown == flag(false)
            &&& name == "take_ownership"@ ==> shown == flag(false)
        }),
{
    lemma_shown(k);
    reveal_strlit("48100");
    reveal_strlit("100");
    reveal_strlit("32MiB");
    reveal_strlit("\"32MiB\"");
    reveal_strlit("info");
    reveal_strlit("\"info\"");
    reveal_with_fuel(decimal, 6);
    assert("48100"@ =~= decimal(48100));
    assert("100"@ =~= decimal(100));
    assert("\"32MiB\""@ =~= seq!['"'] + "32MiB"@ + seq!['"']);
    assert("\"info\""@ =~= seq!['"'] + "info"@ + seq!['"']);
}

/// An option may be left out unless it says where to listen or which key to use.
pub proof fn all_but_the_address_and_the_key_are_optional(k: int)
    requires
        0 <= k < keys_of(template_blocks()).len(),
    ensures
        ({
            let key = keys_of(template_blocks())[k];
            !key.optional <==> key.key@ == "listen"@ || key.key@ == "psk_file"@ || key.key@
                == "psk"@ || key.key@ == "psk_env"@
        }),
{
    lemma_shown(k);
}

proof fn lemma_shown(k: int)
    requires
        0 <= k < keys_of(template_blocks()).len(),
    ensures
        ({
            let key = keys_of(template_blocks())[k];
            let name = key.key@;
            let shown = shown_text(key.shown);
            &&& name == "port"@ ==> shown == "48100"@
            &&& name == "max_payload_size"@ ==> shown == "\"32MiB\""@
            &&& name == "debounce_ms"@ ==> shown == "100"@
            &&& name == "direction"@ ==> shown == "\"both\""@
            &&& name == "exclude_sensitive"@ ==> shown == "true"@
            &&& name == "resync_on_connect"@ ==> shown == "true"@
            &&& name == "share_mime_rules"@ ==> shown == "true"@
            &&& name == "sync_selection"@ ==> shown == "false"@
            &&& name == "verbose"@ ==> shown == "false"@
            &&& name == "log_level"@ ==> shown == "\"info\""@
            &&& name == "unknown_mime"@ ==> shown == "\"deny\""@
            &&& name == "synthesize_text_plain"@ ==> shown == "false"@
            &&& name == "take_ownership"@ ==> shown == "false"@
            &&& !key.optional <==> name == "listen"@ || name == "psk_file"@ || name == "psk"@
                || name == "psk_env"@
        }),
{
    let at = lemma_key_has_block(template_blocks(), k);
    lemma_lengths();
    assert(0 <= at.0 < 20);
}

proof fn lemma_lengths()
    ensures
        "listen"@.len() == 6 && "listen"@[0] == 'l',
        "port"@.len() == 4,
        "peers"@.len() == 5,
        "psk_file"@.len() == 8,
        "psk"@.len() == 3,
        "psk_env"@.len() == 7 && "psk_env"@[0] == 'p',
        "max_payload_size"@.len() == 16 && "max_payload_size"@[0] == 'm',
        "debounce_ms"@.len() == 11,
        "sync_selection"@.len() == 14 && "sync_selection"@[0] == 's',
        "direction"@.len() == 9 && "direction"@[0] == 'd',
        "exclude_sensitive"@.len() == 17 && "exclude_sensitive"@[0] == 'e',
        "resync_on_connect"@.len() == 17 && "resync_on_connect"@[0] == 'r',
        "share_mime_rules"@.len() == 16 && "share_mime_rules"@[0] == 's',
        "verbose"@.len() == 7 && "verbose"@[0] == 'v',
        "log_level"@.len() == 9 && "log_level"@[0] == 'l',
        "unknown_mime"@.len() == 12,
        "synthesize_text_plain"@.len() == 21,
        "take_ownership"@.len() == 14 && "take_ownership"@[0] == 't',
        "mime_rules_file"@.len() == 15,
{
    reveal_strlit("listen");
    reveal_strlit("port");
    reveal_strlit("peers");
    reveal_strlit("psk_file");
    reveal_strlit("psk");
    reveal_strlit("psk_env");
    reveal_strlit("max_payload_size");
    reveal_strlit("debounce_ms");
    reveal_strlit("sync_selection");
    reveal_strlit("direction");
    reveal_strlit("exclude_sensitive");
    reveal_strlit("resync_on_connect");
    reveal_strlit("share_mime_rules");
    reveal_strlit("verbose");
    reveal_strlit("log_level");
    reveal_strlit("unknown_mime");
    reveal_strlit("synthesize_text_plain");
    reveal_strlit("take_ownership");
    reveal_strlit("mime_rules_file");
}

/// The example sets an address to listen on and exactly one source of the key, so that it is a
/// config that loads; beside these it sets the port and the peers, each as the template shows it.
pub proof fn the_example_has_one_key_source(r: Values)
    requires
        call_ensures(example_values, (), r),
    ensures
        setting(r@.settings, "listen"@) is Some,
        setting(r@.settings, "psk_file"@) is Some,
        setting(r@.settings, "psk"@) is None,
        setting(r@.settings, "psk_env"@) is None,
        forall|key: Seq<char>| (#[trigger] setting(r@.settings, key)) matches Some(value) ==> value_shown(
            keys_of(template_blocks()),
            key,
        ) == Some(value),
        r@.link is None,
{
    lemma_example();
    lemma_lengths();
    let s = r@.settings;
    assert(s.len() == 4);
    assert(s[0].0 == "listen"@ && s[1].0 == "port"@ && s[2].0 == "peers"@ && s[3].0
        == "psk_file"@);
    assert(s.drop_last().drop_last() =~= s.take(2));
    assert(s.take(2).drop_last() =~= s.take(1));
    assert(s.take(1).drop_last() =~= Seq::empty());
    reveal_with_fuel(setting, 5);
}

/// The value shown for a key is that of a key of that name, where there is one.
pub proof fn a_shown_value_is_of_that_key(keys: Seq<TemplateKey>, key: Seq<char>)
    ensures
        value_shown(keys, key) matches Some(text) ==> exists|k: int|
            0 <= k < keys.len() && (#[trigger] keys[k]).key@ == key && shown_text(keys[k].shown)
                == text,
        value_shown(keys, key) is None <==> !names(keys).contains(key),
    decreases keys.len(),
{
    if keys.len() > 0 {
        if keys[0].key@ == key {
            assert(names(keys)[0] == key);
        } else {
            let rest = keys.skip(1);
            a_shown_value_is_of_that_key(rest, key);
            if let Some(text) = value_shown(keys, key) {
                let k = choose|k: int|
                    0 <= k < rest.len() && (#[trigger] rest[k]).key@ == key && shown_text(
                        rest[k].shown,
                    ) == text;
                assert(keys[k + 1].key@ == key);
            }
            if names(rest).contains(key) {
                let k = choose|k: int| 0 <= k < rest.len() && names(rest)[k] == key;
                assert(names(keys)[k + 1] == key);
            }
            if names(keys).contains(key) {
                let k = choose|k: int| 0 <= k < keys.len() && names(keys)[k] == key;
                assert(k > 0);
                assert(names(rest)[k - 1] == key);
            }
        }
    }
}

/// The optional keys are listed, each where it stands among the others.
pub proof fn every_optional_key_is_listed(a: Seq<TemplateKey>, k: TemplateKey, b: Seq<TemplateKey>)
    ensures
        optional_names(a + seq![k] + b) == optional_names(a) + (if k.optional {
            seq![k.key@]
        } else {
            Seq::empty()
        }) + optional_names(b),
        optional_names(Seq::empty()).len() == 0,
    decreases b.len(),
{
    let all = a + seq![k] + b;
    let mid = if k.optional {
        seq![k.key@]
    } else {
        Seq::empty()
    };
    if b.len() == 0 {
        assert(all.drop_last() =~= a);
    } else {
        every_optional_key_is_listed(a, k, b.drop_last());
        assert(all.drop_last() =~= a + seq![k] + b.drop_last());
        assert(all.last() == b.last());
    }
    assert(optional_names(all) =~= optional_names(a) + mid + optional_names(b));
}

/// What is told as added is what the user had not set: all of it, in order, and nothing else.
pub proof fn what_was_not_set_is_told(
    a: Seq<Seq<char>>,
    key: Seq<char>,
    b: Seq<Seq<char>>,
    settings: Seq<Setting>,
)
    ensures
        unset(a + seq![key] + b, settings) == unset(a, settings) + (if setting(settings, key)
            is None {
            seq![key]
        } else {
            Seq::empty()
        }) + unset(b, settings),
        unset(Seq::empty(), settings).len() == 0,
    decreases b.len(),
{
    let all = a + seq![key] + b;
    let mid = if setting(settings, key) is None {
        seq![key]
    } else {
        Seq::empty()
    };
    if b.len() == 0 {
        assert(all.drop_last() =~= a);
    } else {
        what_was_not_set_is_told(a, key, b.drop_last(), settings);
        assert(all.drop_last() =~= a + seq![key] + b.drop_last());
        assert(all.last() == b.last());
    }
    assert(unset(all, settings) =~= unset(a, settings) + mid + unset(b, settings));
}

/// A config file is only rewritten where it loads, is TOML and has no option that the template
/// cannot render; what is written keeps every value the user set, and a file that reads that
/// way already is left alone.
pub proof fn a_config_is_rewritten_only_if_nothing_is_lost(
    path: &str,
    loads: bool,
    current: &str,
    r: Result<(SyncOutcome, Option<String>), SyncError>,
)
    requires
        call_ensures(sync_config, (path, loads, current), r),
    ensures
        !loads ==> r is Err,
        toml_document(current@) is None ==> r is Err,
        toml_document(current@) matches Some(doc) ==> {
            &&& has_unknown(doc) ==> r is Err
            &&& loads && !has_unknown(doc) ==> r is Ok
        },
        r matches Ok((outcome, text)) ==> {
            &&& outcome is Unchanged <==> text is None
            &&& text matches Some(t) ==> t@ != current@
        },
        r matches Err(SyncError::Unknown(message)) ==> exists|list: Seq<Seq<char>>|
            #[trigger] lists_unknown(list, toml_document(current@)->0) && has_prefix(
                message@,
                path@,
            ) && stands_in(crate::text::join(list, ", "@), message@),
{
    if let Err(SyncError::Unknown(message)) = r {
        let doc = toml_document(current@)->0;
        let list = choose|list: Seq<Seq<char>>| #[trigger]
            lists_unknown(list, doc) && message@ == crate::config_template::unknown_message(
                path@,
                list,
            );
        let joined = crate::text::join(list, ", "@);
        let a = path@ + " has option(s) the canonical template doesn't know: "@;
        let m = message@;
        assert(m.take(path@.len() as int) =~= path@);
        assert(m.subrange(a.len() as int, (a.len() + joined.len()) as int) =~= joined);
        assert(crate::laws::cli::stands_at(joined, m, a.len() as int));
        assert(lists_unknown(list, doc));
    }
}

/// In canonical form an array is written on one line, element by element, each in canonical
/// form; any other value without the white space around it.
pub proof fn an_array_is_written_element_by_element(
    a: Seq<TextTree>,
    x: TextTree,
    text: Seq<char>,
)
    ensures
        canonical_text(TextTree::Leaf(text)) == crate::text::trim(text),
        canonical_text(TextTree::Node(a)) == seq!['['] + crate::text::join(
            canonical_texts(a),
            seq![',', ' '],
        ) + seq![']'],
        canonical_texts(a.push(x)) == canonical_texts(a).push(canonical_text(x)),
        canonical_texts(Seq::empty()).len() == 0,
{
    reveal_strlit("[");
    reveal_strlit("]");
    reveal_strlit(", ");
    assert("["@ =~= seq!['[']);
    assert("]"@ =~= seq![']']);
    assert(", "@ =~= seq![',', ' ']);
    assert(a.push(x).drop_last() =~= a);
}

} // verus!
