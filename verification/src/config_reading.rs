//! What the canonical config file reads as: the values that it was rendered from.
//!
//! The file is a plain document (see [`crate::toml::plain_text`]): blank lines, comments and
//! settings, with the table of [`crate::config_template::Block::LinkSelections`] at the end.

use crate::config_template::{active, all_canonical, block_keys, block_text, blocks_text, comment};
use crate::config_template::{comment_line, comment_lines, extracted, is_complete, keys_of};
use crate::config_template::{link_lines, names, option_line, psk_lines, rendered, same_settings};
use crate::config_template::{setting, shown_text, template_blocks, value_in, Block};
use crate::config_template::{ValuesView, DEBOUNCE_MS_NOTE, DIRECTION_NOTE, EXCLUDE_SENSITIVE_NOTE};
use crate::config_template::{HEADER, LINK_NOTE, LISTEN_NOTE, LOG_LEVEL_NOTE, MAX_PAYLOAD_SIZE_NOTE};
use crate::config_template::{MIME_RULES_FILE_NOTE, OPTIONAL_NOTE, PEERS_NOTE, PORT_NOTE, PSK_NOTE};
use crate::config_template::{RESYNC_ON_CONNECT_NOTE, SHARE_MIME_RULES_NOTE, SYNC_SELECTION_NOTE};
use crate::config_template::{SYNTHESIZE_TEXT_PLAIN_NOTE, TAKE_OWNERSHIP_NOTE, UNKNOWN_MIME_NOTE};
use crate::config_template::VERBOSE_NOTE;
use crate::order::distinct;
use crate::text::{flag, lines, trim_end};
use crate::toml::{are_plain, flag_fields, holds_plain, is_bare, is_bare_key, is_canonical, is_note};
use crate::toml::{is_plain, is_printable, part_text, parts_text, plain_text, text_in, FlagTable};
use crate::toml::{Part, TomlDoc, TomlView};
use vstd::prelude::*;

verus! {

/// A comment line without its start and its end.
pub open spec fn note_text(line: Seq<char>) -> Seq<char> {
    if line.len() == 0 {
        line
    } else {
        " "@ + line
    }
}

/// The lines of a comment.
pub open spec fn note_parts(text: Seq<char>) -> Seq<Part> {
    lines(text).map_values(|line: Seq<char>| Part::Note(note_text(line)))
}

/// The line of an option.
pub open spec fn option_part(key: Seq<char>, v: ValuesView, default: Seq<char>) -> Part {
    match setting(v.settings, key) {
        Some(value) => Part::Setting(key, value),
        None => Part::Note(" "@ + active(key, default)),
    }
}

/// The lines of a block, but for the table of a `LinkSelections` one.
pub open spec fn block_parts(b: Block, v: ValuesView) -> Seq<Part> {
    match b {
        Block::Prose(text) => note_parts(text@),
        Block::Required { key, comment: note, sample } => note_parts(note@).push(
            option_part(key@, v, sample@),
        ),
        Block::Optional { key, comment: note, shown } => note_parts(note@).push(
            option_part(key@, v, shown_text(shown)),
        ),
        Block::PskGroup { comment: note } => note_parts(note@).push(
            option_part("psk_file"@, v, "\"~/.config/clipmesh/psk\""@),
        ).push(option_part("psk"@, v, "\"supersecret\""@)).push(
            option_part("psk_env"@, v, "\"CLIPMESH_PSK\""@),
        ),
        Block::LinkSelections { comment: note } => note_parts(note@) + (if v.link is None {
            seq![
                Part::Note(" [link_selections]"@),
                Part::Note(" clipboard_to_selection = false"@),
                Part::Note(" selection_to_clipboard = false"@),
            ]
        } else {
            Seq::empty()
        }),
    }
}

/// The lines of some blocks, each followed by a blank line.
pub open spec fn blocks_parts(blocks: Seq<Block>, v: ValuesView) -> Seq<Part>
    decreases blocks.len(),
{
    if blocks.len() == 0 {
        Seq::empty()
    } else {
        (blocks_parts(blocks.drop_last(), v) + block_parts(blocks.last(), v)).push(Part::Blank)
    }
}

/// The lines of the canonical config file in front of its table.
pub open spec fn config_parts(v: ValuesView) -> Seq<Part> {
    let blocks = template_blocks();
    blocks_parts(blocks.drop_last(), v) + block_parts(blocks.last(), v)
}

/// The table of the canonical config file.
pub open spec fn config_table(v: ValuesView) -> Option<FlagTable> {
    match v.link {
        Some((c2s, s2c)) => Some(
            (
                "link_selections"@,
                seq![("clipboard_to_selection"@, c2s), ("selection_to_clipboard"@, s2c)],
            ),
        ),
        None => None,
    }
}

/// Whether a text may be rendered as a comment.
spec fn is_prose(text: Seq<char>) -> bool {
    forall|i: int| 0 <= i < text.len() ==> #[trigger] text[i] == '\n' || is_printable(text[i])
}

/// Whether a block renders as TOML.
spec fn is_sound_block(b: Block) -> bool {
    match b {
        Block::Prose(text) => is_prose(text@),
        Block::Required { key, comment: note, sample } => is_prose(note@) && is_bare_key(key@)
            && is_note(sample@),
        Block::Optional { key, comment: note, shown } => is_prose(note@) && is_bare_key(key@)
            && is_note(shown_text(shown)),
        Block::PskGroup { comment: note } => is_prose(note@),
        Block::LinkSelections { comment: note } => is_prose(note@),
    }
}

proof fn lemma_line_len_is(s: Seq<char>)
    ensures
        crate::text::line_len(s) <= s.len(),
        forall|k: int| 0 <= k < crate::text::line_len(s) ==> #[trigger] s[k] != '\n',
    decreases s.len(),
{
    if s.len() > 0 && s[0] != '\n' {
        lemma_line_len_is(s.skip(1));
        assert forall|k: int| 0 <= k < crate::text::line_len(s) implies #[trigger] s[k] != '\n' by {
            if k > 0 {
                assert(s.skip(1)[k - 1] == s[k]);
            }
        }
    }
}

proof fn lemma_lines_are_notes(s: Seq<char>)
    requires
        is_prose(s),
    ensures
        forall|i: int| 0 <= i < lines(s).len() ==> is_note(#[trigger] lines(s)[i]),
    decreases s.len(),
{
    if s.len() > 0 {
        lemma_line_len_is(s);
        let n = crate::text::line_len(s) as int;
        if n >= s.len() {
            assert(is_note(s));
        } else {
            let first = crate::text::without_return(s.take(n));
            let rest = s.skip(n + 1);
            assert(is_note(first)) by {
                assert forall|i: int| 0 <= i < first.len() implies is_printable(
                    #[trigger] first[i],
                ) by {
                    assert(first[i] == s[i]);
                }
            }
            assert(is_prose(rest)) by {
                assert forall|i: int| 0 <= i < rest.len() implies #[trigger] rest[i] == '\n'
                    || is_printable(rest[i]) by {
                    assert(rest[i] == s[n + 1 + i]);
                }
            }
            lemma_lines_are_notes(rest);
            assert(lines(s) == seq![first] + lines(rest));
            assert forall|i: int| 0 <= i < lines(s).len() implies is_note(#[trigger] lines(s)[i]) by {
                if i > 0 {
                    assert(lines(s)[i] == lines(rest)[i - 1]);
                }
            }
        }
    }
}

/// Lines without a setting behind others.
proof fn lemma_append_notes(a: Seq<Part>, b: Seq<Part>)
    requires
        are_plain(a),
        forall|i: int| 0 <= i < b.len() ==> #[trigger] is_remark(b[i]),
    ensures
        are_plain(a + b),
        forall|k: Seq<char>| #[trigger] text_in(a + b, k) == text_in(a, k),
    decreases b.len(),
{
    if b.len() == 0 {
        assert(a + b =~= a);
    } else {
        let rest = b.drop_last();
        assert forall|i: int| 0 <= i < rest.len() implies #[trigger] is_remark(rest[i]) by {
            assert(is_remark(b[i]));
        }
        lemma_append_notes(a, rest);
        assert((a + b).drop_last() =~= a + rest);
        assert((a + b).last() == b[b.len() - 1]);
        assert(is_remark(b[b.len() - 1]));
        assert forall|k: Seq<char>| #[trigger] text_in(a + b, k) == text_in(a, k) by {
            assert(text_in(a + rest, k) == text_in(a, k));
        }
    }
}

/// Whether a line is blank or a comment.
spec fn is_remark(p: Part) -> bool {
    match p {
        Part::Blank => true,
        Part::Note(text) => is_note(text),
        Part::Setting(..) => false,
    }
}

proof fn lemma_parts_text_of_both(a: Seq<Part>, b: Seq<Part>)
    ensures
        parts_text(a + b) == parts_text(a) + parts_text(b),
    decreases b.len(),
{
    if b.len() == 0 {
        assert(a + b =~= a);
        assert(parts_text(a) + parts_text(b) =~= parts_text(a));
    } else {
        lemma_parts_text_of_both(a, b.drop_last());
        assert((a + b).drop_last() =~= a + b.drop_last());
        assert(parts_text(a + b) =~= parts_text(a) + parts_text(b));
    }
}

proof fn lemma_comment_parts(ls: Seq<Seq<char>>)
    ensures
        parts_text(ls.map_values(|line: Seq<char>| Part::Note(note_text(line)))) == comment_lines(
            ls,
        ),
    decreases ls.len(),
{
    let f = |line: Seq<char>| Part::Note(note_text(line));
    let ps = ls.map_values(f);
    if ls.len() > 0 {
        lemma_comment_parts(ls.drop_last());
        assert(ps.drop_last() =~= ls.drop_last().map_values(f));
        reveal_strlit("#");
        reveal_strlit("#\n");
        reveal_strlit("# ");
        reveal_strlit(" ");
        reveal_strlit("\n");
        assert(ps.last() == Part::Note(note_text(ls.last())));
        assert(part_text(ps.last()) =~= comment_line(ls.last()));
    }
}

/// The comment of a block behind other lines.
proof fn lemma_append_comment(a: Seq<Part>, text: Seq<char>)
    requires
        are_plain(a),
        is_prose(text),
    ensures
        are_plain(a + note_parts(text)),
        parts_text(a + note_parts(text)) == parts_text(a) + comment(text),
        forall|k: Seq<char>| #[trigger] text_in(a + note_parts(text), k) == text_in(a, k),
{
    let b = note_parts(text);
    lemma_lines_are_notes(text);
    reveal_strlit(" ");
    assert forall|i: int| 0 <= i < b.len() implies #[trigger] is_remark(b[i]) by {
        let line = lines(text)[i];
        assert(is_note(line));
        assert(b[i] == Part::Note(note_text(line)));
        assert forall|j: int| 0 <= j < note_text(line).len() implies is_printable(
            #[trigger] note_text(line)[j],
        ) by {
            if line.len() > 0 && j > 0 {
                assert(note_text(line)[j] == line[j - 1]);
            }
        }
    }
    lemma_append_notes(a, b);
    lemma_parts_text_of_both(a, b);
    lemma_comment_parts(lines(text));
}

/// The line of an option behind other lines.
proof fn lemma_append_option(a: Seq<Part>, key: Seq<char>, v: ValuesView, default: Seq<char>)
    requires
        are_plain(a),
        is_bare_key(key),
        is_note(default),
        all_canonical(v.settings),
        text_in(a, key) is None,
    ensures
        are_plain(a.push(option_part(key, v, default))),
        parts_text(a.push(option_part(key, v, default))) == parts_text(a) + option_line(
            key,
            v,
            default,
        ),
        forall|k: Seq<char>| #[trigger]
            text_in(a.push(option_part(key, v, default)), k) == (if k == key {
                setting(v.settings, key)
            } else {
                text_in(a, k)
            }),
{
    let p = option_part(key, v, default);
    let b = a.push(p);
    assert(b.drop_last() =~= a);
    assert(b.last() == p);
    reveal_strlit("#");
    reveal_strlit("# ");
    reveal_strlit(" ");
    reveal_strlit(" = ");
    reveal_strlit("\n");
    match setting(v.settings, key) {
        Some(value) => {
            assert(is_canonical(value));
            assert(part_text(p) =~= option_line(key, v, default));
        },
        None => {
            let note = " "@ + active(key, default);
            assert(is_note(note)) by {
                assert forall|i: int| 0 <= i < note.len() implies is_printable(
                    #[trigger] note[i],
                ) by {
                    if 1 <= i < 1 + key.len() {
                        assert(note[i] == key[i - 1]);
                        assert(is_bare(key[i - 1]));
                    } else if i >= key.len() + 4 {
                        assert(note[i] == default[i - key.len() - 4]);
                    }
                }
            }
            assert(part_text(p) =~= option_line(key, v, default));
        },
    }
}

proof fn lemma_append_blank(a: Seq<Part>)
    requires
        are_plain(a),
    ensures
        are_plain(a.push(Part::Blank)),
        parts_text(a.push(Part::Blank)) == parts_text(a) + "\n"@,
        forall|k: Seq<char>| #[trigger] text_in(a.push(Part::Blank), k) == text_in(a, k),
{
    assert(a.push(Part::Blank).drop_last() =~= a);
}

/// Whether the blocks render as TOML, none of them a table, and no key twice.
spec fn are_sound_blocks(blocks: Seq<Block>, v: ValuesView) -> bool {
    &&& forall|i: int|
        0 <= i < blocks.len() ==> is_sound_block(#[trigger] blocks[i])
            && !(blocks[i] is LinkSelections) && (blocks[i] matches Block::Required { key, .. }
            ==> setting(v.settings, key@) is Some)
    &&& distinct(names(keys_of(blocks)))
}

/// The names of the keys of some blocks are those of all but the last, and then its own.
proof fn lemma_last_keys(blocks: Seq<Block>)
    requires
        blocks.len() > 0,
    ensures
        ({
            let (rest, own) = (
                names(keys_of(blocks.drop_last())),
                names(block_keys(blocks.last())),
            );
            &&& names(keys_of(blocks)) == rest + own
            &&& forall|k: Seq<char>| #[trigger]
                names(keys_of(blocks)).contains(k) <==> rest.contains(k) || own.contains(k)
            &&& distinct(names(keys_of(blocks))) ==> distinct(rest) && forall|i: int|
                0 <= i < own.len() ==> !rest.contains(#[trigger] own[i])
        }),
{
    let (rest, own) = (names(keys_of(blocks.drop_last())), names(block_keys(blocks.last())));
    let all = names(keys_of(blocks));
    assert(all =~= rest + own);
    assert forall|k: Seq<char>| #[trigger] all.contains(k) <==> rest.contains(k) || own.contains(
        k,
    ) by {
        if rest.contains(k) {
            let i = choose|i: int| 0 <= i < rest.len() && rest[i] == k;
            assert(all[i] == k);
        }
        if own.contains(k) {
            let i = choose|i: int| 0 <= i < own.len() && own[i] == k;
            assert(all[rest.len() + i] == k);
        }
        if all.contains(k) {
            let i = choose|i: int| 0 <= i < all.len() && all[i] == k;
            if i < rest.len() {
                assert(rest[i] == k);
            } else {
                assert(own[i - rest.len()] == k);
            }
        }
    }
    if distinct(all) {
        assert forall|i: int, j: int| 0 <= i < j < rest.len() implies #[trigger] rest[i]
            != #[trigger] rest[j] by {
            assert(all[i] == rest[i] && all[j] == rest[j]);
        }
        assert forall|i: int| 0 <= i < own.len() implies !rest.contains(#[trigger] own[i]) by {
            if rest.contains(own[i]) {
                let j = choose|j: int| 0 <= j < rest.len() && rest[j] == own[i];
                assert(all[j] == all[rest.len() + i]);
            }
        }
    }
}

/// What blocks render as is a plain document, which sets the values of their keys.
proof fn lemma_blocks_are_plain(blocks: Seq<Block>, v: ValuesView)
    requires
        are_sound_blocks(blocks, v),
        all_canonical(v.settings),
    ensures
        are_plain(blocks_parts(blocks, v)),
        parts_text(blocks_parts(blocks, v)) == blocks_text(blocks, v),
        forall|k: Seq<char>| #[trigger]
            text_in(blocks_parts(blocks, v), k) == (if names(keys_of(blocks)).contains(k) {
                setting(v.settings, k)
            } else {
                None
            }),
    decreases blocks.len(),
{
    if blocks.len() > 0 {
        let rest = blocks.drop_last();
        let b = blocks.last();
        assert(b == blocks[blocks.len() - 1]);
        lemma_last_keys(blocks);
        assert forall|i: int| 0 <= i < rest.len() implies is_sound_block(#[trigger] rest[i])
            && !(rest[i] is LinkSelections) && (rest[i] matches Block::Required { key, .. }
            ==> setting(v.settings, key@) is Some) by {
            assert(rest[i] == blocks[i]);
        }
        lemma_blocks_are_plain(rest, v);
        lemma_block_is_plain(blocks_parts(rest, v), b, v, names(keys_of(rest)));
        let own = names(block_keys(b));
        let a = blocks_parts(rest, v) + block_parts(b, v);
        lemma_append_blank(a);
        assert(parts_text(blocks_parts(blocks, v)) =~= blocks_text(blocks, v));
    }
}

/// The lines of a block behind those of others, which have the keys `before`.
proof fn lemma_block_is_plain(a: Seq<Part>, b: Block, v: ValuesView, before: Seq<Seq<char>>)
    requires
        are_plain(a),
        is_sound_block(b),
        !(b is LinkSelections),
        b matches Block::Required { key, .. } ==> setting(v.settings, key@) is Some,
        all_canonical(v.settings),
        forall|i: int|
            0 <= i < names(block_keys(b)).len() ==> !before.contains(
                #[trigger] names(block_keys(b))[i],
            ),
        forall|k: Seq<char>| #[trigger]
            text_in(a, k) == (if before.contains(k) {
                setting(v.settings, k)
            } else {
                None
            }),
    ensures
        are_plain(a + block_parts(b, v)),
        parts_text(a + block_parts(b, v)) == parts_text(a) + block_text(b, v),
        forall|k: Seq<char>| #[trigger]
            text_in(a + block_parts(b, v), k) == (if before.contains(k) || names(
                block_keys(b),
            ).contains(k) {
                setting(v.settings, k)
            } else {
                None
            }),
{
    let own = names(block_keys(b));
    match b {
        Block::Prose(text) => {
            lemma_append_comment(a, text@);
            assert(own =~= Seq::<Seq<char>>::empty());
        },
        Block::Required { key, comment: note, sample } => {
            assert(own =~= seq![key@]);
            assert(!before.contains(own[0]));
            lemma_contains_one(key@);
            lemma_append_commented_option(a, note@, key@, v, sample@);
            let (n, p) = (note_parts(note@), option_part(key@, v, sample@));
            assert(a + block_parts(b, v) =~= (a + n).push(p));
            assert(option_line(key@, v, sample@) == active(
                key@,
                setting(v.settings, key@)->0,
            ) + "\n"@);
        },
        Block::Optional { key, comment: note, shown } => {
            assert(own =~= seq![key@]);
            assert(!before.contains(own[0]));
            lemma_contains_one(key@);
            lemma_append_commented_option(a, note@, key@, v, shown_text(shown));
            let (n, p) = (note_parts(note@), option_part(key@, v, shown_text(shown)));
            assert(a + block_parts(b, v) =~= (a + n).push(p));
        },
        Block::PskGroup { comment: note } => {
            assert(own =~= seq!["psk_file"@, "psk"@, "psk_env"@]);
            assert(!before.contains(own[0]) && !before.contains(own[1]) && !before.contains(
                own[2],
            ));
            lemma_append_psk(a, note@, v);
            assert(a + block_parts(b, v) =~= psk_parts(a + note_parts(note@), v));
            assert forall|k: Seq<char>| #[trigger] own.contains(k) <==> k == "psk_file"@ || k
                == "psk"@ || k == "psk_env"@ by {
                assert(own[0] == "psk_file"@ && own[1] == "psk"@ && own[2] == "psk_env"@);
            }
        },
        Block::LinkSelections { .. } => {},
    }
}

/// A comment and the line of an option behind other lines.
proof fn lemma_append_commented_option(
    a: Seq<Part>,
    note: Seq<char>,
    key: Seq<char>,
    v: ValuesView,
    default: Seq<char>,
)
    requires
        are_plain(a),
        is_prose(note),
        is_bare_key(key),
        is_note(default),
        all_canonical(v.settings),
        text_in(a, key) is None,
    ensures
        ({
            let b = (a + note_parts(note)).push(option_part(key, v, default));
            &&& are_plain(b)
            &&& parts_text(b) == parts_text(a) + (comment(note) + option_line(key, v, default))
            &&& forall|k: Seq<char>| #[trigger]
                text_in(b, k) == (if k == key {
                    setting(v.settings, key)
                } else {
                    text_in(a, k)
                })
        }),
{
    lemma_append_comment(a, note);
    let n = a + note_parts(note);
    assert(text_in(n, key) == text_in(a, key));
    lemma_append_option(n, key, v, default);
    let b = n.push(option_part(key, v, default));
    assert(parts_text(b) =~= parts_text(a) + (comment(note) + option_line(key, v, default)));
    assert forall|k: Seq<char>| #[trigger] text_in(b, k) == (if k == key {
        setting(v.settings, key)
    } else {
        text_in(a, k)
    }) by {
        assert(text_in(n, k) == text_in(a, k));
    }
}

/// The lines of the psk sources behind others.
spec fn psk_parts(n: Seq<Part>, v: ValuesView) -> Seq<Part> {
    n.push(option_part("psk_file"@, v, "\"~/.config/clipmesh/psk\""@)).push(
        option_part("psk"@, v, "\"supersecret\""@),
    ).push(option_part("psk_env"@, v, "\"CLIPMESH_PSK\""@))
}

/// A comment and the lines of the psk sources behind other lines.
proof fn lemma_append_psk(a: Seq<Part>, note: Seq<char>, v: ValuesView)
    requires
        are_plain(a),
        is_prose(note),
        all_canonical(v.settings),
        text_in(a, "psk_file"@) is None,
        text_in(a, "psk"@) is None,
        text_in(a, "psk_env"@) is None,
    ensures
        are_plain(psk_parts(a + note_parts(note), v)),
        parts_text(psk_parts(a + note_parts(note), v)) == parts_text(a) + (comment(note)
            + psk_lines(v)),
        forall|k: Seq<char>| #[trigger]
            text_in(psk_parts(a + note_parts(note), v), k) == (if k == "psk_file"@ || k == "psk"@
                || k == "psk_env"@ {
                setting(v.settings, k)
            } else {
                text_in(a, k)
            }),
{
    lemma_psk_samples();
    let (f, p, e) = ("psk_file"@, "psk"@, "psk_env"@);
    lemma_append_comment(a, note);
    let n = a + note_parts(note);
    assert(text_in(n, f) is None && text_in(n, p) is None && text_in(n, e) is None);
    lemma_append_option(n, f, v, "\"~/.config/clipmesh/psk\""@);
    let n1 = n.push(option_part(f, v, "\"~/.config/clipmesh/psk\""@));
    assert(text_in(n1, p) is None && text_in(n1, e) is None);
    lemma_append_option(n1, p, v, "\"supersecret\""@);
    let n2 = n1.push(option_part(p, v, "\"supersecret\""@));
    assert(text_in(n2, e) is None);
    lemma_append_option(n2, e, v, "\"CLIPMESH_PSK\""@);
    let n3 = n2.push(option_part(e, v, "\"CLIPMESH_PSK\""@));
    assert(parts_text(n3) =~= parts_text(a) + (comment(note) + psk_lines(v)));
    assert forall|k: Seq<char>| #[trigger] text_in(n3, k) == (if k == f || k == p || k == e {
        setting(v.settings, k)
    } else {
        text_in(a, k)
    }) by {
        assert(text_in(n2, k) == (if k == p {
            setting(v.settings, p)
        } else {
            text_in(n1, k)
        }));
        assert(text_in(n1, k) == (if k == f {
            setting(v.settings, f)
        } else {
            text_in(n, k)
        }));
        assert(text_in(n, k) == text_in(a, k));
    }
}

proof fn lemma_contains_one(key: Seq<char>)
    ensures
        forall|k: Seq<char>| #[trigger] seq![key].contains(k) <==> k == key,
{
    assert(seq![key][0] == key);
}

proof fn lemma_psk_samples()
    ensures
        is_bare_key("psk_file"@),
        is_bare_key("psk"@),
        is_bare_key("psk_env"@),
        "psk_file"@ != "psk"@,
        "psk_file"@ != "psk_env"@,
        "psk"@ != "psk_env"@,
        is_note("\"~/.config/clipmesh/psk\""@),
        is_note("\"supersecret\""@),
        is_note("\"CLIPMESH_PSK\""@),
{
    reveal_strlit("psk_file");
    reveal_strlit("psk");
    reveal_strlit("psk_env");
    reveal_strlit("\"~/.config/clipmesh/psk\"");
    reveal_strlit("\"supersecret\"");
    reveal_strlit("\"CLIPMESH_PSK\"");
    assert("psk_file"@.len() != "psk"@.len());
    assert("psk_file"@.len() != "psk_env"@.len());
    assert("psk"@.len() != "psk_env"@.len());
}

/// Every comment of the template may be rendered as one.
proof fn lemma_notes_are_prose()
    ensures
        is_prose(HEADER@),
        is_prose(LISTEN_NOTE@),
        is_prose(PORT_NOTE@),
        is_prose(PEERS_NOTE@),
        is_prose(PSK_NOTE@),
        is_prose(OPTIONAL_NOTE@),
        is_prose(MAX_PAYLOAD_SIZE_NOTE@),
        is_prose(DEBOUNCE_MS_NOTE@),
        is_prose(SYNC_SELECTION_NOTE@),
        is_prose(DIRECTION_NOTE@),
        is_prose(EXCLUDE_SENSITIVE_NOTE@),
        is_prose(RESYNC_ON_CONNECT_NOTE@),
        is_prose(SHARE_MIME_RULES_NOTE@),
        is_prose(VERBOSE_NOTE@),
        is_prose(LOG_LEVEL_NOTE@),
        is_prose(UNKNOWN_MIME_NOTE@),
        is_prose(SYNTHESIZE_TEXT_PLAIN_NOTE@),
        is_prose(TAKE_OWNERSHIP_NOTE@),
        is_prose(MIME_RULES_FILE_NOTE@),
        is_prose(LINK_NOTE@),
{
    assert(is_prose(HEADER@)) by {
        reveal_strlit("clipmesh configuration. Generate/refresh with `clipmesh --sync-config`:\n\
    it fills in every option and these comments, keeping the values you've\n\
    set. A commented-out line means the option is unset and its default\n\
    applies; the value shown is that default, except where the comment\n\
    calls it an example. clipmesh watches this file and restarts to apply\n\
    a change.");
    }
    assert(is_prose(LISTEN_NOTE@)) by {
        reveal_strlit("0.0.0.0 binds every interface; restrict to a specific LAN address (or\n\
    firewall the port) on hosts reachable from untrusted networks. Traffic is\n\
    Noise-encrypted, so peers without the psk can neither read nor inject.");
    }
    assert(is_prose(PORT_NOTE@)) by {
        reveal_strlit("Port to listen on. Peers below that omit their own port reuse this one.\n\
    Put the port here, not in `listen`.");
    }
    assert(is_prose(PEERS_NOTE@)) by {
        reveal_strlit("List every other node directly. clipmesh connects peers point-to-point\n\
    and never forwards between them, so a node left out here won't receive\n\
    copies. Add \":port\" to override the shared port for one peer.\n\
    The hosts below are an example: unset, this node dials nobody and only\n\
    accepts connections others make to it.");
    }
    assert(is_prose(PSK_NOTE@)) by {
        reveal_strlit("Exactly one of psk_file / psk / psk_env must be set: psk_file points to a\n\
    file holding the shared secret, psk is the secret inline, psk_env names an\n\
    environment variable holding it. The values below are examples — every\n\
    node in the mesh must end up with the same secret.");
    }
    assert(is_prose(OPTIONAL_NOTE@)) by {
        reveal_strlit("Everything below is optional.");
    }
    assert(is_prose(MAX_PAYLOAD_SIZE_NOTE@)) by {
        reveal_strlit("Skip clipboard contents larger than this (whole offer).");
    }
    assert(is_prose(DEBOUNCE_MS_NOTE@)) by {
        reveal_strlit("Quiet period (ms) before broadcasting, to coalesce rapid copies.");
    }
    assert(is_prose(SYNC_SELECTION_NOTE@)) by {
        reveal_strlit("Also sync the middle-click selection across the mesh.");
    }
    assert(is_prose(DIRECTION_NOTE@)) by {
        reveal_strlit("\"both\" | \"send_only\" | \"receive_only\".");
    }
    assert(is_prose(EXCLUDE_SENSITIVE_NOTE@)) by {
        reveal_strlit("Skip password-manager-flagged contents.");
    }
    assert(is_prose(RESYNC_ON_CONNECT_NOTE@)) by {
        reveal_strlit("Push current clipboard to peers when they (re)connect.");
    }
    assert(is_prose(SHARE_MIME_RULES_NOTE@)) by {
        reveal_strlit("Share the MIME-rules file across the mesh (whole-file last-writer-wins:\n\
    the most recently edited file wins outright and replaces the others, not\n\
    a per-type merge). Turn off to keep each host's rules independent.");
    }
    assert(is_prose(VERBOSE_NOTE@)) by {
        reveal_strlit("Log a one-line summary (at info level, so needs log_level >= info) per\n\
    detected copy and received update.");
    }
    assert(is_prose(LOG_LEVEL_NOTE@)) by {
        reveal_strlit("Overridable with RUST_LOG.");
    }
    assert(is_prose(UNKNOWN_MIME_NOTE@)) by {
        reveal_strlit("What to do with a MIME type that has no rule yet: \"deny\" syncs nothing\n\
    until you allow it; \"allow\" syncs everything not explicitly denied.");
    }
    assert(is_prose(SYNTHESIZE_TEXT_PLAIN_NOTE@)) by {
        reveal_strlit("When a copied selection offers only a legacy X11 plain-text atom\n\
    (UTF8_STRING/STRING/TEXT) and no text/plain* rep, synthesize\n\
    text/plain;charset=utf-8 and text/plain from it so Wayland-native apps\n\
    can paste it. The synthesized types go through the MIME rules below.");
    }
    assert(is_prose(TAKE_OWNERSHIP_NOTE@)) by {
        reveal_strlit("After a local copy, re-offer the selection so clipmesh owns it: the\n\
    clipboard then survives the source app exiting, and (with\n\
    synthesize_text_plain) X11-sourced content pastes on THIS host too. Never\n\
    re-owns password-manager-flagged content while exclude_sensitive is on.");
    }
    assert(is_prose(MIME_RULES_FILE_NOTE@)) by {
        reveal_strlit("Per-type allow/deny rules file (TOML). Defaults to \"mimetypes\" beside\n\
    this config, wherever this config lives — so the path below is an example\n\
    of that, not a fixed default: setting it pins the rules file even if the\n\
    config moves. clipmesh creates the file, appends any new type it sees (per\n\
    unknown_mime), keeps it sorted, and reloads on change. Edit it or run\n\
    `clipmesh --allow/--deny \"<glob>\"` (and `clipmesh --rules` to list).");
    }
    assert(is_prose(LINK_NOTE@)) by {
        reveal_strlit("Locally mirror between the Ctrl+C clipboard and the mouse-highlight /\n\
    middle-click selection on THIS host (separate from sync_selection, which\n\
    is mesh-wide). Each direction is independent and off unless true.\n\
    WARNING: selection_to_clipboard makes selecting any text overwrite your\n\
    clipboard — and, because the clipboard is always synced when this node\n\
    sends, your peers' clipboards too.");
    }
}

/// Every key of the template may stand without quotes, and every value that it shows may
/// stand in a comment.
proof fn lemma_keys_are_bare()
    ensures
        is_bare_key("listen"@),
        is_bare_key("port"@),
        is_bare_key("peers"@),
        is_bare_key("max_payload_size"@),
        is_bare_key("debounce_ms"@),
        is_bare_key("sync_selection"@),
        is_bare_key("direction"@),
        is_bare_key("exclude_sensitive"@),
        is_bare_key("resync_on_connect"@),
        is_bare_key("share_mime_rules"@),
        is_bare_key("verbose"@),
        is_bare_key("log_level"@),
        is_bare_key("unknown_mime"@),
        is_bare_key("synthesize_text_plain"@),
        is_bare_key("take_ownership"@),
        is_bare_key("mime_rules_file"@),
        is_note("48100"@),
        is_note("[\"host-b\", \"host-c\"]"@),
        is_note("\"32MiB\""@),
        is_note("100"@),
        is_note("false"@),
        is_note("\"both\""@),
        is_note("true"@),
        is_note("\"info\""@),
        is_note("\"deny\""@),
        is_note("\"~/.config/clipmesh/mimetypes\""@),
        is_note("\"0.0.0.0\""@),
{
    assert(is_bare_key("listen"@)) by {
        reveal_strlit("listen");
    }
    assert(is_bare_key("port"@)) by {
        reveal_strlit("port");
    }
    assert(is_bare_key("peers"@)) by {
        reveal_strlit("peers");
    }
    assert(is_bare_key("max_payload_size"@)) by {
        reveal_strlit("max_payload_size");
    }
    assert(is_bare_key("debounce_ms"@)) by {
        reveal_strlit("debounce_ms");
    }
    assert(is_bare_key("sync_selection"@)) by {
        reveal_strlit("sync_selection");
    }
    assert(is_bare_key("direction"@)) by {
        reveal_strlit("direction");
    }
    assert(is_bare_key("exclude_sensitive"@)) by {
        reveal_strlit("exclude_sensitive");
    }
    assert(is_bare_key("resync_on_connect"@)) by {
        reveal_strlit("resync_on_connect");
    }
    assert(is_bare_key("share_mime_rules"@)) by {
        reveal_strlit("share_mime_rules");
    }
    assert(is_bare_key("verbose"@)) by {
        reveal_strlit("verbose");
    }
    assert(is_bare_key("log_level"@)) by {
        reveal_strlit("log_level");
    }
    assert(is_bare_key("unknown_mime"@)) by {
        reveal_strlit("unknown_mime");
    }
    assert(is_bare_key("synthesize_text_plain"@)) by {
        reveal_strlit("synthesize_text_plain");
    }
    assert(is_bare_key("take_ownership"@)) by {
        reveal_strlit("take_ownership");
    }
    assert(is_bare_key("mime_rules_file"@)) by {
        reveal_strlit("mime_rules_file");
    }
    assert(is_note("48100"@)) by {
        reveal_strlit("48100");
    }
    assert(is_note("[\"host-b\", \"host-c\"]"@)) by {
        reveal_strlit("[\"host-b\", \"host-c\"]");
    }
    assert(is_note("\"32MiB\""@)) by {
        reveal_strlit("\"32MiB\"");
    }
    assert(is_note("100"@)) by {
        reveal_strlit("100");
    }
    assert(is_note("false"@)) by {
        reveal_strlit("false");
    }
    assert(is_note("\"both\""@)) by {
        reveal_strlit("\"both\"");
    }
    assert(is_note("true"@)) by {
        reveal_strlit("true");
    }
    assert(is_note("\"info\""@)) by {
        reveal_strlit("\"info\"");
    }
    assert(is_note("\"deny\""@)) by {
        reveal_strlit("\"deny\"");
    }
    assert(is_note("\"~/.config/clipmesh/mimetypes\""@)) by {
        reveal_strlit("\"~/.config/clipmesh/mimetypes\"");
    }
    assert(is_note("\"0.0.0.0\""@)) by {
        reveal_strlit("\"0.0.0.0\"");
    }
}

/// The keys of the template, in order.
spec fn key_list() -> Seq<Seq<char>> {
    seq![
        "listen"@,
        "port"@,
        "peers"@,
        "psk_file"@,
        "psk"@,
        "psk_env"@,
        "max_payload_size"@,
        "debounce_ms"@,
        "sync_selection"@,
        "direction"@,
        "exclude_sensitive"@,
        "resync_on_connect"@,
        "share_mime_rules"@,
        "verbose"@,
        "log_level"@,
        "unknown_mime"@,
        "synthesize_text_plain"@,
        "take_ownership"@,
        "mime_rules_file"@,
    ]
}

/// A length and a first character: no two keys of the template share both.
spec fn key_mark(key: Seq<char>) -> (int, char) {
    (key.len() as int, key[0])
}

proof fn lemma_key_marks()
    ensures
        key_mark(key_list()[0]) == (6int, 'l'),
        key_mark(key_list()[1]) == (4int, 'p'),
        key_mark(key_list()[2]) == (5int, 'p'),
        key_mark(key_list()[3]) == (8int, 'p'),
        key_mark(key_list()[4]) == (3int, 'p'),
        key_mark(key_list()[5]) == (7int, 'p'),
        key_mark(key_list()[6]) == (16int, 'm'),
        key_mark(key_list()[7]) == (11int, 'd'),
        key_mark(key_list()[8]) == (14int, 's'),
        key_mark(key_list()[9]) == (9int, 'd'),
        key_mark(key_list()[10]) == (17int, 'e'),
        key_mark(key_list()[11]) == (17int, 'r'),
        key_mark(key_list()[12]) == (16int, 's'),
        key_mark(key_list()[13]) == (7int, 'v'),
        key_mark(key_list()[14]) == (9int, 'l'),
        key_mark(key_list()[15]) == (12int, 'u'),
        key_mark(key_list()[16]) == (21int, 's'),
        key_mark(key_list()[17]) == (14int, 't'),
        key_mark(key_list()[18]) == (15int, 'm'),
        key_mark("link_selections"@) == (15int, 'l'),
{
    reveal_strlit("listen");
    reveal_strlit("port");
    reveal_strlit("peers");
    reveal_strlit("psk_file");
    reveal_strlit("psk");
    reveal_strlit("psk_env");
    reveal_strlit("max_payload_size");
    reveal_strlit("debounce_ms");
    reveal_strlit("sync_selection");
    reveal_strlit("direction");
    reveal_strlit("exclude_sensitive");
    reveal_strlit("resync_on_connect");
    reveal_strlit("share_mime_rules");
    reveal_strlit("verbose");
    reveal_strlit("log_level");
    reveal_strlit("unknown_mime");
    reveal_strlit("synthesize_text_plain");
    reveal_strlit("take_ownership");
    reveal_strlit("mime_rules_file");
    reveal_strlit("link_selections");
}

/// No two keys of the template are the same, and none is that of the table.
proof fn lemma_keys_are_distinct()
    ensures
        distinct(key_list()),
        !key_list().contains("link_selections"@),
{
    lemma_key_marks();
    let list = key_list();
    assert forall|i: int, j: int| 0 <= i < j < list.len() implies #[trigger] list[i]
        != #[trigger] list[j] by {
        assert(key_mark(list[i]) != key_mark(list[j]));
    }
    if list.contains("link_selections"@) {
        let i = choose|i: int| 0 <= i < list.len() && list[i] == "link_selections"@;
        assert(key_mark(list[i]) != key_mark("link_selections"@));
    }
}

proof fn lemma_template_names()
    ensures
        names(keys_of(template_blocks().drop_last())) == key_list(),
        names(keys_of(template_blocks())) == key_list(),
{
    let t = template_blocks().drop_last();
    lemma_last_keys(template_blocks());
    reveal_with_fuel(keys_of, 21);
    assert(names(keys_of(t)) =~= key_list());
    assert(names(keys_of(template_blocks())) =~= key_list());
}

/// No two keys of the template are the same.
pub proof fn lemma_template_keys_are_distinct()
    ensures
        distinct(names(keys_of(template_blocks()))),
{
    lemma_template_names();
    lemma_keys_are_distinct();
}

/// The blocks in front of the table render as TOML.
proof fn lemma_template_is_sound(v: ValuesView)
    requires
        setting(v.settings, "listen"@) is Some,
    ensures
        are_sound_blocks(template_blocks().drop_last(), v),
{
    lemma_notes_are_prose();
    lemma_keys_are_bare();
    lemma_template_names();
    lemma_keys_are_distinct();
    let rest = template_blocks().drop_last();
    assert forall|i: int| 0 <= i < rest.len() implies is_sound_block(#[trigger] rest[i])
        && !(rest[i] is LinkSelections) && (rest[i] matches Block::Required { key, .. }
        ==> setting(v.settings, key@) is Some) by {}
}

proof fn lemma_two_line_ends(x: Seq<char>)
    requires
        x.len() > 0,
        !crate::text::is_space(x.last()),
    ensures
        trim_end(x + "\n"@ + "\n"@) == x,
{
    reveal_strlit("\n");
    let (one, two) = (x + "\n"@, x + "\n"@ + "\n"@);
    assert(two.drop_last() =~= one);
    assert(one.drop_last() =~= x);
    assert(trim_end(two) == trim_end(one));
    assert(trim_end(one) == trim_end(x));
}

/// The lines of the table end behind a flag.
proof fn lemma_link_lines_end(link: Option<(bool, bool)>)
    ensures
        link_lines(link).len() > 1,
        link_lines(link).last() == '\n',
        link_lines(link)[link_lines(link).len() - 2] == 'e',
{
    reveal_strlit("true");
    reveal_strlit("false");
    reveal_strlit("\n");
    reveal_strlit("# selection_to_clipboard = false\n");
}

/// The comments in place of the table.
spec fn link_notes() -> Seq<Part> {
    seq![
        Part::Note(" [link_selections]"@),
        Part::Note(" clipboard_to_selection = false"@),
        Part::Note(" selection_to_clipboard = false"@),
    ]
}

proof fn lemma_link_notes_text()
    ensures
        parts_text(link_notes()) == link_lines(None),
        forall|i: int| 0 <= i < link_notes().len() ==> #[trigger] is_remark(link_notes()[i]),
{
    lemma_link_notes();
    let notes = link_notes();
    assert(notes.drop_last() =~= seq![notes[0], notes[1]]);
    assert(notes.drop_last().drop_last() =~= seq![notes[0]]);
    assert(notes.drop_last().drop_last().drop_last() =~= Seq::<Part>::empty());
    reveal_with_fuel(parts_text, 4);
    assert(parts_text(notes) =~= part_text(notes[0]) + part_text(notes[1]) + part_text(notes[2]));
}

proof fn lemma_table_text(c2s: bool, s2c: bool)
    ensures
        "["@ + "link_selections"@ + "]\n"@ + crate::toml::flags_text(
            seq![("clipboard_to_selection"@, c2s), ("selection_to_clipboard"@, s2c)],
        ) == link_lines(Some((c2s, s2c))),
{
    let (x, y) = ("clipboard_to_selection"@, "selection_to_clipboard"@);
    let flags = seq![(x, c2s), (y, s2c)];
    assert(flags.drop_last() =~= seq![(x, c2s)]);
    assert(flags.drop_last().drop_last() =~= Seq::<(Seq<char>, bool)>::empty());
    reveal_with_fuel(crate::toml::flags_text, 3);
    assert("["@ + "link_selections"@ + "]\n"@ =~= "[link_selections]\n"@) by {
        reveal_strlit("[");
        reveal_strlit("link_selections");
        reveal_strlit("]\n");
        reveal_strlit("[link_selections]\n");
    }
    lemma_flag_prefixes();
    let (one, two) = (x + " = "@ + flag(c2s) + "\n"@, y + " = "@ + flag(s2c) + "\n"@);
    assert(crate::toml::flags_text(flags) =~= one + two);
    assert("[link_selections]\n"@ + (one + two) =~= "[link_selections]\n"@ + one + two);
}

/// The table, or the comments in place of it, as a plain document has them.
proof fn lemma_link_text(a: Seq<Part>, v: ValuesView)
    requires
        are_plain(a),
    ensures
        ({
            let b = a + block_parts(Block::LinkSelections { comment: LINK_NOTE }, v);
            &&& are_plain(b)
            &&& plain_text(b, config_table(v)) == parts_text(a) + (comment(LINK_NOTE@)
                + link_lines(v.link))
            &&& forall|k: Seq<char>| #[trigger] text_in(b, k) == text_in(a, k)
        }),
{
    lemma_notes_are_prose();
    lemma_append_comment(a, LINK_NOTE@);
    let n = a + note_parts(LINK_NOTE@);
    let b = a + block_parts(Block::LinkSelections { comment: LINK_NOTE }, v);
    match v.link {
        Some((c2s, s2c)) => {
            assert(b =~= n);
            lemma_table_text(c2s, s2c);
            let flags = seq![("clipboard_to_selection"@, c2s), ("selection_to_clipboard"@, s2c)];
            let (p, t) = (parts_text(n), crate::toml::flags_text(flags));
            assert(p + "["@ + "link_selections"@ + "]\n"@ + t =~= p + ("["@
                + "link_selections"@ + "]\n"@ + t));
            assert(parts_text(a) + comment(LINK_NOTE@) + link_lines(v.link) =~= parts_text(a) + (
            comment(LINK_NOTE@) + link_lines(v.link)));
        },
        None => {
            lemma_link_notes_text();
            assert(b =~= n + link_notes());
            lemma_append_notes(n, link_notes());
            lemma_parts_text_of_both(n, link_notes());
            assert(parts_text(a) + comment(LINK_NOTE@) + link_lines(v.link) =~= parts_text(a) + (
            comment(LINK_NOTE@) + link_lines(v.link)));
        },
    }
    assert forall|k: Seq<char>| #[trigger] text_in(b, k) == text_in(a, k) by {
        assert(text_in(n, k) == text_in(a, k));
    }
}

proof fn lemma_flag_prefixes()
    ensures
        "clipboard_to_selection = "@ == "clipboard_to_selection"@ + " = "@,
        "selection_to_clipboard = "@ == "selection_to_clipboard"@ + " = "@,
{
    reveal_strlit("clipboard_to_selection");
    reveal_strlit("selection_to_clipboard");
    reveal_strlit(" = ");
    reveal_strlit("clipboard_to_selection = ");
    reveal_strlit("selection_to_clipboard = ");
    assert("clipboard_to_selection = "@ =~= "clipboard_to_selection"@ + " = "@);
    assert("selection_to_clipboard = "@ =~= "selection_to_clipboard"@ + " = "@);
}

proof fn lemma_link_notes()
    ensures
        is_note(" [link_selections]"@),
        is_note(" clipboard_to_selection = false"@),
        is_note(" selection_to_clipboard = false"@),
        "#"@ + " [link_selections]"@ + "\n"@ == "# [link_selections]\n"@,
        "#"@ + " clipboard_to_selection = false"@ + "\n"@
            == "# clipboard_to_selection = false\n"@,
        "#"@ + " selection_to_clipboard = false"@ + "\n"@
            == "# selection_to_clipboard = false\n"@,
{
    reveal_strlit("#");
    reveal_strlit("\n");
    reveal_strlit(" [link_selections]");
    reveal_strlit(" clipboard_to_selection = false");
    reveal_strlit(" selection_to_clipboard = false");
    reveal_strlit("# [link_selections]\n");
    reveal_strlit("# clipboard_to_selection = false\n");
    reveal_strlit("# selection_to_clipboard = false\n");
    assert("#"@ + " [link_selections]"@ + "\n"@ =~= "# [link_selections]\n"@);
    assert("#"@ + " clipboard_to_selection = false"@ + "\n"@
        =~= "# clipboard_to_selection = false\n"@);
    assert("#"@ + " selection_to_clipboard = false"@ + "\n"@
        =~= "# selection_to_clipboard = false\n"@);
}

/// The canonical config file of a config's values is a plain document, which sets these
/// values.
pub proof fn lemma_config_is_plain(v: ValuesView)
    requires
        is_complete(v),
    ensures
        is_plain(config_parts(v), config_table(v)),
        rendered(template_blocks(), v) == plain_text(config_parts(v), config_table(v)),
        forall|k: Seq<char>| #[trigger] text_in(config_parts(v), k) == setting(v.settings, k),
{
    let blocks = template_blocks();
    let rest = blocks.drop_last();
    lemma_template_is_sound(v);
    lemma_blocks_are_plain(rest, v);
    lemma_template_names();
    lemma_keys_are_distinct();
    let a = blocks_parts(rest, v);
    lemma_link_text(a, v);
    assert(blocks.last() == Block::LinkSelections { comment: LINK_NOTE });
    assert forall|k: Seq<char>| #[trigger] text_in(config_parts(v), k) == setting(
        v.settings,
        k,
    ) by {
        assert(text_in(a, k) == (if names(keys_of(rest)).contains(k) {
            setting(v.settings, k)
        } else {
            None
        }));
    }
    let body = blocks_text(rest, v) + (comment(LINK_NOTE@) + link_lines(v.link));
    lemma_link_lines_end(v.link);
    let x = body.drop_last();
    let tail = link_lines(v.link);
    assert(body.last() == tail.last());
    assert(x.last() == tail[tail.len() - 2]);
    reveal_strlit("\n");
    assert(body =~= x + "\n"@);
    lemma_two_line_ends(x);
    assert(blocks_text(blocks, v) =~= x + "\n"@ + "\n"@);
    if v.link is Some {
        lemma_table_keys();
        assert(text_in(config_parts(v), "link_selections"@) is None);
    }
}

proof fn lemma_table_keys()
    ensures
        is_bare_key("link_selections"@),
        is_bare_key("clipboard_to_selection"@),
        is_bare_key("selection_to_clipboard"@),
        "clipboard_to_selection"@ != "selection_to_clipboard"@,
{
    reveal_strlit("link_selections");
    reveal_strlit("clipboard_to_selection");
    reveal_strlit("selection_to_clipboard");
    assert("clipboard_to_selection"@[0] != "selection_to_clipboard"@[0]);
}

/// A document that holds what the canonical config file says has the values that the file
/// was rendered from.
pub proof fn lemma_config_reads_back(v: ValuesView, d: TomlDoc, again: ValuesView)
    requires
        is_complete(v),
        holds_plain(d, config_parts(v), config_table(v)),
        extracted(again, d),
    ensures
        same_settings(again, v),
{
    lemma_config_is_plain(v);
    lemma_template_names();
    lemma_keys_are_distinct();
    assert forall|key: Seq<char>| #[trigger] setting(again.settings, key) == setting(
        v.settings,
        key,
    ) by {
        assert(setting(again.settings, key) == value_in(d, key));
        assert(text_in(config_parts(v), key) == setting(v.settings, key));
        assert(d.texts.get(key) == (match text_in(config_parts(v), key) {
            Some(text) => crate::toml::lone_value(text),
            None => None,
        }));
        if let Some(text) = setting(v.settings, key) {
            assert(is_canonical(text));
        }
    }
    let name = "link_selections"@;
    assert(text_in(config_parts(v), name) == setting(v.settings, name));
    assert(d.fields.dom().contains(name) <==> v.link is Some);
    if let Some((c2s, s2c)) = v.link {
        lemma_table_keys();
        let (x, y) = ("clipboard_to_selection"@, "selection_to_clipboard"@);
        let flags = seq![(x, c2s), (y, s2c)];
        reveal_with_fuel(flag_fields, 3);
        assert(flags.drop_last() =~= seq![(x, c2s)]);
        assert(flags.drop_last().drop_last() =~= Seq::<(Seq<char>, bool)>::empty());
        let m = flag_fields(flags);
        assert(m.get(x) == Some(TomlView::Flag(c2s)));
        assert(m.get(y) == Some(TomlView::Flag(s2c)));
    }
}

} // verus!
