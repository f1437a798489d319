//! TOML documents, as `toml_edit` holds them.
//!
//! A document, a table and an item of one are outside values. What the library
//! reads of them is named here: the fields of a document or a table as a map from
//! key to [`TomlView`], the order in which a table lists its keys, the text of the values
//! and the lines that they are written as. Of what else is laid out (comments, spacing)
//! only this is named: what stands around the lines of a table, and whether the text that
//! a document renders to reads as what the document holds.

use toml_edit::{DocumentMut, Item, Key, Table, TomlError};
use vstd::prelude::*;

verus! {

/// What an item of a TOML document holds.
#[verifier::ext_equal]
pub enum TomlView {
    /// The placeholder of `toml_edit` for no item at all.
    Nothing,
    /// A string.
    Text(Seq<char>),
    /// An integer.
    Integer(i64),
    /// A boolean.
    Flag(bool),
    /// A float, a date or an array.
    OtherValue,
    /// An inline table.
    Inline(Map<Seq<char>, TomlView>),
    /// A table with a header, or the parent of one, or one that dotted keys make.
    Section(Map<Seq<char>, TomlView>),
    /// An array of tables.
    Sections,
}

/// The text of a value without what surrounds it; of an array, the texts of its
/// elements.
pub enum TextTree {
    Leaf(Seq<char>),
    Node(Seq<TextTree>),
}

/// What a table has beside its entries.
#[verifier::ext_equal]
pub struct TableFrame {
    /// The text in front of the header, where it is not the default.
    pub before: Option<Seq<char>>,
    /// The text behind the header, where it is not the default.
    pub behind: Option<Seq<char>>,
    /// Whether the header is left out while nothing is written below it.
    pub implicit: bool,
    /// Whether there is no header, and the entries are written under dotted keys.
    pub dotted: bool,
    /// The place among the tables of the document, where it has one of its own.
    pub place: Option<int>,
}

/// How a table is written.
#[verifier::ext_equal]
pub struct TableLayout {
    pub frame: TableFrame,
    /// The keys, in the order in which the table keeps them, one with the placeholder for no
    /// item included.
    pub order: Seq<Seq<char>>,
    /// The texts of the entries that are values written in one piece, without what
    /// surrounds them.
    pub texts: Map<Seq<char>, Seq<char>>,
    /// The texts that the entries that are tables have as inline tables.
    pub inlined: Map<Seq<char>, Seq<char>>,
    /// The lines that the values are written as, without a header.
    pub lines: Seq<Seq<char>>,
}

/// What a document holds: its top-level fields, the texts of those that are values, and
/// the layout of those that are tables and no values.
#[verifier::ext_equal]
pub struct TomlDoc {
    pub fields: Map<Seq<char>, TomlView>,
    pub texts: Map<Seq<char>, TextTree>,
    pub layouts: Map<Seq<char>, TableLayout>,
}

/// Whether a table with these fields is written as a header with one line for each entry
/// below it.
pub open spec fn is_listed(fields: Map<Seq<char>, TomlView>, layout: TableLayout) -> bool {
    &&& !layout.frame.dotted
    &&& !layout.frame.implicit
    &&& forall|k: Seq<char>| #[trigger] fields.dom().contains(k) ==> layout.texts.dom().contains(k)
}

/// Whether the top-level field `name` is a table that is written as a header with one line
/// for each entry below it.
pub open spec fn lists_table(d: TomlDoc, name: Seq<char>) -> bool {
    d.fields.get(name) matches Some(TomlView::Section(m)) && is_listed(m, d.layouts[name])
}

/// Whether `n` characters of `s` from the `i`th on are all `c`.
pub open spec fn is_run(s: Seq<char>, c: char, i: int, n: int) -> bool {
    forall|k: int| i <= k < i + n ==> #[trigger] s[k] == c
}

/// Whether `s` holds `n` times `c` in a row.
pub open spec fn holds_run(s: Seq<char>, c: char, n: int) -> bool {
    exists|i: int| 0 <= i <= s.len() - n && #[trigger] is_run(s, c, i, n)
}

/// How many quotes in a row are too many to be counted when a string is written.
pub const QUOTE_RUN: usize = 256;

/// Whether a string can be written: none of the two quotes stands too often in a row.
pub open spec fn quotable(s: Seq<char>) -> bool {
    !holds_run(s, '\'', QUOTE_RUN as int) && !holds_run(s, '"', QUOTE_RUN as int)
}

/// Whether `s` holds `n` times `c` in a row.
fn has_run(s: &str, c: char, n: usize) -> (r: bool)
    requires
        n > 0,
    ensures
        r == holds_run(s@, c, n as int),
{
    let v = crate::text::chars_of(s);
    let mut run: usize = 0;
    let mut i: usize = 0;
    while i < v.len()
        invariant
            i <= v@.len(),
            v@ == s@,
            run <= i,
            run < n,
            is_run(v@, c, i - run, run as int),
            run < i ==> v@[i - run - 1] != c,
            forall|k: int| 0 <= k <= i - n ==> !#[trigger] is_run(v@, c, k, n as int),
        decreases v@.len() - i,
    {
        if v[i] == c {
            run = run + 1;
            if run == n {
                assert(is_run(v@, c, i + 1 - n, n as int));
                return true;
            }
        } else {
            run = 0;
        }
        i += 1;
        proof {
            assert forall|k: int| 0 <= k <= i - n implies !#[trigger] is_run(
                v@,
                c,
                k,
                n as int,
            ) by {
                if k == i - n {
                    assert(v@[i - run - 1] != c);
                }
            }
        }
    }
    false
}

/// Whether a string can be written.
pub(crate) fn is_quotable(s: &str) -> (r: bool)
    ensures
        r == quotable(s@),
{
    !has_run(s, '\'', QUOTE_RUN) && !has_run(s, '"', QUOTE_RUN)
}

/// A short string can be written.
pub proof fn lemma_short_is_quotable(s: Seq<char>)
    requires
        s.len() < QUOTE_RUN,
    ensures
        quotable(s),
{
}

/// The field `key` of a table of either kind.
pub open spec fn member(v: TomlView, key: Seq<char>) -> Option<TomlView> {
    match v {
        TomlView::Inline(m) => m.get(key),
        TomlView::Section(m) => m.get(key),
        _ => None,
    }
}

/// The field `key` of the top-level table `table`.
pub open spec fn field(d: TomlDoc, table: Seq<char>, key: Seq<char>) -> Option<TomlView> {
    match d.fields.get(table) {
        Some(v) => member(v, key),
        None => None,
    }
}

/// The string that an item holds, if it is one.
pub open spec fn text_of(v: Option<TomlView>) -> Option<Seq<char>> {
    match v {
        Some(TomlView::Text(s)) => Some(s),
        _ => None,
    }
}

/// No fields at all.
pub open spec fn no_fields() -> Map<Seq<char>, TomlView> {
    Map::empty()
}

/// No texts at all.
pub open spec fn no_texts() -> Map<Seq<char>, Seq<char>> {
    Map::empty()
}

/// Whether an item is a value, but no inline table.
pub open spec fn is_scalar(v: TomlView) -> bool {
    v is Text || v is Integer || v is Flag || v is OtherValue
}

/// Whether an item is a value.
pub open spec fn is_value(v: TomlView) -> bool {
    is_scalar(v) || v is Inline
}

/// The top-level field `name`, where a table without fields counts as none.
pub open spec fn filled(d: TomlDoc, name: Seq<char>) -> Option<TomlView> {
    match d.fields.get(name) {
        Some(TomlView::Section(m)) => if m == no_fields() {
            None
        } else {
            Some(TomlView::Section(m))
        },
        v => v,
    }
}

/// Whether two documents have the same fields, where a top-level table without fields
/// counts as none.
pub open spec fn same_fields(a: TomlDoc, b: TomlDoc) -> bool {
    forall|name: Seq<char>| #[trigger] filled(a, name) == filled(b, name)
}

/// Whether `text` is TOML with the fields of `d`.
pub open spec fn reads_as(text: Seq<char>, d: TomlDoc) -> bool {
    toml_document(text) matches Some(e) && same_fields(e, d)
}

/// Whether the top-level field `name` is a value.
pub open spec fn holds_value(d: TomlDoc, name: Seq<char>) -> bool {
    d.fields.get(name) matches Some(v) && is_value(v)
}

/// What an item is as a value: a table with a header is an inline one with the same fields,
/// each as a value, and an array of tables is an array.
pub open spec fn as_value(v: TomlView) -> TomlView
    decreases v,
{
    match v {
        TomlView::Section(m) => TomlView::Inline(
            Map::new(
                |k: Seq<char>| m.dom().contains(k),
                |k: Seq<char>|
                    if m.dom().contains(k) {
                        as_value(m[k])
                    } else {
                        TomlView::Nothing
                    },
            ),
        ),
        TomlView::Sections => TomlView::OtherValue,
        _ => v,
    }
}

/// Whether a table holds nothing but strings, integers and flags.
pub open spec fn is_flat(m: Map<Seq<char>, TomlView>) -> bool {
    forall|k: Seq<char>| #[trigger]
        m.dom().contains(k) ==> m[k] is Text || m[k] is Integer || m[k] is Flag
}

/// What the text of a value means: where it stands behind a key alone in a document, what
/// the document holds there.
pub open spec fn lone_view(text: Seq<char>) -> Option<TomlView> {
    match toml_document("v = "@ + text + "\n"@) {
        Some(d) => d.fields.get("v"@),
        None => None,
    }
}

/// Whether a text is that of the table `v` as a value: where it holds nothing but strings,
/// integers and flags, it means an inline table with the same fields.
pub open spec fn spells_table(text: Seq<char>, v: TomlView) -> bool {
    v matches TomlView::Section(m) ==> (is_flat(m) ==> lone_view(text) == Some(
        TomlView::Inline(m),
    ))
}

/// Whether `keys` lists the keys of `m`, each once.
pub open spec fn lists_keys<V>(keys: Seq<Seq<char>>, m: Map<Seq<char>, V>) -> bool {
    &&& crate::order::distinct(keys)
    &&& forall|k: Seq<char>| #[trigger] keys.contains(k) <==> m.dom().contains(k)
}

/// A value as canonical TOML: what surrounds it stripped, arrays flattened to one line.
pub open spec fn canonical_text(tree: TextTree) -> Seq<char>
    decreases tree,
{
    match tree {
        TextTree::Leaf(text) => crate::text::trim(text),
        TextTree::Node(elements) => "["@ + crate::text::join(canonical_texts(elements), ", "@) + "]"@,
    }
}

/// Values as canonical TOML.
pub open spec fn canonical_texts(elements: Seq<TextTree>) -> Seq<Seq<char>>
    decreases elements,
{
    if elements.len() == 0 {
        Seq::empty()
    } else {
        canonical_texts(elements.drop_last()).push(canonical_text(elements.last()))
    }
}

/// The texts of the value that `text` writes behind a key: where it stands there alone in a
/// document, the document holds that value and nothing else.
pub open spec fn lone_value(text: Seq<char>) -> Option<TextTree> {
    match toml_document("v = "@ + text + "\n"@) {
        Some(d) if d.fields.dom() == set!["v"@] && d.texts.dom() == set!["v"@] => Some(
            d.texts["v"@],
        ),
        _ => None,
    }
}

/// Whether a text is that of a value in canonical TOML: it reads as a value that is written
/// in the same way.
pub open spec fn is_canonical(text: Seq<char>) -> bool {
    lone_value(text) matches Some(tree) && canonical_text(tree) == text
}

/// What a line of a plain document is.
pub enum Part {
    /// An empty line.
    Blank,
    /// A comment.
    Note(Seq<char>),
    /// A key, and the text of its value.
    Setting(Seq<char>, Seq<char>),
}

/// The table at the end of a plain document: its name, and its keys with their flags.
pub type FlagTable = (Seq<char>, Seq<(Seq<char>, bool)>);

/// A line of a plain document.
pub open spec fn part_text(part: Part) -> Seq<char> {
    match part {
        Part::Blank => "\n"@,
        Part::Note(text) => "#"@ + text + "\n"@,
        Part::Setting(key, text) => key + " = "@ + text + "\n"@,
    }
}

/// The lines of a plain document.
pub open spec fn parts_text(parts: Seq<Part>) -> Seq<char>
    decreases parts.len(),
{
    if parts.len() == 0 {
        Seq::empty()
    } else {
        parts_text(parts.drop_last()) + part_text(parts.last())
    }
}

/// The lines of some flags.
pub open spec fn flags_text(flags: Seq<(Seq<char>, bool)>) -> Seq<char>
    decreases flags.len(),
{
    if flags.len() == 0 {
        Seq::empty()
    } else {
        flags_text(flags.drop_last()) + flags.last().0 + " = "@ + crate::text::flag(flags.last().1)
            + "\n"@
    }
}

/// A plain document: lines, and a table of flags at the end, if there is one.
pub open spec fn plain_text(parts: Seq<Part>, table: Option<FlagTable>) -> Seq<char> {
    match table {
        Some((name, flags)) => parts_text(parts) + "["@ + name + "]\n"@ + flags_text(flags),
        None => parts_text(parts),
    }
}

/// The value text of a key.
pub open spec fn text_in(parts: Seq<Part>, key: Seq<char>) -> Option<Seq<char>>
    decreases parts.len(),
{
    if parts.len() == 0 {
        None
    } else {
        match parts.last() {
            Part::Setting(k, text) if k == key => Some(text),
            _ => text_in(parts.drop_last(), key),
        }
    }
}

/// Whether a character may stand in a key without quotes.
pub open spec fn is_bare(c: char) -> bool {
    'a' <= c <= 'z' || 'A' <= c <= 'Z' || '0' <= c <= '9' || c == '_' || c == '-'
}

/// Whether a key may stand without quotes.
pub open spec fn is_bare_key(key: Seq<char>) -> bool {
    key.len() > 0 && forall|i: int| 0 <= i < key.len() ==> is_bare(#[trigger] key[i])
}

/// Whether a character may stand in a comment.
pub open spec fn is_printable(c: char) -> bool {
    c == '\t' || (' ' <= c && c != '\x7f')
}

/// Whether a text may stand in a comment.
pub open spec fn is_note(text: Seq<char>) -> bool {
    forall|i: int| 0 <= i < text.len() ==> is_printable(#[trigger] text[i])
}

/// Whether the lines are ones of TOML, and no key is set twice.
pub open spec fn are_plain(parts: Seq<Part>) -> bool
    decreases parts.len(),
{
    parts.len() == 0 || {
        &&& are_plain(parts.drop_last())
        &&& match parts.last() {
            Part::Blank => true,
            Part::Note(text) => is_note(text),
            Part::Setting(key, text) => {
                &&& is_bare_key(key)
                &&& lone_value(text) is Some
                &&& text_in(parts.drop_last(), key) is None
            },
        }
    }
}

/// Whether the table is one of TOML beside the lines, and has no key twice.
pub open spec fn is_plain_table(parts: Seq<Part>, table: FlagTable) -> bool {
    &&& is_bare_key(table.0)
    &&& text_in(parts, table.0) is None
    &&& forall|i: int| 0 <= i < table.1.len() ==> is_bare_key((#[trigger] table.1[i]).0)
    &&& forall|i: int, j: int|
        0 <= i < j < table.1.len() ==> (#[trigger] table.1[i]).0 != (#[trigger] table.1[j]).0
}

/// Whether a plain document is TOML.
pub open spec fn is_plain(parts: Seq<Part>, table: Option<FlagTable>) -> bool {
    are_plain(parts) && (table matches Some(t) ==> is_plain_table(parts, t))
}

/// The fields of a table of flags.
pub open spec fn flag_fields(flags: Seq<(Seq<char>, bool)>) -> Map<Seq<char>, TomlView>
    decreases flags.len(),
{
    if flags.len() == 0 {
        no_fields()
    } else {
        flag_fields(flags.drop_last()).insert(flags.last().0, TomlView::Flag(flags.last().1))
    }
}

/// Whether a document holds what a plain one says: the value of each key as it reads alone,
/// the table, and nothing else.
pub open spec fn holds_plain(d: TomlDoc, parts: Seq<Part>, table: Option<FlagTable>) -> bool {
    &&& forall|key: Seq<char>| #[trigger]
        d.texts.get(key) == (match text_in(parts, key) {
            Some(text) => lone_value(text),
            None => None,
        })
    &&& forall|key: Seq<char>| #[trigger]
        d.fields.dom().contains(key) <==> text_in(parts, key) is Some || (table matches Some(t)
            && t.0 == key)
    &&& table matches Some(t) ==> d.fields.get(t.0) == Some(TomlView::Section(flag_fields(t.1)))
}

/// Whether a text that is a plain document is read as what that says.
pub open spec fn reads_plainly(text: Seq<char>, d: Option<TomlDoc>) -> bool {
    forall|parts: Seq<Part>, table: Option<FlagTable>|
        text == #[trigger] plain_text(parts, table) && is_plain(parts, table) ==> (d matches Some(
            d,
        ) && holds_plain(d, parts, table))
}

#[verifier::external_type_specification]
#[verifier::external_body]
pub struct ExDocumentMut(DocumentMut);

#[verifier::external_type_specification]
#[verifier::external_body]
pub struct ExTable(Table);

#[verifier::external_type_specification]
#[verifier::external_body]
pub struct ExItem(Item);

#[verifier::external_type_specification]
#[verifier::external_body]
pub struct ExTomlError(TomlError);

#[verifier::external_type_specification]
#[verifier::external_body]
pub struct ExKey(Key);

/// What a document holds, where there is one.
pub open spec fn content_of(r: Result<DocumentMut, TomlError>) -> Option<TomlDoc> {
    match r {
        Ok(doc) => Some(doc_content(doc)),
        Err(_) => None,
    }
}

/// What the TOML text `text` means, where it is valid TOML.
pub uninterp spec fn toml_document(text: Seq<char>) -> Option<TomlDoc>;

/// What is wrong with the text `text`, where it is not valid TOML.
pub uninterp spec fn toml_fault(text: Seq<char>) -> Seq<char>;

/// What an error says.
pub uninterp spec fn error_text(e: TomlError) -> Seq<char>;

/// What a document holds.
pub uninterp spec fn doc_content(doc: DocumentMut) -> TomlDoc;

/// The text that a document renders to.
pub uninterp spec fn doc_text(doc: DocumentMut) -> Seq<char>;

/// The fields of a table.
pub uninterp spec fn table_fields(table: Table) -> Map<Seq<char>, TomlView>;

/// How a table is written.
pub uninterp spec fn table_layout(table: Table) -> TableLayout;

/// What a document writes before and behind the lines of its top-level table `name`.
pub uninterp spec fn text_around(doc: DocumentMut, name: Seq<char>) -> (Seq<char>, Seq<char>);

/// Lines, each with its end.
pub open spec fn lines_text(lines: Seq<Seq<char>>) -> Seq<char>
    decreases lines.len(),
{
    if lines.len() == 0 {
        Seq::empty()
    } else {
        lines_text(lines.drop_last()) + lines.last() + "\n"@
    }
}

/// The name that a key stands for.
pub uninterp spec fn key_name(key: Key) -> Seq<char>;

/// What a key is written as.
pub uninterp spec fn key_repr(key: Key) -> Seq<char>;

/// Whether nothing but what a table puts there surrounds a key.
pub uninterp spec fn key_is_plain(key: Key) -> bool;

/// The names of some keys.
pub open spec fn key_names(keys: Seq<Key>) -> Seq<Seq<char>> {
    keys.map_values(|key: Key| key_name(key))
}

/// The text of a value without what surrounds it, where it is written in one piece: every
/// value is, but for an inline table that only stands for the dotted keys of another.
pub uninterp spec fn written(item: Item) -> Option<Seq<char>>;

/// The text that a table has as an inline table.
pub uninterp spec fn inlined_text(item: Item) -> Seq<char>;

/// Whether a text is that of some value that holds `v`.
pub open spec fn is_spelling(text: Seq<char>, v: TomlView) -> bool {
    exists|item: Item| #[trigger] written(item) == Some(text) && item_view(item) == v
}

/// What is set to stand before and behind a value.
pub uninterp spec fn value_decor(item: Item) -> Option<(Seq<char>, Seq<char>)>;

/// What an item holds.
pub uninterp spec fn item_view(item: Item) -> TomlView;

/// Whether a document is laid out as one that was read: only spaces, ends of lines and
/// comments stand around its keys and values, and where TOML allows them.
pub uninterp spec fn doc_readable(doc: DocumentMut) -> bool;

/// Whether a table is laid out as a top-level one of a document that was read.
pub uninterp spec fn table_readable(table: Table) -> bool;

/// Whether an item is laid out as an entry of a top-level table with the frame `frame` in a
/// document that was read. (A dotted key may only have so many parts, and the tables in an
/// item have their places in the document.)
pub uninterp spec fn item_readable(item: Item, frame: TableFrame) -> bool;

/// `DocumentMut::from_str`: parses a document. Whether the text is valid TOML, and
/// what it means or what is wrong with it, depends on the text alone. The layout of the text
/// is kept. Lines that are empty, comments, or a key with the text of a value, and a table of
/// flags behind them, mean what each says.
#[verifier::external_body]
pub(crate) fn parse_document(text: &str) -> (r: Result<DocumentMut, TomlError>)
    ensures
        match r {
            Ok(doc) => toml_document(text@) == Some(doc_content(doc)) && doc_readable(doc),
            Err(e) => toml_document(text@) is None && error_text(e) == toml_fault(text@),
        },
        reads_plainly(text@, content_of(r)),
{
    text.parse::<DocumentMut>()
}

/// `TomlError` as text, through `Display`: where the text goes wrong, and how.
#[verifier::external_body]
pub(crate) fn toml_error_text(e: &TomlError) -> (s: String)
    ensures
        s@ == error_text(*e),
{
    e.to_string()
}

/// `DocumentMut::new`: the empty document.
#[verifier::external_body]
pub(crate) fn new_document() -> (doc: DocumentMut)
    ensures
        doc_content(doc).fields == no_fields(),
        doc_content(doc).texts.dom() == Set::<Seq<char>>::empty(),
        doc_readable(doc),
{
    DocumentMut::new()
}

/// `DocumentMut::clone`: a copy holds and renders the same.
#[verifier::external_body]
pub(crate) fn clone_document(doc: &DocumentMut) -> (r: DocumentMut)
    ensures
        doc_content(r) == doc_content(*doc),
        doc_text(r) == doc_text(*doc),
        doc_readable(r) == doc_readable(*doc),
        forall|name: Seq<char>| #[trigger] text_around(r, name) == text_around(*doc, name),
{
    doc.clone()
}

/// `Table::is_empty` of the root table.
#[verifier::external_body]
pub(crate) fn document_is_empty(doc: &DocumentMut) -> (r: bool)
    ensures
        r == (doc_content(*doc).fields == no_fields()),
{
    doc.is_empty()
}

/// `DocumentMut` as text, through `Display`: every key and value as it was read, or else in
/// the default way, and what stands around it. From one that is laid out as it was read,
/// the text is TOML with the same fields. (A table without fields may not show.) The lines
/// of a top-level table with a header stand in one piece.
#[verifier::external_body]
pub(crate) fn document_text(doc: &DocumentMut) -> (s: String)
    ensures
        s@ == doc_text(*doc),
        doc_readable(*doc) ==> reads_as(s@, doc_content(*doc)),
        forall|name: Seq<char>| #[trigger]
            lists_table(doc_content(*doc), name) ==> s@ == text_around(*doc, name).0 + lines_text(
                doc_content(*doc).layouts[name].lines,
            ) + text_around(*doc, name).1,
{
    doc.to_string()
}

/// `Table::get` and `Item::as_table`: a copy of the top-level table `name`, where
/// there is one with a header of its own (an inline table is none).
#[verifier::external_body]
pub(crate) fn document_table(doc: &DocumentMut, name: &str) -> (r: Option<Table>)
    ensures
        match r {
            Some(t) => {
                &&& doc_content(*doc).fields.get(name@) == Some(TomlView::Section(table_fields(t)))
                &&& doc_content(*doc).layouts.get(name@) == Some(table_layout(t))
                &&& table_layout(t).texts.dom().subset_of(table_fields(t).dom())
                &&& doc_readable(*doc) ==> table_readable(t)
            },
            None => !(doc_content(*doc).fields.get(name@) matches Some(TomlView::Section(_))),
        },
{
    doc.get(name).and_then(Item::as_table).cloned()
}

/// `DocumentMut::index_mut`: puts `table` under the top-level key `name`, in place
/// of what was there. What stands around the key stays: where it was that of a value, a
/// comment may end up in the header of the table, and nothing is said of the layout. Where
/// a table with a header made room for one with the same frame, only its lines change.
#[verifier::external_body]
pub(crate) fn set_document_table(doc: &mut DocumentMut, name: &str, table: Table)
    ensures
        doc_content(*final(doc)).fields == doc_content(*old(doc)).fields.insert(
            name@,
            TomlView::Section(table_fields(table)),
        ),
        doc_content(*final(doc)).texts == doc_content(*old(doc)).texts.remove(name@),
        doc_content(*final(doc)).layouts == doc_content(*old(doc)).layouts.insert(
            name@,
            table_layout(table),
        ),
        lists_table(doc_content(*old(doc)), name@) && is_listed(
            table_fields(table),
            table_layout(table),
        ) && doc_content(*old(doc)).layouts[name@].frame == table_layout(table).frame
            ==> text_around(*final(doc), name@) == text_around(*old(doc), name@),
        doc_readable(*old(doc)) && table_readable(table) && !holds_value(
            doc_content(*old(doc)),
            name@,
        ) ==> doc_readable(*final(doc)),
{
    doc[name] = Item::Table(table);
}

/// `Table::get` and `Item::get`: a copy of the field `key` of the top-level table
/// `table`, of either kind.
#[verifier::external_body]
pub(crate) fn document_field(doc: &DocumentMut, table: &str, key: &str) -> (r: Option<Item>)
    ensures
        match r {
            Some(item) => field(doc_content(*doc), table@, key@) == Some(item_view(item)),
            None => field(doc_content(*doc), table@, key@) is None,
        },
{
    doc.get(table).and_then(|item| item.get(key)).cloned()
}

/// `Table::new`: the empty table.
#[verifier::external_body]
pub(crate) fn new_table() -> (t: Table)
    ensures
        table_fields(t) == no_fields(),
        table_layout(t).order == Seq::<Seq<char>>::empty(),
        table_layout(t).texts == no_texts(),
        table_layout(t).lines == Seq::<Seq<char>>::empty(),
        !table_layout(t).frame.dotted,
        table_readable(t),
{
    Table::new()
}

/// `Table::clone`: a copy holds and writes the same.
#[verifier::external_body]
pub(crate) fn clone_table(table: &Table) -> (r: Table)
    ensures
        table_fields(r) == table_fields(*table),
        table_layout(r) == table_layout(*table),
        table_readable(r) == table_readable(*table),
{
    table.clone()
}

/// The keys that a table lists, in its order: a placeholder for no item is passed over.
pub open spec fn listed_keys(
    fields: Map<Seq<char>, TomlView>,
    layout: TableLayout,
) -> Seq<Seq<char>> {
    layout.order.filter(|k: Seq<char>| fields.dom().contains(k))
}

/// `Table::iter`: the keys of a table, each once, in the order in which the table keeps them.
#[verifier::external_body]
pub(crate) fn table_keys(table: &Table) -> (keys: Vec<String>)
    ensures
        lists_keys(crate::text::texts(keys@), table_fields(*table)),
        crate::text::texts(keys@) == listed_keys(table_fields(*table), table_layout(*table)),
{
    table.iter().map(|(key, _)| key.to_string()).collect()
}

/// `Table::get`: a copy of the item under `key`. A value that was read as an entry of a table
/// is written in one piece, and so is every value but an inline table.
#[verifier::external_body]
pub(crate) fn table_item(table: &Table, key: &str) -> (r: Option<Item>)
    ensures
        match r {
            Some(item) => {
                &&& table_fields(*table).get(key@) == Some(item_view(item))
                &&& !(item_view(item) is Nothing)
                &&& written(item) == table_layout(*table).texts.get(key@)
                &&& is_scalar(item_view(item)) ==> written(item) is Some
                &&& written(item) is Some ==> is_value(item_view(item))
                &&& item_view(item) is Section ==> table_layout(*table).inlined.get(key@) == Some(
                    inlined_text(item),
                )
                &&& table_readable(*table) && item_view(item) is Inline ==> written(item) is Some
                &&& table_readable(*table) ==> item_readable(item, table_layout(*table).frame)
            },
            None => table_fields(*table).get(key@) is None,
        },
{
    table.get(key).cloned()
}

/// `Table::remove`: takes the item under `key` out.
#[verifier::external_body]
pub(crate) fn table_remove(table: &mut Table, key: &str)
    ensures
        table_fields(*final(table)) == table_fields(*old(table)).remove(key@),
        table_layout(*final(table)).frame == table_layout(*old(table)).frame,
        table_layout(*final(table)).texts == table_layout(*old(table)).texts.remove(key@),
        table_layout(*final(table)).inlined == table_layout(*old(table)).inlined.remove(key@),
        table_readable(*old(table)) ==> table_readable(*final(table)),
{
    table.remove(key);
}

/// `Table::clear`: takes everything out.
#[verifier::external_body]
pub(crate) fn table_clear(table: &mut Table)
    ensures
        table_fields(*final(table)) == no_fields(),
        table_layout(*final(table)).frame == table_layout(*old(table)).frame,
        table_layout(*final(table)).order == Seq::<Seq<char>>::empty(),
        table_layout(*final(table)).texts == no_texts(),
        table_layout(*final(table)).lines == Seq::<Seq<char>>::empty(),
        table_readable(*old(table)) ==> table_readable(*final(table)),
{
    table.clear();
}

/// `Table::index_mut` with `toml_edit::value`: puts a string under `key`, in place
/// of what was there. It is written in the default way, which counts the quotes in a row.
#[verifier::external_body]
pub(crate) fn table_put_text(table: &mut Table, key: &str, text: &str)
    requires
        quotable(text@),
    ensures
        table_fields(*final(table)) == table_fields(*old(table)).insert(
            key@,
            TomlView::Text(text@),
        ),
        table_layout(*final(table)).frame == table_layout(*old(table)).frame,
        table_layout(*final(table)).texts == table_layout(*old(table)).texts.insert(
            key@,
            string_value(text@),
        ),
        table_readable(*old(table)) ==> table_readable(*final(table)),
{
    table[key] = toml_edit::value(text);
}

/// `Table::index_mut` with `toml_edit::value`: puts an integer under `key`, in
/// place of what was there.
#[verifier::external_body]
pub(crate) fn table_put_integer(table: &mut Table, key: &str, n: i64)
    ensures
        table_fields(*final(table)) == table_fields(*old(table)).insert(
            key@,
            TomlView::Integer(n),
        ),
        table_readable(*old(table)) ==> table_readable(*final(table)),
{
    table[key] = toml_edit::value(n);
}

/// What a key is written as when nothing else is asked for.
pub uninterp spec fn default_key(name: Seq<char>) -> Seq<char>;

/// `Key::new`: the key of a name, written in the default way.
#[verifier::external_body]
pub(crate) fn new_key(name: &str) -> (r: Key)
    ensures
        key_name(r) == name@,
        key_repr(r) == default_key(name@),
        key_is_plain(r),
{
    Key::new(name)
}

/// The names in a dotted key, where `text` is one.
pub uninterp spec fn keys_in(text: Seq<char>) -> Option<Seq<Seq<char>>>;

/// `Key::parse`: reads a dotted key. A single key with nothing around it is written as it
/// was read.
#[verifier::external_body]
pub(crate) fn parse_keys(text: &str) -> (r: Option<Vec<Key>>)
    ensures
        match r {
            Some(keys) => {
                &&& keys_in(text@) == Some(key_names(keys@))
                &&& keys@.len() == 1 && crate::text::trim(text@) == text@ ==> key_repr(keys@[0])
                    == text@
            },
            None => keys_in(text@) is None,
        },
{
    Key::parse(text).ok()
}

/// `Key::leaf_decor_mut` and `Key::dotted_decor_mut`, set to the default: nothing but what
/// a table puts there surrounds the key.
#[verifier::external_body]
pub(crate) fn plain_key(key: Key) -> (r: Key)
    ensures
        key_name(r) == key_name(key),
        key_repr(r) == key_repr(key),
        key_is_plain(r),
{
    let mut key = key;
    *key.leaf_decor_mut() = toml_edit::Decor::default();
    *key.dotted_decor_mut() = toml_edit::Decor::default();
    key
}

/// What a string value is written as.
pub uninterp spec fn string_value(text: Seq<char>) -> Seq<char>;

/// Whether `text`, read as a key, names `name`: where it is a single key, it does.
pub open spec fn reads_as_key(text: Seq<char>, name: Seq<char>) -> bool {
    keys_in(text) matches Some(names) ==> (names.len() == 1 ==> names[0] == name)
}

/// `Value` as text, through `Display`: a string in quotes with its special characters
/// escaped. Quoted keys are written in the same way, but for strings of several lines. The
/// quotes in a row are counted, in a byte.
#[verifier::external_body]
pub(crate) fn string_value_text(text: &str) -> (r: String)
    requires
        quotable(text@),
    ensures
        r@ == string_value(text@),
        reads_as_key(crate::text::trim(r@), text@),
{
    toml_edit::Value::from(text).to_string()
}

/// Whether a text is made of spaces and tabs.
pub open spec fn is_gap(text: Seq<char>) -> bool {
    forall|i: int| 0 <= i < text.len() ==> (#[trigger] text[i] == ' ' || text[i] == '\t')
}

/// `Value::decor_mut`, set to `before` and `behind`, where the item is a value; any other
/// item stays as it is.
#[verifier::external_body]
pub(crate) fn set_decor(item: Item, before: &str, behind: &str) -> (r: Item)
    requires
        is_gap(before@),
        is_gap(behind@),
    ensures
        item_view(r) == item_view(item),
        written(r) == written(item),
        is_scalar(item_view(item)) ==> written(r) is Some,
        is_value(item_view(item)) ==> value_decor(r) == Some((before@, behind@)),
        forall|frame: TableFrame| #[trigger]
            item_readable(item, frame) ==> item_readable(r, frame),
{
    let mut item = item;
    if let Some(value) = item.as_value_mut() {
        *value.decor_mut() = toml_edit::Decor::new(before, behind);
    }
    item
}

/// The line of a value behind a key around which nothing else is set.
pub open spec fn decorated_line(key: Key, item: Item) -> Option<Seq<char>> {
    match (written(item), value_decor(item)) {
        (Some(text), Some((before, behind))) if key_is_plain(key) && is_gap(before) && is_gap(
            behind,
        ) => Some(key_repr(key) + " ="@ + before + text + behind),
        _ => None,
    }
}

/// Whether `now` is the layout `was` after the entry `v` was put under `key`, in place of
/// what was there or last. `text` is the text of a value written in one piece, and `line`
/// its line, where that is known. A new key takes no line away, and an array of tables adds
/// none.
pub open spec fn takes_entry(
    was: TableLayout,
    now: TableLayout,
    key: Seq<char>,
    v: TomlView,
    text: Option<Seq<char>>,
    line: Option<Seq<char>>,
) -> bool {
    &&& now.frame == was.frame
    &&& now.order == (if was.order.contains(key) {
        was.order
    } else {
        was.order.push(key)
    })
    &&& now.texts == (match text {
        Some(t) => was.texts.insert(key, t),
        None => was.texts.remove(key),
    })
    &&& !was.order.contains(key) ==> {
        &&& was.lines.is_prefix_of(now.lines)
        &&& line matches Some(l) ==> now.lines == was.lines.push(l)
        &&& v is Sections ==> now.lines == was.lines
    }
}

/// `Table::insert_formatted`: puts an item under a key, in place of what was there or last.
/// A value with only a gap around it adds one line, which no array of tables does; nothing
/// takes a line away.
#[verifier::external_body]
pub(crate) fn insert_formatted(table: &mut Table, key: &Key, item: Item)
    requires
        !(item_view(item) is Nothing),
    ensures
        table_fields(*final(table)) == table_fields(*old(table)).insert(
            key_name(*key),
            item_view(item),
        ),
        takes_entry(
            table_layout(*old(table)),
            table_layout(*final(table)),
            key_name(*key),
            item_view(item),
            written(item),
            decorated_line(*key, item),
        ),
        table_readable(*old(table)) && item_readable(item, table_layout(*old(table)).frame)
            && key_is_plain(*key) ==> table_readable(*final(table)),
{
    table.insert_formatted(key, item);
}

/// `Table` as text, through `Display`: the lines of its values, without a header.
#[verifier::external_body]
pub(crate) fn render_table(table: &Table) -> (s: String)
    ensures
        s@ == lines_text(table_layout(*table).lines),
{
    table.to_string()
}

/// `Item::as_str`.
#[verifier::external_body]
pub(crate) fn item_text(item: &Item) -> (r: Option<String>)
    ensures
        match r {
            Some(s) => item_view(*item) == TomlView::Text(s@),
            None => !(item_view(*item) is Text),
        },
{
    item.as_str().map(str::to_string)
}

/// `Item::as_integer`.
#[verifier::external_body]
pub(crate) fn item_integer(item: &Item) -> (r: Option<i64>)
    ensures
        match r {
            Some(n) => item_view(*item) == TomlView::Integer(n),
            None => !(item_view(*item) is Integer),
        },
{
    item.as_integer()
}

/// `Item::get`: a copy of the field `key` of a table of either kind.
#[verifier::external_body]
pub(crate) fn item_field(item: &Item, key: &str) -> (r: Option<Item>)
    ensures
        match r {
            Some(i) => member(item_view(*item), key@) == Some(item_view(i)),
            None => member(item_view(*item), key@) is None,
        },
{
    item.get(key).cloned()
}

/// `Table::into_inline_table`, where the item is a table with a header: its fields stay, each
/// as a value, and from a table that was read the text means them. (Of a text with tables or
/// arrays in it that is not said: what is nested too deep cannot be read.) Any other item
/// stays as it is.
#[verifier::external_body]
pub(crate) fn inline_item(item: Item) -> (r: Item)
    ensures
        item_view(item) is Section ==> item_view(r) == as_value(item_view(item)),
        item_view(item) is Section ==> written(r) == Some(inlined_text(item)),
        forall|frame: TableFrame|
            item_view(item) is Section && #[trigger] item_readable(item, frame) ==> spells_table(
                written(r)->0,
                item_view(item),
            ),
        !(item_view(item) is Section) ==> r == item,
{
    match item {
        Item::Table(t) => Item::Value(toml_edit::Value::InlineTable(t.into_inline_table())),
        other => other,
    }
}

/// The texts of an item that is a value, without what surrounds them.
pub uninterp spec fn bare_texts(item: Item) -> TextTree;

/// The texts of a list of items.
pub open spec fn trees(items: Seq<Item>) -> Seq<TextTree> {
    items.map_values(|item: Item| bare_texts(item))
}

/// Whether `keys` lists the top-level keys of a document, each once, those of its values
/// among them.
pub open spec fn lists_document(keys: Seq<Seq<char>>, doc: TomlDoc) -> bool {
    &&& lists_keys(keys, doc.fields)
    &&& doc.texts.dom().subset_of(doc.fields.dom())
}

/// `Table::iter` of the root table: the top-level keys, each once.
#[verifier::external_body]
pub(crate) fn document_keys(doc: &DocumentMut) -> (keys: Vec<String>)
    ensures
        lists_document(crate::text::texts(keys@), doc_content(*doc)),
{
    doc.iter().map(|(key, _)| key.to_string()).collect()
}

/// `Table::get` and `Item::as_value`: a copy of the top-level value under `key`. A table
/// with a header is none. What a value that was read is in canonical TOML reads as a value
/// that is written in the same way.
#[verifier::external_body]
pub(crate) fn document_value(doc: &DocumentMut, key: &str) -> (r: Option<Item>)
    ensures
        match r {
            Some(item) => {
                &&& doc_content(*doc).texts.get(key@) == Some(bare_texts(item))
                &&& doc_readable(*doc) ==> is_canonical(canonical_text(bare_texts(item)))
            },
            None => doc_content(*doc).texts.get(key@) is None,
        },
{
    doc.get(key).and_then(Item::as_value).map(|value| Item::Value(value.clone()))
}

/// `Item::as_table_like`: whether the top-level item `name` is a table of either kind.
#[verifier::external_body]
pub(crate) fn document_has_table(doc: &DocumentMut, name: &str) -> (r: bool)
    ensures
        r == (doc_content(*doc).fields.get(name@) matches Some(v) && (v is Inline
            || v is Section)),
{
    doc.get(name).and_then(Item::as_table_like).is_some()
}

/// `Item::as_bool`.
#[verifier::external_body]
pub(crate) fn item_flag(item: &Item) -> (r: Option<bool>)
    ensures
        match r {
            Some(b) => item_view(*item) == TomlView::Flag(b),
            None => !(item_view(*item) is Flag),
        },
{
    item.as_bool()
}

/// `Item::as_array` and `Array::iter`: copies of the elements of an array, in order.
#[verifier::external_body]
pub(crate) fn item_elements(item: &Item) -> (r: Option<Vec<Item>>)
    ensures
        match r {
            Some(items) => bare_texts(*item) == TextTree::Node(trees(items@)),
            None => bare_texts(*item) is Leaf,
        },
{
    item.as_array().map(|a| a.iter().map(|value| Item::Value(value.clone())).collect())
}

/// `Item` as text, through `Display`, after `Value::decor_mut` took away what surrounds
/// the value. An array has the texts of its elements instead.
#[verifier::external_body]
pub(crate) fn item_bare_text(item: &Item) -> (s: String)
    requires
        bare_texts(*item) is Leaf,
    ensures
        bare_texts(*item) == TextTree::Leaf(s@),
{
    let mut item = item.clone();
    if let Some(value) = item.as_value_mut() {
        value.decor_mut().clear();
    }
    item.to_string()
}

} // verus!
