//! Per-MIME allow/deny rules, kept in a TOML file beside the config.
//!
//! Each entry under `[rules]` is `"<mime>" = "allow" | "deny"`, or a table with a
//! per-type size cap: `"<mime>" = { rule = "allow", max = "4MiB" }`. A key may be a
//! glob (see [`crate::glob`]). When more than one key matches a type the most
//! specific wins. A type matched by no key falls back to the `unknown_mime` policy.
//! The whole-file last-writer-wins version lives in a managed `[clipmesh]` table.
//! On save the `[rules]` table is sorted by key.

use crate::config::{parse_size, size_value, MimePolicy};
use crate::glob::{covers, glob_match, has_wildcard, is_glob, key_weights};
use crate::glob::{literals, outranks, same_folded, takes_precedence, wildcards};
use crate::node_id::{parse_uuid, uuid_in, uuid_text, NodeId};
use crate::order::{ascending, distinct, sort_order};
use crate::protocol::Version;
use crate::text::{is_blank, opt_text, quote, quoted, same, texts, trim, trim_of};
use crate::toml::{clone_document, clone_table, default_key, doc_content, doc_readable, doc_text};
use crate::toml::{document_field, document_is_empty, document_table, document_text, error_text};
use crate::toml::{field, filled, toml_fault};
use crate::toml::{as_value, holds_value, inline_item, is_quotable, is_value, listed_keys};
use crate::toml::{item_readable, lists_table, quotable, reads_as};
use crate::toml::{insert_formatted, is_scalar, item_field, item_integer, item_text, item_view};
use crate::toml::{key_is_plain, key_name, key_names, key_repr, keys_in, lines_text, lists_keys};
use crate::toml::{member, new_document, new_key, new_table, no_fields, no_texts, parse_document};
use crate::toml::{parse_keys, plain_key, render_table, set_decor, set_document_table};
use crate::toml::{inlined_text, is_spelling, spells_table};
use crate::toml::{string_value, string_value_text, table_clear, table_fields, table_item};
use crate::toml::{table_keys, table_layout, table_put_integer, table_put_text, table_readable};
use crate::toml::{table_remove, takes_entry, text_around, text_of, toml_document, written, TomlDoc};
use crate::toml::{TableFrame, TomlView};
use toml_edit::{DocumentMut, Item, Key, Table, TomlError};
use vstd::prelude::*;
use vstd::utf8::encode_utf8;

verus! {

/// Skeleton written for a brand-new (or reset) rules file.
pub const TEMPLATE: &'static str = "\
# clipmesh MIME rules — managed, but safe to hand-edit.
#
# Each entry under [rules] decides whether a clipboard MIME type syncs:
#   \"<mime>\" = \"allow\"                          # sync this type
#   \"<mime>\" = \"deny\"                           # never sync it
#   \"<mime>\" = { rule = \"allow\", max = \"4MiB\" } # allow, with a per-type cap
#                                               # (on top of max_payload_size)
#
# Keys are quoted TOML strings, so MIME types with spaces, ';', '=' or other
# punctuation (e.g. Java dataflavors) are fine. A key may also be a glob: '*'
# matches any run of characters, '?' matches exactly one (always wildcards, no
# escape) — e.g. \"JAVA_DATATRANSFER*\" or \"*;charset=utf-16*\". Matching is
# case-insensitive (ASCII), and when several keys match a type the most specific
# wins (an exact key beats a glob; among globs, more literal characters win, ties
# break to deny).
#
# clipmesh manages this file: it creates it with the defaults below, appends any
# new type it sees (using the config's unknown_mime default, unless a glob
# already covers it), and reloads it when it changes (so edits apply right away).
# It keeps the [rules] entries sorted and drops notes placed among them; comments
# up here above [rules] are kept. The [clipmesh] table is added and managed
# automatically — leave it alone. You can also manage rules without opening the
# file:
#   clipmesh --allow \"*/svg+xml\"   clipmesh --deny \"JAVA_DATATRANSFER*\"
#   clipmesh --rules   # list the rules and flag overlapping globs
#
# The defaults allow the common text and image types, and deny a few that are
# useless or actively unhelpful to move between machines:
#   JAVA_DATATRANSFER*   Java/Swing mints one of these per transfer, so recording
#                        each would grow this file without bound.
#   *;charset=utf-16*    redundant with the UTF-8 representation of the same text.
#   text/uri-list        file copies put local filesystem paths on the clipboard;
#   x-special/*          those paths don't resolve on another machine.
#   image/bmp            uncompressed, so it burns the payload budget for nothing.
# Flip any of them to taste — this file is yours once created.

[clipmesh]

[rules]
\"text/plain\" = \"allow\"
\"text/plain;charset=utf-8\" = \"allow\"
\"text/html\" = \"allow\"
\"STRING\" = \"allow\"
\"UTF8_STRING\" = \"allow\"
\"TEXT\" = \"allow\"
\"image/png\" = \"allow\"
\"image/jpeg\" = \"allow\"
\"image/tiff\" = { rule = \"allow\", max = \"16MiB\" }
\"image/bmp\" = \"deny\"
\"JAVA_DATATRANSFER*\" = \"deny\"
\"*;charset=utf-16*\" = \"deny\"
\"text/uri-list\" = \"deny\"
\"x-special/*\" = \"deny\"
";

/// One rule: whether the type may sync, and an optional per-type size cap.
#[derive(Debug, Clone, Copy, PartialEq, Eq, Structural)]
pub struct MimeRule {
    pub allow: bool,
    pub max_size: Option<usize>,
}

/// A rules-file version and body that are durably on disk together.
#[derive(Debug)]
pub struct Snapshot {
    pub version: Version,
    pub body: String,
}

/// Why a snapshot could not be taken. In every case the in-memory rules have been
/// rolled back.
#[derive(Debug, Clone, Copy, PartialEq, Eq, Structural)]
pub enum SnapshotError {
    /// The rendered body exceeds the caller's limit.
    TooLarge { len: usize },
    /// Writing the file failed.
    WriteFailed,
}

/// What a rule (or an overlapping rule) decides.
#[derive(Debug, Clone, Copy, PartialEq, Eq, Structural)]
pub enum Verdict {
    Allow,
    Deny,
    /// The value isn't a usable rule (a typo); it falls back to `unknown_mime`.
    Invalid,
}

/// How an overlapping glob relates to the entry it matches.
#[derive(Debug, Clone, Copy, PartialEq, Eq, Structural)]
pub enum Relation {
    /// Both decide alike, so the entry adds nothing to the glob.
    Redundant,
    /// They decide differently; this entry is more specific and wins.
    Overrides,
    /// They decide differently; the glob is more specific and wins.
    OverriddenBy,
    /// This entry's value is invalid, so the glob decides its key instead.
    DecidesInstead,
}

/// Another glob whose pattern also matches an entry's key.
#[derive(Debug)]
pub struct Overlap {
    /// The other glob's key, unquoted (e.g. `image/*`).
    pub key: String,
    pub verdict: Verdict,
    pub relation: Relation,
}

/// One entry in the `--rules` report.
#[derive(Debug)]
pub struct RuleReport {
    /// The entry's key, unquoted (e.g. `image/png`).
    pub key: String,
    pub verdict: Verdict,
    /// The per-type size cap as written (e.g. `16MiB`), if any.
    pub max: Option<String>,
    /// Other globs that also match this entry's key (empty if none).
    pub overlaps: Vec<Overlap>,
}

/// The `(rule, max)` strings of a `[rules]` value: a string, or a table of either
/// kind with a string `rule`.
pub open spec fn rule_fields_in(v: TomlView) -> Option<(Seq<char>, Option<Seq<char>>)> {
    match v {
        TomlView::Text(s) => Some((s, None)),
        _ => match text_of(member(v, "rule"@)) {
            Some(rule) => Some((rule, text_of(member(v, "max"@)))),
            None => None,
        },
    }
}

/// The size cap that a text writes; one that cannot be read, or of 0 bytes, is
/// dropped.
pub open spec fn cap_in(max: Option<Seq<char>>) -> Option<usize> {
    match max {
        Some(m) => match size_value(m) {
            Some(n) if n > 0 => Some(n as usize),
            _ => None,
        },
        None => None,
    }
}

/// The rule that a rule word and a cap make.
pub open spec fn rule_from(rule: Seq<char>, max: Option<Seq<char>>) -> Option<MimeRule> {
    if rule == "allow"@ {
        Some(MimeRule { allow: true, max_size: cap_in(max) })
    } else if rule == "deny"@ {
        Some(MimeRule { allow: false, max_size: cap_in(max) })
    } else {
        None
    }
}

/// The rule that a `[rules]` value makes, where it is a usable one.
pub open spec fn rule_in(v: TomlView) -> Option<MimeRule> {
    match rule_fields_in(v) {
        Some((rule, max)) => rule_from(rule, max),
        None => None,
    }
}

/// The rules-file word for a decision.
pub open spec fn word(allow: bool) -> Seq<char> {
    if allow {
        "allow"@
    } else {
        "deny"@
    }
}

/// The rules-file word for an allow/deny decision.
pub fn rule_word(allow: bool) -> (r: &'static str)
    ensures
        r@ == word(allow),
{
    if allow {
        "allow"
    } else {
        "deny"
    }
}

/// A per-type size cap as a byte count, or `None` when there is none to honour.
pub fn usable_cap(max: Option<&str>) -> (r: Option<usize>)
    ensures
        r == cap_in(
            match max {
                Some(m) => Some(m@),
                None => None,
            },
        ),
{
    match max {
        Some(m) => match parse_size(m) {
            Ok(n) => {
                if n == 0 {
                    None
                } else {
                    Some(n)
                }
            },
            Err(_) => None,
        },
        None => None,
    }
}

/// Interprets a rule word and a cap. Returns `None` for a word that is neither
/// `allow` nor `deny`.
pub fn parse_rule(rule: &str, max: Option<&str>) -> (r: Option<MimeRule>)
    ensures
        r == rule_from(
            rule@,
            match max {
                Some(m) => Some(m@),
                None => None,
            },
        ),
{
    if same(rule, "allow") {
        Some(MimeRule { allow: true, max_size: usable_cap(max) })
    } else if same(rule, "deny") {
        Some(MimeRule { allow: false, max_size: usable_cap(max) })
    } else {
        None
    }
}

/// Extracts the `(rule, max)` strings from a `[rules]` value.
fn rule_fields(item: &Item) -> (r: Option<(String, Option<String>)>)
    ensures
        match r {
            Some((rule, max)) => rule_fields_in(item_view(*item)) == Some((rule@, opt_text(max))),
            None => rule_fields_in(item_view(*item)) is None,
        },
{
    if let Some(s) = item_text(item) {
        return Some((s, None));
    }
    let rule = match item_field(item, "rule") {
        Some(i) => item_text(&i),
        None => None,
    };
    match rule {
        None => None,
        Some(rule) => {
            let max = match item_field(item, "max") {
                Some(i) => item_text(&i),
                None => None,
            };
            Some((rule, max))
        },
    }
}

/// A string by reference.
fn as_opt_str(s: &Option<String>) -> (r: Option<&str>)
    ensures
        match r {
            Some(t) => opt_text(*s) == Some(t@),
            None => opt_text(*s) is None,
        },
{
    match s {
        Some(t) => Some(t.as_str()),
        None => None,
    }
}

/// Interprets a `[rules]` value as a rule.
fn parse_rule_item(item: &Item) -> (r: Option<MimeRule>)
    ensures
        r == rule_in(item_view(*item)),
{
    match rule_fields(item) {
        Some((rule, max)) => parse_rule(rule.as_str(), as_opt_str(&max)),
        None => None,
    }
}

/// A ruleset for lookups: what each key says, where it says something usable.
pub type Rules = Map<Seq<char>, Option<MimeRule>>;

/// Whether `key` has a usable rule and matches `mime`.
pub open spec fn candidate(rules: Rules, key: Seq<char>, mime: Seq<char>) -> bool {
    rules.dom().contains(key) && rules[key] is Some && covers(key, mime)
}

/// Whether the rule of `key` takes precedence over every other one that matches
/// `mime`.
pub open spec fn decides(rules: Rules, key: Seq<char>, mime: Seq<char>) -> bool {
    &&& candidate(rules, key, mime)
    &&& forall|other: Seq<char>|
        #![trigger candidate(rules, other, mime)]
        candidate(rules, other, mime) && other != key ==> outranks(
            key,
            rules[key]->0.allow,
            other,
            rules[other]->0.allow,
        )
}

/// The rule that decides `mime`: of all that match it, the most specific one.
pub open spec fn decision(rules: Rules, mime: Seq<char>) -> Option<MimeRule> {
    if exists|key: Seq<char>| decides(rules, key, mime) {
        rules[choose|key: Seq<char>| decides(rules, key, mime)]
    } else {
        None
    }
}

/// Whether any key matches `mime`, with a usable rule or not.
pub open spec fn known(rules: Rules, mime: Seq<char>) -> bool {
    exists|key: Seq<char>| rules.dom().contains(key) && #[trigger] covers(key, mime)
}

/// Whether a representation of `mime` of `size` bytes may sync.
pub open spec fn may_sync(rules: Rules, unknown: MimePolicy, mime: Seq<char>, size: nat) -> bool {
    match decision(rules, mime) {
        Some(r) => r.allow && match r.max_size {
            Some(max) => size <= max,
            None => true,
        },
        None => unknown == MimePolicy::Allow,
    }
}

/// At most one key decides a type.
pub proof fn the_deciding_key_is_unique(
    rules: Rules,
    a: Seq<char>,
    b: Seq<char>,
    mime: Seq<char>,
)
    requires
        decides(rules, a, mime),
        decides(rules, b, mime),
    ensures
        a == b,
{
    if a != b {
        let (aa, ba) = (rules[a]->0.allow, rules[b]->0.allow);
        crate::glob::outranks_is_transitive(a, aa, b, ba, a, aa);
        crate::glob::outranks_is_irreflexive(a, aa);
    }
}

/// The rule of the deciding key is the decision.
proof fn lemma_decision_is(rules: Rules, key: Seq<char>, mime: Seq<char>)
    requires
        decides(rules, key, mime),
    ensures
        decision(rules, mime) == rules[key],
{
    let chosen = choose|k: Seq<char>| decides(rules, k, mime);
    the_deciding_key_is_unique(rules, key, chosen, mime);
}

proof fn lemma_best(rules: Rules, keys: Set<Seq<char>>) -> (best: Seq<char>)
    requires
        keys.finite(),
        keys.len() > 0,
    ensures
        keys.contains(best),
        forall|other: Seq<char>| #[trigger]
            keys.contains(other) && other != best ==> outranks(
                best,
                rules[best]->0.allow,
                other,
                rules[other]->0.allow,
            ),
    decreases keys.len(),
{
    let x = keys.choose();
    let rest = keys.remove(x);
    if rest.len() == 0 {
        assert forall|other: Seq<char>| #[trigger] keys.contains(other) implies other == x by {
            if other != x {
                assert(rest.contains(other));
            }
        }
        return x;
    }
    let b = lemma_best(rules, rest);
    let (xa, ba) = (rules[x]->0.allow, rules[b]->0.allow);
    crate::glob::outranks_is_total(x, xa, b, ba);
    let best = if outranks(x, xa, b, ba) {
        x
    } else {
        b
    };
    assert forall|other: Seq<char>| #[trigger] keys.contains(other) && other != best implies outranks(
        best,
        rules[best]->0.allow,
        other,
        rules[other]->0.allow,
    ) by {
        if other != x {
            assert(rest.contains(other));
            if best == x && other != b {
                crate::glob::outranks_is_transitive(x, xa, b, ba, other, rules[other]->0.allow);
            }
        }
    }
    best
}

/// A type that some usable rule matches is decided by one of them.
pub proof fn some_key_decides(rules: Rules, key: Seq<char>, mime: Seq<char>)
    requires
        rules.dom().finite(),
        candidate(rules, key, mime),
    ensures
        exists|k: Seq<char>| decides(rules, k, mime),
{
    let keys = rules.dom().filter(|k: Seq<char>| candidate(rules, k, mime));
    rules.dom().lemma_len_filter(|k: Seq<char>| candidate(rules, k, mime));
    assert(keys.contains(key));
    let best = lemma_best(rules, keys);
    assert forall|other: Seq<char>|
        #![trigger candidate(rules, other, mime)]
        candidate(rules, other, mime) && other != best implies outranks(
        best,
        rules[best]->0.allow,
        other,
        rules[other]->0.allow,
    ) by {
        assert(keys.contains(other));
    }
    assert(decides(rules, best, mime));
}

/// An exact key with a usable rule decides its type over any glob: the deciding key
/// is then an exact one.
pub proof fn an_exact_rule_decides(
    rules: Rules,
    exact: Seq<char>,
    key: Seq<char>,
    mime: Seq<char>,
)
    requires
        candidate(rules, exact, mime),
        !is_glob(exact),
        decides(rules, key, mime),
    ensures
        !is_glob(key),
{
    if is_glob(key) {
        crate::glob::exact_key_outranks_every_glob(
            exact,
            rules[exact]->0.allow,
            key,
            rules[key]->0.allow,
            mime,
        );
    }
}

/// An entry of a [`CompiledRules`].
struct CompiledEntry {
    key: String,
    /// `None` when the value isn't a usable rule. The entry is still kept: even a
    /// typo'd key covers its type.
    rule: Option<MimeRule>,
    literals: usize,
    wildcards: usize,
}

/// The `[rules]` table compiled once for repeated lookups.
pub struct CompiledRules {
    entries: Vec<CompiledEntry>,
    unknown: MimePolicy,
}

/// The place of `key` among the entries.
spec fn entry_at(entries: Seq<CompiledEntry>, key: Seq<char>) -> int {
    choose|i: int| 0 <= i < entries.len() && #[trigger] entries[i].key@ == key
}

/// Whether one of the entries has this key.
spec fn has_entry(entries: Seq<CompiledEntry>, key: Seq<char>) -> bool {
    exists|i: int| 0 <= i < entries.len() && #[trigger] entries[i].key@ == key
}

impl CompiledRules {
    /// What each key says.
    pub closed spec fn rules(&self) -> Rules {
        Map::new(
            |k: Seq<char>| has_entry(self.entries@, k),
            |k: Seq<char>| self.entries@[entry_at(self.entries@, k)].rule,
        )
    }

    /// The policy for a type that no key matches.
    pub closed spec fn policy(&self) -> MimePolicy {
        self.unknown
    }

    /// No key occurs twice, and the weights are those of the keys.
    pub closed spec fn wf(&self) -> bool {
        &&& forall|i: int, j: int|
            0 <= i < j < self.entries@.len() ==> (#[trigger] self.entries@[i]).key@ != (
            #[trigger] self.entries@[j]).key@
        &&& forall|i: int|
            0 <= i < self.entries@.len() ==> {
                &&& (#[trigger] self.entries@[i]).literals == literals(self.entries@[i].key@)
                &&& self.entries@[i].wildcards == wildcards(self.entries@[i].key@)
            }
    }

    proof fn lemma_entry(&self, i: int)
        requires
            self.wf(),
            0 <= i < self.entries@.len(),
        ensures
            self.rules().dom().contains(self.entries@[i].key@),
            self.rules()[self.entries@[i].key@] == self.entries@[i].rule,
    {
        let k = self.entries@[i].key@;
        assert(has_entry(self.entries@, k));
        let j = entry_at(self.entries@, k);
        assert(self.entries@[i].key@ == self.entries@[j].key@);
        if i < j {
            assert(self.entries@[i].key@ != self.entries@[j].key@);
        } else if j < i {
            assert(self.entries@[j].key@ != self.entries@[i].key@);
        }
    }

    /// Whether a `size`-byte representation of `mime` may sync.
    pub fn allows(&self, mime: &str, size: usize) -> (r: bool)
        requires
            self.wf(),
        ensures
            r == may_sync(self.rules(), self.policy(), mime@, size as nat),
    {
        match self.find_rule(mime) {
            Some(rule) => rule.allow && match rule.max_size {
                Some(max) => size <= max,
                None => true,
            },
            None => self.unknown == MimePolicy::Allow,
        }
    }

    /// The rule that decides `mime`: among all keys that match it, the most specific
    /// one wins.
    pub fn find_rule(&self, mime: &str) -> (r: Option<MimeRule>)
        requires
            self.wf(),
        ensures
            r == decision(self.rules(), mime@),
            r is None <==> (forall|key: Seq<char>| !candidate(self.rules(), key, mime@)),
    {
        let mut best: Option<usize> = None;
        let mut i: usize = 0;
        let ghost rules = self.rules();
        while i < self.entries.len()
            invariant
                self.wf(),
                rules == self.rules(),
                i <= self.entries@.len(),
                best is None ==> forall|k: int|
                    0 <= k < i ==> !candidate(rules, (#[trigger] self.entries@[k]).key@, mime@),
                best matches Some(b) ==> {
                    &&& b < i
                    &&& candidate(rules, self.entries@[b as int].key@, mime@)
                    &&& forall|k: int|
                        0 <= k < i && k != b && candidate(
                            rules,
                            (#[trigger] self.entries@[k]).key@,
                            mime@,
                        ) ==> outranks(
                            self.entries@[b as int].key@,
                            self.entries@[b as int].rule->0.allow,
                            self.entries@[k].key@,
                            self.entries@[k].rule->0.allow,
                        )
                },
            decreases self.entries@.len() - i,
        {
            let entry = &self.entries[i];
            proof {
                self.lemma_entry(i as int);
            }
            if let Some(rule) = entry.rule {
                if glob_match(entry.key.as_str(), mime) {
                    proof {
                        assert(candidate(rules, self.entries@[i as int].key@, mime@));
                    }
                    match best {
                        None => {
                            best = Some(i);
                        },
                        Some(b) => {
                            let held = &self.entries[b];
                            proof {
                                self.lemma_entry(b as int);
                            }
                            let held_allow = held.rule.unwrap().allow;
                            if takes_precedence(
                                entry.key.as_str(),
                                (entry.literals, entry.wildcards),
                                rule.allow,
                                held.key.as_str(),
                                (held.literals, held.wildcards),
                                held_allow,
                            ) {
                                proof {
                                    let e = self.entries@[i as int];
                                    let h = self.entries@[b as int];
                                    assert forall|k: int|
                                        0 <= k < i + 1 && k != i && candidate(
                                            rules,
                                            (#[trigger] self.entries@[k]).key@,
                                            mime@,
                                        ) implies outranks(
                                        e.key@,
                                        e.rule->0.allow,
                                        self.entries@[k].key@,
                                        self.entries@[k].rule->0.allow,
                                    ) by {
                                        if k != b {
                                            crate::glob::outranks_is_transitive(
                                                e.key@,
                                                e.rule->0.allow,
                                                h.key@,
                                                h.rule->0.allow,
                                                self.entries@[k].key@,
                                                self.entries@[k].rule->0.allow,
                                            );
                                        }
                                    }
                                }
                                best = Some(i);
                            } else {
                                proof {
                                    let e = self.entries@[i as int];
                                    let h = self.entries@[b as int];
                                    assert(e.key@ != h.key@);
                                    crate::glob::outranks_is_total(
                                        e.key@,
                                        e.rule->0.allow,
                                        h.key@,
                                        h.rule->0.allow,
                                    );
                                }
                            }
                        },
                    }
                }
            }
            i += 1;
        }
        proof {
            assert forall|key: Seq<char>| #[trigger]
                candidate(rules, key, mime@) implies exists|k: int|
                0 <= k < self.entries@.len() && #[trigger] self.entries@[k].key@ == key by {
                assert(has_entry(self.entries@, key));
            }
        }
        match best {
            None => {
                proof {
                    assert forall|key: Seq<char>| !candidate(rules, key, mime@) by {
                        if candidate(rules, key, mime@) {
                            let k = choose|k: int|
                                0 <= k < self.entries@.len() && #[trigger] self.entries@[k].key@
                                    == key;
                            assert(!candidate(rules, self.entries@[k].key@, mime@));
                        }
                    }
                    assert(forall|key: Seq<char>| decides(rules, key, mime@) ==> candidate(
                        rules,
                        key,
                        mime@,
                    ));
                }
                None
            },
            Some(b) => {
                proof {
                    self.lemma_entry(b as int);
                    let key = self.entries@[b as int].key@;
                    assert forall|other: Seq<char>| #[trigger]
                        candidate(rules, other, mime@) && other != key implies outranks(
                        key,
                        rules[key]->0.allow,
                        other,
                        rules[other]->0.allow,
                    ) by {
                        let k = choose|k: int|
                            0 <= k < self.entries@.len() && #[trigger] self.entries@[k].key@
                                == other;
                        self.lemma_entry(k);
                    }
                    assert(decides(rules, key, mime@));
                    lemma_decision_is(rules, key, mime@);
                }
                self.entries[b].rule
            },
        }
    }

    /// Whether any key matches `mime`, valid rule or not.
    pub fn any_match(&self, mime: &str) -> (r: bool)
        requires
            self.wf(),
        ensures
            r == known(self.rules(), mime@),
    {
        let mut i: usize = 0;
        while i < self.entries.len()
            invariant
                self.wf(),
                i <= self.entries@.len(),
                forall|k: int| 0 <= k < i ==> !covers((#[trigger] self.entries@[k]).key@, mime@),
            decreases self.entries@.len() - i,
        {
            if glob_match(self.entries[i].key.as_str(), mime) {
                proof {
                    self.lemma_entry(i as int);
                }
                return true;
            }
            i += 1;
        }
        proof {
            assert forall|key: Seq<char>| self.rules().dom().contains(key) implies !(
            #[trigger] covers(key, mime@)) by {
                assert(has_entry(self.entries@, key));
                let k = entry_at(self.entries@, key);
                assert(!covers(self.entries@[k].key@, mime@));
            }
        }
        false
    }

    /// Whether any of `mimes` is matched by no key (and so would be recorded by
    /// [`MimeRules::ensure`]).
    pub fn has_unseen(&self, mimes: &[String]) -> (r: bool)
        requires
            self.wf(),
        ensures
            r == exists|i: int| 0 <= i < mimes@.len() && !known(self.rules(), #[trigger] mimes@[i]@),
    {
        let mut i: usize = 0;
        while i < mimes.len()
            invariant
                self.wf(),
                i <= mimes@.len(),
                forall|k: int| 0 <= k < i ==> known(self.rules(), #[trigger] mimes@[k]@),
            decreases mimes@.len() - i,
        {
            if !self.any_match(mimes[i].as_str()) {
                return true;
            }
            i += 1;
        }
        false
    }
}

/// The entries of the `[rules]` table; none where there is no such table.
pub open spec fn entries_in(d: TomlDoc) -> Map<Seq<char>, TomlView> {
    match d.fields.get("rules"@) {
        Some(TomlView::Section(m)) => m,
        _ => no_fields(),
    }
}

/// The keys of the `[rules]` table, in the order of the document; none where there is no such
/// table.
pub open spec fn rule_order(d: TomlDoc) -> Seq<Seq<char>> {
    match d.fields.get("rules"@) {
        Some(TomlView::Section(m)) => listed_keys(m, d.layouts["rules"@]),
        _ => Seq::empty(),
    }
}

/// What the entries of the `[rules]` table say.
pub open spec fn rules_in(d: TomlDoc) -> Rules {
    entries_in(d).map_values(|v: TomlView| rule_in(v))
}

/// Whether two documents differ at most in the top-level table `name`.
pub open spec fn same_but_for(a: TomlDoc, b: TomlDoc, name: Seq<char>) -> bool {
    a.fields.remove(name) == b.fields.remove(name)
}

/// Whether `b` is `a` with the entries `m` of its `[rules]` table in the ascending
/// order `order`.
pub open spec fn sorted_as(
    a: TomlDoc,
    b: TomlDoc,
    m: Map<Seq<char>, TomlView>,
    order: Seq<Seq<char>>,
) -> bool {
    let (was, now) = (a.layouts["rules"@], b.layouts["rules"@]);
    &&& b.fields == a.fields
    &&& b.layouts == a.layouts.insert("rules"@, now)
    &&& now.frame == was.frame
    &&& now.order == order
    &&& now.texts == was.texts.restrict(m.dom())
    &&& is_laid_out(now.lines, order, m, was.texts)
    &&& lists_keys(order, m)
    &&& ascending(order)
}

/// The texts of the values of the `[rules]` table, without what surrounds them.
pub open spec fn spelled_in(d: TomlDoc) -> Map<Seq<char>, Seq<char>> {
    match d.fields.get("rules"@) {
        Some(TomlView::Section(_)) => d.layouts["rules"@].texts,
        _ => no_texts(),
    }
}

/// The text of the entry `key` of the `[rules]` table as a value, without what surrounds it: a
/// table has that of the inline table.
pub open spec fn entry_text(d: TomlDoc, key: Seq<char>) -> Option<Seq<char>> {
    if entries_in(d)[key] is Section {
        d.layouts["rules"@].inlined.get(key)
    } else {
        spelled_in(d).get(key)
    }
}

/// Whether the text of every value of the `[rules]` table is known: of an inline table, if
/// the document is laid out as one that was read.
pub open spec fn spells_rules(d: TomlDoc, readable: bool) -> bool {
    forall|k: Seq<char>| #[trigger]
        entries_in(d).dom().contains(k) && (is_scalar(entries_in(d)[k]) || (readable
            && entries_in(d)[k] is Inline)) ==> spelled_in(d).dom().contains(k)
}

/// The line of an entry with the value text `text`: the key in quotes, and nothing but the
/// value behind it.
pub open spec fn entry_line(key: Seq<char>, text: Seq<char>) -> Seq<char> {
    quoted_form(key) + " = "@ + text
}

/// Whether `lines` are the lines of the entry `key` alone: one for a value written in one
/// piece, and none for an array of tables. (A table has those of its dotted keys.)
pub open spec fn is_block(
    lines: Seq<Seq<char>>,
    key: Seq<char>,
    m: Map<Seq<char>, TomlView>,
    texts: Map<Seq<char>, Seq<char>>,
) -> bool {
    &&& texts.dom().contains(key) ==> lines == seq![entry_line(key, texts[key])]
    &&& m[key] is Sections ==> lines.len() == 0
}

/// Whether `lines`, cut at `cuts`, are those of the entries `m` in the order `order`.
pub open spec fn is_cut_into(
    lines: Seq<Seq<char>>,
    cuts: Seq<int>,
    order: Seq<Seq<char>>,
    m: Map<Seq<char>, TomlView>,
    texts: Map<Seq<char>, Seq<char>>,
) -> bool {
    &&& cuts.len() == order.len() + 1
    &&& cuts[0] == 0
    &&& cuts.last() == lines.len()
    &&& forall|i: int|
        0 <= i < order.len() ==> {
            &&& 0 <= #[trigger] cuts[i] <= cuts[i + 1] <= lines.len()
            &&& is_block(lines.subrange(cuts[i], cuts[i + 1]), order[i], m, texts)
        }
}

/// Whether `lines` are those of the entries `m`, of which `texts` are the value texts, in
/// the order `order`, with nothing among them.
pub open spec fn is_laid_out(
    lines: Seq<Seq<char>>,
    order: Seq<Seq<char>>,
    m: Map<Seq<char>, TomlView>,
    texts: Map<Seq<char>, Seq<char>>,
) -> bool {
    exists|cuts: Seq<int>| is_cut_into(lines, cuts, order, m, texts)
}

/// The lines of one more entry behind those that are laid out.
proof fn lemma_one_more_block(
    was: Seq<Seq<char>>,
    now: Seq<Seq<char>>,
    order: Seq<Seq<char>>,
    key: Seq<char>,
    m: Map<Seq<char>, TomlView>,
    texts: Map<Seq<char>, Seq<char>>,
)
    requires
        is_laid_out(was, order, m, texts),
        was.is_prefix_of(now),
        is_block(now.skip(was.len() as int), key, m, texts),
    ensures
        is_laid_out(now, order.push(key), m, texts),
{
    let cuts = choose|cuts: Seq<int>| is_cut_into(was, cuts, order, m, texts);
    let more = cuts.push(now.len() as int);
    assert forall|i: int| 0 <= i < order.push(key).len() implies {
        &&& 0 <= #[trigger] more[i] <= more[i + 1] <= now.len()
        &&& is_block(now.subrange(more[i], more[i + 1]), order.push(key)[i], m, texts)
    } by {
        if i < order.len() {
            assert(more[i] == cuts[i] && more[i + 1] == cuts[i + 1]);
            assert(now.subrange(cuts[i], cuts[i + 1]) =~= was.subrange(cuts[i], cuts[i + 1]));
        } else {
            assert(more[i] == was.len());
            assert(now.subrange(was.len() as int, now.len() as int) =~= now.skip(
                was.len() as int,
            ));
        }
    }
    assert(is_cut_into(now, more, order.push(key), m, texts));
}

proof fn lemma_cuts_of_lines(
    lines: Seq<Seq<char>>,
    cuts: Seq<int>,
    order: Seq<Seq<char>>,
    m: Map<Seq<char>, TomlView>,
    texts: Map<Seq<char>, Seq<char>>,
    i: int,
)
    requires
        is_cut_into(lines, cuts, order, m, texts),
        forall|k: int| 0 <= k < order.len() ==> texts.dom().contains(#[trigger] order[k]),
        0 <= i <= order.len(),
    ensures
        cuts[i] == i,
        forall|k: int| 0 <= k < i ==> #[trigger] lines[k] == entry_line(order[k], texts[order[k]]),
    decreases i,
{
    if i > 0 {
        lemma_cuts_of_lines(lines, cuts, order, m, texts, i - 1);
        let block = lines.subrange(cuts[i - 1], cuts[i - 1 + 1]);
        assert(texts.dom().contains(order[i - 1]));
        assert(block.len() == 1);
        assert(block[0] == lines[i - 1]);
    }
}

/// Where every entry is a value written in one piece, each has one line.
proof fn lemma_laid_out(
    lines: Seq<Seq<char>>,
    order: Seq<Seq<char>>,
    m: Map<Seq<char>, TomlView>,
    texts: Map<Seq<char>, Seq<char>>,
)
    requires
        is_laid_out(lines, order, m, texts),
        forall|k: int| 0 <= k < order.len() ==> texts.dom().contains(#[trigger] order[k]),
    ensures
        lines == saved_lines(order, texts),
{
    let cuts = choose|cuts: Seq<int>| is_cut_into(lines, cuts, order, m, texts);
    lemma_cuts_of_lines(lines, cuts, order, m, texts, order.len() as int);
    assert(lines =~= saved_lines(order, texts));
}

/// The lines of the entries in the order `order`, of which `texts` are the value texts.
pub open spec fn saved_lines(
    order: Seq<Seq<char>>,
    texts: Map<Seq<char>, Seq<char>>,
) -> Seq<Seq<char>> {
    order.map_values(|key: Seq<char>| entry_line(key, texts[key]))
}

/// Whether `b` is `a` as it is saved: the `[rules]` table is sorted by key, each of its
/// values stands in a line of its own behind its key in quotes, and everything else is the
/// same.
pub open spec fn normal_form(a: TomlDoc, b: TomlDoc) -> bool {
    match a.fields.get("rules"@) {
        Some(TomlView::Section(m)) => exists|order: Seq<Seq<char>>| sorted_as(a, b, m, order),
        _ => b.fields == a.fields && b.layouts == a.layouts,
    }
}

/// The version that the `[clipmesh]` table records: a stamp that is not negative,
/// and an origin that is a UUID.
pub open spec fn recorded_version(d: TomlDoc) -> Option<Version> {
    match (field(d, "clipmesh"@, "version"@), text_of(field(d, "clipmesh"@, "origin"@))) {
        (Some(TomlView::Integer(n)), Some(o)) => match uuid_in(o) {
            Some(id) if n >= 0 => Some(Version { stamp: n as u64, origin: id }),
            _ => None,
        },
        _ => None,
    }
}

/// The version of a file: the one it records, or else its modification time and
/// the node's own identity.
pub open spec fn version_in(d: TomlDoc, own_id: NodeId, mtime_ms: u64) -> Version {
    match recorded_version(d) {
        Some(v) => v,
        None => Version { stamp: mtime_ms, origin: own_id },
    }
}

/// What reading the rules file gave.
pub enum FileRead {
    /// Its text.
    Text(String),
    /// There is no such file (or it is a link to a missing one).
    NotFound,
    /// It could not be read, for this reason.
    Failed(String),
}

/// Why [`MimeRules::open`] came back without a ruleset.
pub enum RulesFileState {
    /// Nothing at the configured path.
    Missing,
    /// The file is there but holds only whitespace.
    Empty,
    /// The file is there but isn't valid TOML.
    Malformed(TomlError),
    /// The file couldn't be read at all.
    Unreadable(String),
}

impl RulesFileState {
    /// Whether [`MimeRules::load`] should replace the file with a fresh skeleton: there
    /// is nothing on disk to lose, or nothing that can be used. A file that could not
    /// be read is left exactly as it is.
    pub fn warrants_a_rewrite(&self) -> (r: bool)
        ensures
            r == !(self is Unreadable),
    {
        match self {
            RulesFileState::Unreadable(_) => false,
            RulesFileState::Missing => true,
            RulesFileState::Empty => true,
            RulesFileState::Malformed(_) => true,
        }
    }
}

/// What a [`MimeRules::persist`] asks for.
pub enum Persist {
    /// There is nothing to write: the file is in sync.
    InSync,
    /// There is no file to write to; the change stays pending.
    NoFile,
    /// `text` is to be written to `path`, and the outcome to be handed to
    /// [`MimeRules::persisted`].
    Write { path: String, text: String },
}

/// What taking a snapshot asks for.
pub enum SnapshotStep {
    /// No snapshot; the rules have been rolled back.
    Failed(SnapshotError),
    /// The snapshot, which is on disk already.
    Done(Snapshot),
    /// The body of `snapshot` is to be written to `path`, and the outcome to be handed
    /// to [`MimeRules::finish_snapshot`].
    Write { path: String, snapshot: Snapshot },
}

/// The live ruleset.
pub struct MimeRules {
    /// The TOML document. Comments and ordering above `[rules]` are preserved.
    doc: DocumentMut,
    unknown: MimePolicy,
    path: Option<String>,
    /// The file contents as last read or written, or `None` if the file is absent.
    loaded: Option<String>,
    /// The document differs from disk and needs a `persist`.
    dirty: bool,
}

/// A copy of an optional string.
fn clone_opt(s: &Option<String>) -> (r: Option<String>)
    ensures
        opt_text(r) == opt_text(*s),
{
    match s {
        Some(t) => Some(t.clone()),
        None => None,
    }
}

proof fn lemma_word_is_quotable(allow: bool)
    ensures
        quotable(word(allow)),
{
    reveal_strlit("allow");
    reveal_strlit("deny");
    crate::toml::lemma_short_is_quotable(word(allow));
}

/// The top-level table `name`, or an empty one where there is none.
fn table_or_new(doc: &DocumentMut, name: &str) -> (t: Table)
    ensures
        match doc_content(*doc).fields.get(name@) {
            Some(TomlView::Section(_)) => table_layout(t) == doc_content(*doc).layouts[name@],
            _ => table_layout(t).texts == no_texts(),
        },
        table_fields(t) == (match doc_content(*doc).fields.get(name@) {
            Some(TomlView::Section(m)) => m,
            _ => no_fields(),
        }),
        doc_readable(*doc) ==> table_readable(t),
{
    match document_table(doc, name) {
        Some(t) => t,
        None => new_table(),
    }
}

/// Sorts the `[rules]` table by key and gives every entry the plainest layout.
/// Everything else is left untouched.
fn normalize(doc: &mut DocumentMut)
    ensures
        normal_form(doc_content(*old(doc)), doc_content(*final(doc))),
        doc_readable(*old(doc)) ==> doc_readable(*final(doc)),
        spells_rules(doc_content(*old(doc)), doc_readable(*old(doc))),
        lists_table(doc_content(*old(doc)), "rules"@) ==> text_around(*final(doc), "rules"@)
            == text_around(*old(doc), "rules"@),
{
    let source = match document_table(doc, "rules") {
        Some(t) => t,
        None => {
            return ;
        },
    };
    let mut sorted = clone_table(&source);
    let ghost m = table_fields(source);
    let ghost sound = doc_readable(*doc);
    let keys = table_keys(&source);
    let order = sort_order(&keys);
    table_clear(&mut sorted);
    let ghost ks = texts(keys@);
    let ghost listed = crate::order::arranged(ks, order@);
    let mut i: usize = 0;
    proof {
        assert(listed.take(0) =~= Seq::<Seq<char>>::empty());
        assert(table_fields(sorted) =~= m.restrict(listed.take(0).to_set()));
        assert(table_layout(sorted).texts =~= table_layout(source).texts.restrict(
            listed.take(0).to_set(),
        ));
        assert(is_cut_into(
            table_layout(sorted).lines,
            seq![0],
            listed.take(0),
            m,
            table_layout(source).texts,
        ));
        assert(keys.len() <= usize::MAX);
        lemma_arranged(ks, order@);
    }
    while i < order.len()
        invariant
            i <= order@.len(),
            ks == texts(keys@),
            order@.len() == keys@.len(),
            crate::order::sorts(order@, ks),
            listed == crate::order::arranged(ks, order@),
            distinct(listed),
            m == table_fields(source),
            lists_keys(ks, m),
            table_layout(sorted).order == listed.take(i as int),
            forall|k: int|
                0 <= k < i && (is_scalar(m[listed[k]]) || (sound && m[listed[k]] is Inline))
                    ==> table_layout(source).texts.dom().contains(#[trigger] listed[k]),
            table_layout(sorted).frame == table_layout(source).frame,
            table_layout(sorted).texts == table_layout(source).texts.restrict(
                listed.take(i as int).to_set(),
            ),
            is_laid_out(
                table_layout(sorted).lines,
                listed.take(i as int),
                m,
                table_layout(source).texts,
            ),
            table_fields(sorted) == m.restrict(listed.take(i as int).to_set()),
            sound ==> table_readable(source) && table_readable(sorted),
        decreases order@.len() - i,
    {
        let at: usize = order[i];
        let key = &keys[at];
        proof {
            assert(listed[i as int] == ks[at as int]);
            assert(ks[at as int] == key@);
            assert(ks.contains(key@));
            assert(listed.take(i + 1) =~= listed.take(i as int).push(key@));
            assert(!listed.take(i as int).contains(key@)) by {
                if listed.take(i as int).contains(key@) {
                    let k = choose|k: int| 0 <= k < i && listed.take(i as int)[k] == key@;
                    assert(listed[k] == listed[i as int]);
                }
            }
        }
        let ghost lines = table_layout(sorted).lines;
        if let Some(item) = table_item(&source, key.as_str()) {
            insert_canonical(&mut sorted, key.as_str(), item);
        }
        proof {
            let (now, at) = (table_layout(sorted).lines, lines.len() as int);
            let spelled = table_layout(source).texts;
            if spelled.dom().contains(key@) {
                assert(now.skip(at) =~= seq![entry_line(key@, spelled[key@])]);
            }
            lemma_one_more_block(lines, now, listed.take(i as int), key@, m, spelled);
            let done = listed.take(i as int).to_set();
            let now = listed.take(i + 1).to_set();
            assert(now =~= done.insert(key@)) by {
                assert forall|x: Seq<char>| now.contains(x) <==> done.insert(key@).contains(x) by {
                    let a = listed.take(i as int);
                    let b = listed.take(i + 1);
                    if b.contains(x) {
                        let k = choose|k: int| 0 <= k < b.len() && b[k] == x;
                        if k < i {
                            assert(a[k] == x);
                        }
                    }
                    if a.contains(x) {
                        let k = choose|k: int| 0 <= k < a.len() && a[k] == x;
                        assert(b[k] == x);
                    }
                    assert(b[i as int] == key@);
                }
            }
            assert(table_fields(sorted) =~= m.restrict(now));
            assert(table_layout(sorted).texts =~= table_layout(source).texts.restrict(now));
        }
        i += 1;
    }
    proof {
        lemma_arranged(ks, order@);
        assert(listed.take(listed.len() as int) =~= listed);
        assert(lists_keys(listed, m)) by {
            assert forall|k: Seq<char>| #[trigger]
                listed.contains(k) <==> m.dom().contains(k) by {
                assert(listed.contains(k) <==> ks.contains(k));
            }
        }
        assert(table_fields(sorted) =~= m) by {
            assert forall|k: Seq<char>| m.dom().contains(k) implies listed.to_set().contains(k) by {
                assert(ks.contains(k));
                assert(listed.contains(k));
            }
        }
    }
    proof {
        let spelled = table_layout(source).texts;
        assert(table_layout(sorted).texts =~= spelled.restrict(m.dom())) by {
            assert forall|k: Seq<char>| listed.to_set().contains(k) <==> m.dom().contains(k) by {
                assert(listed.contains(k) <==> m.dom().contains(k));
            }
        }
    }
    set_document_table(doc, "rules", sorted);
    proof {
        let a = doc_content(*old(doc));
        assert(a.fields.insert("rules"@, TomlView::Section(m)) =~= a.fields);
        let b = doc_content(*doc);
        let g = a.fields.get("rules"@);
        assert(g is Some && g->0 is Section && g->0->Section_0 == m);
        assert forall|k: Seq<char>| #[trigger]
            entries_in(a).dom().contains(k) && (is_scalar(entries_in(a)[k]) || (sound
                && entries_in(a)[k] is Inline)) implies spelled_in(a).dom().contains(k) by {
            assert(listed.contains(k));
            let n = choose|n: int| 0 <= n < listed.len() && listed[n] == k;
            assert(table_layout(source).texts.dom().contains(listed[n]));
        }
        assert(sorted_as(a, b, g->0->Section_0, listed));
    }
}

/// The sorted arrangement of the keys lists the same keys in ascending order.
proof fn lemma_arranged(ks: Seq<Seq<char>>, order: Seq<usize>)
    requires
        crate::order::sorts(order, ks),
        distinct(ks),
        ks.len() <= usize::MAX,
    ensures
        ({
            let listed = crate::order::arranged(ks, order);
            &&& listed.len() == ks.len()
            &&& distinct(listed)
            &&& ascending(listed)
            &&& forall|k: Seq<char>| listed.contains(k) <==> #[trigger] ks.contains(k)
        }),
{
    let listed = crate::order::arranged(ks, order);
    assert forall|i: int, j: int| 0 <= i < j < listed.len() implies #[trigger] listed[i]
        != #[trigger] listed[j] && !crate::order::before(listed[j], listed[i]) by {
        assert(order[i] != order[j]);
        if order[i] < order[j] {
            assert(ks[order[i] as int] != ks[order[j] as int]);
        } else {
            assert(ks[order[j] as int] != ks[order[i] as int]);
        }
    }
    assert forall|k: Seq<char>| listed.contains(k) <==> #[trigger] ks.contains(k) by {
        if listed.contains(k) {
            let i = choose|i: int| 0 <= i < listed.len() && listed[i] == k;
            assert(ks[order[i] as int] == k);
        }
        if ks.contains(k) {
            let j = choose|j: int| 0 <= j < ks.len() && ks[j] == k;
            assert(order.contains(j as usize));
            let i = choose|i: int| 0 <= i < order.len() && order[i] == j as usize;
            assert(listed[i] == k);
        }
    }
}

/// The rules that a type list leaves to record: those that no key matches.
pub open spec fn unseen(rules: Rules, mimes: Seq<Seq<char>>, mime: Seq<char>) -> bool {
    mimes.contains(mime) && !known(rules, mime)
}

/// Whether any of `mimes` is unseen.
pub open spec fn any_unseen(rules: Rules, mimes: Seq<Seq<char>>) -> bool {
    exists|mime: Seq<char>| #[trigger] unseen(rules, mimes, mime)
}

/// The entries of a ruleset after each unseen type was given `action`.
pub open spec fn ensured(
    entries: Map<Seq<char>, TomlView>,
    rules: Rules,
    mimes: Seq<Seq<char>>,
    action: Seq<char>,
) -> Map<Seq<char>, TomlView> {
    Map::new(
        |k: Seq<char>| entries.dom().contains(k) || unseen(rules, mimes, k),
        |k: Seq<char>|
            if unseen(rules, mimes, k) {
                TomlView::Text(action)
            } else {
                entries[k]
            },
    )
}

/// The value texts of a ruleset after each unseen type was given an action that is written
/// as `text`.
pub open spec fn ensured_texts(
    spelled: Map<Seq<char>, Seq<char>>,
    rules: Rules,
    mimes: Seq<Seq<char>>,
    text: Seq<char>,
) -> Map<Seq<char>, Seq<char>> {
    Map::new(
        |k: Seq<char>| spelled.dom().contains(k) || unseen(rules, mimes, k),
        |k: Seq<char>|
            if unseen(rules, mimes, k) {
                text
            } else {
                spelled[k]
            },
    )
}

/// Whether a new glob `pattern` replaces the entry `key`: it matches the key, and
/// is not the same key, which it sets instead. The same key in other letters is replaced.
pub open spec fn collapses(pattern: Seq<char>, key: Seq<char>) -> bool {
    key != pattern && covers(pattern, key)
}

/// The entries of a ruleset after the glob `pattern` was set: those it collapses
/// are gone, and it stands for itself.
pub open spec fn globbed(
    entries: Map<Seq<char>, TomlView>,
    pattern: Seq<char>,
    allow: bool,
) -> Map<Seq<char>, TomlView> {
    Map::new(
        |k: Seq<char>| entries.dom().contains(k) && !collapses(pattern, k),
        |k: Seq<char>| entries[k],
    ).insert(pattern, TomlView::Text(word(allow)))
}

/// The value texts of a ruleset after the entries that the glob `pattern` collapses are gone.
pub open spec fn kept_texts(
    spelled: Map<Seq<char>, Seq<char>>,
    pattern: Seq<char>,
) -> Map<Seq<char>, Seq<char>> {
    Map::new(
        |k: Seq<char>| spelled.dom().contains(k) && !collapses(pattern, k),
        |k: Seq<char>| spelled[k],
    )
}

/// What a key of the rules file is written as: in quotes, even where it could stand without
/// them, unless no quotes hold it in one line or it holds too many quotes in a row.
pub open spec fn quoted_form(key: Seq<char>) -> Seq<char> {
    let text = trim(string_value(key));
    match keys_in(text) {
        Some(names) if names.len() == 1 && quotable(key) => text,
        _ => default_key(key),
    }
}

/// The key of a name that is always written in quotes, even where it could stand without
/// them, and with nothing around it.
fn quoted_key(name: &str) -> (r: Key)
    ensures
        key_name(r) == name@,
        key_repr(r) == quoted_form(name@),
        key_is_plain(r),
{
    if !is_quotable(name) {
        return new_key(name);
    }
    let repr = trim_of(string_value_text(name).as_str());
    proof {
        crate::text::lemma_trim_twice(string_value(name@));
    }
    if let Some(mut keys) = parse_keys(repr.as_str()) {
        if keys.len() == 1 {
            proof {
                assert(key_names(keys@)[0] == key_name(keys@[0]));
            }
            return plain_key(keys.remove(0));
        }
    }
    new_key(name)
}

/// Puts an item under a quoted key with the plainest layout: one space before the value,
/// and no comment behind it.
fn insert_canonical(table: &mut Table, key: &str, item: Item)
    requires
        !(item_view(item) is Nothing),
    ensures
        table_fields(*final(table)) == table_fields(*old(table)).insert(key@, item_view(item)),
        takes_entry(
            table_layout(*old(table)),
            table_layout(*final(table)),
            key@,
            item_view(item),
            written(item),
            match written(item) {
                Some(text) if is_value(item_view(item)) => Some(entry_line(key@, text)),
                _ => None,
            },
        ),
        table_readable(*old(table)) && item_readable(item, table_layout(*old(table)).frame)
            ==> table_readable(*final(table)),
{
    proof {
        reveal_strlit(" ");
        reveal_strlit("");
        reveal_strlit(" =");
        reveal_strlit(" = ");
    }
    let value = set_decor(item, " ", "");
    let quoted = quoted_key(key);
    insert_formatted(table, &quoted, value);
    proof {
        if let Some(text) = written(item) {
            assert(key_repr(quoted) + " ="@ + " "@ + text + ""@ =~= key_repr(quoted) + " = "@ + text);
        }
    }
}

/// Whether `line` is the `"key" = value` line of an entry `v`, of which `text` is the text as
/// a value. An array of tables has none.
pub open spec fn is_entry_line(
    line: Seq<char>,
    key: Seq<char>,
    v: TomlView,
    text: Option<Seq<char>>,
) -> bool {
    match v {
        TomlView::Sections => line.len() == 0,
        _ => text is Some ==> line == trim(entry_line(key, text->0) + "\n"@),
    }
}

/// Whether `line` is the line of an entry, of which the text as a value is known: of an inline
/// table, if the document is laid out as one that was read. A table is spelled as an inline
/// one with the same fields, which its text means in a document that was read.
pub open spec fn is_echo(
    line: Seq<char>,
    key: Seq<char>,
    v: TomlView,
    text: Option<Seq<char>>,
    readable: bool,
) -> bool {
    &&& is_entry_line(line, key, v, text)
    &&& is_scalar(v) || v is Section || (readable && v is Inline) ==> text is Some
    &&& v is Section ==> is_spelling(text->0, as_value(v))
    &&& v is Section && readable ==> spells_table(text->0, v)
}

/// The text of an item as a value, where it has one.
spec fn text_as_value(item: Item) -> Option<Seq<char>> {
    if item_view(item) is Section {
        Some(inlined_text(item))
    } else {
        written(item)
    }
}

/// Renders one `[rules]` entry as a clean, copy-pasteable `"key" = value` line.
fn render_entry(key: &str, item: Item) -> (r: String)
    requires
        !(item_view(item) is Nothing),
        written(item) is Some ==> is_value(item_view(item)),
    ensures
        is_entry_line(r@, key@, item_view(item), text_as_value(item)),
        item_view(item) is Section ==> is_spelling(inlined_text(item), as_value(item_view(item))),
        forall|frame: TableFrame|
            item_view(item) is Section && #[trigger] item_readable(item, frame) ==> spells_table(
                inlined_text(item),
                item_view(item),
            ),
{
    let ghost v = item_view(item);
    let item = inline_item(item);
    let mut table = new_table();
    let ghost value = item;
    insert_canonical(&mut table, key, item);
    let r = trim_of(render_table(&table).as_str());
    proof {
        reveal_with_fuel(lines_text, 2);
        let lines = table_layout(table).lines;
        if v is Sections {
            assert(lines_text(lines).len() == 0);
        } else if written(value) is Some {
            let line = entry_line(key@, written(value)->0);
            assert(lines =~= seq![line]);
            assert(lines.drop_last() =~= Seq::<Seq<char>>::empty());
            assert(lines_text(lines) =~= line + "\n"@);
            assert(v is Section ==> is_spelling(written(value)->0, as_value(v)));
        }
    }
    r
}

impl MimeRules {
    /// What the document holds.
    pub closed spec fn content(&self) -> TomlDoc {
        doc_content(self.doc)
    }

    /// The policy for a type that no key matches.
    pub closed spec fn policy(&self) -> MimePolicy {
        self.unknown
    }

    /// The rules file, if there is one.
    pub closed spec fn file(&self) -> Option<Seq<char>> {
        opt_text(self.path)
    }

    /// The file contents as last read or written.
    pub closed spec fn on_disk(&self) -> Option<Seq<char>> {
        opt_text(self.loaded)
    }

    /// Whether there are changes that are not on disk.
    pub closed spec fn pending(&self) -> bool {
        self.dirty
    }

    /// Whether the document is laid out so that what it saves as can be read. One that was
    /// read is, and stays so unless a value had to make room for a table.
    pub closed spec fn readable(&self) -> bool {
        doc_readable(self.doc)
    }

    /// What the document writes before and behind the lines of its rules: the comments above
    /// `[rules]` and the version among them.
    pub closed spec fn surroundings(&self) -> (Seq<char>, Seq<char>) {
        text_around(self.doc, "rules"@)
    }

    /// Whether what stands around the rules is the same in `after`, where the rules of both
    /// are lines below a header.
    pub open spec fn keeps_surroundings(&self, after: MimeRules) -> bool {
        lists_table(self.content(), "rules"@) && lists_table(after.content(), "rules"@)
            ==> after.surroundings() == self.surroundings()
    }

    /// Whether `text` is what the ruleset saves as. Where the rules are lines below a header,
    /// it has a line for each, in ascending order of the keys, with the key in quotes and
    /// nothing behind the value; and what stood around them stays.
    pub open spec fn renders_to(&self, text: Seq<char>) -> bool {
        &&& exists|d: DocumentMut|
            normal_form(self.content(), #[trigger] doc_content(d)) && text == doc_text(d)
        &&& self.readable() ==> reads_as(text, self.content())
        &&& spells_rules(self.content(), self.readable())
        &&& lists_table(self.content(), "rules"@) ==> exists|order: Seq<Seq<char>>|
            {
                &&& #[trigger] lists_keys(order, entries_in(self.content()))
                &&& ascending(order)
                &&& text == self.surroundings().0 + lines_text(
                    saved_lines(order, spelled_in(self.content())),
                ) + self.surroundings().1
            }
    }

    /// Whether `after` can be saved and read if this ruleset can, in which the top-level
    /// table `name` was changed.
    pub open spec fn stays_readable(&self, after: MimeRules, name: Seq<char>) -> bool {
        self.readable() && !holds_value(self.content(), name) ==> after.readable()
    }

    /// An empty in-memory ruleset for `path`.
    fn empty(path: Option<String>, unknown: MimePolicy) -> (r: MimeRules)
        ensures
            r.content().fields == no_fields(),
            r.policy() == unknown,
            r.file() == opt_text(path),
            r.on_disk() is None,
            !r.pending(),
            r.readable(),
    {
        MimeRules { doc: new_document(), unknown, path, loaded: None, dirty: false }
    }

    /// Takes what reading the rules file gave, **never asking to write it**: whatever
    /// is wrong with the file comes back for the caller to act on. With no path the
    /// rules live only in memory, and what was read plays no part.
    pub fn open(path: Option<String>, unknown: MimePolicy, read: FileRead) -> (r: Result<
        MimeRules,
        RulesFileState,
    >)
        ensures
            match r {
                Ok(rules) => {
                    &&& rules.policy() == unknown
                    &&& rules.file() == opt_text(path)
                    &&& !rules.pending()
                    &&& rules.readable()
                    &&& path is None ==> rules.content().fields == no_fields()
                        && rules.on_disk() is None
                    &&& path is Some ==> {
                        &&& read is Text
                        &&& trim(read->Text_0@).len() > 0
                        &&& toml_document(read->Text_0@) == Some(rules.content())
                        &&& rules.on_disk() == Some(read->Text_0@)
                    }
                },
                Err(RulesFileState::Missing) => path is Some && read is NotFound,
                Err(RulesFileState::Unreadable(why)) => path is Some && read
                    == FileRead::Failed(why),
                Err(RulesFileState::Empty) => path is Some && read is Text && trim(
                    read->Text_0@,
                ).len() == 0,
                Err(RulesFileState::Malformed(e)) => {
                    &&& path is Some
                    &&& error_text(e) == toml_fault(read->Text_0@)
                    &&& read is Text
                    &&& trim(read->Text_0@).len() > 0
                    &&& toml_document(read->Text_0@) is None
                },
            },
    {
        if path.is_none() {
            return Ok(MimeRules::empty(path, unknown));
        }
        match read {
            FileRead::Text(text) => {
                if is_blank(text.as_str()) {
                    return Err(RulesFileState::Empty);
                }
                match parse_document(text.as_str()) {
                    Ok(doc) => Ok(
                        MimeRules { doc, unknown, path, loaded: Some(text), dirty: false },
                    ),
                    Err(e) => Err(RulesFileState::Malformed(e)),
                }
            },
            FileRead::NotFound => Err(RulesFileState::Missing),
            FileRead::Failed(why) => Err(RulesFileState::Unreadable(why)),
        }
    }

    /// Takes what reading the rules file gave, healing it: a missing, empty, or non-TOML
    /// file is **replaced** with the fresh skeleton, which is then pending for
    /// [`MimeRules::persist`]. A file that could not be read leaves an empty ruleset
    /// with nothing to write.
    pub fn load(path: Option<String>, unknown: MimePolicy, read: FileRead) -> (rules: MimeRules)
        ensures
            rules.policy() == unknown,
            rules.file() == opt_text(path),
            rules.readable(),
            path is None ==> rules.content().fields == no_fields() && !rules.pending()
                && rules.on_disk() is None,
            path is Some ==> match read {
                FileRead::Failed(_) => {
                    &&& rules.content().fields == no_fields()
                    &&& !rules.pending()
                    &&& rules.on_disk() is None
                },
                FileRead::Text(t) if trim(t@).len() > 0 && toml_document(t@) is Some => {
                    &&& toml_document(t@) == Some(rules.content())
                    &&& !rules.pending()
                    &&& rules.on_disk() == Some(t@)
                },
                _ => {
                    &&& toml_document(TEMPLATE@) is Some ==> toml_document(TEMPLATE@) == Some(
                        rules.content(),
                    )
                    &&& toml_document(TEMPLATE@) is None ==> rules.content().fields == no_fields()
                    &&& rules.pending()
                    &&& rules.on_disk() is None
                },
            },
    {
        let again = clone_opt(&path);
        match MimeRules::open(path, unknown, read) {
            Ok(rules) => rules,
            Err(state) => {
                let mut me = MimeRules::empty(again, unknown);
                if me.path.is_some() && state.warrants_a_rewrite() {
                    me.materialize_fresh();
                }
                me
            },
        }
    }

    /// Makes the built-in skeleton the ruleset, to be written. (It is valid TOML; were
    /// it not, the document would stay as it is.)
    fn materialize_fresh(&mut self)
        ensures
            final(self).policy() == old(self).policy(),
            final(self).file() == old(self).file(),
            final(self).on_disk() is None,
            final(self).pending(),
            old(self).readable() ==> final(self).readable(),
            toml_document(TEMPLATE@) is Some ==> toml_document(TEMPLATE@) == Some(
                final(self).content(),
            ),
            toml_document(TEMPLATE@) is None ==> final(self).content() == old(self).content(),
    {
        if let Ok(doc) = parse_document(TEMPLATE) {
            self.doc = doc;
        }
        self.loaded = None;
        self.dirty = true;
    }

    /// Renders the current ruleset to its on-disk TOML text: the `[rules]` table is
    /// sorted and any comments interleaved among its entries are dropped.
    pub fn body(&self) -> (text: String)
        ensures
            self.renders_to(text@),
    {
        let mut doc = clone_document(&self.doc);
        normalize(&mut doc);
        proof {
            assert(normal_form(doc_content(self.doc), doc_content(doc)));
            lemma_normal_form(doc_content(self.doc), doc_content(doc));
        }
        let text = document_text(&doc);
        proof {
            let (a, b) = (doc_content(self.doc), doc_content(doc));
            if lists_table(a, "rules"@) {
                let m = entries_in(a);
                let order = choose|order: Seq<Seq<char>>| sorted_as(a, b, m, order);
                assert(sorted_as(a, b, m, order));
                assert forall|k: int| 0 <= k < order.len() implies spelled_in(a).dom().contains(
                    #[trigger] order[k],
                ) by {
                    assert(order.contains(order[k]));
                }
                lemma_laid_out(b.layouts["rules"@].lines, order, m, spelled_in(a));
                assert(lists_table(b, "rules"@));
                assert(lists_keys(order, entries_in(self.content())));
            }
        }
        text
    }

    /// Replaces the entire ruleset with `text` (a file body received from a peer),
    /// marking it to be written. A body that isn't valid TOML is ignored.
    pub fn replace_from(&mut self, text: String)
        ensures
            final(self).policy() == old(self).policy(),
            final(self).file() == old(self).file(),
            final(self).on_disk() == old(self).on_disk(),
            match toml_document(text@) {
                Some(d) => {
                    &&& final(self).content() == d
                    &&& final(self).pending()
                    &&& final(self).readable()
                },
                None => *final(self) == *old(self),
            },
    {
        if let Ok(doc) = parse_document(text.as_str()) {
            self.doc = doc;
            self.dirty = true;
        }
    }

    /// Takes what reading the rules file gave after it may have changed. Contents that
    /// are what was last read or written are no change; an empty file, one that is
    /// momentarily absent, and one that isn't TOML leave the current rules. Returns
    /// whether a new external file was applied.
    pub fn reload_if_changed(&mut self, read: FileRead) -> (applied: bool)
        ensures
            final(self).policy() == old(self).policy(),
            final(self).file() == old(self).file(),
            applied == is_change(*old(self), read),
            applied ==> {
                &&& toml_document(read->Text_0@) == Some(final(self).content())
                &&& final(self).on_disk() == Some(read->Text_0@)
                &&& !final(self).pending()
                &&& final(self).readable()
            },
            !applied ==> *final(self) == *old(self),
    {
        if self.path.is_none() {
            return false;
        }
        match read {
            FileRead::Text(text) => {
                let unchanged = match &self.loaded {
                    Some(t) => same(t.as_str(), text.as_str()),
                    None => false,
                };
                if unchanged {
                    return false;
                }
                if is_blank(text.as_str()) && !document_is_empty(&self.doc) {
                    return false;
                }
                match parse_document(text.as_str()) {
                    Ok(doc) => {
                        self.doc = doc;
                        self.loaded = Some(text);
                        self.dirty = false;
                        true
                    },
                    Err(_) => false,
                }
            },
            FileRead::NotFound => false,
            FileRead::Failed(_) => false,
        }
    }

    /// Compiles the `[rules]` table for repeated lookups.
    pub fn compile(&self) -> (r: CompiledRules)
        ensures
            r.wf(),
            r.rules() == rules_in(self.content()),
            r.policy() == self.policy(),
    {
        let table = table_or_new(&self.doc, "rules");
        let keys = table_keys(&table);
        let ghost ks = texts(keys@);
        let ghost m = table_fields(table);
        let mut entries: Vec<CompiledEntry> = Vec::new();
        let mut i: usize = 0;
        while i < keys.len()
            invariant
                i <= keys@.len(),
                ks == texts(keys@),
                m == table_fields(table),
                lists_keys(ks, m),
                entries@.len() == i,
                forall|k: int|
                    0 <= k < i ==> {
                        &&& (#[trigger] entries@[k]).key@ == ks[k]
                        &&& entries@[k].rule == rule_in(m[ks[k]])
                        &&& entries@[k].literals == literals(ks[k])
                        &&& entries@[k].wildcards == wildcards(ks[k])
                    },
            decreases keys@.len() - i,
        {
            proof {
                assert(ks[i as int] == keys@[i as int]@);
                assert(ks.contains(ks[i as int]));
            }
            let key = keys[i].as_str();
            let (lit, wild) = key_weights(key);
            let rule = match table_item(&table, key) {
                Some(item) => parse_rule_item(&item),
                None => None,
            };
            entries.push(
                CompiledEntry { key: keys[i].clone(), rule, literals: lit, wildcards: wild },
            );
            i += 1;
        }
        let r = CompiledRules { entries, unknown: self.unknown };
        proof {
            assert forall|i: int, j: int| 0 <= i < j < r.entries@.len() implies (
            #[trigger] r.entries@[i]).key@ != (#[trigger] r.entries@[j]).key@ by {
                assert(ks[i] != ks[j]);
            }
            assert(r.wf());
            let rules = rules_in(self.content());
            assert(entries_in(self.content()) == m);
            assert forall|k: Seq<char>|
                r.rules().dom().contains(k) <==> rules.dom().contains(k) by {
                if has_entry(r.entries@, k) {
                    let i = entry_at(r.entries@, k);
                    assert(ks[i] == k);
                    assert(ks.contains(k));
                }
                if m.dom().contains(k) {
                    assert(ks.contains(k));
                    let i = choose|i: int| 0 <= i < ks.len() && ks[i] == k;
                    assert(r.entries@[i].key@ == k);
                }
            }
            assert forall|k: Seq<char>| r.rules().dom().contains(k) implies r.rules()[k]
                == rules[k] by {
                let i = entry_at(r.entries@, k);
                assert(r.entries@[i].key@ == k);
                assert(ks[i] == k);
                r.lemma_entry(i);
                assert(rules.dom().contains(k));
                assert(rules[k] == rule_in(m[k]));
            }
            assert(r.rules() =~= rules);
        }
        r
    }

    /// Whether a `size`-byte representation of `mime` may sync.
    pub fn allows(&self, mime: &str, size: usize) -> (r: bool)
        ensures
            r == may_sync(rules_in(self.content()), self.policy(), mime@, size as nat),
    {
        self.compile().allows(mime, size)
    }

    /// Whether any of `mimes` is matched by no `[rules]` key.
    pub fn has_unseen(&self, mimes: &[String]) -> (r: bool)
        ensures
            r == exists|i: int|
                0 <= i < mimes@.len() && !known(rules_in(self.content()), #[trigger] mimes@[i]@),
            r == any_unseen(rules_in(self.content()), texts(mimes@)),
    {
        let r = self.compile().has_unseen(mimes);
        proof {
            let rules = rules_in(self.content());
            if r {
                let i = choose|i: int|
                    0 <= i < mimes@.len() && !known(rules, #[trigger] mimes@[i]@);
                assert(texts(mimes@)[i] == mimes@[i]@);
                assert(unseen(rules, texts(mimes@), mimes@[i]@));
            }
            assert forall|k: Seq<char>| #[trigger] unseen(rules, texts(mimes@), k) implies r by {
                let i = choose|i: int| 0 <= i < texts(mimes@).len() && texts(mimes@)[i] == k;
                assert(mimes@[i]@ == k);
            }
        }
        r
    }

    /// Whether there are in-memory rule changes not yet written to disk.
    pub fn is_dirty(&self) -> (r: bool)
        ensures
            r == self.pending(),
    {
        self.dirty
    }

    /// Adds a default rule for every unseen type, to be written if any were added.
    /// Returns whether anything was added.
    pub fn ensure(&mut self, mimes: &[String]) -> (added: bool)
        ensures
            final(self).policy() == old(self).policy(),
            final(self).file() == old(self).file(),
            final(self).on_disk() == old(self).on_disk(),
            added == exists|k: Seq<char>|
                #[trigger] unseen(rules_in(old(self).content()), texts(mimes@), k),
            added == any_unseen(rules_in(old(self).content()), texts(mimes@)),
            !added ==> *final(self) == *old(self),
            added ==> {
                &&& final(self).pending()
                &&& old(self).stays_readable(*final(self), "rules"@)
                &&& same_but_for(old(self).content(), final(self).content(), "rules"@)
                &&& entries_in(final(self).content()) == ensured(
                    entries_in(old(self).content()),
                    rules_in(old(self).content()),
                    texts(mimes@),
                    word(old(self).policy() == MimePolicy::Allow),
                )
                &&& spelled_in(final(self).content()) == ensured_texts(
                    spelled_in(old(self).content()),
                    rules_in(old(self).content()),
                    texts(mimes@),
                    string_value(word(old(self).policy() == MimePolicy::Allow)),
                )
                &&& old(self).keeps_surroundings(*final(self))
            },
    {
        let compiled = self.compile();
        let action = rule_word(self.unknown == MimePolicy::Allow);
        let mut table = table_or_new(&self.doc, "rules");
        let ghost was = table_fields(table);
        let ghost spelled = table_layout(table).texts;
        let ghost frame = table_layout(table).frame;
        let ghost rules = rules_in(self.content());
        let ghost ms = texts(mimes@);
        let ghost text = string_value(action@);
        let mut added = false;
        let mut i: usize = 0;
        proof {
            lemma_word_is_quotable(self.unknown == MimePolicy::Allow);
            assert(was =~= ensured(was, rules, ms.take(0), action@));
            assert(spelled =~= ensured_texts(spelled, rules, ms.take(0), text));
        }
        while i < mimes.len()
            invariant
                i <= mimes@.len(),
                ms == texts(mimes@),
                compiled.wf(),
                rules == compiled.rules(),
                added == exists|k: Seq<char>| #[trigger] unseen(rules, ms.take(i as int), k),
                table_fields(table) == ensured(was, rules, ms.take(i as int), action@),
                table_layout(table).texts == ensured_texts(
                    spelled,
                    rules,
                    ms.take(i as int),
                    text,
                ),
                table_layout(table).frame == frame,
                text == string_value(action@),
                quotable(action@),
                doc_readable(self.doc) ==> table_readable(table),
            decreases mimes@.len() - i,
        {
            let ghost (before, now) = (ms.take(i as int), ms.take(i + 1));
            let ghost m = ms[i as int];
            proof {
                assert(m == mimes@[i as int]@);
                assert(now =~= before.push(m));
                assert forall|k: Seq<char>|
                    #![trigger unseen(rules, now, k)]
                    unseen(rules, now, k) <==> unseen(rules, before, k) || (k == m && !known(
                        rules,
                        m,
                    )) by {
                    assert(now.contains(k) <==> before.contains(k) || k == m) by {
                        if now.contains(k) {
                            let j = choose|j: int| 0 <= j < now.len() && now[j] == k;
                            if j < i {
                                assert(before[j] == k);
                            }
                        }
                        if before.contains(k) {
                            let j = choose|j: int| 0 <= j < before.len() && before[j] == k;
                            assert(now[j] == k);
                        }
                        assert(now[i as int] == m);
                    }
                }
                if added {
                    let k = choose|k: Seq<char>| #[trigger] unseen(rules, before, k);
                    assert(unseen(rules, now, k));
                }
            }
            if !compiled.any_match(mimes[i].as_str()) {
                table_put_text(&mut table, mimes[i].as_str(), action);
                added = true;
                proof {
                    assert(unseen(rules, now, m));
                    assert(table_fields(table) =~= ensured(was, rules, now, action@));
                    assert(table_layout(table).texts =~= ensured_texts(spelled, rules, now, text));
                }
            } else {
                proof {
                    assert(table_fields(table) =~= ensured(was, rules, now, action@));
                    assert(table_layout(table).texts =~= ensured_texts(spelled, rules, now, text));
                    if exists|k: Seq<char>| #[trigger] unseen(rules, now, k) {
                        let k = choose|k: Seq<char>| #[trigger] unseen(rules, now, k);
                        assert(unseen(rules, before, k));
                    }
                }
            }
            i += 1;
        }
        proof {
            assert(ms.take(ms.len() as int) =~= ms);
        }
        if !added {
            return false;
        }
        let ghost fields = doc_content(self.doc).fields;
        set_document_table(&mut self.doc, "rules", table);
        self.dirty = true;
        proof {
            assert(fields.insert(
                "rules"@,
                TomlView::Section(table_fields(table)),
            ).remove("rules"@) =~= fields.remove("rules"@));
        }
        true
    }

    /// Takes out every `[rules]` entry that the glob `pattern` collapses. Returns the
    /// entries taken out as copy-pasteable lines, in the order of their keys.
    pub fn remove_matching(&mut self, pattern: &str) -> (lines: Vec<String>)
        ensures
            final(self).policy() == old(self).policy(),
            final(self).file() == old(self).file(),
            final(self).on_disk() == old(self).on_disk(),
            final(self).pending() == (old(self).pending() || lines@.len() > 0),
            old(self).readable() ==> final(self).readable(),
            lines@.len() == 0 ==> *final(self) == *old(self),
            lines@.len() > 0 ==> !holds_value(final(self).content(), "rules"@),
            same_but_for(old(self).content(), final(self).content(), "rules"@),
            entries_in(final(self).content()) == Map::new(
                |k: Seq<char>|
                    entries_in(old(self).content()).dom().contains(k) && !collapses(pattern@, k),
                |k: Seq<char>| entries_in(old(self).content())[k],
            ),
            spelled_in(final(self).content()) == kept_texts(
                spelled_in(old(self).content()),
                pattern@,
            ),
            lists_table(old(self).content(), "rules"@) ==> lists_table(
                final(self).content(),
                "rules"@,
            ),
            old(self).keeps_surroundings(*final(self)),
            removed_lines(texts(lines@), old(self).content(), pattern@, old(self).readable()),
    {
        let ghost entries = entries_in(self.content());
        let ghost spelled = spelled_in(self.content());
        let ghost fields = doc_content(self.doc).fields;
        let mut table = match document_table(&self.doc, "rules") {
            Some(t) => t,
            None => {
                let none: Vec<String> = Vec::new();
                proof {
                    let keys = Seq::<Seq<char>>::empty();
                    assert(texts(none@) =~= Seq::<Seq<char>>::empty());
                    assert(removed_as(
                        keys,
                        texts(none@),
                        self.content(),
                        pattern@,
                        self.readable(),
                    ));
                    assert(entries =~= Map::new(
                        |k: Seq<char>| entries.dom().contains(k) && !collapses(pattern@, k),
                        |k: Seq<char>| entries[k],
                    ));
                    assert(spelled =~= kept_texts(spelled, pattern@));
                }
                return none;
            },
        };
        let keys = table_keys(&table);
        let order = sort_order(&keys);
        let ghost ks = texts(keys@);
        let ghost listed = crate::order::arranged(ks, order@);
        proof {
            assert(keys.len() <= usize::MAX);
            lemma_arranged(ks, order@);
        }
        let mut lines: Vec<String> = Vec::new();
        let ghost mut gone: Seq<Seq<char>> = Seq::empty();
        let mut i: usize = 0;
        proof {
            assert(texts(lines@) =~= Seq::<Seq<char>>::empty());
            assert(table_fields(table) =~= kept(entries, pattern@, listed.take(0)));
        }
        while i < order.len()
            invariant
                i <= order@.len(),
                order@.len() == keys@.len(),
                ks == texts(keys@),
                crate::order::sorts(order@, ks),
                listed == crate::order::arranged(ks, order@),
                distinct(listed),
                ascending(listed),
                lists_keys(ks, entries),
                table_fields(table) == kept(entries, pattern@, listed.take(i as int)),
                spelled == spelled_in(self.content()),
                table_layout(table).frame == self.content().layouts["rules"@].frame,
                forall|k: Seq<char>| #[trigger]
                    table_layout(table).texts.dom().contains(k) <==> spelled.dom().contains(k)
                        && !(listed.take(i as int).contains(k) && collapses(pattern@, k)),
                forall|k: Seq<char>| #[trigger]
                    table_layout(table).texts.dom().contains(k) ==> table_layout(table).texts[k]
                        == spelled[k],
                doc_readable(self.doc) ==> table_readable(table),
                lines@.len() == gone.len(),
                gone.len() <= i,
                i > 0 && gone.len() > 0 ==> exists|j: int|
                    0 <= j < i && #[trigger] listed[j] == gone.last(),
                distinct(gone),
                ascending(gone),
                forall|k: Seq<char>| #[trigger]
                    gone.contains(k) <==> listed.take(i as int).contains(k) && collapses(
                        pattern@,
                        k,
                    ),
                forall|j: int|
                    0 <= j < gone.len() ==> is_echo(
                        (#[trigger] lines@[j])@,
                        gone[j],
                        entries[gone[j]],
                        entry_text(self.content(), gone[j]),
                        self.readable(),
                    ),
                entries == entries_in(self.content()),
                forall|k: Seq<char>| #[trigger]
                    table_fields(table).dom().contains(k) ==> table_layout(table).inlined.get(k)
                        == self.content().layouts["rules"@].inlined.get(k),
            decreases order@.len() - i,
        {
            let at: usize = order[i];
            let key = keys[at].as_str();
            let ghost (before, now) = (listed.take(i as int), listed.take(i + 1));
            proof {
                assert(listed[i as int] == key@);
                assert(ks[at as int] == key@);
                assert(ks.contains(key@));
                assert(now =~= before.push(key@));
                assert forall|k: Seq<char>| now.contains(k) <==> before.contains(k) || k == key@ by {
                    if now.contains(k) {
                        let j = choose|j: int| 0 <= j < now.len() && now[j] == k;
                        if j < i {
                            assert(before[j] == k);
                        }
                    }
                    if before.contains(k) {
                        let j = choose|j: int| 0 <= j < before.len() && before[j] == k;
                        assert(now[j] == k);
                    }
                    assert(now[i as int] == key@);
                }
                assert(!before.contains(key@)) by {
                    if before.contains(key@) {
                        let j = choose|j: int| 0 <= j < before.len() && before[j] == key@;
                        assert(listed[j] == listed[i as int]);
                    }
                }
                assert(table_fields(table).dom().contains(key@));
            }
            if !same(key, pattern) && glob_match(pattern, key) {
                if let Some(item) = table_item(&table, key) {
                    let ghost (said, text) = (lines@, text_as_value(item));
                    proof {
                        assert(item_view(item) == entries[key@]);
                        assert(text == entry_text(self.content(), key@));
                    }
                    lines.push(render_entry(key, item));
                    proof {
                        let line = lines@[said.len() as int]@;
                        assert(is_echo(line, key@, entries[key@], text, self.readable()));
                    }
                }
                table_remove(&mut table, key);
                proof {
                    let was = gone;
                    gone = gone.push(key@);
                    assert(!was.contains(key@));
                    assert forall|k: Seq<char>| #[trigger]
                        gone.contains(k) <==> now.contains(k) && collapses(pattern@, k) by {
                        if gone.contains(k) {
                            let j = choose|j: int| 0 <= j < gone.len() && gone[j] == k;
                            if j < was.len() {
                                assert(was[j] == k);
                                assert(was.contains(k));
                            }
                        }
                        if was.contains(k) {
                            let j = choose|j: int| 0 <= j < was.len() && was[j] == k;
                            assert(gone[j] == k);
                        }
                        assert(gone[was.len() as int] == key@);
                    }
                    assert forall|a: int, b: int| 0 <= a < b < gone.len() implies #[trigger] gone[a]
                        != #[trigger] gone[b] && !crate::order::before(gone[b], gone[a]) by {
                        if b == was.len() {
                            assert(was.contains(was[a]));
                            assert(before.contains(was[a]));
                            let j = choose|j: int| 0 <= j < before.len() && before[j] == was[a];
                            assert(listed[j] == was[a]);
                            assert(listed[i as int] == key@);
                        } else {
                            assert(gone[a] == was[a] && gone[b] == was[b]);
                        }
                    }
                    assert(table_fields(table) =~= kept(entries, pattern@, now));
                    assert(listed[i as int] == gone.last());
                }
            } else {
                proof {
                    assert(!collapses(pattern@, key@));
                    assert(table_fields(table) =~= kept(entries, pattern@, now));
                    assert forall|k: Seq<char>| #[trigger]
                        gone.contains(k) <==> now.contains(k) && collapses(pattern@, k) by {}
                }
            }
            i += 1;
        }
        proof {
            lemma_arranged(ks, order@);
            assert(listed.take(listed.len() as int) =~= listed);
            assert(removed_as(
                gone,
                texts(lines@),
                self.content(),
                pattern@,
                self.readable(),
            )) by {
                assert forall|k: Seq<char>| #[trigger]
                    gone.contains(k) <==> entries.dom().contains(k) && collapses(pattern@, k) by {
                    assert(listed.contains(k) <==> ks.contains(k));
                }
            }
            assert(table_layout(table).texts =~= kept_texts(spelled, pattern@)) by {
                assert forall|k: Seq<char>| spelled.dom().contains(k) && collapses(
                    pattern@,
                    k,
                ) implies !table_layout(table).texts.dom().contains(k) by {
                    assert(ks.contains(k) <==> listed.contains(k));
                }
            }
            assert(table_fields(table) =~= Map::new(
                |k: Seq<char>| entries.dom().contains(k) && !collapses(pattern@, k),
                |k: Seq<char>| entries[k],
            )) by {
                assert forall|k: Seq<char>| entries.dom().contains(k) implies listed.contains(
                    k,
                ) by {
                    assert(ks.contains(k));
                }
            }
        }
        if lines.len() > 0 {
            set_document_table(&mut self.doc, "rules", table);
            self.dirty = true;
            proof {
                assert(fields.insert(
                    "rules"@,
                    TomlView::Section(table_fields(table)),
                ).remove("rules"@) =~= fields.remove("rules"@));
            }
        } else {
            proof {
                assert(entries =~= table_fields(table)) by {
                    assert forall|k: Seq<char>| entries.dom().contains(k) implies !collapses(
                        pattern@,
                        k,
                    ) by {
                        if collapses(pattern@, k) {
                            assert(gone.contains(k));
                        }
                    }
                }
            }
        }
        lines
    }

    /// Adds or replaces a single `allow`/`deny` rule for `key` (which may be a glob).
    pub fn set_rule(&mut self, key: &str, allow: bool)
        ensures
            final(self).policy() == old(self).policy(),
            final(self).file() == old(self).file(),
            final(self).on_disk() == old(self).on_disk(),
            final(self).pending(),
            old(self).stays_readable(*final(self), "rules"@),
            same_but_for(old(self).content(), final(self).content(), "rules"@),
            entries_in(final(self).content()) == entries_in(old(self).content()).insert(
                key@,
                TomlView::Text(word(allow)),
            ),
            spelled_in(final(self).content()) == spelled_in(old(self).content()).insert(
                key@,
                string_value(word(allow)),
            ),
            old(self).keeps_surroundings(*final(self)),
    {
        let ghost fields = doc_content(self.doc).fields;
        let mut table = table_or_new(&self.doc, "rules");
        proof {
            lemma_word_is_quotable(allow);
        }
        table_put_text(&mut table, key, rule_word(allow));
        set_document_table(&mut self.doc, "rules", table);
        self.dirty = true;
        proof {
            assert(fields.insert(
                "rules"@,
                TomlView::Section(table_fields(table)),
            ).remove("rules"@) =~= fields.remove("rules"@));
        }
    }

    /// Applies an `--allow`/`--deny` glob: drops the entries it now covers, then sets
    /// the rule itself. Returns the dropped entries as copy-pasteable lines, in the
    /// order of their keys.
    pub fn apply_glob(&mut self, allow: bool, pattern: &str) -> (lines: Vec<String>)
        ensures
            final(self).policy() == old(self).policy(),
            final(self).file() == old(self).file(),
            final(self).on_disk() == old(self).on_disk(),
            final(self).pending(),
            old(self).stays_readable(*final(self), "rules"@),
            same_but_for(old(self).content(), final(self).content(), "rules"@),
            entries_in(final(self).content()) == globbed(
                entries_in(old(self).content()),
                pattern@,
                allow,
            ),
            spelled_in(final(self).content()) == kept_texts(
                spelled_in(old(self).content()),
                pattern@,
            ).insert(pattern@, string_value(word(allow))),
            old(self).keeps_surroundings(*final(self)),
            removed_lines(texts(lines@), old(self).content(), pattern@, old(self).readable()),
    {
        let lines = self.remove_matching(pattern);
        self.set_rule(pattern, allow);
        lines
    }
}

/// The entries that are left when the glob has been held against the keys `seen`.
spec fn kept(
    entries: Map<Seq<char>, TomlView>,
    pattern: Seq<char>,
    seen: Seq<Seq<char>>,
) -> Map<Seq<char>, TomlView> {
    Map::new(
        |k: Seq<char>|
            entries.dom().contains(k) && !(seen.contains(k) && collapses(pattern, k)),
        |k: Seq<char>| entries[k],
    )
}

/// Whether `keys` are the entries of `d` that a glob collapses, in ascending order, and
/// `lines` are their lines. Of each the text is known: of an inline table, if the document is
/// laid out as one that was read.
pub open spec fn removed_as(
    keys: Seq<Seq<char>>,
    lines: Seq<Seq<char>>,
    d: TomlDoc,
    pattern: Seq<char>,
    readable: bool,
) -> bool {
    let entries = entries_in(d);
    &&& distinct(keys)
    &&& ascending(keys)
    &&& forall|k: Seq<char>| #[trigger]
        keys.contains(k) <==> entries.dom().contains(k) && collapses(pattern, k)
    &&& lines.len() == keys.len()
    &&& forall|i: int|
        0 <= i < keys.len() ==> is_echo(
            #[trigger] lines[i],
            keys[i],
            entries[keys[i]],
            entry_text(d, keys[i]),
            readable,
        )
}

/// Whether `lines` are the lines of the entries of `d` that a glob collapses, in the order
/// of their keys.
pub open spec fn removed_lines(
    lines: Seq<Seq<char>>,
    d: TomlDoc,
    pattern: Seq<char>,
    readable: bool,
) -> bool {
    exists|keys: Seq<Seq<char>>| removed_as(keys, lines, d, pattern, readable)
}

/// An [`Overlap`], over texts.
#[verifier::ext_equal]
pub struct OverlapView {
    pub key: Seq<char>,
    pub verdict: Verdict,
    pub relation: Relation,
}

/// A [`RuleReport`], over texts.
#[verifier::ext_equal]
pub struct ReportView {
    pub key: Seq<char>,
    pub verdict: Verdict,
    pub max: Option<Seq<char>>,
    pub overlaps: Seq<OverlapView>,
}

impl View for Overlap {
    type V = OverlapView;

    open spec fn view(&self) -> OverlapView {
        OverlapView { key: self.key@, verdict: self.verdict, relation: self.relation }
    }
}

impl View for RuleReport {
    type V = ReportView;

    open spec fn view(&self) -> ReportView {
        ReportView {
            key: self.key@,
            verdict: self.verdict,
            max: opt_text(self.max),
            overlaps: self.overlaps@.map_values(|o: Overlap| o@),
        }
    }
}

/// A report, over texts.
pub open spec fn reports(r: Seq<RuleReport>) -> Seq<ReportView> {
    r.map_values(|e: RuleReport| e@)
}

/// What a rule decides.
pub open spec fn verdict_of(rule: Option<MimeRule>) -> Verdict {
    match rule {
        Some(r) => if r.allow {
            Verdict::Allow
        } else {
            Verdict::Deny
        },
        None => Verdict::Invalid,
    }
}

/// The size cap of a `[rules]` value as written, where it is a usable one.
pub open spec fn cap_text_in(v: TomlView) -> Option<Seq<char>> {
    match rule_fields_in(v) {
        Some((_, Some(m))) => if cap_in(Some(m)) is Some {
            Some(m)
        } else {
            None
        },
        _ => None,
    }
}

/// How the glob `o` with the rule `theirs` relates to the entry `e`.
pub open spec fn relation_of(
    e: Seq<char>,
    ours: Option<MimeRule>,
    o: Seq<char>,
    theirs: MimeRule,
) -> Relation {
    match ours {
        None => Relation::DecidesInstead,
        Some(m) => if m.allow == theirs.allow {
            Relation::Redundant
        } else if outranks(e, m.allow, o, theirs.allow) {
            Relation::Overrides
        } else {
            Relation::OverriddenBy
        },
    }
}

/// What the report says of the entry `o` at the entry `e`: nothing, unless it is
/// another glob with a usable rule that matches the key.
pub open spec fn overlap_in(
    entries: Map<Seq<char>, TomlView>,
    e: Seq<char>,
    o: Seq<char>,
) -> Option<OverlapView> {
    if is_glob(o) && o != e && covers(o, e) && rule_in(entries[o]) is Some {
        Some(
            OverlapView {
                key: o,
                verdict: verdict_of(rule_in(entries[o])),
                relation: relation_of(e, rule_in(entries[e]), o, rule_in(entries[o])->0),
            },
        )
    } else {
        None
    }
}

/// What the report says at the entry `e`, in the order of `keys`.
pub open spec fn overlaps_in(
    entries: Map<Seq<char>, TomlView>,
    e: Seq<char>,
    keys: Seq<Seq<char>>,
) -> Seq<OverlapView>
    decreases keys.len(),
{
    if keys.len() == 0 {
        Seq::empty()
    } else {
        let rest = overlaps_in(entries, e, keys.drop_last());
        match overlap_in(entries, e, keys.last()) {
            Some(o) => rest.push(o),
            None => rest,
        }
    }
}

/// The report on the entry `e` of a ruleset whose keys are `keys`.
pub open spec fn report_on(
    entries: Map<Seq<char>, TomlView>,
    keys: Seq<Seq<char>>,
    e: Seq<char>,
) -> ReportView {
    ReportView {
        key: e,
        verdict: verdict_of(rule_in(entries[e])),
        max: cap_text_in(entries[e]),
        overlaps: overlaps_in(entries, e, keys),
    }
}

/// Whether `report` is the report on a ruleset, in the order of its keys.
pub open spec fn is_report(
    report: Seq<ReportView>,
    entries: Map<Seq<char>, TomlView>,
    keys: Seq<Seq<char>>,
) -> bool {
    &&& lists_keys(keys, entries)
    &&& ascending(keys)
    &&& report == keys.map_values(|e: Seq<char>| report_on(entries, keys, e))
}

/// An entry of the report, parsed once.
struct Parsed {
    key: String,
    rule: Option<MimeRule>,
    max: Option<String>,
    glob: bool,
    weights: (usize, usize),
}

/// Whether `p` is the entry `key` of a ruleset, parsed.
spec fn parsed_as(p: Parsed, key: Seq<char>, entries: Map<Seq<char>, TomlView>) -> bool {
    &&& p.key@ == key
    &&& p.rule == rule_in(entries[key])
    &&& opt_text(p.max) == cap_text_in(entries[key])
    &&& p.glob == is_glob(key)
    &&& p.weights.0 == literals(key)
    &&& p.weights.1 == wildcards(key)
}

fn parse_entry(key: &str, item: &Item) -> (p: Parsed)
    ensures
        p.key@ == key@,
        p.rule == rule_in(item_view(*item)),
        opt_text(p.max) == cap_text_in(item_view(*item)),
        p.glob == is_glob(key@),
        p.weights.0 == literals(key@),
        p.weights.1 == wildcards(key@),
{
    let (rule, max) = match rule_fields(item) {
        Some((rule, max)) => {
            let parsed = parse_rule(rule.as_str(), as_opt_str(&max));
            let usable = usable_cap(as_opt_str(&max)).is_some();
            (
                parsed,
                if usable {
                    max
                } else {
                    None
                },
            )
        },
        None => (None, None),
    };
    Parsed { key: key.to_string(), rule, max, glob: has_wildcard(key), weights: key_weights(key) }
}

/// What a rule decides.
fn verdict(rule: Option<MimeRule>) -> (r: Verdict)
    ensures
        r == verdict_of(rule),
{
    match rule {
        Some(r) => {
            if r.allow {
                Verdict::Allow
            } else {
                Verdict::Deny
            }
        },
        None => Verdict::Invalid,
    }
}

/// What the report says of one entry at another.
fn overlap(e: &Parsed, o: &Parsed, Ghost(entries): Ghost<Map<Seq<char>, TomlView>>) -> (r: Option<
    Overlap,
>)
    requires
        parsed_as(*e, e.key@, entries),
        parsed_as(*o, o.key@, entries),
    ensures
        match r {
            Some(v) => overlap_in(entries, e.key@, o.key@) == Some(v@),
            None => overlap_in(entries, e.key@, o.key@) is None,
        },
{
    if !o.glob || same(o.key.as_str(), e.key.as_str()) || !glob_match(
        o.key.as_str(),
        e.key.as_str(),
    ) {
        return None;
    }
    match o.rule {
        None => None,
        Some(theirs) => {
            let relation = match e.rule {
                None => Relation::DecidesInstead,
                Some(m) => {
                    if m.allow == theirs.allow {
                        Relation::Redundant
                    } else if takes_precedence(
                        e.key.as_str(),
                        e.weights,
                        m.allow,
                        o.key.as_str(),
                        o.weights,
                        theirs.allow,
                    ) {
                        Relation::Overrides
                    } else {
                        Relation::OverriddenBy
                    }
                },
            };
            Some(Overlap { key: o.key.clone(), verdict: verdict(o.rule), relation })
        },
    }
}

/// Reports on one entry of the parsed ruleset.
fn report_entry(
    parsed: &Vec<Parsed>,
    at: usize,
    Ghost(entries): Ghost<Map<Seq<char>, TomlView>>,
    Ghost(keys): Ghost<Seq<Seq<char>>>,
) -> (r: RuleReport)
    requires
        at < parsed@.len() == keys.len(),
        forall|i: int|
            0 <= i < keys.len() ==> parsed_as(#[trigger] parsed@[i], keys[i], entries),
    ensures
        r@ == report_on(entries, keys, keys[at as int]),
{
    let e = &parsed[at];
    let mut overlaps: Vec<Overlap> = Vec::new();
    let mut i: usize = 0;
    let ghost ek = keys[at as int];
    proof {
        assert(overlaps@.map_values(|o: Overlap| o@) =~= Seq::<OverlapView>::empty());
    }
    while i < parsed.len()
        invariant
            i <= parsed@.len() == keys.len(),
            at < parsed@.len(),
            *e == parsed@[at as int],
            ek == keys[at as int],
            forall|i: int|
                0 <= i < keys.len() ==> parsed_as(#[trigger] parsed@[i], keys[i], entries),
            overlaps@.map_values(|o: Overlap| o@) == overlaps_in(entries, ek, keys.take(i as int)),
        decreases parsed@.len() - i,
    {
        let o = &parsed[i];
        proof {
            assert(parsed_as(parsed@[at as int], keys[at as int], entries));
            assert(parsed_as(parsed@[i as int], keys[i as int], entries));
            assert(keys.take(i + 1).drop_last() =~= keys.take(i as int));
        }
        let ghost was = overlaps@;
        if let Some(v) = overlap(e, o, Ghost(entries)) {
            let ghost view = v@;
            overlaps.push(v);
            proof {
                assert(overlaps@.map_values(|o: Overlap| o@) =~= was.map_values(
                    |o: Overlap| o@,
                ).push(view));
            }
        }
        i += 1;
    }
    proof {
        assert(keys.take(keys.len() as int) =~= keys);
    }
    RuleReport {
        key: e.key.clone(),
        verdict: verdict(e.rule),
        max: clone_opt(&e.max),
        overlaps,
    }
}

impl MimeRules {
    /// Builds a read-only report of the rules (sorted by key) and, for each, any *other*
    /// glob whose pattern also matches that entry's key, flagging redundant duplicates
    /// (same verdict) and precedence conflicts.
    pub fn rules_report(&self) -> (r: Vec<RuleReport>)
        ensures
            exists|keys: Seq<Seq<char>>|
                is_report(reports(r@), entries_in(self.content()), keys),
    {
        let table = table_or_new(&self.doc, "rules");
        let keys = table_keys(&table);
        let order = sort_order(&keys);
        let ghost entries = entries_in(self.content());
        let ghost ks = texts(keys@);
        let ghost listed = crate::order::arranged(ks, order@);
        proof {
            assert(keys.len() <= usize::MAX);
            lemma_arranged(ks, order@);
        }
        let mut parsed: Vec<Parsed> = Vec::new();
        let mut i: usize = 0;
        while i < order.len()
            invariant
                i <= order@.len(),
                order@.len() == keys@.len(),
                ks == texts(keys@),
                crate::order::sorts(order@, ks),
                listed == crate::order::arranged(ks, order@),
                entries == table_fields(table),
                lists_keys(ks, entries),
                parsed@.len() == i,
                forall|k: int|
                    0 <= k < i ==> parsed_as(#[trigger] parsed@[k], listed[k], entries),
            decreases order@.len() - i,
        {
            let at: usize = order[i];
            proof {
                assert(listed[i as int] == ks[at as int]);
                assert(ks[at as int] == keys@[at as int]@);
                assert(ks.contains(ks[at as int]));
            }
            if let Some(item) = table_item(&table, keys[at].as_str()) {
                parsed.push(parse_entry(keys[at].as_str(), &item));
            }
            i += 1;
        }
        let mut report: Vec<RuleReport> = Vec::new();
        let mut j: usize = 0;
        while j < parsed.len()
            invariant
                j <= parsed@.len() == listed.len(),
                forall|k: int|
                    0 <= k < listed.len() ==> parsed_as(#[trigger] parsed@[k], listed[k], entries),
                report@.len() == j,
                forall|k: int|
                    0 <= k < j ==> (#[trigger] report@[k])@ == report_on(
                        entries,
                        listed,
                        listed[k],
                    ),
            decreases parsed@.len() - j,
        {
            report.push(report_entry(&parsed, j, Ghost(entries), Ghost(listed)));
            j += 1;
        }
        proof {
            lemma_arranged(ks, order@);
            assert(lists_keys(listed, entries)) by {
                assert forall|k: Seq<char>| #[trigger]
                    listed.contains(k) <==> entries.dom().contains(k) by {
                    assert(listed.contains(k) <==> ks.contains(k));
                }
            }
            assert(reports(report@) =~= listed.map_values(
                |e: Seq<char>| report_on(entries, listed, e),
            ));
            assert(is_report(reports(report@), entries, listed));
        }
        report
    }

    /// Starts writing the rules to disk if there are unsaved changes.
    pub fn persist(&self) -> (step: Persist)
        ensures
            match step {
                Persist::InSync => !self.pending(),
                Persist::NoFile => self.pending() && self.file() is None,
                Persist::Write { path, text } => {
                    &&& self.pending()
                    &&& self.file() == Some(path@)
                    &&& self.renders_to(text@)
                },
            },
    {
        if !self.dirty {
            return Persist::InSync;
        }
        match &self.path {
            None => Persist::NoFile,
            Some(path) => Persist::Write { path: path.clone(), text: self.body() },
        }
    }

    /// Takes the outcome of writing `text`. A text that was written is remembered, so
    /// that reading it back is no change; one that could not be written stays pending.
    /// Returns whether the file is in sync.
    pub fn persisted(&mut self, text: String, written: bool) -> (in_sync: bool)
        ensures
            in_sync == written,
            final(self).content() == old(self).content(),
            final(self).policy() == old(self).policy(),
            final(self).file() == old(self).file(),
            final(self).readable() == old(self).readable(),
            written ==> !final(self).pending() && final(self).on_disk() == Some(text@),
            !written ==> *final(self) == *old(self),
    {
        if written {
            self.loaded = Some(text);
            self.dirty = false;
        }
        written
    }

    /// Discards in-memory changes and restores the ruleset to the last content that was
    /// read or written. Without one that parses, the current document is kept.
    pub fn revert_to_loaded(&mut self)
        ensures
            final(self).policy() == old(self).policy(),
            final(self).file() == old(self).file(),
            final(self).on_disk() == old(self).on_disk(),
            reverted(*old(self), *final(self)),
    {
        let restored = match &self.loaded {
            Some(text) => parse_document(text.as_str()).ok(),
            None => None,
        };
        if let Some(doc) = restored {
            self.doc = doc;
            self.dirty = false;
        }
    }

    /// The file's whole-file version: the one that the managed `[clipmesh]` table
    /// records, else the file's modification time and the node's own identity.
    pub fn version(&self, own_id: NodeId, mtime_ms: u64) -> (v: Version)
        ensures
            v == version_in(self.content(), own_id, mtime_ms),
    {
        let stamp: Option<i64> = match document_field(&self.doc, "clipmesh", "version") {
            Some(item) => item_integer(&item),
            None => None,
        };
        let origin: Option<NodeId> = match document_field(&self.doc, "clipmesh", "origin") {
            Some(item) => match item_text(&item) {
                Some(text) => parse_uuid(text.as_str()),
                None => None,
            },
            None => None,
        };
        match (stamp, origin) {
            (Some(s), Some(o)) => {
                if s >= 0 {
                    Version::new(s as u64, o)
                } else {
                    Version::new(mtime_ms, own_id)
                }
            },
            _ => Version::new(mtime_ms, own_id),
        }
    }

    /// Whether the managed version is recorded in the file.
    pub fn has_version_header(&self) -> (r: bool)
        ensures
            r == (field(self.content(), "clipmesh"@, "version"@) is Some),
    {
        document_field(&self.doc, "clipmesh", "version").is_some()
    }

    /// Sets (or replaces) the managed version in the `[clipmesh]` table.
    pub fn set_version(&mut self, v: Version)
        ensures
            final(self).policy() == old(self).policy(),
            final(self).file() == old(self).file(),
            final(self).on_disk() == old(self).on_disk(),
            final(self).pending(),
            old(self).stays_readable(*final(self), "clipmesh"@),
            same_but_for(old(self).content(), final(self).content(), "clipmesh"@),
            records(final(self).content(), v),
    {
        let ghost fields = doc_content(self.doc).fields;
        let mut table = table_or_new(&self.doc, "clipmesh");
        let stamp: i64 = #[verifier::truncate] (v.stamp as i64);
        table_put_integer(&mut table, "version", stamp);
        let origin = uuid_text(v.origin);
        table_put_text(&mut table, "origin", origin.as_str());
        set_document_table(&mut self.doc, "clipmesh", table);
        self.dirty = true;
        proof {
            reveal_strlit("version");
            reveal_strlit("origin");
            assert("version"@.len() != "origin"@.len());
            assert(fields.insert(
                "clipmesh"@,
                TomlView::Section(table_fields(table)),
            ).remove("clipmesh"@) =~= fields.remove("clipmesh"@));
        }
    }

    /// Stamps `version` and starts writing the result. A version is never announced
    /// before it is on disk: every failure rolls the document back.
    pub fn snapshot_at(&mut self, version: Version, max_len: usize) -> (step: SnapshotStep)
        ensures
            final(self).policy() == old(self).policy(),
            final(self).file() == old(self).file(),
            final(self).on_disk() == old(self).on_disk(),
            exists|mid: MimeRules|
                {
                    &&& #[trigger] same_but_for(old(self).content(), mid.content(), "clipmesh"@)
                    &&& records(mid.content(), version)
                    &&& mid.pending()
                    &&& mid.on_disk() == old(self).on_disk()
                    &&& mid.file() == old(self).file()
                    &&& old(self).stays_readable(mid, "clipmesh"@)
                    &&& snapshot_step(mid, *final(self), step, version, max_len)
                },
    {
        self.set_version(version);
        self.begin_snapshot(version, max_len)
    }

    /// The current version, recorded first where the file records none yet, and the
    /// start of writing it. Does not claim a newer version.
    pub fn snapshot_baseline(&mut self, own_id: NodeId, mtime_ms: u64, max_len: usize) -> (step:
        SnapshotStep)
        ensures
            final(self).policy() == old(self).policy(),
            final(self).file() == old(self).file(),
            final(self).on_disk() == old(self).on_disk(),
            ({
                let version = version_in(old(self).content(), own_id, mtime_ms);
                if field(old(self).content(), "clipmesh"@, "version"@) is Some {
                    snapshot_step(*old(self), *final(self), step, version, max_len)
                } else {
                    exists|mid: MimeRules|
                        {
                            &&& #[trigger] same_but_for(
                                old(self).content(),
                                mid.content(),
                                "clipmesh"@,
                            )
                            &&& records(mid.content(), version)
                            &&& mid.pending()
                            &&& mid.on_disk() == old(self).on_disk()
                            &&& mid.file() == old(self).file()
                            &&& old(self).stays_readable(mid, "clipmesh"@)
                            &&& snapshot_step(mid, *final(self), step, version, max_len)
                        }
                }
            }),
    {
        let version = self.version(own_id, mtime_ms);
        if !self.has_version_header() {
            self.set_version(version);
        }
        self.begin_snapshot(version, max_len)
    }

    /// Measures the body, rejects it if oversized, and starts writing it.
    fn begin_snapshot(&mut self, version: Version, max_len: usize) -> (step: SnapshotStep)
        ensures
            final(self).policy() == old(self).policy(),
            final(self).file() == old(self).file(),
            final(self).on_disk() == old(self).on_disk(),
            snapshot_step(*old(self), *final(self), step, version, max_len),
    {
        let body = self.body();
        let len: usize = body.as_str().as_bytes().len();
        proof {
            assert(self.renders_to(body@));
        }
        if len > max_len {
            self.revert_to_loaded();
            return SnapshotStep::Failed(SnapshotError::TooLarge { len });
        }
        if !self.dirty {
            return SnapshotStep::Done(Snapshot { version, body });
        }
        match clone_opt(&self.path) {
            None => {
                self.revert_to_loaded();
                SnapshotStep::Failed(SnapshotError::WriteFailed)
            },
            Some(path) => SnapshotStep::Write { path, snapshot: Snapshot { version, body } },
        }
    }

    /// Takes the outcome of writing the body of `snapshot`. A snapshot that was written
    /// is handed out; otherwise the document is rolled back.
    pub fn finish_snapshot(&mut self, snapshot: Snapshot, written: bool) -> (r: Result<
        Snapshot,
        SnapshotError,
    >)
        ensures
            final(self).policy() == old(self).policy(),
            final(self).file() == old(self).file(),
            match r {
                Ok(s) => {
                    &&& written
                    &&& s == snapshot
                    &&& final(self).content() == old(self).content()
                    &&& final(self).on_disk() == Some(s.body@)
                    &&& !final(self).pending()
                    &&& final(self).readable() == old(self).readable()
                },
                Err(e) => {
                    &&& !written
                    &&& e == SnapshotError::WriteFailed
                    &&& final(self).on_disk() == old(self).on_disk()
                    &&& reverted(*old(self), *final(self))
                },
            },
    {
        if written {
            self.loaded = Some(snapshot.body.clone());
            self.dirty = false;
            Ok(snapshot)
        } else {
            self.revert_to_loaded();
            Err(SnapshotError::WriteFailed)
        }
    }
}

/// Whether reading the rules file gave a new external file: TOML that differs from
/// what was last read or written, and is not blank while there are rules to lose.
pub open spec fn is_change(rules: MimeRules, read: FileRead) -> bool {
    &&& rules.file() is Some
    &&& read matches FileRead::Text(t) && {
        &&& rules.on_disk() != Some(t@)
        &&& trim(t@).len() > 0 || rules.content().fields == no_fields()
        &&& toml_document(t@) is Some
    }
}

/// Whether `after` is `before` rolled back: it holds what the last text that was
/// read or written means, with nothing pending; where there is none, or it is no
/// TOML, nothing changes.
pub open spec fn reverted(before: MimeRules, after: MimeRules) -> bool {
    let restored = match before.on_disk() {
        Some(t) => toml_document(t),
        None => None,
    };
    match restored {
        Some(d) => after.content() == d && !after.pending() && after.readable(),
        None => after == before,
    }
}

/// Whether a document records the version `v` in its `[clipmesh]` table.
pub open spec fn records(d: TomlDoc, v: Version) -> bool {
    &&& field(d, "clipmesh"@, "version"@) == Some(TomlView::Integer(v.stamp as i64))
    &&& field(d, "clipmesh"@, "origin"@) matches Some(TomlView::Text(t)) && uuid_in(t) == Some(
        v.origin,
    )
}

/// Whether `step` is how a snapshot at `version` goes on from the ruleset `from`,
/// which it leaves as `to`: a body over the limit, or no file to write to, fails and
/// is rolled back; a ruleset that is on disk is done; else the body is to be
/// written.
pub open spec fn snapshot_step(
    from: MimeRules,
    to: MimeRules,
    step: SnapshotStep,
    version: Version,
    max_len: usize,
) -> bool {
    exists|body: Seq<char>|
        {
            &&& #[trigger] from.renders_to(body)
            &&& if encode_utf8(body).len() > max_len {
                &&& step matches SnapshotStep::Failed(SnapshotError::TooLarge { len }) && len
                    == encode_utf8(body).len()
                &&& reverted(from, to)
            } else if !from.pending() {
                &&& step matches SnapshotStep::Done(s) && s.version == version && s.body@ == body
                &&& to == from
            } else {
                match from.file() {
                    None => {
                        &&& step == SnapshotStep::Failed(SnapshotError::WriteFailed)
                        &&& reverted(from, to)
                    },
                    Some(p) => {
                        &&& step matches SnapshotStep::Write { path, snapshot } && path@ == p
                            && snapshot.version == version && snapshot.body@ == body
                        &&& to == from
                    },
                }
            }
        }
}

/// The warning that an entry of the file at `path` deserves, if any: it is no rule,
/// its word is neither `allow` nor `deny`, or its cap is no usable size.
pub open spec fn warning_for(mime: Seq<char>, v: TomlView, path: Seq<char>) -> Option<Seq<char>> {
    match rule_fields_in(v) {
        None => Some(
            "MIME rules: ignoring "@ + quoted(mime) + " in "@ + path
                + " \u{2014} value must be \"allow\"/\"deny\" or { rule = ..., max = ... }"@,
        ),
        Some((rule, max)) => if rule_from(rule, None) is None {
            Some(
                "MIME rules: ignoring "@ + quoted(mime) + " in "@ + path
                    + " \u{2014} rule must be \"allow\" or \"deny\", got "@ + quoted(rule),
            )
        } else if max is Some && cap_in(max) is None {
            Some(
                "MIME rules: ignoring the max-size "@ + quoted(max->0) + " on "@ + quoted(mime)
                    + " in "@ + path + " (the rule still applies)"@,
            )
        } else {
            None
        },
    }
}

/// The warnings that a ruleset deserves, in the order of `keys`.
pub open spec fn warnings_in(
    entries: Map<Seq<char>, TomlView>,
    keys: Seq<Seq<char>>,
    path: Seq<char>,
) -> Seq<Seq<char>>
    decreases keys.len(),
{
    if keys.len() == 0 {
        Seq::empty()
    } else {
        let rest = warnings_in(entries, keys.drop_last(), path);
        match warning_for(keys.last(), entries[keys.last()], path) {
            Some(w) => rest.push(w),
            None => rest,
        }
    }
}

/// The warning that an entry of the file at `path` deserves, if any.
fn warning(mime: &str, item: &Item, path: &str) -> (r: Option<String>)
    ensures
        opt_text(r) == warning_for(mime@, item_view(*item), path@),
{
    match rule_fields(item) {
        None => {
            let mut s = "MIME rules: ignoring ".to_string();
            s.append(quote(mime).as_str());
            s.append(" in ");
            s.append(path);
            s.append(
                " \u{2014} value must be \"allow\"/\"deny\" or { rule = ..., max = ... }",
            );
            Some(s)
        },
        Some((rule, max)) => {
            if parse_rule(rule.as_str(), None).is_none() {
                let mut s = "MIME rules: ignoring ".to_string();
                s.append(quote(mime).as_str());
                s.append(" in ");
                s.append(path);
                s.append(" \u{2014} rule must be \"allow\" or \"deny\", got ");
                s.append(quote(rule.as_str()).as_str());
                return Some(s);
            }
            let unusable = usable_cap(as_opt_str(&max)).is_none();
            match max {
                Some(m) => {
                    if unusable {
                        let mut s = "MIME rules: ignoring the max-size ".to_string();
                        s.append(quote(m.as_str()).as_str());
                        s.append(" on ");
                        s.append(quote(mime).as_str());
                        s.append(" in ");
                        s.append(path);
                        s.append(" (the rule still applies)");
                        Some(s)
                    } else {
                        None
                    }
                },
                None => None,
            }
        },
    }
}

impl MimeRules {
    /// The warnings about `[rules]` entries that aren't usable, for the file at `path`, in the
    /// order of the document.
    pub fn warn_invalid_rules(&self, path: &str) -> (r: Vec<String>)
        ensures
            texts(r@) == warnings_in(
                entries_in(self.content()),
                rule_order(self.content()),
                path@,
            ),
    {
        let table = table_or_new(&self.doc, "rules");
        let keys = table_keys(&table);
        let ghost entries = entries_in(self.content());
        let ghost ks = texts(keys@);
        let mut r: Vec<String> = Vec::new();
        let mut i: usize = 0;
        proof {
            assert(texts(r@) =~= Seq::<Seq<char>>::empty());
        }
        while i < keys.len()
            invariant
                i <= keys@.len(),
                ks == texts(keys@),
                entries == table_fields(table),
                lists_keys(ks, entries),
                texts(r@) == warnings_in(entries, ks.take(i as int), path@),
            decreases keys@.len() - i,
        {
            proof {
                assert(ks[i as int] == keys@[i as int]@);
                assert(ks.contains(ks[i as int]));
                assert(ks.take(i + 1).drop_last() =~= ks.take(i as int));
            }
            if let Some(item) = table_item(&table, keys[i].as_str()) {
                let ghost was = r@;
                if let Some(w) = warning(keys[i].as_str(), &item, path) {
                    let ghost text = w@;
                    r.push(w);
                    proof {
                        assert(texts(r@) =~= texts(was).push(text));
                    }
                }
            }
            i += 1;
        }
        proof {
            assert(ks.take(ks.len() as int) =~= ks);
            if !(self.content().fields.get("rules"@) matches Some(TomlView::Section(_))) {
                assert(ks =~= Seq::<Seq<char>>::empty()) by {
                    if ks.len() > 0 {
                        assert(ks.contains(ks[0]));
                    }
                }
            }
        }
        r
    }
}

/// What is written is not read back as a change.
pub proof fn an_own_write_is_no_change(rules: MimeRules, text: String)
    requires
        rules.on_disk() == Some(text@),
    ensures
        !is_change(rules, FileRead::Text(text)),
{
}

/// A blank file, as one caught in the middle of being saved, never wipes rules.
pub proof fn a_blank_file_wipes_nothing(rules: MimeRules, text: String)
    requires
        trim(text@).len() == 0,
        rules.content().fields != no_fields(),
    ensures
        !is_change(rules, FileRead::Text(text)),
{
}

/// A version that was recorded is the version that is read, whoever asks and
/// whenever the file was modified. (TOML integers are signed: a stamp beyond them
/// cannot be recorded.)
pub proof fn a_recorded_version_is_read_back(
    d: TomlDoc,
    v: Version,
    own_id: NodeId,
    mtime_ms: u64,
)
    requires
        records(d, v),
        v.stamp <= i64::MAX,
    ensures
        version_in(d, own_id, mtime_ms) == v,
{
}

/// Stamping a version touches no rule.
pub proof fn stamping_keeps_the_rules(a: TomlDoc, b: TomlDoc)
    requires
        same_but_for(a, b, "clipmesh"@),
    ensures
        rules_in(a) == rules_in(b),
{
    reveal_strlit("clipmesh");
    reveal_strlit("rules");
    assert("clipmesh"@.len() != "rules"@.len());
    assert(a.fields.remove("clipmesh"@).get("rules"@) == a.fields.get("rules"@));
    assert(b.fields.remove("clipmesh"@).get("rules"@) == b.fields.get("rules"@));
}

/// What saving sorts keeps its fields.
proof fn lemma_normal_form(a: TomlDoc, b: TomlDoc)
    requires
        normal_form(a, b),
    ensures
        a.fields == b.fields,
{
    let g = a.fields.get("rules"@);
    if g is Some && g->0 is Section {
        let order = choose|order: Seq<Seq<char>>| sorted_as(a, b, g->0->Section_0, order);
        assert(sorted_as(a, b, g->0->Section_0, order));
    }
}

/// What a ruleset saves as is read back as the same rules at the same version: by the node
/// that wrote it when it starts again, and by every peer that takes it over.
pub proof fn a_saved_ruleset_reads_back(
    rules: MimeRules,
    text: Seq<char>,
    own_id: NodeId,
    mtime_ms: u64,
)
    requires
        rules.readable(),
        rules.renders_to(text),
    ensures
        toml_document(text) is Some,
        rules_in(toml_document(text)->0) == rules_in(rules.content()),
        recorded_version(toml_document(text)->0) == recorded_version(rules.content()),
        version_in(toml_document(text)->0, own_id, mtime_ms) == version_in(
            rules.content(),
            own_id,
            mtime_ms,
        ),
{
    let (a, b) = (toml_document(text)->0, rules.content());
    assert(filled(a, "rules"@) == filled(b, "rules"@));
    assert(filled(a, "clipmesh"@) == filled(b, "clipmesh"@));
    assert(entries_in(a) =~= entries_in(b));
    assert(field(a, "clipmesh"@, "version"@) == field(b, "clipmesh"@, "version"@));
    assert(field(a, "clipmesh"@, "origin"@) == field(b, "clipmesh"@, "origin"@));
}

/// Saving sorts the rules and changes none of them, nor their version.
pub proof fn saving_keeps_the_rules(a: TomlDoc, b: TomlDoc, own_id: NodeId, mtime_ms: u64)
    requires
        normal_form(a, b),
    ensures
        rules_in(a) == rules_in(b),
        version_in(a, own_id, mtime_ms) == version_in(b, own_id, mtime_ms),
{
    lemma_normal_form(a, b);
}

/// Recording unseen types leaves none of them unseen: doing it again adds nothing.
pub proof fn ensuring_twice_adds_nothing(
    d: TomlDoc,
    after: TomlDoc,
    mimes: Seq<Seq<char>>,
    action: Seq<char>,
)
    requires
        entries_in(after) == ensured(entries_in(d), rules_in(d), mimes, action),
    ensures
        forall|k: Seq<char>| !#[trigger] unseen(rules_in(after), mimes, k),
{
    assert forall|k: Seq<char>| !#[trigger] unseen(rules_in(after), mimes, k) by {
        if mimes.contains(k) {
            if known(rules_in(d), k) {
                let key = choose|key: Seq<char>|
                    rules_in(d).dom().contains(key) && #[trigger] covers(key, k);
                assert(rules_in(after).dom().contains(key));
            } else {
                assert(unseen(rules_in(d), mimes, k));
                assert(rules_in(after).dom().contains(k));
                crate::glob::a_pattern_matches_itself(encode_utf8(k));
                assert(covers(k, k));
            }
        }
    }
}

/// Recording types as they are seen changes what is decided for no type: each gets
/// the answer that it got while it was unknown. (Type names hold no wildcards.)
pub proof fn recording_types_changes_no_answer(
    d: TomlDoc,
    after: TomlDoc,
    mimes: Seq<Seq<char>>,
    unknown: MimePolicy,
    mime: Seq<char>,
    size: nat,
)
    requires
        entries_in(after) == ensured(
            entries_in(d),
            rules_in(d),
            mimes,
            word(unknown == MimePolicy::Allow),
        ),
        forall|k: Seq<char>| mimes.contains(k) ==> !#[trigger] is_glob(k),
    ensures
        may_sync(rules_in(after), unknown, mime, size) == may_sync(
            rules_in(d),
            unknown,
            mime,
            size,
        ),
{
    let (was, now) = (rules_in(d), rules_in(after));
    let action = word(unknown == MimePolicy::Allow);
    reveal_strlit("allow");
    reveal_strlit("deny");
    assert("allow"@.len() != "deny"@.len());
    assert forall|k: Seq<char>| unseen(was, mimes, k) implies #[trigger] now.dom().contains(k)
        && now[k] == Some(
        MimeRule { allow: unknown == MimePolicy::Allow, max_size: None },
    ) by {
        assert(entries_in(after)[k] == TomlView::Text(action));
    }
    assert forall|k: Seq<char>| !unseen(was, mimes, k) implies (#[trigger] now.dom().contains(k)
        <==> was.dom().contains(k)) && (was.dom().contains(k) ==> now[k] == was[k]) by {}
    if exists|k: Seq<char>| unseen(was, mimes, k) && #[trigger] covers(k, mime) {
        let new = choose|k: Seq<char>| unseen(was, mimes, k) && #[trigger] covers(k, mime);
        // The type was unknown, for what matches it matches the new key.
        assert forall|key: Seq<char>| was.dom().contains(key) implies !#[trigger] covers(
            key,
            mime,
        ) by {
            if covers(key, mime) {
                let (p, t, u) = (encode_utf8(key), encode_utf8(mime), encode_utf8(new));
                assert(!is_glob(new));
                crate::glob::literal_pattern_is_case_insensitive_equality(u, t);
                assert(same_folded(t, u)) by {
                    assert forall|i: int| 0 <= i < t.len() implies crate::glob::fold(
                        #[trigger] t[i],
                    ) == crate::glob::fold(u[i]) by {
                        assert(crate::glob::fold(u[i]) == crate::glob::fold(t[i]));
                    }
                }
                crate::glob::matching_ignores_case(p, t, u);
                assert(covers(key, new));
                assert(known(was, new));
            }
        }
        assert(forall|key: Seq<char>| !candidate(was, key, mime));
        assert(forall|key: Seq<char>| decides(was, key, mime) ==> candidate(was, key, mime));
        assert(decision(was, mime) is None);
        if exists|key: Seq<char>| decides(now, key, mime) {
            let key = choose|key: Seq<char>| decides(now, key, mime);
            assert(candidate(now, key, mime));
            assert(unseen(was, mimes, key));
        }
    } else {
        assert forall|key: Seq<char>| #[trigger] candidate(now, key, mime) <==> candidate(
            was,
            key,
            mime,
        ) by {}
        assert forall|key: Seq<char>| #[trigger] candidate(was, key, mime) implies now[key]
            == was[key] by {}
        assert forall|key: Seq<char>| #[trigger] decides(now, key, mime) <==> decides(
            was,
            key,
            mime,
        ) by {
            if decides(now, key, mime) {
                assert(candidate(was, key, mime));
                assert forall|other: Seq<char>| #[trigger]
                    candidate(was, other, mime) && other != key implies outranks(
                    key,
                    was[key]->0.allow,
                    other,
                    was[other]->0.allow,
                ) by {
                    assert(candidate(now, other, mime));
                }
            }
            if decides(was, key, mime) {
                assert(candidate(now, key, mime));
                assert forall|other: Seq<char>| #[trigger]
                    candidate(now, other, mime) && other != key implies outranks(
                    key,
                    now[key]->0.allow,
                    other,
                    now[other]->0.allow,
                ) by {
                    assert(candidate(was, other, mime));
                }
            }
        }
        if exists|key: Seq<char>| decides(was, key, mime) {
            let key = choose|key: Seq<char>| decides(was, key, mime);
            assert(decides(now, key, mime));
            lemma_decision_is(was, key, mime);
            lemma_decision_is(now, key, mime);
        }
    }
}

/// Allowing or denying an exact type takes effect at every size, in whichever letters the
/// type is written, whatever else the ruleset held.
pub proof fn an_edit_of_an_exact_type_takes_effect(
    d: TomlDoc,
    after: TomlDoc,
    mime: Seq<char>,
    allow: bool,
    written_as: Seq<char>,
    unknown: MimePolicy,
    size: nat,
)
    requires
        !is_glob(mime),
        same_folded(encode_utf8(mime), encode_utf8(written_as)),
        entries_in(d).dom().finite(),
        entries_in(after) == globbed(entries_in(d), mime, allow),
    ensures
        may_sync(rules_in(after), unknown, written_as, size) == allow,
{
    let rules = rules_in(after);
    let (m, t) = (encode_utf8(mime), encode_utf8(written_as));
    reveal_strlit("allow");
    reveal_strlit("deny");
    assert("allow"@.len() != "deny"@.len());
    assert(entries_in(after)[mime] == TomlView::Text(word(allow)));
    assert(rules[mime] == Some(MimeRule { allow, max_size: None }));
    crate::glob::literal_pattern_is_case_insensitive_equality(m, t);
    assert(candidate(rules, mime, written_as));
    assert(rules.dom().subset_of(entries_in(d).dom().insert(mime)));
    vstd::set_lib::lemma_set_subset_finite(entries_in(d).dom().insert(mime), rules.dom());
    some_key_decides(rules, mime, written_as);
    let key = choose|key: Seq<char>| decides(rules, key, written_as);
    lemma_decision_is(rules, key, written_as);
    if key != mime {
        let k = encode_utf8(key);
        an_exact_rule_decides(rules, mime, key, written_as);
        crate::glob::literal_pattern_is_case_insensitive_equality(k, t);
        assert(same_folded(m, k)) by {
            assert forall|i: int| 0 <= i < m.len() implies crate::glob::fold(#[trigger] m[i])
                == crate::glob::fold(k[i]) by {
                assert(crate::glob::fold(k[i]) == crate::glob::fold(t[i]));
            }
        }
        crate::glob::literal_pattern_is_case_insensitive_equality(m, k);
        assert(collapses(mime, key));
        assert(entries_in(after).dom().contains(key));
    }
}

/// The report agrees with what is enforced: an entry that is reported as overridden
/// by a glob does not decide its own key, and a glob that is reported as overridden
/// does not decide it either.
pub proof fn the_report_agrees_with_enforcement(d: TomlDoc, e: Seq<char>, o: Seq<char>)
    requires
        entries_in(d).dom().contains(e),
        entries_in(d).dom().contains(o),
        overlap_in(entries_in(d), e, o) is Some,
    ensures
        overlap_in(entries_in(d), e, o)->0.relation == Relation::OverriddenBy ==> !decides(
            rules_in(d),
            e,
            e,
        ),
        overlap_in(entries_in(d), e, o)->0.relation == Relation::Overrides ==> !decides(
            rules_in(d),
            o,
            e,
        ),
        overlap_in(entries_in(d), e, o)->0.relation == Relation::DecidesInstead ==> !candidate(
            rules_in(d),
            e,
            e,
        ),
{
    let rules = rules_in(d);
    crate::glob::a_pattern_matches_itself(encode_utf8(e));
    assert(covers(e, e));
    assert(rules[e] == rule_in(entries_in(d)[e]));
    assert(rules[o] == rule_in(entries_in(d)[o]));
    assert(candidate(rules, o, e));
    if rules[e] is Some {
        assert(candidate(rules, e, e));
        let (ea, oa) = (rules[e]->0.allow, rules[o]->0.allow);
        if decides(rules, o, e) && outranks(e, ea, o, oa) {
            crate::glob::outranks_is_transitive(e, ea, o, oa, e, ea);
            crate::glob::outranks_is_irreflexive(e, ea);
        }
    }
}

/// The report never says of an exact key that a glob overrides it.
pub proof fn an_exact_entry_is_never_overridden(
    entries: Map<Seq<char>, TomlView>,
    e: Seq<char>,
    o: Seq<char>,
)
    requires
        !is_glob(e),
        overlap_in(entries, e, o) is Some,
    ensures
        overlap_in(entries, e, o)->0.relation != Relation::OverriddenBy,
{
    if rule_in(entries[e]) is Some {
        crate::glob::a_pattern_matches_itself(encode_utf8(e));
        crate::glob::exact_key_outranks_every_glob(
            e,
            rule_in(entries[e])->0.allow,
            o,
            rule_in(entries[o])->0.allow,
            e,
        );
    }
}

} // verus!
