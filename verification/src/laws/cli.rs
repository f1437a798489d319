//! The command line: what its arguments ask for, and what is said in answer.

use crate::cli::{apply_rule_edit, asks_to_paste, cap_text, check_pattern, cli_parsed, coloured};
use crate::cli::{colorize_globs, config_change_action, edit_base, edit_text, entry_lines, icon};
use crate::cli::{edit_report, paste_mode_args, print_rules, ActionView, CliArgs, CliView, ConfigChange, Opened, RuleEdit};
use crate::cli::{indented, key_text, key_width, label, no_rules, open_rules_file, overlap_lines};
use crate::cli::{policy_text, relation_text, report_lines, rules_text, sync_config_action};
use crate::cli::{verdict_icon, verdict_label, without_flag};
use crate::client::{ask, AskEvent, AskStep};
use crate::config::MimePolicy;
use crate::config_template::SyncOutcome;
use crate::fsutil::std_file_name;
use crate::glob::covers;
use crate::mime::{entries_in, reports, FileRead, OverlapView, Relation, ReportView, RuleReport};
use crate::mime::Verdict;
use crate::text::{decimal, has_prefix, has_suffix, is_space, join, repeat, texts, trim, trim_end};
use crate::toml::{toml_document, toml_fault, TomlDoc, TomlView};
use vstd::prelude::*;

verus! {

/// Whether `part` stands in `text`.
pub open spec fn stands_in(part: Seq<char>, text: Seq<char>) -> bool {
    exists|i: int| #[trigger] stands_at(part, text, i)
}

/// Whether `part` stands in `text` after `i` characters.
pub open spec fn stands_at(part: Seq<char>, text: Seq<char>, i: int) -> bool {
    0 <= i && i + part.len() <= text.len() && text.subrange(i, i + part.len()) == part
}

pub proof fn lemma_stands_in(a: Seq<char>, part: Seq<char>, b: Seq<char>)
    ensures
        stands_in(part, a + part + b),
{
    let text = a + part + b;
    assert(text.subrange(a.len() as int, (a.len() + part.len()) as int) =~= part);
    assert(stands_at(part, text, a.len() as int));
}

pub proof fn lemma_within(pre: Seq<char>, mid: Seq<char>, post: Seq<char>, part: Seq<char>, i: int)
    requires
        stands_at(part, mid, i),
    ensures
        stands_in(part, pre + mid + post),
{
    let text = pre + mid + post;
    assert(text.subrange(pre.len() + i, pre.len() + i + part.len()) =~= mid.subrange(
        i,
        i + part.len(),
    ));
    assert(stands_at(part, text, pre.len() + i));
}

proof fn lemma_prefix(p: Seq<char>, rest: Seq<char>)
    ensures
        has_prefix(p + rest, p),
{
    assert((p + rest).take(p.len() as int) =~= p);
}

/// The other arguments are left, in their order, when a flag is taken out.
pub proof fn only_the_flag_is_taken_out(
    a: Seq<Seq<char>>,
    x: Seq<char>,
    b: Seq<Seq<char>>,
    flag: Seq<char>,
)
    ensures
        without_flag(a + seq![x] + b, flag) == without_flag(a, flag) + (if x == flag {
            Seq::empty()
        } else {
            seq![x]
        }) + without_flag(b, flag),
        without_flag(Seq::empty(), flag).len() == 0,
    decreases b.len(),
{
    let all = a + seq![x] + b;
    let mid = if x == flag {
        Seq::empty()
    } else {
        seq![x]
    };
    if b.len() == 0 {
        assert(all.drop_last() =~= a);
    } else {
        only_the_flag_is_taken_out(a, x, b.drop_last(), flag);
        assert(all.drop_last() =~= a + seq![x] + b.drop_last());
        assert(all.last() == b.last());
    }
    assert(without_flag(all, flag) =~= without_flag(a, flag) + mid + without_flag(b, flag));
}

/// Both the name `wl-paste` and the flag `--paste` ask for paste mode, and nothing else does; the
/// other arguments are those of paste mode.
pub proof fn a_name_or_a_flag_asks_to_paste(
    prog: &str,
    args: &[String],
    r: Option<Vec<String>>,
    j: int,
)
    requires
        call_ensures(paste_mode_args, (prog, args), r),
    ensures
        std_file_name(prog@) == Some("wl-paste"@) ==> r is Some,
        0 <= j < args@.len() && texts(args@)[j] == "--paste"@ ==> r is Some,
        r is Some ==> std_file_name(prog@) == Some("wl-paste"@) || texts(args@).contains(
            "--paste"@,
        ),
        r matches Some(rest) ==> texts(rest@) == without_flag(texts(args@), "--paste"@),
{
    if 0 <= j < args@.len() && texts(args@)[j] == "--paste"@ {
        assert(texts(args@).contains("--paste"@));
        assert(asks_to_paste(prog@, texts(args@)));
    }
}

/// The arguments that ask for an action.
pub open spec fn action_args(a: ActionView) -> Seq<Seq<char>> {
    match a {
        ActionView::Edit { allow, pattern } => if allow {
            seq!["--allow"@, pattern]
        } else {
            seq!["--deny"@, pattern]
        },
        ActionView::PrintRules => seq!["--rules"@],
        ActionView::SyncConfig => seq!["--sync-config"@],
    }
}

/// What a whole command line asks for.
pub open spec fn asked(args: Seq<Seq<char>>) -> Option<CliView> {
    cli_parsed(args, 0, (CliView { config: None, action: None }))
}

proof fn lemma_flags()
    ensures
        "--config"@ != "--allow"@,
        "--config"@ != "--deny"@,
        "--config"@ != "--rules"@,
        "--config"@ != "--sync-config"@,
        "--allow"@ != "--deny"@,
        "--allow"@ != "--rules"@,
        "--allow"@ != "--sync-config"@,
        "--deny"@ != "--rules"@,
        "--deny"@ != "--sync-config"@,
        "--rules"@ != "--sync-config"@,
{
    reveal_strlit("--config");
    reveal_strlit("--allow");
    reveal_strlit("--deny");
    reveal_strlit("--rules");
    reveal_strlit("--sync-config");
    assert("--config"@[2] == 'c' && "--allow"@[2] == 'a' && "--deny"@[2] == 'd');
    assert("--rules"@[2] == 'r' && "--sync-config"@[2] == 's');
}

/// What is parsed is what the arguments ask for.
pub proof fn arguments_are_parsed_as_asked(args: &[String], r: Option<CliArgs>)
    requires
        call_ensures(CliArgs::parse, (args,), r),
    ensures
        r is Some <==> asked(texts(args@)) is Some,
        r matches Some(a) ==> asked(texts(args@)) == Some(a@),
{
}

/// A config file and an action may be asked for, each alone or both in either order.
pub proof fn arguments_mean_what_they_say(c: Seq<char>, a: ActionView)
    ensures
        asked(Seq::empty()) == Some((CliView { config: None, action: None })),
        asked(seq!["--config"@, c]) == Some((CliView { config: Some(c), action: None })),
        asked(action_args(a)) == Some((CliView { config: None, action: Some(a) })),
        asked(seq!["--config"@, c] + action_args(a)) == Some(
            (CliView { config: Some(c), action: Some(a) }),
        ),
        asked(action_args(a) + seq!["--config"@, c]) == Some(
            (CliView { config: Some(c), action: Some(a) }),
        ),
{
    lemma_flags();
    reveal_with_fuel(cli_parsed, 3);
    let f = seq!["--config"@, c];
    let (x, y) = (f + action_args(a), action_args(a) + f);
    assert(x[0] == "--config"@ && x[1] == c && x[2] == action_args(a)[0]);
    assert(y[0] == action_args(a)[0]);
    if let ActionView::Edit { allow, pattern } = a {
        assert(x.len() == 4 && x[3] == pattern);
        assert(y.len() == 4 && y[1] == pattern && y[2] == "--config"@ && y[3] == c);
    } else {
        assert(x.len() == 3 && y.len() == 3 && y[1] == "--config"@ && y[2] == c);
    }
}

/// No other arguments mean anything: what is asked for is asked for by its own arguments, and
/// by nothing beside them.
pub proof fn no_other_arguments_are_taken(args: Seq<Seq<char>>)
    requires
        asked(args) is Some,
    ensures
        ({
            let v = asked(args)->0;
            match (v.config, v.action) {
                (None, None) => args.len() == 0,
                (Some(c), None) => args == seq!["--config"@, c],
                (None, Some(a)) => args == action_args(a),
                (Some(c), Some(a)) => args == seq!["--config"@, c] + action_args(a) || args
                    == action_args(a) + seq!["--config"@, c],
            }
        }),
{
    lemma_flags();
    reveal_with_fuel(cli_parsed, 4);
    let v = asked(args)->0;
    if args.len() > 0 {
        match (v.config, v.action) {
            (None, None) => {},
            (Some(c), None) => {
                assert(args =~= seq!["--config"@, c]);
            },
            (None, Some(a)) => {
                assert(args =~= action_args(a));
            },
            (Some(c), Some(a)) => {
                if args[0] == "--config"@ {
                    assert(args =~= seq!["--config"@, c] + action_args(a));
                } else {
                    assert(args =~= action_args(a) + seq!["--config"@, c]);
                }
            },
        }
    }
}

/// The daemon restarts for a config file that reads otherwise than it did and can be used; not
/// for one that is gone, is as it was, or is broken.
pub proof fn a_changed_config_restarts(
    current: Option<&str>,
    original: &str,
    usable: bool,
    r: ConfigChange,
)
    requires
        call_ensures(config_change_action, (current, original, usable), r),
    ensures
        r is Restart <==> current is Some && current->0@ != original@ && usable,
{
}

/// What is said of a config file names it, and lists every option that was added.
pub proof fn a_rewritten_config_is_told(path: &str, outcome: SyncOutcome, r: String)
    requires
        call_ensures(sync_config_action, (path, &outcome), r),
    ensures
        stands_in(path@, r@),
        outcome is Unchanged ==> has_suffix(r@, " is already up to date"@),
        outcome matches SyncOutcome::Rewrote { added } ==> {
            &&& added@.len() > 0 ==> stands_in(join(texts(added@), ", "@), r@) && has_prefix(
                r@,
                "wrote "@ + path@ + " ("@ + decimal(added@.len()),
            )
            &&& added@.len() == 0 ==> has_prefix(r@, "refreshed "@)
        },
{
    let none = Seq::<char>::empty();
    match outcome {
        SyncOutcome::Unchanged => {
            lemma_stands_in("config "@, path@, " is already up to date"@);
            let t = " is already up to date"@;
            assert(r@.skip(r@.len() - t.len()) =~= t);
        },
        SyncOutcome::Rewrote { added } => {
            if added@.len() == 0 {
                lemma_stands_in("refreshed comments in "@, path@, none);
                assert("refreshed comments in "@ + path@ + none =~= r@);
                reveal_strlit("refreshed comments in ");
                reveal_strlit("refreshed ");
                assert(r@.take("refreshed "@.len() as int) =~= "refreshed "@);
            } else {
                let p = "wrote "@ + path@ + " ("@ + decimal(added@.len());
                let list = join(texts(added@), ", "@);
                let m = " option(s) added as commented defaults: "@;
                lemma_stands_in(p + m, list, ")"@);
                lemma_prefix(p, m + list + ")"@);
                assert(p + (m + list + ")"@) =~= r@);
                lemma_stands_in("wrote "@, path@, " ("@ + decimal(added@.len()) + m + list + ")"@);
                assert("wrote "@ + path@ + (" ("@ + decimal(added@.len()) + m + list + ")"@)
                    =~= r@);
            }
        },
    }
}

/// A rules file is read as it stands; one that is missing or empty holds no rules, one that
/// cannot be read or parsed is an error, which names it.
pub proof fn a_rules_file_is_opened_as_it_stands(
    path: &str,
    unknown: MimePolicy,
    read: FileRead,
    r: Result<Opened, String>,
)
    requires
        call_ensures(open_rules_file, (Some(path), unknown, read), r),
    ensures
        read is NotFound <==> r matches Ok(Opened::Absent),
        read is Failed ==> r is Err,
        read matches FileRead::Text(text) ==> {
            &&& trim(text@).len() == 0 <==> (r matches Ok(Opened::Blank))
            &&& trim(text@).len() > 0 ==> (r is Err <==> toml_document(text@) is None)
            &&& (r matches Ok(Opened::Rules(rules)) ==> toml_document(text@) == Some(
                rules.content(),
            ) && rules.policy() == unknown && rules.file() == Some(path@))
        },
        r matches Err(e) ==> stands_in(path@, e@) && match read {
            FileRead::Text(text) => has_suffix(e@, toml_fault(text@)),
            FileRead::Failed(why) => has_suffix(e@, why@),
            FileRead::NotFound => false,
        },
{
    if let Err(e) = r {
        match read {
            FileRead::Text(text) => {
                let why = toml_fault(text@);
                assert(e@.skip(e@.len() - why.len()) =~= why);
                let m = " isn't valid TOML — fix or delete it: "@ + toml_fault(text@);
                lemma_stands_in(Seq::empty(), path@, m);
                assert(Seq::<char>::empty() + path@ + m =~= e@);
            },
            FileRead::Failed(why) => {
                assert(e@.skip(e@.len() - why@.len()) =~= why@);
                lemma_stands_in("reading "@, path@, ": "@ + why@);
                assert("reading "@ + path@ + (": "@ + why@) =~= e@);
            },
            FileRead::NotFound => {},
        }
    }
}

/// A pattern of nothing but white space is refused, and no other.
pub proof fn an_empty_pattern_is_refused(pattern: &str, r: Result<(), String>)
    requires
        call_ensures(check_pattern, (pattern,), r),
    ensures
        r is Err <==> trim(pattern@).len() == 0,
{
}

/// Setting a rule sets it: from then on the pattern is allowed or denied as asked, no other
/// entry that it covers is left, and every entry that it does not cover is as it was in the
/// file, or in the skeleton where there was none.
pub proof fn a_rule_that_is_set_stands(
    path: Option<&str>,
    unknown: MimePolicy,
    read: FileRead,
    allow: bool,
    pattern: &str,
    r: Result<RuleEdit, String>,
    key: Seq<char>,
)
    requires
        call_ensures(apply_rule_edit, (path, unknown, read, allow, pattern), r),
    ensures
        r is Err <==> trim(pattern@).len() == 0 || path is None || read is Failed || (
        read matches FileRead::Text(t) && trim(t@).len() > 0 && toml_document(t@) is None),
        r matches Ok(edit) ==> {
            let after = entries_in(edit.rules.content());
            &&& after.get(pattern@) == Some(
                TomlView::Text(
                    if allow {
                        "allow"@
                    } else {
                        "deny"@
                    },
                ),
            )
            &&& key != pattern@ && covers(pattern@, key) ==> !after.dom().contains(key)
            &&& key != pattern@ && !covers(pattern@, key) ==> (read matches FileRead::Text(t) ==> (
            trim(t@).len() > 0 ==> (toml_document(t@) matches Some(d) && after.get(key)
                == entries_in(d).get(key))))
            &&& edit.rules.pending()
            &&& edit.rules.policy() == unknown
        },
{
    if let Ok(edit) = r {
        let d = choose|d: TomlDoc| #[trigger]
            edit_base(d, read) && crate::cli::edited(
                d,
                edit.rules.content(),
                allow,
                pattern@,
                texts(edit.removed@),
            );
        crate::laws::rules::a_glob_replaces_what_it_matches(entries_in(d), pattern@, allow, key);
    }
}

/// Every line is indented by itself.
pub proof fn each_line_is_indented(a: Seq<Seq<char>>, x: Seq<char>, b: Seq<Seq<char>>)
    ensures
        indented(a + seq![x] + b) == indented(a) + seq![' ', ' '] + x + seq!['\n'] + indented(b),
        indented(Seq::empty()).len() == 0,
    decreases b.len(),
{
    reveal_strlit("  ");
    reveal_strlit("\n");
    assert("  "@ =~= seq![' ', ' ']);
    assert("\n"@ =~= seq!['\n']);
    let all = a + seq![x] + b;
    if b.len() == 0 {
        assert(all.drop_last() =~= a);
    } else {
        each_line_is_indented(a, x, b.drop_last());
        assert(all.drop_last() =~= a + seq![x] + b.drop_last());
        assert(all.last() == b.last());
    }
    assert(indented(all) =~= indented(a) + seq![' ', ' '] + x + seq!['\n'] + indented(b));
}

/// What is said after a rule was set begins with the rule as the file writes it, names the file,
/// and lists whatever was removed; where nothing was, it says no more.
pub proof fn a_set_rule_is_told(
    pattern: &str,
    allow: bool,
    path: &str,
    removed: &[String],
    r: String,
)
    requires
        call_ensures(edit_report, (pattern, allow, path, removed), r),
    ensures
        ({
            let (text, removed) = (r@, texts(removed@));
            let (pattern, path) = (pattern@, path@);
            let rule = if allow {
                "Set \""@ + pattern + "\" = \"allow\""@
            } else {
                "Set \""@ + pattern + "\" = \"deny\""@
            };
            &&& has_prefix(text, rule + " in "@ + path + "\n"@)
            &&& removed.len() == 0 <==> text == rule + " in "@ + path + "\n"@
            &&& removed.len() > 0 ==> stands_in(indented(removed), text) && stands_in(
                decimal(removed.len()),
                text,
            )
        }),
{
    let removed = texts(removed@);
    let (pattern, path) = (pattern@, path@);
    let text = edit_text(pattern, allow, path, removed);
    let w = crate::mime::word(allow);
    reveal_strlit("\" = \"");
    reveal_strlit("allow");
    reveal_strlit("deny");
    reveal_strlit("\" in ");
    reveal_strlit("\" = \"allow\"");
    reveal_strlit("\" = \"deny\"");
    reveal_strlit(" in ");
    reveal_strlit("\nRemoved ");
    let quoted = if allow {
        "\" = \"allow\""@
    } else {
        "\" = \"deny\""@
    };
    assert("\" = \""@ + w + "\" in "@ =~= quoted + " in "@);
    let rule = "Set \""@ + pattern + quoted;
    let set = rule + " in "@ + path + "\n"@;
    assert("Set \""@ + pattern + "\" = \""@ + w + "\" in "@ + path + "\n"@ =~= "Set \""@ + pattern
        + ("\" = \""@ + w + "\" in "@) + path + "\n"@);
    assert("Set \""@ + pattern + (quoted + " in "@) + path + "\n"@ =~= set);
    if removed.len() == 0 {
        assert(text.take(set.len() as int) =~= set);
    } else {
        let n = decimal(removed.len());
        let m = " rule(s) now covered by \""@ + pattern + "\" = \""@ + w + "\":\n"@;
        let end = "\nRe-add any you want to keep as exceptions.\n"@;
        lemma_stands_in(set + "\nRemoved "@ + n + m, indented(removed), end);
        assert(set + "\nRemoved "@ + n + m + indented(removed) + end =~= text);
        lemma_stands_in(set + "\nRemoved "@, n, m + indented(removed) + end);
        assert(set + "\nRemoved "@ + n + (m + indented(removed) + end) =~= text);
        lemma_prefix(set, "\nRemoved "@ + n + m + indented(removed) + end);
        assert(set + ("\nRemoved "@ + n + m + indented(removed) + end) =~= text);
    }
}

/// No two verdicts have the same icon, and the label of a verdict shows its icon and its word.
pub proof fn verdicts_look_different(
    v: Verdict,
    w: Verdict,
    i: &'static str,
    j: &'static str,
    l: String,
)
    requires
        call_ensures(verdict_icon, (v,), i),
        call_ensures(verdict_icon, (w,), j),
        call_ensures(verdict_label, (v,), l),
    ensures
        i@ == j@ <==> v == w,
        has_prefix(l@, i@),
        stands_in(
            match v {
                Verdict::Allow => "allow"@,
                Verdict::Deny => "deny"@,
                Verdict::Invalid => "invalid"@,
            },
            l@,
        ),
        v is Allow ==> has_prefix(policy_text(MimePolicy::Allow), i@),
        v is Deny ==> has_prefix(policy_text(MimePolicy::Deny), i@),
        has_suffix(policy_text(MimePolicy::Allow), "allow"@),
        has_suffix(policy_text(MimePolicy::Deny), "deny"@),
{
    reveal_strlit("✅");
    reveal_strlit("⛔");
    reveal_strlit("⚠️");
    reveal_strlit("✅ allow");
    reveal_strlit("⛔ deny");
    reveal_strlit("allow");
    reveal_strlit("deny");
    assert("✅"@[0] == '✅' && "⛔"@[0] == '⛔' && "⚠️"@[0] == '⚠');
    let word = match v {
        Verdict::Allow => "allow"@,
        Verdict::Deny => "deny"@,
        Verdict::Invalid => "invalid"@,
    };
    let gap = if v is Invalid {
        "  "@
    } else {
        " "@
    };
    let fill = repeat(' ', (if word.len() < 7 { 7 - word.len() } else { 0 }) as nat);
    lemma_prefix(icon(v), gap + (word + fill));
    assert(icon(v) + (gap + (word + fill)) =~= l@);
    lemma_stands_in(icon(v) + gap, word, fill);
    assert(icon(v) + gap + word + fill =~= l@);
    let (a, d) = (policy_text(MimePolicy::Allow), policy_text(MimePolicy::Deny));
    assert(a.take(1) =~= "✅"@);
    assert(d.take(1) =~= "⛔"@);
    assert(a.skip(a.len() - 5) =~= "allow"@);
    assert(d.skip(d.len() - 4) =~= "deny"@);
}

/// Colour goes round the wildcards of a key and changes nothing else of it; without colour a key
/// is written as it is.
pub proof fn only_wildcards_are_coloured(
    a: Seq<char>,
    c: char,
    b: Seq<char>,
    key: &str,
    plain: String,
    r: String,
)
    requires
        call_ensures(colorize_globs, (key, false), plain),
        call_ensures(colorize_globs, (key, true), r),
        key@ == a + seq![c] + b,
    ensures
        plain@ == key@,
        r@ == coloured(a) + (if c == '*' || c == '?' {
            seq!['\x1b', '[', '1', ';', '3', '3', 'm', c, '\x1b', '[', '0', 'm']
        } else {
            seq![c]
        }) + coloured(b),
        coloured(Seq::empty()).len() == 0,
{
    lemma_coloured(a, c, b);
    reveal_strlit("\x1b[1;33m");
    reveal_strlit("\x1b[0m");
    if c == '*' || c == '?' {
        assert(colour(c) =~= seq!['\x1b', '[', '1', ';', '3', '3', 'm', c, '\x1b', '[', '0', 'm']);
    }
}

spec fn colour(c: char) -> Seq<char> {
    if c == '*' || c == '?' {
        "\x1b[1;33m"@ + seq![c] + "\x1b[0m"@
    } else {
        seq![c]
    }
}

proof fn lemma_coloured(a: Seq<char>, c: char, b: Seq<char>)
    ensures
        coloured(a + seq![c] + b) == coloured(a) + colour(c) + coloured(b),
    decreases b.len(),
{
    let all = a + seq![c] + b;
    if b.len() == 0 {
        assert(all.drop_last() =~= a);
    } else {
        lemma_coloured(a, c, b.drop_last());
        assert(all.drop_last() =~= a + seq![c] + b.drop_last());
        assert(all.last() == b.last());
    }
    assert(coloured(all) =~= coloured(a) + colour(c) + coloured(b));
}

/// The key column is as wide as the widest key.
pub proof fn the_column_holds_every_key(report: Seq<ReportView>, j: int)
    ensures
        0 <= j < report.len() ==> report[j].key.len() <= key_width(report),
        report.len() > 0 ==> exists|k: int|
            0 <= k < report.len() && (#[trigger] report[k]).key.len() == key_width(report),
        report.len() == 0 ==> key_width(report) == 0,
    decreases report.len(),
{
    if report.len() > 0 {
        let rest = report.drop_last();
        the_column_holds_every_key(rest, j);
        if report.last().key.len() > key_width(rest) || rest.len() == 0 {
            assert(report[report.len() - 1].key.len() == key_width(report));
        } else {
            let k = choose|k: int|
                0 <= k < rest.len() && (#[trigger] rest[k]).key.len() == key_width(rest);
            assert(report[k].key.len() == key_width(report));
        }
        if 0 <= j < rest.len() {
            assert(rest[j] == report[j]);
        }
    }
}

/// Every rule has its lines in the listing, in the order of the report, and every overlap of a
/// rule has one below it.
pub proof fn every_rule_is_listed(
    a: Seq<ReportView>,
    e: ReportView,
    b: Seq<ReportView>,
    width: nat,
    color: bool,
)
    ensures
        report_lines(a + seq![e] + b, width, color) == report_lines(a, width, color) + entry_lines(
            e,
            width,
            color,
        ) + report_lines(b, width, color),
        report_lines(Seq::empty(), width, color).len() == 0,
    decreases b.len(),
{
    let all = a + seq![e] + b;
    if b.len() == 0 {
        assert(all.drop_last() =~= a);
    } else {
        every_rule_is_listed(a, e, b.drop_last(), width, color);
        assert(all.drop_last() =~= a + seq![e] + b.drop_last());
        assert(all.last() == b.last());
    }
    assert(report_lines(all, width, color) =~= report_lines(a, width, color) + entry_lines(
        e,
        width,
        color,
    ) + report_lines(b, width, color));
}

/// Every overlap of a rule has a line, with its relation, its verdict's icon and its key.
pub proof fn every_overlap_is_listed(
    a: Seq<OverlapView>,
    o: OverlapView,
    b: Seq<OverlapView>,
    color: bool,
)
    ensures
        overlap_lines(a + seq![o] + b, color) == overlap_lines(a, color) + overlap_lines(
            seq![o],
            color,
        ) + overlap_lines(b, color),
        overlap_lines(Seq::empty(), color).len() == 0,
        has_suffix(overlap_lines(seq![o], color), key_text(o.key, color) + "\n"@),
        stands_in(
            relation_text(o.relation) + " "@ + icon(o.verdict) + " "@,
            overlap_lines(seq![o], color),
        ),
{
    lemma_overlaps(a, o, b, color);
    lemma_overlaps(Seq::empty(), o, Seq::empty(), color);
    let none = Seq::<OverlapView>::empty();
    let line = overlap_line(o, color);
    assert(none + seq![o] + none =~= seq![o]);
    assert(overlap_lines(none, color) + line + overlap_lines(none, color) =~= line);
    let end = key_text(o.key, color) + "\n"@;
    let mid = relation_text(o.relation) + " "@ + icon(o.verdict) + " "@;
    let start = "     ↳ "@ + mid;
    assert(line =~= start + end);
    assert((start + end).skip((start + end).len() - end.len()) =~= end);
    lemma_stands_in("     ↳ "@, mid, end);
}

spec fn overlap_line(o: OverlapView, color: bool) -> Seq<char> {
    "     ↳ "@ + relation_text(o.relation) + " "@ + icon(o.verdict) + " "@ + key_text(o.key, color)
        + "\n"@
}

proof fn lemma_overlaps(a: Seq<OverlapView>, o: OverlapView, b: Seq<OverlapView>, color: bool)
    ensures
        overlap_lines(a + seq![o] + b, color) == overlap_lines(a, color) + overlap_line(o, color)
            + overlap_lines(b, color),
    decreases b.len(),
{
    let all = a + seq![o] + b;
    lemma_last_overlap(all, color);
    if b.len() == 0 {
        assert(all.drop_last() =~= a);
        assert(overlap_lines(b, color) =~= Seq::empty());
        assert(overlap_lines(a, color) + overlap_line(o, color) + overlap_lines(b, color)
            =~= overlap_lines(a, color) + overlap_line(o, color));
    } else {
        lemma_overlaps(a, o, b.drop_last(), color);
        lemma_last_overlap(b, color);
        assert(all.drop_last() =~= a + seq![o] + b.drop_last());
        assert(all.last() == b.last());
        let (x, y, z) = (
            overlap_lines(a, color) + overlap_line(o, color),
            overlap_lines(b.drop_last(), color),
            overlap_line(b.last(), color),
        );
        assert(x + y + z =~= x + (y + z));
    }
}

proof fn lemma_last_overlap(list: Seq<OverlapView>, color: bool)
    requires
        list.len() > 0,
    ensures
        overlap_lines(list, color) == overlap_lines(list.drop_last(), color) + overlap_line(
            list.last(),
            color,
        ),
{
    let o = list.last();
    let rest = overlap_lines(list.drop_last(), color);
    assert(overlap_lines(list, color) =~= rest + overlap_line(o, color));
}

/// The relations of two rules are told apart.
pub proof fn relations_read_differently(r: Relation, s: Relation)
    ensures
        relation_text(r) == relation_text(s) <==> r == s,
        r is Overrides ==> relation_text(r) == "overrides"@,
        r is Redundant ==> has_prefix(relation_text(r), "redundant"@),
        r is OverriddenBy ==> has_prefix(relation_text(r), "overridden by"@),
        r is DecidesInstead ==> has_prefix(relation_text(r), "decided instead by"@),
{
    reveal_strlit("redundant, already covered by");
    reveal_strlit("overrides");
    reveal_strlit("overridden by (more specific)");
    reveal_strlit("decided instead by");
    reveal_strlit("redundant");
    reveal_strlit("overridden by");
    assert("redundant, already covered by"@[0] == 'r' && "decided instead by"@[0] == 'd');
    assert("overrides"@.len() == 9 && "overridden by (more specific)"@.len() == 29);
    assert("redundant, already covered by"@.take(9) =~= "redundant"@);
    assert("overridden by (more specific)"@.take(13) =~= "overridden by"@);
    assert("decided instead by"@.take(18) =~= "decided instead by"@);
    assert("overrides"@[0] == 'o');
}

/// A rule's line shows its label, its key and its cap, with the caps below each other; it ends
/// without blanks, and the overlaps follow.
pub proof fn a_rule_shows_its_label_key_and_cap(e: ReportView, width: nat)
    requires
        e.key.len() > 0,
        !is_space(e.key.last()),
        e.key.len() <= width,
        e.max matches Some(m) ==> m.len() > 0 && !is_space(m.last()),
    ensures
        e.max is None ==> entry_lines(e, width, false) == label(e.verdict) + "  "@ + e.key + "\n"@
            + overlap_lines(e.overlaps, false),
        e.max matches Some(m) ==> {
            let head = label(e.verdict) + "  "@ + e.key + repeat(
                ' ',
                (width - e.key.len()) as nat,
            ) + "   ≤ "@;
            &&& entry_lines(e, width, false) == head + m + "\n"@ + overlap_lines(e.overlaps, false)
            &&& head.len() == label(e.verdict).len() + width + 7
        },
{
    let start = label(e.verdict) + "  "@ + e.key;
    let fill = repeat(' ', (width - e.key.len()) as nat);
    match e.max {
        None => {
            assert(start + fill + cap_text(None) =~= start + fill);
            lemma_fill(start, (width - e.key.len()) as nat);
        },
        Some(m) => {
            let line = start + fill + ("   ≤ "@ + m);
            reveal_strlit("   ≤ ");
            reveal_strlit("  ");
            assert(line.last() == m.last());
            assert(trim_end(line) == line);
            assert(line =~= start + fill + "   ≤ "@ + m);
        },
    }
}

proof fn lemma_fill(s: Seq<char>, n: nat)
    requires
        s.len() > 0,
        !is_space(s.last()),
    ensures
        trim_end(s + repeat(' ', n)) == s,
    decreases n,
{
    let t = s + repeat(' ', n);
    if n == 0 {
        assert(t =~= s);
    } else {
        lemma_fill(s, (n - 1) as nat);
        crate::laws::text::ascii_blanks_are_white_space(' ');
        assert(t.last() == ' ');
        assert(t.drop_last() =~= s + repeat(' ', (n - 1) as nat));
    }
}

/// The listing counts the rules, names the file and says what happens to other types.
pub proof fn the_listing_counts_the_rules(
    report: &[RuleReport],
    unknown: MimePolicy,
    path: &str,
    color: bool,
    r: String,
)
    requires
        call_ensures(print_rules, (report, unknown, path, color), r),
    ensures
        ({
            let (report, path) = (reports(report@), path@);
            let text = r@;
            &&& has_prefix(text, decimal(report.len()) + " rule(s) in "@ + path)
            &&& stands_in("(unmatched types: "@ + policy_text(unknown) + ")"@, text)
            &&& has_suffix(text, report_lines(report, key_width(report), color))
        }),
{
    let (report, path) = (reports(report@), path@);
    let text = rules_text(report, unknown, path, color);
    let head = decimal(report.len()) + " rule(s) in "@ + path;
    let rows = report_lines(report, key_width(report), color);
    reveal_strlit("   (unmatched types: ");
    reveal_strlit("(unmatched types: ");
    reveal_strlit(")\n\n");
    reveal_strlit(")");
    let gap = seq![' ', ' ', ' '];
    let end = seq!['\n', '\n'];
    let mid = "(unmatched types: "@ + policy_text(unknown) + ")"@;
    assert("   (unmatched types: "@ =~= gap + "(unmatched types: "@);
    assert(")\n\n"@ =~= ")"@ + end);
    assert(text =~= head + gap + mid + (end + rows));
    lemma_stands_in(head + gap, mid, end + rows);
    lemma_prefix(head, gap + mid + (end + rows));
    assert(head + (gap + mid + (end + rows)) =~= text);
    assert(text.skip(text.len() - rows.len()) =~= rows);
}

/// Where there are no rules, the file is named, and an empty one is told from a missing one.
pub proof fn no_rules_is_told(path: &str, blank: String, missing: String)
    requires
        call_ensures(no_rules, (path, true), blank),
        call_ensures(no_rules, (path, false), missing),
    ensures
        stands_in(path@, blank@),
        has_suffix(blank@, " is empty."@),
        has_suffix(missing@, "yet at "@ + path@),
{
    lemma_stands_in("The MIME rules file "@, path@, " is empty."@);
    let t = " is empty."@;
    assert(blank@.skip(blank@.len() - t.len()) =~= t);
    reveal_strlit("No MIME rules file yet at ");
    reveal_strlit("yet at ");
    let u = "yet at "@ + path@;
    assert(missing@.skip(missing@.len() - u.len()) =~= u);
}

/// A question is sent when the node is there, answered by the first message that answers it,
/// and given up with the node's address when the time is over or the connection is.
pub proof fn a_question_waits_for_its_answer<T>(
    addr: &str,
    timeout: &str,
    what: &str,
    event: AskEvent<T>,
    r: AskStep<T>,
)
    requires
        call_ensures(ask::<T>, (addr, timeout, what, event), r),
    ensures
        event matches AskEvent::Connected(node) ==> r == AskStep::<T>::Ask(node),
        event matches AskEvent::Inbound(Some(t)) ==> r == AskStep::Answer(t),
        event matches AskEvent::Inbound(None) ==> r is Wait,
        r is Fail <==> event is Deadline || event is Ended || event is InboundClosed,
        r matches AskStep::Fail(e) ==> stands_in(addr@, e@),
        event is Deadline ==> (r matches AskStep::Fail(e) && stands_in(timeout@, e@) && stands_in(
            what@,
            e@,
        )),
        event matches AskEvent::Ended(Some(cause)) ==> (r matches AskStep::Fail(e) && has_suffix(
            e@,
            cause@,
        )),
        event == AskEvent::<T>::Ended(None) ==> (r matches AskStep::Fail(e) && e@
            == "connection to "@ + addr@ + " closed before answering"@),
        event is InboundClosed ==> (r matches AskStep::Fail(e) && e@ == "connection to "@ + addr@
            + " closed unexpectedly"@),
{
    match event {
        AskEvent::Deadline => {
            let (a, b, c, d) = (
                "no reply from "@,
                " within "@,
                " — it may still be transferring a large "@,
                " over a slow link"@,
            );
            let e = r->Fail_0@;
            lemma_stands_in(a, addr@, b + timeout@ + c + what@ + d);
            assert(a + addr@ + (b + timeout@ + c + what@ + d) =~= e);
            lemma_stands_in(a + addr@ + b, timeout@, c + what@ + d);
            assert(a + addr@ + b + timeout@ + (c + what@ + d) =~= e);
            lemma_stands_in(a + addr@ + b + timeout@ + c, what@, d);
        },
        AskEvent::Ended(None) => {
            lemma_stands_in("connection to "@, addr@, " closed before answering"@);
        },
        AskEvent::Ended(Some(cause)) => {
            let e = r->Fail_0@;
            lemma_stands_in("connecting to clipmesh node "@, addr@, ": "@ + cause@);
            assert("connecting to clipmesh node "@ + addr@ + (": "@ + cause@) =~= e);
            assert(e.skip(e.len() - cause@.len()) =~= cause@);
        },
        AskEvent::InboundClosed => {
            lemma_stands_in("connection to "@, addr@, " closed unexpectedly"@);
        },
        _ => {},
    }
}

/// A node that cannot be reached is named.
pub proof fn an_unreachable_node_is_named(addr: &str, r: String)
    requires
        call_ensures(crate::client::unreachable, (addr,), r),
    ensures
        has_suffix(r@, addr@),
{
    assert(r@.skip(r@.len() - addr@.len()) =~= addr@);
}

} // verus!
