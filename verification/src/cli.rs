//! The command line: which mode an invocation asks for, and what the one-shot commands
//! print.

use crate::config::MimePolicy;
use crate::config_template::SyncOutcome;
use crate::fsutil::{path_file_name, std_file_name};
use crate::mime::{entries_in, globbed, removed_lines, reports, rule_word, same_but_for};
use crate::mime::{word, FileRead, MimeRules, OverlapView, Relation, ReportView, RuleReport};
use crate::mime::{RulesFileState, Verdict, TEMPLATE};
use crate::text::{chars_of, decimal, decimal_of, is_blank, join, join_of, opt_text};
use crate::text::{pad_right, push_padded, push_spaces, repeat, same, texts, trim, trim_end, trim_end_of};
use crate::toml::{holds_value, no_fields, toml_document, toml_error_text, toml_fault, TomlDoc};
use vstd::prelude::*;

verus! {

/// How the program is used.
pub const USAGE: &'static str =
    "usage: clipmesh [--config <path>] [--allow <glob> | --deny <glob> | --rules | --sync-config]\n\
    \x20      clipmesh --paste [-t <mime>] [-l] [-n] [-p] [--node <host[:port]>]  (wl-paste mode)";

/// Some arguments without a flag.
pub open spec fn without_flag(args: Seq<Seq<char>>, flag: Seq<char>) -> Seq<Seq<char>>
    decreases args.len(),
{
    if args.len() == 0 {
        Seq::empty()
    } else if args.last() == flag {
        without_flag(args.drop_last(), flag)
    } else {
        without_flag(args.drop_last(), flag).push(args.last())
    }
}

/// Whether an invocation asks for paste mode: as `wl-paste`, or with `--paste`.
pub open spec fn asks_to_paste(prog: Seq<char>, args: Seq<Seq<char>>) -> bool {
    std_file_name(prog) == Some("wl-paste"@) || args.contains("--paste"@)
}

/// Decides paste mode from the program name and the arguments behind it. Returns the
/// `wl-paste`-style arguments (with any `--paste` stripped) in that case.
pub fn paste_mode_args(prog: &str, args: &[String]) -> (r: Option<Vec<String>>)
    ensures
        match r {
            Some(rest) => asks_to_paste(prog@, texts(args@)) && texts(rest@) == without_flag(
                texts(args@),
                "--paste"@,
            ),
            None => !asks_to_paste(prog@, texts(args@)),
        },
{
    let invoked_as_wl_paste = match path_file_name(prog) {
        Some(name) => same(name.as_str(), "wl-paste"),
        None => false,
    };
    let ghost all = texts(args@);
    let mut rest: Vec<String> = Vec::new();
    let mut flagged = false;
    let mut i: usize = 0;
    proof {
        assert(all.take(0) =~= Seq::<Seq<char>>::empty());
        assert(texts(rest@) =~= Seq::<Seq<char>>::empty());
    }
    while i < args.len()
        invariant
            i <= args@.len(),
            all == texts(args@),
            texts(rest@) == without_flag(all.take(i as int), "--paste"@),
            flagged == exists|k: int| 0 <= k < i && #[trigger] all[k] == "--paste"@,
        decreases args@.len() - i,
    {
        let ghost was = texts(rest@);
        proof {
            assert(all.take(i + 1).drop_last() =~= all.take(i as int));
            assert(all.take(i + 1).last() == args@[i as int]@);
            assert(all[i as int] == args@[i as int]@);
        }
        if same(args[i].as_str(), "--paste") {
            flagged = true;
        } else {
            rest.push(args[i].clone());
            proof {
                assert(texts(rest@) =~= was.push(all[i as int]));
            }
        }
        i += 1;
    }
    proof {
        assert(all.take(all.len() as int) =~= all);
        assert(flagged == all.contains("--paste"@));
    }
    if invoked_as_wl_paste || flagged {
        Some(rest)
    } else {
        None
    }
}

/// A one-shot CLI action (none = run the daemon).
#[derive(Debug, Clone, PartialEq, Eq)]
pub enum CliAction {
    Edit { allow: bool, pattern: String },
    PrintRules,
    SyncConfig,
}

/// A one-shot CLI action, over texts.
#[verifier::ext_equal]
pub enum ActionView {
    Edit { allow: bool, pattern: Seq<char> },
    PrintRules,
    SyncConfig,
}

impl View for CliAction {
    type V = ActionView;

    open spec fn view(&self) -> ActionView {
        match *self {
            CliAction::Edit { allow, pattern } => ActionView::Edit { allow, pattern: pattern@ },
            CliAction::PrintRules => ActionView::PrintRules,
            CliAction::SyncConfig => ActionView::SyncConfig,
        }
    }
}

/// Parsed arguments.
#[derive(Debug, Clone, PartialEq, Eq)]
pub struct CliArgs {
    pub config: Option<String>,
    pub action: Option<CliAction>,
}

/// Parsed arguments, over texts.
#[verifier::ext_equal]
pub struct CliView {
    pub config: Option<Seq<char>>,
    pub action: Option<ActionView>,
}

impl View for CliArgs {
    type V = CliView;

    open spec fn view(&self) -> CliView {
        CliView {
            config: opt_text(self.config),
            action: match self.action {
                Some(a) => Some(a@),
                None => None,
            },
        }
    }
}

/// What the arguments from the `i`th on mean, beside those before them; `None` is a usage
/// error. Each flag may appear once, and the actions exclude each other.
pub open spec fn cli_parsed(args: Seq<Seq<char>>, i: int, v: CliView) -> Option<CliView>
    decreases args.len() - i,
{
    if i >= args.len() {
        Some(v)
    } else if args[i] == "--config"@ {
        if v.config is Some || i + 1 >= args.len() {
            None
        } else {
            cli_parsed(args, i + 2, CliView { config: Some(args[i + 1]), ..v })
        }
    } else if v.action is Some {
        None
    } else if args[i] == "--allow"@ || args[i] == "--deny"@ {
        if i + 1 >= args.len() {
            None
        } else {
            let action = ActionView::Edit { allow: args[i] == "--allow"@, pattern: args[i + 1] };
            cli_parsed(args, i + 2, CliView { action: Some(action), ..v })
        }
    } else if args[i] == "--rules"@ {
        cli_parsed(args, i + 1, CliView { action: Some(ActionView::PrintRules), ..v })
    } else if args[i] == "--sync-config"@ {
        cli_parsed(args, i + 1, CliView { action: Some(ActionView::SyncConfig), ..v })
    } else {
        None
    }
}

impl CliArgs {
    /// Parses the arguments; `None` is a usage error.
    pub fn parse(args: &[String]) -> (r: Option<CliArgs>)
        ensures
            match r {
                Some(a) => cli_parsed(texts(args@), 0, (CliView { config: None, action: None }))
                    == Some(a@),
                None => cli_parsed(
                    texts(args@),
                    0,
                    (CliView { config: None, action: None }),
                ) is None,
            },
    {
        let mut out = CliArgs { config: None, action: None };
        let ghost all = texts(args@);
        let ghost start = out@;
        let mut i: usize = 0;
        while i < args.len()
            invariant
                i <= args.len(),
                all == texts(args@),
                start == (CliView { config: None, action: None }),
                cli_parsed(all, 0, start) == cli_parsed(all, i as int, out@),
            decreases args.len() - i,
        {
            let arg = args[i].as_str();
            assert(all[i as int] == arg@);
            if same(arg, "--config") {
                if out.config.is_some() || args.len() - i < 2 {
                    return None;
                }
                assert(all[i + 1] == args@[i + 1]@);
                out.config = Some(args[i + 1].clone());
                i += 2;
            } else if out.action.is_some() {
                return None;
            } else if same(arg, "--allow") || same(arg, "--deny") {
                if args.len() - i < 2 {
                    return None;
                }
                assert(all[i + 1] == args@[i + 1]@);
                out.action = Some(
                    CliAction::Edit { allow: same(arg, "--allow"), pattern: args[i + 1].clone() },
                );
                i += 2;
            } else if same(arg, "--rules") {
                out.action = Some(CliAction::PrintRules);
                i += 1;
            } else if same(arg, "--sync-config") {
                out.action = Some(CliAction::SyncConfig);
                i += 1;
            } else {
                return None;
            }
        }
        Some(out)
    }
}

/// What to do when the config file changes.
#[derive(Debug, Clone, Copy, PartialEq, Eq, Structural)]
pub enum ConfigChange {
    /// The new config is usable; restart to apply it.
    Restart,
    /// The new config can't be read or parsed; keep the current one.
    KeepRunning,
}

/// Decides whether a config change should restart the daemon: only when the file can be
/// read, differs from `original`, and is usable. A bare touch or a typo keeps the daemon
/// running.
pub fn config_change_action(current: Option<&str>, original: &str, usable: bool) -> (r:
    ConfigChange)
    ensures
        r == (match current {
            Some(text) => if text@ != original@ && usable {
                ConfigChange::Restart
            } else {
                ConfigChange::KeepRunning
            },
            None => ConfigChange::KeepRunning,
        }),
{
    match current {
        Some(text) => {
            if !same(text, original) && usable {
                ConfigChange::Restart
            } else {
                ConfigChange::KeepRunning
            }
        },
        None => ConfigChange::KeepRunning,
    }
}

/// What is said after a config file was normalized.
pub open spec fn sync_text(path: Seq<char>, outcome: SyncOutcome) -> Seq<char> {
    match outcome {
        SyncOutcome::Unchanged => "config "@ + path + " is already up to date"@,
        SyncOutcome::Rewrote { added } => if added@.len() == 0 {
            "refreshed comments in "@ + path
        } else {
            "wrote "@ + path + " ("@ + decimal(added@.len())
                + " option(s) added as commented defaults: "@ + join(texts(added@), ", "@) + ")"@
        },
    }
}

/// What is said after a config file was normalized.
pub fn sync_config_action(path: &str, outcome: &SyncOutcome) -> (r: String)
    ensures
        r@ == sync_text(path@, *outcome),
{
    match outcome {
        SyncOutcome::Unchanged => {
            let mut s = "config ".to_string();
            s.append(path);
            s.append(" is already up to date");
            s
        },
        SyncOutcome::Rewrote { added } => {
            if added.len() == 0 {
                let mut s = "refreshed comments in ".to_string();
                s.append(path);
                return s;
            }
            let mut s = "wrote ".to_string();
            s.append(path);
            s.append(" (");
            s.append(decimal_of(added.len() as u128).as_str());
            s.append(" option(s) added as commented defaults: ");
            s.append(join_of(added.as_slice(), ", ").as_str());
            s.append(")");
            s
        },
    }
}

/// What a one-shot command finds at the path of the rules file.
pub enum Opened {
    /// The rules.
    Rules(MimeRules),
    /// Nothing on disk yet.
    Absent,
    /// A file that holds nothing.
    Blank,
}

/// What is said of a rules file with the text `text` that is not valid TOML: that, and what is
/// wrong with it.
pub open spec fn malformed_text(path: Seq<char>, text: Seq<char>) -> Seq<char> {
    path + " isn't valid TOML — fix or delete it: "@ + toml_fault(text)
}

/// Opens the rules file for a one-shot command, given what reading it gave, without ever
/// healing it: a file that exists but can't be used is an error, so that a typo never
/// costs the user their rules.
pub fn open_rules_file(path: Option<&str>, unknown: MimePolicy, read: FileRead) -> (r: Result<
    Opened,
    String,
>)
    ensures
        match (path, r) {
            (None, Err(e)) => e@ == "no MIME rules file is configured"@,
            (None, Ok(_)) => false,
            (Some(p), Ok(Opened::Rules(rules))) => {
                &&& read matches FileRead::Text(text) && trim(text@).len() > 0
                    && toml_document(text@) == Some(rules.content())
                &&& rules.policy() == unknown
                &&& rules.file() == Some(p@)
                &&& !rules.pending()
                &&& rules.readable()
            },
            (Some(_), Ok(Opened::Absent)) => read is NotFound,
            (Some(_), Ok(Opened::Blank)) => read matches FileRead::Text(text) && trim(
                text@,
            ).len() == 0,
            (Some(p), Err(e)) => match read {
                FileRead::Text(text) => {
                    &&& trim(text@).len() > 0
                    &&& toml_document(text@) is None
                    &&& e@ == malformed_text(p@, text@)
                },
                FileRead::Failed(why) => e@ == "reading "@ + p@ + ": "@ + why@,
                FileRead::NotFound => false,
            },
        },
{
    let p = match path {
        Some(p) => p,
        None => {
            return Err("no MIME rules file is configured".to_string());
        },
    };
    match MimeRules::open(Some(p.to_string()), unknown, read) {
        Ok(rules) => Ok(Opened::Rules(rules)),
        Err(RulesFileState::Missing) => Ok(Opened::Absent),
        Err(RulesFileState::Empty) => Ok(Opened::Blank),
        Err(RulesFileState::Malformed(cause)) => {
            let mut e = p.to_string();
            e.append(" isn't valid TOML — fix or delete it: ");
            e.append(toml_error_text(&cause).as_str());
            Err(e)
        },
        Err(RulesFileState::Unreadable(why)) => {
            let mut e = "reading ".to_string();
            e.append(p);
            e.append(": ");
            e.append(why.as_str());
            Err(e)
        },
    }
}

/// Refuses an empty pattern.
pub fn check_pattern(pattern: &str) -> (r: Result<(), String>)
    ensures
        match r {
            Ok(()) => trim(pattern@).len() > 0,
            Err(e) => trim(pattern@).len() == 0 && e@
                == "the --allow/--deny pattern must not be empty"@,
        },
{
    if is_blank(pattern) {
        return Err("the --allow/--deny pattern must not be empty".to_string());
    }
    Ok(())
}

/// A ruleset that was edited and is to be written, and the lines of the entries that the
/// edit dropped.
pub struct RuleEdit {
    pub rules: MimeRules,
    pub removed: Vec<String>,
}

/// Whether `d` is what an edit starts from: the rules file, or the built-in skeleton where
/// there is none or an empty one.
pub open spec fn edit_base(d: TomlDoc, read: FileRead) -> bool {
    match read {
        FileRead::Text(t) if trim(t@).len() > 0 => toml_document(t@) == Some(d),
        _ => match toml_document(TEMPLATE@) {
            Some(skeleton) => d == skeleton,
            None => d.fields == no_fields(),
        },
    }
}

/// Whether `after` is `before` with a glob applied, and `removed` are the lines of what it
/// dropped.
pub open spec fn edited(
    before: TomlDoc,
    after: TomlDoc,
    allow: bool,
    pattern: Seq<char>,
    removed: Seq<Seq<char>>,
) -> bool {
    &&& same_but_for(before, after, "rules"@)
    &&& entries_in(after) == globbed(entries_in(before), pattern, allow)
    &&& removed_lines(removed, before, pattern, true)
}

/// Applies a single `--allow`/`--deny` glob, given what reading the rules file gave. Any
/// existing entries the new glob now covers are removed. Nothing on disk yet is no
/// obstacle: the edit starts from the built-in skeleton.
pub fn apply_rule_edit(
    path: Option<&str>,
    unknown: MimePolicy,
    read: FileRead,
    allow: bool,
    pattern: &str,
) -> (r: Result<RuleEdit, String>)
    ensures
        match r {
            Ok(edit) => {
                &&& trim(pattern@).len() > 0
                &&& path matches Some(p) && edit.rules.file() == Some(p@)
                &&& edit.rules.policy() == unknown
                &&& edit.rules.pending()
                &&& !(read is Failed)
                &&& exists|d: TomlDoc| #[trigger]
                    edit_base(d, read) && edited(
                        d,
                        edit.rules.content(),
                        allow,
                        pattern@,
                        texts(edit.removed@),
                    ) && (!holds_value(d, "rules"@) ==> edit.rules.readable())
            },
            Err(e) => if trim(pattern@).len() == 0 {
                e@ == "the --allow/--deny pattern must not be empty"@
            } else {
                match path {
                    None => e@ == "no MIME rules file is configured"@,
                    Some(p) => match read {
                        FileRead::Text(text) => {
                            &&& trim(text@).len() > 0
                            &&& toml_document(text@) is None
                            &&& e@ == malformed_text(p@, text@)
                        },
                        FileRead::Failed(why) => e@ == "reading "@ + p@ + ": "@ + why@,
                        FileRead::NotFound => false,
                    },
                }
            },
        },
{
    match check_pattern(pattern) {
        Err(e) => {
            return Err(e);
        },
        Ok(()) => {},
    }
    let ghost found = read;
    let mut rules = match open_rules_file(path, unknown, read) {
        Err(e) => {
            return Err(e);
        },
        Ok(Opened::Rules(rules)) => rules,
        Ok(_) => {
            let p = match path {
                Some(p) => Some(p.to_string()),
                None => None,
            };
            MimeRules::load(p, unknown, FileRead::NotFound)
        },
    };
    let ghost before = rules.content();
    let removed = rules.apply_glob(allow, pattern);
    proof {
        assert(edit_base(before, found));
        assert(edited(before, rules.content(), allow, pattern@, texts(removed@)));
    }
    Ok(RuleEdit { rules, removed })
}

/// Some lines, indented.
pub open spec fn indented(lines: Seq<Seq<char>>) -> Seq<char>
    decreases lines.len(),
{
    if lines.len() == 0 {
        Seq::empty()
    } else {
        indented(lines.drop_last()) + "  "@ + lines.last() + "\n"@
    }
}

/// What is said after a rule was set: the rule, and the rules that it removed.
pub open spec fn edit_text(
    pattern: Seq<char>,
    allow: bool,
    path: Seq<char>,
    removed: Seq<Seq<char>>,
) -> Seq<char> {
    let set = "Set \""@ + pattern + "\" = \""@ + word(allow) + "\" in "@ + path + "\n"@;
    if removed.len() == 0 {
        set
    } else {
        set + "\nRemoved "@ + decimal(removed.len()) + " rule(s) now covered by \""@ + pattern
            + "\" = \""@ + word(allow) + "\":\n"@ + indented(removed)
            + "\nRe-add any you want to keep as exceptions.\n"@
    }
}

/// What is said after a rule was set. The rules that it removed are echoed, so that the
/// user can re-add the ones to keep.
pub fn edit_report(pattern: &str, allow: bool, path: &str, removed: &[String]) -> (r: String)
    ensures
        r@ == edit_text(pattern@, allow, path@, texts(removed@)),
{
    let verb = rule_word(allow);
    let mut s = "Set \"".to_string();
    s.append(pattern);
    s.append("\" = \"");
    s.append(verb);
    s.append("\" in ");
    s.append(path);
    s.append("\n");
    if removed.len() == 0 {
        return s;
    }
    s.append("\nRemoved ");
    s.append(decimal_of(removed.len() as u128).as_str());
    s.append(" rule(s) now covered by \"");
    s.append(pattern);
    s.append("\" = \"");
    s.append(verb);
    s.append("\":\n");
    let ghost head = s@;
    let ghost all = texts(removed@);
    let mut i: usize = 0;
    proof {
        assert(all.take(0) =~= Seq::<Seq<char>>::empty());
        assert(head + Seq::<char>::empty() =~= head);
    }
    while i < removed.len()
        invariant
            i <= removed@.len(),
            all == texts(removed@),
            s@ == head + indented(all.take(i as int)),
        decreases removed@.len() - i,
    {
        let ghost before = indented(all.take(i as int));
        proof {
            assert(all.take(i + 1).drop_last() =~= all.take(i as int));
            assert(all.take(i + 1).last() == removed@[i as int]@);
        }
        s.append("  ");
        s.append(removed[i].as_str());
        s.append("\n");
        proof {
            assert(s@ =~= head + (before + "  "@ + removed@[i as int]@ + "\n"@));
        }
        i += 1;
    }
    proof {
        assert(all.take(all.len() as int) =~= all);
    }
    s.append("\nRe-add any you want to keep as exceptions.\n");
    s
}

/// The emoji for a verdict.
pub open spec fn icon(v: Verdict) -> Seq<char> {
    match v {
        Verdict::Allow => "✅"@,
        Verdict::Deny => "⛔"@,
        Verdict::Invalid => "⚠️"@,
    }
}

/// Just the emoji for a verdict, for inline overlap references.
pub fn verdict_icon(v: Verdict) -> (r: &'static str)
    ensures
        r@ == icon(v),
{
    match v {
        Verdict::Allow => "✅",
        Verdict::Deny => "⛔",
        Verdict::Invalid => "⚠️",
    }
}

/// A verdict as the `--rules` listing writes it: the icon, then the word padded to the
/// width of the longest. The last icon renders one column narrower than the others in
/// most terminals, so it takes a second space.
pub open spec fn label(v: Verdict) -> Seq<char> {
    match v {
        Verdict::Allow => icon(v) + " "@ + pad_right("allow"@, 7),
        Verdict::Deny => icon(v) + " "@ + pad_right("deny"@, 7),
        Verdict::Invalid => icon(v) + "  "@ + pad_right("invalid"@, 7),
    }
}

/// A verdict as the `--rules` listing writes it.
pub fn verdict_label(v: Verdict) -> (r: String)
    ensures
        r@ == label(v),
{
    let mut s = verdict_icon(v).to_string();
    match v {
        Verdict::Allow => {
            s.append(" ");
            push_padded(&mut s, "allow", 7);
        },
        Verdict::Deny => {
            s.append(" ");
            push_padded(&mut s, "deny", 7);
        },
        Verdict::Invalid => {
            s.append("  ");
            push_padded(&mut s, "invalid", 7);
        },
    }
    s
}

/// A key with its wildcards in colour.
pub open spec fn coloured(key: Seq<char>) -> Seq<char>
    decreases key.len(),
{
    if key.len() == 0 {
        Seq::empty()
    } else {
        let c = key.last();
        let rest = coloured(key.drop_last());
        if c == '*' || c == '?' {
            rest + "\x1b[1;33m"@ + seq![c] + "\x1b[0m"@
        } else {
            rest.push(c)
        }
    }
}

/// A key as the listing writes it.
pub open spec fn key_text(key: Seq<char>, color: bool) -> Seq<char> {
    if color {
        coloured(key)
    } else {
        key
    }
}

/// Highlights the glob wildcards (`*`/`?`) in a key with colour, so that globs stand out
/// from literal keys. Returns the key unchanged when `color` is false.
pub fn colorize_globs(key: &str, color: bool) -> (r: String)
    ensures
        r@ == key_text(key@, color),
{
    if !color {
        return key.to_string();
    }
    let v = chars_of(key);
    let mut out = String::new();
    let mut i: usize = 0;
    proof {
        assert(v@.take(0) =~= Seq::<char>::empty());
    }
    while i < v.len()
        invariant
            i <= v@.len(),
            out@ == coloured(v@.take(i as int)),
        decreases v@.len() - i,
    {
        let c = v[i];
        let ghost before = out@;
        proof {
            assert(v@.take(i + 1).drop_last() =~= v@.take(i as int));
            assert(v@.take(i + 1).last() == c);
        }
        if c == '*' || c == '?' {
            out.append("\x1b[1;33m");
            out.push(c);
            out.append("\x1b[0m");
            proof {
                assert(out@ =~= before + "\x1b[1;33m"@ + seq![c] + "\x1b[0m"@);
            }
        } else {
            out.push(c);
        }
        i += 1;
    }
    proof {
        assert(v@.take(v@.len() as int) =~= v@);
    }
    out
}

/// The width of the key column: that of the widest key.
pub open spec fn key_width(report: Seq<ReportView>) -> nat
    decreases report.len(),
{
    if report.len() == 0 {
        0
    } else {
        let rest = key_width(report.drop_last());
        let n = report.last().key.len();
        if n > rest {
            n
        } else {
            rest
        }
    }
}

/// How an entry relates to another glob, for the user.
pub open spec fn relation_text(r: Relation) -> Seq<char> {
    match r {
        Relation::Redundant => "redundant, already covered by"@,
        Relation::Overrides => "overrides"@,
        Relation::OverriddenBy => "overridden by (more specific)"@,
        Relation::DecidesInstead => "decided instead by"@,
    }
}

fn relation_of(r: Relation) -> (s: &'static str)
    ensures
        s@ == relation_text(r),
{
    match r {
        Relation::Redundant => "redundant, already covered by",
        Relation::Overrides => "overrides",
        Relation::OverriddenBy => "overridden by (more specific)",
        Relation::DecidesInstead => "decided instead by",
    }
}

/// The lines of the overlaps of an entry.
pub open spec fn overlap_lines(overlaps: Seq<OverlapView>, color: bool) -> Seq<char>
    decreases overlaps.len(),
{
    if overlaps.len() == 0 {
        Seq::empty()
    } else {
        let o = overlaps.last();
        overlap_lines(overlaps.drop_last(), color) + "     ↳ "@ + relation_text(o.relation) + " "@
            + icon(o.verdict) + " "@ + key_text(o.key, color) + "\n"@
    }
}

/// The size cap of an entry, where it has one.
pub open spec fn cap_text(max: Option<Seq<char>>) -> Seq<char> {
    match max {
        Some(m) => "   ≤ "@ + m,
        None => Seq::empty(),
    }
}

/// The lines of an entry: its verdict, key and cap, and below them its overlaps.
pub open spec fn entry_lines(e: ReportView, width: nat, color: bool) -> Seq<char> {
    trim_end(
        label(e.verdict) + "  "@ + key_text(e.key, color) + repeat(
            ' ',
            (width - e.key.len()) as nat,
        ) + cap_text(e.max),
    ) + "\n"@ + overlap_lines(e.overlaps, color)
}

/// The lines of the entries.
pub open spec fn report_lines(report: Seq<ReportView>, width: nat, color: bool) -> Seq<char>
    decreases report.len(),
{
    if report.len() == 0 {
        Seq::empty()
    } else {
        report_lines(report.drop_last(), width, color) + entry_lines(report.last(), width, color)
    }
}

/// What happens to a type without a rule, for the user.
pub open spec fn policy_text(unknown: MimePolicy) -> Seq<char> {
    match unknown {
        MimePolicy::Allow => "✅ allow"@,
        MimePolicy::Deny => "⛔ deny"@,
    }
}

/// The `--rules` listing.
pub open spec fn rules_text(
    report: Seq<ReportView>,
    unknown: MimePolicy,
    path: Seq<char>,
    color: bool,
) -> Seq<char> {
    decimal(report.len()) + " rule(s) in "@ + path + "   (unmatched types: "@ + policy_text(
        unknown,
    ) + ")\n\n"@ + report_lines(report, key_width(report), color)
}

fn push_overlaps(out: &mut String, e: &RuleReport, color: bool)
    ensures
        final(out)@ == old(out)@ + overlap_lines(e@.overlaps, color),
{
    let ghost start = out@;
    let ghost all = e@.overlaps;
    let mut i: usize = 0;
    proof {
        assert(all.take(0) =~= Seq::<OverlapView>::empty());
        assert(start + Seq::<char>::empty() =~= start);
    }
    while i < e.overlaps.len()
        invariant
            i <= e.overlaps@.len(),
            all == e@.overlaps,
            out@ == start + overlap_lines(all.take(i as int), color),
        decreases e.overlaps@.len() - i,
    {
        let o = &e.overlaps[i];
        let ghost before = overlap_lines(all.take(i as int), color);
        proof {
            assert(all.take(i + 1).drop_last() =~= all.take(i as int));
            assert(all.take(i + 1).last() == all[i as int]);
        }
        let key = colorize_globs(o.key.as_str(), color);
        out.append("     ↳ ");
        out.append(relation_of(o.relation));
        out.append(" ");
        out.append(verdict_icon(o.verdict));
        out.append(" ");
        out.append(key.as_str());
        out.append("\n");
        proof {
            assert(out@ =~= start + (before + "     ↳ "@ + relation_text(o.relation) + " "@ + icon(
                o.verdict,
            ) + " "@ + key@ + "\n"@));
        }
        i += 1;
    }
    proof {
        assert(all.take(all.len() as int) =~= all);
    }
}

fn push_entry(out: &mut String, e: &RuleReport, width: usize, color: bool)
    requires
        e@.key.len() <= width,
    ensures
        final(out)@ == old(out)@ + entry_lines(e@, width as nat, color),
{
    let ghost start = out@;
    let n: usize = chars_of(e.key.as_str()).len();
    let key = colorize_globs(e.key.as_str(), color);
    let mut line = verdict_label(e.verdict);
    line.append("  ");
    line.append(key.as_str());
    push_spaces(&mut line, width - n);
    let ghost bare = line@;
    if let Some(m) = &e.max {
        line.append("   ≤ ");
        line.append(m.as_str());
    }
    proof {
        assert(line@ =~= bare + cap_text(e@.max));
    }
    let text = trim_end_of(line.as_str());
    out.append(text.as_str());
    out.append("\n");
    push_overlaps(out, e, color);
    proof {
        assert(out@ =~= start + entry_lines(e@, width as nat, color));
    }
}

fn widest(report: &[RuleReport]) -> (r: usize)
    ensures
        r == key_width(reports(report@)),
        forall|k: int| 0 <= k < report@.len() ==> (#[trigger] report@[k])@.key.len() <= r,
{
    let ghost all = reports(report@);
    let mut w: usize = 0;
    let mut i: usize = 0;
    proof {
        assert(all.take(0) =~= Seq::<ReportView>::empty());
    }
    while i < report.len()
        invariant
            i <= report@.len(),
            all == reports(report@),
            w == key_width(all.take(i as int)),
            forall|k: int| 0 <= k < i ==> (#[trigger] report@[k])@.key.len() <= w,
        decreases report@.len() - i,
    {
        let n: usize = chars_of(report[i].key.as_str()).len();
        proof {
            assert(all.take(i + 1).drop_last() =~= all.take(i as int));
            assert(all.take(i + 1).last() == report@[i as int]@);
        }
        if n > w {
            w = n;
        }
        i += 1;
    }
    proof {
        assert(all.take(all.len() as int) =~= all);
    }
    w
}

/// The `--rules` listing: the current rules and, for each, any other glob that also
/// matches its key. The wildcards are coloured where `color` is set; the key column is
/// aligned by visible width.
pub fn print_rules(report: &[RuleReport], unknown: MimePolicy, path: &str, color: bool) -> (r:
    String)
    ensures
        r@ == rules_text(reports(report@), unknown, path@, color),
{
    let mut out = decimal_of(report.len() as u128);
    out.append(" rule(s) in ");
    out.append(path);
    out.append("   (unmatched types: ");
    out.append(
        match unknown {
            MimePolicy::Allow => "✅ allow",
            MimePolicy::Deny => "⛔ deny",
        },
    );
    out.append(")\n\n");
    let width: usize = widest(report);
    let ghost head = out@;
    let ghost all = reports(report@);
    let mut i: usize = 0;
    proof {
        assert(all.take(0) =~= Seq::<ReportView>::empty());
        assert(head + Seq::<char>::empty() =~= head);
    }
    while i < report.len()
        invariant
            i <= report@.len(),
            all == reports(report@),
            forall|k: int| 0 <= k < report@.len() ==> (#[trigger] report@[k])@.key.len() <= width,
            out@ == head + report_lines(all.take(i as int), width as nat, color),
        decreases report@.len() - i,
    {
        let ghost before = report_lines(all.take(i as int), width as nat, color);
        proof {
            assert(all.take(i + 1).drop_last() =~= all.take(i as int));
            assert(all.take(i + 1).last() == report@[i as int]@);
        }
        push_entry(&mut out, &report[i], width, color);
        proof {
            assert(out@ =~= head + (before + entry_lines(
                report@[i as int]@,
                width as nat,
                color,
            )));
        }
        i += 1;
    }
    proof {
        assert(all.take(all.len() as int) =~= all);
    }
    out
}

/// What is said when there are no rules to list.
pub fn no_rules(path: &str, blank: bool) -> (r: String)
    ensures
        r@ == (if blank {
            "The MIME rules file "@ + path@ + " is empty."@
        } else {
            "No MIME rules file yet at "@ + path@
        }),
{
    if blank {
        let mut s = "The MIME rules file ".to_string();
        s.append(path);
        s.append(" is empty.");
        s
    } else {
        let mut s = "No MIME rules file yet at ".to_string();
        s.append(path);
        s
    }
}

} // verus!
