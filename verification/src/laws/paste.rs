//! Pasting: what is asked of a node, what is selected, and what is printed.

use crate::config::{with_port, Config};
use crate::glob::same_folded;
use crate::laws::cli::{lemma_within, stands_at, stands_in};
use crate::offer::{bytes_of, offer_pairs, types_of, Offer};
use crate::paste::{available, bare_pairs, fetch_from_any, fetch_offer, interpret, lemma_first_with};
use crate::paste::{narrowing, output_bytes, paste_defaults, paste_parsed, race_lost};
use crate::paste::{reason_text, resolve_targets, selected};
use crate::paste::{type_lines, FetchEvent, FetchStep, PasteArgs, PasteView, Race};
use crate::protocol::{folded_prefix, kind_name, GetResult, GetWant, Message, SelectionKind};
use crate::protocol::{is_text, Unavailable};
use crate::text::{decimal, has_suffix, texts};
use vstd::prelude::*;
use vstd::utf8::encode_utf8;

verus! {

proof fn lemma_bare(types: Seq<Seq<char>>, t: Seq<char>)
    ensures
        types_of(bare_pairs(types)).contains(t) <==> types.contains(t),
        types.no_duplicates() ==> types_of(bare_pairs(types)) == types,
        forall|i: int| 0 <= i < bare_pairs(types).len() ==> (#[trigger] bare_pairs(types)[i]).1.len() == 0,
    decreases types.len(),
{
    let all = bare_pairs(types);
    if types.len() == 0 {
        assert(types_of(all) =~= types);
    } else {
        let (rest, last) = (types.drop_last(), types.last());
        lemma_bare(rest, t);
        lemma_bare(rest, last);
        let was = bare_pairs(rest);
        crate::laws::offers::what_is_put_in_is_found(was, last, Seq::empty(), t);
        crate::offer::lemma_place_of(was, last);
        let i = crate::offer::place_of(was, last);
        assert(bytes_of(was, last) is Some <==> types_of(was).contains(last)) by {
            if types_of(was).contains(last) {
                let k = choose|k: int| 0 <= k < types_of(was).len() && types_of(was)[k] == last;
                assert(was[k].0 == last);
            }
            if i >= 0 {
                assert(types_of(was)[i] == last);
            }
        }
        assert(types.contains(t) <==> rest.contains(t) || t == last) by {
            if types.contains(t) {
                let k = choose|k: int| 0 <= k < types.len() && types[k] == t;
                if k < rest.len() {
                    assert(rest[k] == t);
                }
            }
            if rest.contains(t) {
                let k = choose|k: int| 0 <= k < rest.len() && rest[k] == t;
                assert(types[k] == t);
            }
            assert(types[types.len() - 1] == last);
        }
        let now = types_of(all);
        if bytes_of(was, last) is None {
            assert(now == types_of(was).push(last));
            assert(now.contains(t) <==> types_of(was).contains(t) || t == last) by {
                if now.contains(t) {
                    let k = choose|k: int| 0 <= k < now.len() && now[k] == t;
                    if k < types_of(was).len() {
                        assert(types_of(was)[k] == t);
                    }
                }
                if types_of(was).contains(t) {
                    let k = choose|k: int| 0 <= k < types_of(was).len() && types_of(was)[k] == t;
                    assert(now[k] == t);
                }
                assert(now[now.len() - 1] == last);
            }
        }
        if types.no_duplicates() {
            assert(rest.no_duplicates()) by {
                assert forall|a: int, b: int| 0 <= a < rest.len() && 0 <= b < rest.len() && a != b implies rest[a]
                    != rest[b] by {
                    assert(types[a] != types[b]);
                }
            }
            assert(!rest.contains(last)) by {
                if rest.contains(last) {
                    let k = choose|k: int| 0 <= k < rest.len() && rest[k] == last;
                    assert(types[k] != types[types.len() - 1]);
                }
            }
            assert(now =~= types);
        }
        assert forall|k: int| 0 <= k < all.len() implies (#[trigger] all[k]).1.len() == 0 by {
            if i >= 0 {
                if k != i {
                    assert(all[k] == was[k]);
                }
            } else if k < was.len() {
                assert(all[k] == was[k]);
            }
        }
    }
}

/// The types that a node lists are turned into an offer of these types: every one of them, no
/// other, without content; and where none repeats, in their order.
pub proof fn every_listed_type_is_offered(
    types: Vec<String>,
    addr: &str,
    want: SelectionKind,
    r: Result<Offer, String>,
    t: Seq<char>,
)
    requires
        call_ensures(interpret, (GetResult::Types(types), addr, want), r),
    ensures
        r matches Ok(offer) && {
            &&& types_of(offer_pairs(offer)).contains(t) <==> texts(types@).contains(t)
            &&& texts(types@).no_duplicates() ==> types_of(offer_pairs(offer)) == texts(types@)
            &&& forall|i: int|
                0 <= i < offer_pairs(offer).len() ==> (#[trigger] offer_pairs(offer)[i]).1.len()
                    == 0
        },
{
    lemma_bare(texts(types@), t);
}

/// An offer that a node hands over is taken as it is; every other answer is an error.
pub proof fn an_offer_is_taken_as_it_is(
    result: GetResult,
    addr: &str,
    want: SelectionKind,
    r: Result<Offer, String>,
)
    requires
        call_ensures(interpret, (result, addr, want), r),
    ensures
        result matches GetResult::Offer(o) ==> r == Ok::<Offer, String>(o),
        r is Ok <==> result is Offer || result is Types,
{
}

/// The listing has a line for each type, in their order.
pub proof fn each_type_has_its_line(a: Seq<Seq<char>>, t: Seq<char>, b: Seq<Seq<char>>)
    ensures
        type_lines(a + seq![t] + b) == type_lines(a) + (t + "\n"@) + type_lines(b),
        type_lines(Seq::empty()) == Seq::<char>::empty(),
    decreases b.len(),
{
    let all = a + seq![t] + b;
    if b.len() == 0 {
        assert(all.drop_last() =~= a);
        assert(type_lines(all) =~= type_lines(a) + (t + "\n"@) + type_lines(b));
    } else {
        each_type_has_its_line(a, t, b.drop_last());
        assert(all.drop_last() =~= a + seq![t] + b.drop_last());
        assert(all.last() == b.last());
        assert(type_lines(all) =~= type_lines(a) + (t + "\n"@) + type_lines(b));
    }
}

/// With `-l` the types of the offer are printed, one per line, and no content.
pub proof fn listing_prints_the_types(pa: &PasteArgs, offer: Offer, r: Result<Vec<u8>, String>)
    requires
        call_ensures(output_bytes, (pa, offer), r),
        pa.list,
    ensures
        r matches Ok(bytes) && bytes@ == encode_utf8(type_lines(types_of(offer_pairs(offer)))),
{
}

/// A requested type is the first one that is offered under that name, whatever the case of its
/// letters; none is selected if none is.
pub proof fn the_requested_type_is_selected(types: Seq<Seq<char>>, want: Seq<char>, k: int)
    requires
        0 <= k < types.len(),
    ensures
        match selected(Some(want), types) {
            Some(i) => {
                &&& 0 <= i < types.len()
                &&& same_folded(encode_utf8(types[i]), encode_utf8(want))
                &&& k < i ==> !same_folded(encode_utf8(types[k]), encode_utf8(want))
            },
            None => !same_folded(encode_utf8(types[k]), encode_utf8(want)),
        },
{
    lemma_first_with(types, |t: Seq<char>| same_folded(encode_utf8(t), encode_utf8(want)));
}

/// Without a request something is selected of every offer that is not empty: a plain text in
/// UTF-8 if there is one, else a plain text, else any text, else the first type.
pub proof fn the_plainest_text_is_selected(types: Seq<Seq<char>>, k: int)
    requires
        0 <= k < types.len(),
    ensures
        selected(None, types) matches Some(i) && 0 <= i < types.len() && {
            let (utf8, plain, text) = (
                encode_utf8("text/plain;charset=utf-8"@),
                encode_utf8("text/plain"@),
                encode_utf8("text/"@),
            );
            &&& same_folded(encode_utf8(types[k]), utf8) ==> i <= k && same_folded(
                encode_utf8(types[i]),
                utf8,
            )
            &&& same_folded(encode_utf8(types[k]), plain) ==> {
                ||| same_folded(encode_utf8(types[i]), utf8)
                ||| i <= k && same_folded(encode_utf8(types[i]), plain)
            }
            &&& folded_prefix(encode_utf8(types[k]), text) ==> {
                ||| same_folded(encode_utf8(types[i]), utf8)
                ||| same_folded(encode_utf8(types[i]), plain)
                ||| i <= k && folded_prefix(encode_utf8(types[i]), text)
            }
            &&& i > 0 ==> same_folded(encode_utf8(types[i]), utf8) || same_folded(
                encode_utf8(types[i]),
                plain,
            ) || folded_prefix(encode_utf8(types[i]), text)
        },
        selected(None, Seq::empty()) is None,
{
    let (utf8, plain, text) = (
        "text/plain;charset=utf-8"@,
        "text/plain"@,
        encode_utf8("text/"@),
    );
    let none = Seq::<Seq<char>>::empty();
    lemma_first_with(types, |t: Seq<char>| same_folded(encode_utf8(t), encode_utf8(utf8)));
    lemma_first_with(types, |t: Seq<char>| same_folded(encode_utf8(t), encode_utf8(plain)));
    lemma_first_with(types, |t: Seq<char>| folded_prefix(encode_utf8(t), text));
}

/// What is printed is the content of the selected type and nothing else, but for one line feed
/// behind a text where that is not suppressed.
pub proof fn the_content_is_printed(
    pa: &PasteArgs,
    offer: Offer,
    r: Result<Vec<u8>, String>,
)
    requires
        call_ensures(output_bytes, (pa, offer), r),
        !pa.list,
    ensures
        ({
            let (pairs, types) = (offer_pairs(offer), types_of(offer_pairs(offer)));
            match selected(pa@.type_, types) {
                Some(i) => r matches Ok(bytes) && bytes_of(pairs, types[i]) matches Some(data)
                    && if !pa.no_newline && folded_prefix(
                    encode_utf8(types[i]),
                    encode_utf8("text/"@),
                ) {
                    bytes@ == data + seq![10u8]
                } else {
                    bytes@ == data
                },
                None => r is Err,
            }
        }),
{
    let types = types_of(offer_pairs(offer));
    if let Some(i) = selected(pa@.type_, types) {
        if let Some(data) = bytes_of(offer_pairs(offer), types[i]) {
            assert(data.push(10u8) =~= data + seq![10u8]);
        }
    }
}

/// A prefix counts whatever the case of its letters.
pub proof fn a_text_type_starts_with_text(mime: &str, r: bool)
    requires
        call_ensures(is_text, (mime,), r),
    ensures
        r <==> encode_utf8(mime@).len() >= encode_utf8("text/"@).len() && same_folded(
            encode_utf8(mime@).take(encode_utf8("text/"@).len() as int),
            encode_utf8("text/"@),
        ),
{
}

/// A node that is named is the only target, on the configured port unless it names its own;
/// else every peer of the config is one; and without either there is none.
pub proof fn the_named_node_is_the_target(
    pa: &PasteArgs,
    cfg: &Config,
    r: Result<Vec<String>, String>,
)
    requires
        call_ensures(resolve_targets, (pa, cfg), r),
    ensures
        pa.node matches Some(n) ==> (r matches Ok(t) && t@.len() == 1 && t@[0]@ == with_port(
            n@,
            decimal(cfg.port as nat),
        )),
        pa.node is None && cfg.peers@.len() > 0 ==> (r matches Ok(t) && texts(t@) == texts(
            cfg.peers@,
        )),
        pa.node is None && cfg.peers@.len() == 0 ==> r is Err,
{
    if let Ok(t) = r {
        assert(texts(t@).len() == t@.len());
        if t@.len() > 0 {
            assert(texts(t@)[0] == t@[0]@);
        }
    }
}

/// A node is asked for no more than is needed: the names of the types, the requested one, or
/// all of them.
pub proof fn no_more_is_asked_than_needed(pa: &PasteArgs, r: GetWant)
    requires
        call_ensures(narrowing, (pa,), r),
    ensures
        pa.list <==> r is TypesOnly,
        !pa.list ==> (pa.type_ matches Some(t) ==> (r matches GetWant::One(w) && w@ == t@)),
        !pa.list && pa.type_ is None ==> r is All,
{
}

/// The answer about the selection that was asked for ends the fetch, with what it is
/// interpreted as; one about another selection is passed over.
pub proof fn the_answer_to_the_question_counts(
    addr: &str,
    want: SelectionKind,
    timeout: &str,
    kind: SelectionKind,
    result: GetResult,
    step: FetchStep,
    r: Result<Offer, String>,
)
    requires
        call_ensures(
            fetch_offer,
            (addr, want, timeout, FetchEvent::Inbound(Message::GetReply { kind, result })),
            step,
        ),
        call_ensures(interpret, (result, addr, want), r),
    ensures
        kind != want ==> step is Wait,
        kind == want ==> (step matches FetchStep::Done(done) && match (done, r) {
            (Ok(a), Ok(b)) => offer_pairs(a) == offer_pairs(b),
            (Err(a), Err(b)) => a@ == b@,
            _ => false,
        }),
{
}

/// A fetch asks the node once it is connected, and fails when the time is over or the
/// connection is.
pub proof fn a_fetch_asks_and_gives_up(
    addr: &str,
    want: SelectionKind,
    timeout: &str,
    event: FetchEvent,
    step: FetchStep,
)
    requires
        call_ensures(fetch_offer, (addr, want, timeout, event), step),
    ensures
        event matches FetchEvent::Connected(node) ==> step == FetchStep::Ask(node),
        event is Deadline || event is Ended || event is InboundClosed ==> (step
            matches FetchStep::Done(done) && done is Err),
        event matches FetchEvent::Inbound(m) ==> (!(m is GetReply) ==> step is Wait),
{
}

/// The reason why a node hands nothing back names the node and the selection, and is another
/// for each reason.
pub proof fn a_reason_names_the_node(
    reason: Unavailable,
    addr: Seq<char>,
    want: SelectionKind,
)
    ensures
        exists|x: Seq<char>, y: Seq<char>|
            reason_text(reason, addr, want) == #[trigger] (x + addr + y),
        exists|x: Seq<char>, y: Seq<char>|
            reason_text(reason, addr, want) == #[trigger] (x + kind_name(want) + y),
{
    let kind = kind_name(want);
    let t = reason_text(reason, addr, want);
    let none = Seq::<char>::empty();
    match reason {
        Unavailable::Empty => {
            assert(t =~= ("the "@ + kind + " clipboard on "@) + addr + " is empty"@);
            assert(t =~= "the "@ + kind + (" clipboard on "@ + addr + " is empty"@));
        },
        Unavailable::NotSynced => {
            let z = " selection — it is configured receive-only, or (for --primary) without sync_selection"@;
            assert(t =~= none + addr + (" does not serve its "@ + kind + z));
            assert(t =~= (addr + " does not serve its "@) + kind + z);
        },
        Unavailable::Sensitive => {
            let z = " is flagged as a password-manager secret"@;
            assert(t =~= ("the "@ + kind + " clipboard on "@) + addr + z);
            assert(t =~= "the "@ + kind + (" clipboard on "@ + addr + z));
        },
        Unavailable::Denied => {
            let z = " is denied by that node's MIME rules (see `clipmesh --rules` on that host)"@;
            assert(t =~= ("every type in the "@ + kind + " clipboard on "@) + addr + z);
            assert(t =~= "every type in the "@ + kind + (" clipboard on "@ + addr + z));
        },
        Unavailable::TooLarge => {
            let z = " exceeds that node's max_payload_size"@;
            assert(t =~= ("the "@ + kind + " clipboard on "@) + addr + z);
            assert(t =~= "the "@ + kind + (" clipboard on "@ + addr + z));
        },
        Unavailable::Unreadable => {
            let z = " clipboard; its log says why"@;
            assert(t =~= none + addr + (" could not read its "@ + kind + z));
            assert(t =~= (addr + " could not read its "@) + kind + z);
        },
    }
}

/// When every fetch failed, the last error is told: alone where there was one node, and with
/// the number of nodes where there were more.
pub proof fn a_lost_race_tells_the_last_error(total: nat, e: Seq<char>)
    ensures
        race_lost(1, Some(e)) == e,
        total != 1 ==> exists|x: Seq<char>, y: Seq<char>|
            race_lost(total, Some(e)) == #[trigger] (x + decimal(total) + y + e),
{
    if total != 1 {
        let (x, y) = ("couldn't paste from any of "@, " nodes: "@);
        assert(race_lost(total, Some(e)) =~= x + decimal(total) + y + e);
    }
}

/// The list of what is available names every type, with a comma between two.
pub proof fn what_is_available_is_named(a: Seq<Seq<char>>, b: Seq<Seq<char>>)
    requires
        a.len() > 0,
        b.len() > 0,
    ensures
        available(a + b) == available(a) + ", "@ + available(b),
        a.len() == 1 ==> available(a) == a[0],
        available(Seq::empty()) == "none"@,
{
    crate::laws::text::joining_goes_piece_by_piece(a, b, ", "@);
}

/// Each switch of paste mode sets its own value and leaves the others as they are.
pub proof fn a_paste_switch_sets_its_own_value(args: Seq<Seq<char>>, i: int, v: PasteView)
    requires
        0 <= i < args.len(),
    ensures
        args[i] == "-l"@ || args[i] == "--list-types"@ ==> paste_parsed(args, i, v)
            == paste_parsed(args, i + 1, PasteView { list: true, ..v }),
        args[i] == "-n"@ || args[i] == "--no-newline"@ ==> paste_parsed(args, i, v)
            == paste_parsed(args, i + 1, PasteView { no_newline: true, ..v }),
        args[i] == "-p"@ || args[i] == "--primary"@ ==> paste_parsed(args, i, v) == paste_parsed(
            args,
            i + 1,
            PasteView { kind: SelectionKind::Selection, ..v },
        ),
        args[i] == "-w"@ || args[i] == "--watch"@ ==> paste_parsed(args, i, v) is Err,
{
    lemma_paste_flags();
}

/// Each option of paste mode takes the next argument as its value, whatever it looks like, and
/// leaves the others as they are; without one it is an error.
pub proof fn a_paste_option_takes_the_next_argument(args: Seq<Seq<char>>, i: int, v: PasteView)
    requires
        0 <= i < args.len(),
    ensures
        i + 1 < args.len() && (args[i] == "-t"@ || args[i] == "--type"@) ==> paste_parsed(
            args,
            i,
            v,
        ) == paste_parsed(args, i + 2, PasteView { type_: Some(args[i + 1]), ..v }),
        i + 1 < args.len() && args[i] == "--node"@ ==> paste_parsed(args, i, v) == paste_parsed(
            args,
            i + 2,
            PasteView { node: Some(args[i + 1]), ..v },
        ),
        i + 1 < args.len() && args[i] == "--config"@ ==> paste_parsed(args, i, v) == paste_parsed(
            args,
            i + 2,
            PasteView { config: Some(args[i + 1]), ..v },
        ),
        i + 1 == args.len() && (args[i] == "-t"@ || args[i] == "--type"@ || args[i] == "--node"@
            || args[i] == "--config"@) ==> paste_parsed(args, i, v) is Err,
{
    lemma_paste_flags();
}

/// An argument that is none of these is an error; and without arguments the clipboard is
/// pasted, in whatever type is selected, from the peers of the default config.
pub proof fn paste_mode_knows_no_other_argument(args: Seq<Seq<char>>, i: int, v: PasteView)
    ensures
        0 <= i < args.len() && !seq![
            "-l"@,
            "--list-types"@,
            "-n"@,
            "--no-newline"@,
            "-p"@,
            "--primary"@,
            "-t"@,
            "--type"@,
            "--node"@,
            "--config"@,
        ].contains(args[i]) ==> paste_parsed(args, i, v) is Err,
        i == args.len() ==> paste_parsed(args, i, v) == Ok::<PasteView, Seq<char>>(v),
        paste_defaults().kind == SelectionKind::Clipboard,
        paste_defaults().type_ is None,
        paste_defaults().node is None,
        paste_defaults().config is None,
        !paste_defaults().list,
        !paste_defaults().no_newline,
{
    let all = seq![
        "-l"@,
        "--list-types"@,
        "-n"@,
        "--no-newline"@,
        "-p"@,
        "--primary"@,
        "-t"@,
        "--type"@,
        "--node"@,
        "--config"@,
    ];
    assert(all[0] == "-l"@ && all[1] == "--list-types"@ && all[2] == "-n"@);
    assert(all[3] == "--no-newline"@ && all[4] == "-p"@ && all[5] == "--primary"@);
    assert(all[6] == "-t"@ && all[7] == "--type"@ && all[8] == "--node"@ && all[9] == "--config"@);
}

proof fn lemma_paste_flags()
    ensures
        crate::paste::paste_flag("-l"@) is List,
        crate::paste::paste_flag("--list-types"@) is List,
        crate::paste::paste_flag("-n"@) is NoNewline,
        crate::paste::paste_flag("--no-newline"@) is NoNewline,
        crate::paste::paste_flag("-p"@) is Primary,
        crate::paste::paste_flag("--primary"@) is Primary,
        crate::paste::paste_flag("-t"@) is Type,
        crate::paste::paste_flag("--type"@) is Type,
        crate::paste::paste_flag("--node"@) is Node,
        crate::paste::paste_flag("--config"@) is Config,
        crate::paste::paste_flag("-w"@) is Watch,
        crate::paste::paste_flag("--watch"@) is Watch,
{
    reveal_strlit("-l");
    reveal_strlit("--list-types");
    reveal_strlit("-n");
    reveal_strlit("--no-newline");
    reveal_strlit("-p");
    reveal_strlit("--primary");
    reveal_strlit("-t");
    reveal_strlit("--type");
    reveal_strlit("--node");
    reveal_strlit("--config");
    reveal_strlit("-w");
    reveal_strlit("--watch");
    assert("-l"@[1] == 'l' && "-n"@[1] == 'n' && "-p"@[1] == 'p' && "-t"@[1] == 't' && "-w"@[1]
        == 'w');
    assert("--type"@[2] == 't' && "--node"@[2] == 'n');
    assert("--config"@.len() == 8 && "--watch"@.len() == 7 && "--primary"@.len() == 9);
    assert("--list-types"@.len() == 12 && "--no-newline"@.len() == 12);
    assert("--list-types"@[2] == 'l' && "--no-newline"@[2] == 'n');
}

/// Without arguments the clipboard of a configured peer is pasted, whichever type is best, with
/// a line end behind a text; each argument changes what it names and nothing else.
pub proof fn each_paste_argument_stands_alone(
    none: &[String],
    one: &[String],
    two: &[String],
    a: Result<PasteArgs, String>,
    b: Result<PasteArgs, String>,
    c: Result<PasteArgs, String>,
    value: Seq<char>,
)
    requires
        call_ensures(PasteArgs::parse, (none,), a),
        call_ensures(PasteArgs::parse, (one,), b),
        call_ensures(PasteArgs::parse, (two,), c),
        texts(none@) == Seq::<Seq<char>>::empty(),
        texts(one@).len() == 1,
        texts(two@).len() == 2,
        texts(two@)[1] == value,
    ensures
        ({
            let d = PasteView {
                kind: SelectionKind::Clipboard,
                type_: None,
                list: false,
                no_newline: false,
                node: None,
                config: None,
            };
            let x = texts(one@)[0];
            let y = texts(two@)[0];
            &&& a matches Ok(v) && v@ == d
            &&& x == "-l"@ || x == "--list-types"@ ==> (b matches Ok(v) && v@ == (PasteView {
                list: true,
                ..d
            }))
            &&& x == "-n"@ || x == "--no-newline"@ ==> (b matches Ok(v) && v@ == (PasteView {
                no_newline: true,
                ..d
            }))
            &&& x == "-p"@ || x == "--primary"@ ==> (b matches Ok(v) && v@ == (PasteView {
                kind: SelectionKind::Selection,
                ..d
            }))
            &&& y == "-t"@ || y == "--type"@ ==> (c matches Ok(v) && v@ == (PasteView {
                type_: Some(value),
                ..d
            }))
            &&& y == "--node"@ ==> (c matches Ok(v) && v@ == (PasteView { node: Some(value), ..d }))
            &&& y == "--config"@ ==> (c matches Ok(v) && v@ == (PasteView {
                config: Some(value),
                ..d
            }))
            &&& x == "-w"@ || x == "--watch"@ ==> b is Err
            &&& x == "-t"@ || x == "--type"@ || x == "--node"@ || x == "--config"@ ==> b is Err
        }),
{
    lemma_paste_flags();
    reveal_with_fuel(paste_parsed, 3);
}

/// Every target is asked, the first offer that comes is taken, and a race is lost when every
/// fetch has failed, with the last error.
pub proof fn the_first_offer_wins(
    targets: &[String],
    start: Race,
    m: &mut Race,
    offer: Offer,
    cause: String,
    n: &mut Race,
    r: Option<Result<Offer, String>>,
    s: Option<Result<Offer, String>>,
)
    requires
        call_ensures(fetch_from_any, (targets,), start),
        call_ensures(Race::joined, (m, Ok::<Offer, String>(offer)), r),
        call_ensures(Race::joined, (n, Err::<Offer, String>(cause)), s),
        old(n)@.failed < old(n)@.total,
    ensures
        start@.total == targets@.len(),
        start@.failed == 0,
        r == Some(Ok::<Offer, String>(offer)),
        final(n)@.total == old(n)@.total,
        final(n)@.failed == old(n)@.failed + 1,
        s is None <==> final(n)@.failed < old(n)@.total,
        s is Some ==> (s matches Some(Err(e)) && has_suffix(e@, cause@)),
        s is Some && old(n)@.total == 1 ==> (s matches Some(Err(e)) && e@ == cause@),
{
    if let Some(Err(e)) = s {
        assert(e@.skip(e@.len() - cause@.len()) =~= cause@);
    }
}

/// Each reason says what it is.
pub proof fn a_reason_says_what_it_is(reason: Unavailable, addr: Seq<char>, want: SelectionKind)
    ensures
        reason is Empty ==> stands_in("is empty"@, reason_text(reason, addr, want)),
        reason is NotSynced ==> stands_in("receive-only"@, reason_text(reason, addr, want)),
        reason is Sensitive ==> stands_in("password-manager secret"@, reason_text(reason, addr, want)),
        reason is Denied ==> stands_in("is denied by that node's MIME rules"@, reason_text(reason, addr, want)),
        reason is TooLarge ==> stands_in("max_payload_size"@, reason_text(reason, addr, want)),
        reason is Unreadable ==> stands_in("could not read"@, reason_text(reason, addr, want)),
{
    let kind = kind_name(want);
    let t = reason_text(reason, addr, want);
    match reason {
        Unavailable::Empty => {
            let lit = " is empty"@;
            reveal_strlit(" is empty");
            reveal_strlit("is empty");
            assert(lit.subrange(1, 9) =~= "is empty"@);
            assert(stands_at("is empty"@, lit, 1));
            lemma_within("the "@ + kind + " clipboard on "@ + addr, lit, Seq::empty(), "is empty"@, 1);
            assert("the "@ + kind + " clipboard on "@ + addr + lit + (Seq::empty()) =~= t);
        },
        Unavailable::NotSynced => {
            let lit = " selection — it is configured receive-only, or (for --primary) without sync_selection"@;
            reveal_strlit(" selection — it is configured receive-only, or (for --primary) without sync_selection");
            reveal_strlit("receive-only");
            assert(lit.subrange(30, 42) =~= "receive-only"@);
            assert(stands_at("receive-only"@, lit, 30));
            lemma_within(addr + " does not serve its "@ + kind, lit, Seq::empty(), "receive-only"@, 30);
            assert(addr + " does not serve its "@ + kind + lit + (Seq::empty()) =~= t);
        },
        Unavailable::Sensitive => {
            let lit = " is flagged as a password-manager secret"@;
            reveal_strlit(" is flagged as a password-manager secret");
            reveal_strlit("password-manager secret");
            assert(lit.subrange(17, 40) =~= "password-manager secret"@);
            assert(stands_at("password-manager secret"@, lit, 17));
            lemma_within("the "@ + kind + " clipboard on "@ + addr, lit, Seq::empty(), "password-manager secret"@, 17);
            assert("the "@ + kind + " clipboard on "@ + addr + lit + (Seq::empty()) =~= t);
        },
        Unavailable::Denied => {
            let lit = " is denied by that node's MIME rules (see `clipmesh --rules` on that host)"@;
            reveal_strlit(" is denied by that node's MIME rules (see `clipmesh --rules` on that host)");
            reveal_strlit("is denied by that node's MIME rules");
            assert(lit.subrange(1, 36) =~= "is denied by that node's MIME rules"@);
            assert(stands_at("is denied by that node's MIME rules"@, lit, 1));
            lemma_within("every type in the "@ + kind + " clipboard on "@ + addr, lit, Seq::empty(), "is denied by that node's MIME rules"@, 1);
            assert("every type in the "@ + kind + " clipboard on "@ + addr + lit + (Seq::empty()) =~= t);
        },
        Unavailable::TooLarge => {
            let lit = " exceeds that node's max_payload_size"@;
            reveal_strlit(" exceeds that node's max_payload_size");
            reveal_strlit("max_payload_size");
            assert(lit.subrange(21, 37) =~= "max_payload_size"@);
            assert(stands_at("max_payload_size"@, lit, 21));
            lemma_within("the "@ + kind + " clipboard on "@ + addr, lit, Seq::empty(), "max_payload_size"@, 21);
            assert("the "@ + kind + " clipboard on "@ + addr + lit + (Seq::empty()) =~= t);
        },
        Unavailable::Unreadable => {
            let lit = " could not read its "@;
            reveal_strlit(" could not read its ");
            reveal_strlit("could not read");
            assert(lit.subrange(1, 15) =~= "could not read"@);
            assert(stands_at("could not read"@, lit, 1));
            lemma_within(addr, lit, kind + " clipboard; its log says why"@, "could not read"@, 1);
            assert(addr + lit + (kind + " clipboard; its log says why"@) =~= t);
        },
    }
}

} // verus!
