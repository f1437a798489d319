//! The history: what the command line asks, what a listing shows, and what an answer means.

use crate::config::{with_port, Config};
use crate::history::{age_text, answer, column_width, command_parsed};
use crate::history::{awaited, render_listing, Command, HistoryView, Outcome};
use crate::history::{entry_types, equals_at, explanation, flags_parsed};
use crate::history::{header_row, history_parsed, id_text, listing, local_addr, loopback, padded_cells};
use crate::history::{place_name, request, restored_text, row_line, row_lines, row_of};
use crate::history::{short_id, split_flag, table_of, target, CommandView, FlagsView, HistoryArgs};
use crate::history::explain;
use crate::laws::cli::{lemma_stands_in, lemma_within, stands_at, stands_in};
use crate::offer::{bytes_of, offer_pairs, types_of};
use crate::paste::available;
use crate::paste::selected;
use crate::protocol::{HistoryEntry, HistoryRequest, HistoryResult, SelectionKind};
use crate::protocol::{HistoryMiss, Unavailable};
use crate::protocol::{human, nearest_float, round_half_even, unit_bytes};
use crate::text::{decimal, has_prefix, join, opt_text, repeat, texts, trim_end};
use vstd::prelude::*;
use vstd::utf8::encode_utf8;

verus! {

/// The value of a hexadecimal digit.
pub open spec fn hex_value(c: char) -> int {
    if '0' <= c <= '9' {
        c as int - '0' as int
    } else {
        c as int - 'a' as int + 10
    }
}

/// The id of an entry is the beginning of its content hash in hexadecimal, from the first byte
/// on: two digits for each byte, the higher half first.
pub proof fn an_id_begins_the_hash(hash: &[u8; 32], r: String, k: int)
    requires
        call_ensures(short_id, (hash,), r),
        0 <= k < 4,
    ensures
        r@.len() == 8,
        16 * hex_value(r@[2 * k]) + hex_value(r@[2 * k + 1]) == hash@[k],
        '0' <= r@[2 * k] <= '9' || 'a' <= r@[2 * k] <= 'f',
        '0' <= r@[2 * k + 1] <= '9' || 'a' <= r@[2 * k + 1] <= 'f',
{
    lemma_id(hash@, k);
}

proof fn lemma_id(hash: Seq<u8>, k: int)
    requires
        0 <= k < 4,
    ensures
        id_text(hash).len() == 8,
        16 * hex_value(id_text(hash)[2 * k]) + hex_value(id_text(hash)[2 * k + 1]) == hash[k],
        '0' <= id_text(hash)[2 * k] <= '9' || 'a' <= id_text(hash)[2 * k] <= 'f',
        '0' <= id_text(hash)[2 * k + 1] <= '9' || 'a' <= id_text(hash)[2 * k + 1] <= 'f',
{
    let b = hash[k] as int;
    lemma_hex(b / 16);
    lemma_hex(b % 16);
    assert((2 * k) % 2 == 0 && (2 * k) / 2 == k);
    assert((2 * k + 1) % 2 == 1 && (2 * k + 1) / 2 == k);
}

proof fn lemma_hex(d: int)
    requires
        0 <= d < 16,
    ensures
        hex_value(crate::history::HEX@[d]) == d,
        '0' <= crate::history::HEX@[d] <= '9' || 'a' <= crate::history::HEX@[d] <= 'f',
{
    if d < 8 {
        if d < 4 {
        } else {
        }
    }
}

/// Two entries whose hashes begin with the same bytes have the same id, and no others.
pub proof fn an_id_tells_hashes_apart(a: Seq<u8>, b: Seq<u8>)
    requires
        a.len() == 32,
        b.len() == 32,
    ensures
        id_text(a) == id_text(b) <==> a.take(4) == b.take(4),
{
    if id_text(a) == id_text(b) {
        lemma_id(a, 0);
        lemma_id(b, 0);
        lemma_id(a, 1);
        lemma_id(b, 1);
        lemma_id(a, 2);
        lemma_id(b, 2);
        lemma_id(a, 3);
        lemma_id(b, 3);
        assert(a.take(4) =~= b.take(4));
    }
    if a.take(4) == b.take(4) {
        assert forall|i: int| 0 <= i < 8 implies id_text(a)[i] == id_text(b)[i] by {
            assert(a.take(4)[i / 2] == b.take(4)[i / 2]);
        }
        assert(id_text(a) =~= id_text(b));
    }
}

/// An age is told in the largest unit that it has one of, rounded down; less than five seconds
/// is no age.
pub proof fn an_age_is_told_in_whole_units(n: nat, rest: nat, ms: nat)
    ensures
        ms < 5000 ==> age_text(ms) == "just now"@,
        5 <= n < 60 && rest < 1000 ==> age_text(n * 1000 + rest) == decimal(n) + "s"@,
        1 <= n < 60 && rest < 60_000 ==> age_text(n * 60_000 + rest) == decimal(n) + "m"@,
        1 <= n < 24 && rest < 3_600_000 ==> age_text(n * 3_600_000 + rest) == decimal(n) + "h"@,
        1 <= n && rest < 86_400_000 ==> age_text(n * 86_400_000 + rest) == decimal(n) + "d"@,
{
    if rest < 1000 {
        assert((n * 1000 + rest) / 1000 == n);
    }
    if rest < 60_000 {
        assert((n * 60_000 + rest) / 60_000 == n);
    }
    if rest < 3_600_000 {
        assert((n * 3_600_000 + rest) / 3_600_000 == n);
    }
    if rest < 86_400_000 {
        assert((n * 86_400_000 + rest) / 86_400_000 == n);
    }
}

/// A row shows the number of the entry, the beginning of its hash, its age, its place, its size
/// and its content, in this order.
pub proof fn a_row_shows_the_entry(e: HistoryEntry)
    ensures
        row_of(e).len() == 6,
        row_of(e)[0] == decimal(e.index as nat),
        row_of(e)[1] == id_text(e.hash@),
        row_of(e)[2] == age_text(e.age_ms as nat),
        row_of(e)[3] == (if e.kind == SelectionKind::Clipboard {
            "clipboard"@
        } else {
            "primary"@
        }),
        row_of(e)[4] == human((e.bytes as usize) as nat),
        e.preview matches Some(p) ==> row_of(e)[5] == p@,
        e.preview is None ==> row_of(e)[5] == join(entry_types(e.types@), ", "@),
        header_row() == seq!["#"@, "ID"@, "AGE"@, "WHERE"@, "SIZE"@, "CONTENT"@],
{
}

proof fn lemma_row_lines(
    a: Seq<Seq<Seq<char>>>,
    r: Seq<Seq<char>>,
    b: Seq<Seq<Seq<char>>>,
    table: Seq<Seq<Seq<char>>>,
)
    ensures
        row_lines(a + seq![r] + b, table) == row_lines(a, table) + row_line(r, table) + row_lines(
            b,
            table,
        ),
    decreases b.len(),
{
    let all = a + seq![r] + b;
    if b.len() == 0 {
        assert(all.drop_last() =~= a);
        assert(row_lines(all, table) =~= row_lines(a, table) + row_line(r, table) + row_lines(
            b,
            table,
        ));
    } else {
        lemma_row_lines(a, r, b.drop_last(), table);
        assert(all.drop_last() =~= a + seq![r] + b.drop_last());
        assert(all.last() == b.last());
        assert(row_lines(all, table) =~= row_lines(a, table) + row_line(r, table) + row_lines(
            b,
            table,
        ));
    }
}

/// A listing counts the entries and names the node, and below the header has a line for each
/// entry, in their order: every entry's line stands behind those of the entries before it.
pub proof fn a_listing_has_a_line_for_each_entry(
    entries: Seq<HistoryEntry>,
    addr: Seq<char>,
    i: int,
)
    requires
        0 <= i < entries.len(),
    ensures
        has_prefix(listing(entries, addr), decimal(entries.len()) + " remembered clipboard(s) on "@
            + addr + "\n"@),
        exists|x: Seq<char>, y: Seq<char>, z: Seq<char>|
            listing(entries, addr) == #[trigger] (x + row_line(header_row(), table_of(entries)) + y
                + row_line(row_of(entries[i]), table_of(entries)) + z) && y == row_lines(
                entries.take(i).map_values(|e: HistoryEntry| row_of(e)),
                table_of(entries),
            ),
{
    let t = table_of(entries);
    let rows = entries.map_values(|e: HistoryEntry| row_of(e));
    let none = Seq::<Seq<Seq<char>>>::empty();
    lemma_row_lines(none, header_row(), rows, t);
    assert(none + seq![header_row()] + rows =~= t);
    let a = entries.take(i).map_values(|e: HistoryEntry| row_of(e));
    let b = entries.skip(i + 1).map_values(|e: HistoryEntry| row_of(e));
    lemma_row_lines(a, row_of(entries[i]), b, t);
    assert(a + seq![row_of(entries[i])] + b =~= rows);
    let head = decimal(entries.len()) + " remembered clipboard(s) on "@ + addr;
    let foot = "\nPut one back with: clipmesh history restore <#>, or its ID — a later copy renumbers the rows but never the ids\n"@;
    let (x, y, z) = (head + "\n\n"@, row_lines(a, t), row_lines(b, t) + foot);
    assert(listing(entries, addr) =~= x + row_line(header_row(), t) + y + row_line(
        row_of(entries[i]),
        t,
    ) + z);
    reveal_strlit("\n\n");
    reveal_strlit("\n");
    let p = head + "\n"@;
    assert(listing(entries, addr).take(p.len() as int) =~= p);
}

/// A column is as wide as its widest cell.
pub proof fn a_column_is_as_wide_as_its_widest_cell(
    table: Seq<Seq<Seq<char>>>,
    c: int,
    i: int,
)
    requires
        0 <= i < table.len(),
    ensures
        table[i][c].len() <= column_width(table, c),
        exists|j: int| 0 <= j < table.len() && (#[trigger] table[j])[c].len() == column_width(
            table,
            c,
        ),
    decreases table.len(),
{
    let rest = table.drop_last();
    assert(table[table.len() - 1] == table.last());
    if rest.len() == 0 {
        assert(column_width(rest, c) == 0);
    } else {
        a_column_is_as_wide_as_its_widest_cell(
            rest,
            c,
            if i < rest.len() {
                i
            } else {
                0
            },
        );
        let j = choose|j: int| 0 <= j < rest.len() && (#[trigger] rest[j])[c].len() == column_width(
            rest,
            c,
        );
        assert(table[j] == rest[j]);
        if i < rest.len() {
            assert(table[i] == rest[i]);
        }
    }
}

/// The columns of a listing stand below each other: in every row of the table, what stands in
/// front of a column takes the same room.
pub proof fn the_columns_stand_below_each_other(
    table: Seq<Seq<Seq<char>>>,
    i: int,
    j: int,
    n: nat,
)
    requires
        0 <= i < table.len(),
        0 <= j < table.len(),
        n <= 5,
    ensures
        padded_cells(table[i], table, n).len() == padded_cells(table[j], table, n).len(),
    decreases n,
{
    if n > 0 {
        the_columns_stand_below_each_other(table, i, j, (n - 1) as nat);
        a_column_is_as_wide_as_its_widest_cell(table, n - 1, i);
        a_column_is_as_wide_as_its_widest_cell(table, n - 1, j);
    }
}

/// A row is its cells with at least two spaces between them, and nothing but spaces.
pub proof fn a_row_is_its_cells(table: Seq<Seq<Seq<char>>>, i: int)
    requires
        0 <= i < table.len(),
    ensures
        exists|a: nat, b: nat, c: nat, d: nat, e: nat|
            a >= 2 && b >= 2 && c >= 2 && d >= 2 && e >= 2 && row_line(table[i], table)
                == #[trigger] six_cells(table[i], a, b, c, d, e),
{
    let row = table[i];
    let gap = |k: int| (column_width(table, k) - row[k].len() + 2) as nat;
    a_column_is_as_wide_as_its_widest_cell(table, 0, i);
    a_column_is_as_wide_as_its_widest_cell(table, 1, i);
    a_column_is_as_wide_as_its_widest_cell(table, 2, i);
    a_column_is_as_wide_as_its_widest_cell(table, 3, i);
    a_column_is_as_wide_as_its_widest_cell(table, 4, i);
    reveal_with_fuel(padded_cells, 6);
    let (a, b, c, d, e) = (gap(0), gap(1), gap(2), gap(3), gap(4));
    assert(padded_cells(row, table, 5) =~= row[0] + repeat(' ', a) + row[1] + repeat(' ', b)
        + row[2] + repeat(' ', c) + row[3] + repeat(' ', d) + row[4] + repeat(' ', e));
    assert(row_line(row, table) == six_cells(row, a, b, c, d, e));
}

/// Six cells with so many spaces between them, and nothing behind the last.
pub open spec fn six_cells(
    row: Seq<Seq<char>>,
    a: nat,
    b: nat,
    c: nat,
    d: nat,
    e: nat,
) -> Seq<char> {
    trim_end(
        row[0] + repeat(' ', a) + row[1] + repeat(' ', b) + row[2] + repeat(' ', c) + row[3]
            + repeat(' ', d) + row[4] + repeat(' ', e) + row[5],
    ) + "\n"@
}

/// Fewer than 1024 bytes are told as they are; more of them with one decimal in the unit in
/// which they are fewer than 1024, rounded to the nearest tenth.
pub proof fn a_size_is_told_to_the_nearest_tenth(n: nat)
    requires
        n < 0x20_0000_0000_0000,
    ensures
        n < 1024 ==> human(n) == decimal(n) + " B"@,
        n >= 1024 ==> exists|t: nat, k: nat|
            {
                &&& human(n) == #[trigger] in_tenths(t, k)
                &&& k <= 3
                &&& 2 * (10 * n - t * unit_of(k)) <= unit_of(k)
                &&& 2 * (t * unit_of(k) - 10 * n) <= unit_of(k)
                &&& k < 3 ==> t < 10240
                &&& k > 0 ==> n >= unit_of((k - 1) as nat) * 1023
            },
{
    if n >= 1024 {
        lemma_exact(n);
        let k = crate::protocol::unit_from(n, 0);
        lemma_unit(n, 0);
        lemma_units(k);
        let u = unit_bytes(k);
        let t = round_half_even(10 * n, u);
        let (q, r) = ((10 * n) / u, (10 * n) % u);
        assert(10 * n == q * u + r) by {
            vstd::arithmetic::div_mod::lemma_fundamental_div_mod((10 * n) as int, u as int);
            assert(u * q == q * u) by (nonlinear_arith);
        }
        assert(r < u);
        assert((q + 1) * u == q * u + u) by (nonlinear_arith);
        assert(t == q || t == q + 1);
        assert(2 * (10 * n - t * u) <= u);
        assert(2 * (t * u - 10 * n) <= u);
        if k < 3 {
            assert(20 * n < 20479 * u);
            if t >= 10240 {
                assert(t * u >= 10240 * u) by (nonlinear_arith)
                    requires
                        t >= 10240,
                ;
            }
        }
        assert(human(n) == in_tenths(t, k));
    }
}

/// So many tenths of the unit `k`, in decimal.
pub open spec fn in_tenths(t: nat, k: nat) -> Seq<char> {
    decimal(t / 10) + "."@ + decimal(t % 10) + (if k == 0 {
        " KiB"@
    } else if k == 1 {
        " MiB"@
    } else if k == 2 {
        " GiB"@
    } else {
        " TiB"@
    })
}

/// The bytes of the unit `k`: 1024 of the one before it.
pub open spec fn unit_of(k: nat) -> nat
    decreases k,
{
    if k == 0 {
        1024
    } else {
        1024 * unit_of((k - 1) as nat)
    }
}

proof fn lemma_units(k: nat)
    requires
        k <= 3,
    ensures
        unit_of(k) == unit_bytes(k),
{
    reveal_with_fuel(unit_of, 4);
}

proof fn lemma_exact(n: nat)
    requires
        n < 0x20_0000_0000_0000,
    ensures
        nearest_float(n) == n,
{
    assert(crate::protocol::spacing(n) == 1);
    assert(n / 1 == n && n % 1 == 0);
}

proof fn lemma_unit(n: nat, k: nat)
    requires
        k <= 3,
        k > 0 ==> n >= unit_of((k - 1) as nat) * 1023,
    ensures
        k <= crate::protocol::unit_from(n, k) <= 3,
        crate::protocol::unit_from(n, k) < 3 ==> 20 * n < 20479 * unit_bytes(
            crate::protocol::unit_from(n, k),
        ),
        crate::protocol::unit_from(n, k) > 0 ==> n >= unit_of(
            (crate::protocol::unit_from(n, k) - 1) as nat,
        ) * 1023,
    decreases 3 - k,
{
    if k < 3 && 20 * n >= 20479 * unit_bytes(k) {
        lemma_units(k);
        lemma_unit(n, k + 1);
    }
}

/// A daemon that listens on every interface is reached on the loopback one, on the same port;
/// any other where it listens.
pub proof fn a_local_daemon_is_reached_where_it_listens(
    cfg: &Config,
    r: String,
    port: Seq<char>,
)
    requires
        call_ensures(local_addr, (cfg,), r),
    ensures
        cfg.listen@ == "0.0.0.0:"@ + port ==> r@ == "127.0.0.1:"@ + port,
        cfg.listen@ == "[::]:"@ + port ==> r@ == "[::1]:"@ + port,
        !has_prefix(cfg.listen@, "0.0.0.0:"@) && !has_prefix(cfg.listen@, "[::]:"@) ==> r@
            == cfg.listen@,
{
    let (a, b) = ("0.0.0.0:"@, "[::]:"@);
    reveal_strlit("0.0.0.0:");
    reveal_strlit("[::]:");
    assert((a + port).take(a.len() as int) =~= a);
    assert((a + port).skip(a.len() as int) =~= port);
    assert((b + port).take(b.len() as int) =~= b);
    assert((b + port).skip(b.len() as int) =~= port);
    assert((b + port)[0] == '[');
    if has_prefix(b + port, a) {
        assert((b + port).take(a.len() as int)[0] == a[0]);
    }
}

/// The node that is named is asked, on the configured port unless it names its own; without
/// one, the daemon of this host.
pub proof fn the_named_node_is_asked(cfg: &Config, node: Option<&str>, r: String)
    requires
        call_ensures(target, (cfg, node), r),
    ensures
        node matches Some(n) ==> r@ == with_port(n@, decimal(cfg.port as nat)),
        node is None ==> r@ == loopback(cfg.listen@),
{
}

/// A request asks what the command says, of the entry that it names.
pub proof fn a_request_asks_what_the_command_says(args: &HistoryArgs, r: HistoryRequest)
    requires
        call_ensures(request, (args,), r),
    ensures
        args.command is List <==> r is List,
        args.command matches crate::history::Command::Get { entry: e } ==> (r
            matches HistoryRequest::Get { entry, type_ } && entry@ == e@ && opt_text(type_)
            == opt_text(args.type_)),
        args.command matches crate::history::Command::Restore { entry: e } ==> (r
            matches HistoryRequest::Restore { entry } && entry@ == e@),
{
}

/// An answer that has the shape of the question is printed: a listing, the content of the
/// entry, or what was restored. A refusal fails, and an answer to another question is neither.
pub proof fn an_answer_to_the_question_is_printed(
    args: &HistoryArgs,
    result: HistoryResult,
    addr: &str,
    r: Outcome,
)
    requires
        call_ensures(answer, (args, result, addr), r),
    ensures
        r is Print ==> {
            ||| result is List && args.command is List
            ||| result is Offer && args.command is Get
            ||| result is Restored && args.command is Restore
        },
        result is Failed ==> (r matches Outcome::Fail(e) && e@ == explanation(
            result->Failed_0,
            addr@,
        )),
        result matches HistoryResult::List(entries) ==> (args.command is List ==> (r
            matches Outcome::Print(bytes) && bytes@ == encode_utf8(listing(entries@, addr@)))),
        result is Restored && args.command is Restore ==> r is Print,
        result is List && !(args.command is List) ==> r == Outcome::Mismatch(result),
        result is Offer && !(args.command is Get) ==> r == Outcome::Mismatch(result),
        result is Restored && !(args.command is Restore) ==> r == Outcome::Mismatch(result),
{
}

/// The content of an entry is printed as that of a clipboard is: the bytes of the selected
/// type, with one line feed behind a text unless that is suppressed.
pub proof fn an_entry_is_printed_as_a_clipboard(
    args: &HistoryArgs,
    offer: crate::offer::Offer,
    addr: &str,
    r: Outcome,
)
    requires
        call_ensures(answer, (args, HistoryResult::Offer(offer), addr), r),
        args.command is Get,
    ensures
        ({
            let (pairs, types) = (offer_pairs(offer), types_of(offer_pairs(offer)));
            match selected(opt_text(args.type_), types) {
                Some(i) => r matches Outcome::Print(bytes) && bytes_of(pairs, types[i]) matches Some(
                    data,
                ) && (bytes@ == data || (!args.no_newline && bytes@ == data + seq![10u8])),
                None => r is Fail,
            }
        }),
{
    let types = types_of(offer_pairs(offer));
    if let Some(i) = selected(opt_text(args.type_), types) {
        if let Some(data) = bytes_of(offer_pairs(offer), types[i]) {
            assert(data.push(10u8) =~= data + seq![10u8]);
        }
    }
}

/// The confirmation of a restore names the node and the place, and says whether the mesh
/// followed.
pub proof fn a_restore_is_confirmed(addr: Seq<char>, kind: SelectionKind)
    ensures
        has_prefix(
            restored_text(addr, kind, true),
            "Put it back on "@ + addr + "'s "@ + place_name(kind),
        ),
        has_prefix(
            restored_text(addr, kind, false),
            "Put it back on "@ + addr + "'s "@ + place_name(kind),
        ),
        crate::text::has_suffix(restored_text(addr, kind, true), " and sent it to the mesh."@),
        crate::text::has_suffix(
            restored_text(addr, kind, false),
            ". Not sent to the mesh — that node does not send this selection."@,
        ),
{
    let p = "Put it back on "@ + addr + "'s "@ + place_name(kind);
    let (a, b) = (restored_text(addr, kind, true), restored_text(addr, kind, false));
    let (x, y) = (
        " and sent it to the mesh."@,
        ". Not sent to the mesh — that node does not send this selection."@,
    );
    assert(a.take(p.len() as int) =~= p);
    assert(b.take(p.len() as int) =~= p);
    assert(a.skip(a.len() - x.len()) =~= x);
    assert(b.skip(b.len() - y.len()) =~= y);
}

proof fn lemma_equals_at(a: Seq<char>, b: Seq<char>)
    requires
        !a.contains('='),
        b.len() == 0 || b[0] == '=',
    ensures
        equals_at(a + b) == a.len(),
    decreases a.len(),
{
    let s = a + b;
    if a.len() == 0 {
        assert(s =~= b);
    } else {
        let rest = a.skip(1);
        assert(a[0] != '=');
        if rest.contains('=') {
            let i = choose|i: int| 0 <= i < rest.len() && rest[i] == '=';
            assert(a[i + 1] == '=');
        }
        lemma_equals_at(rest, b);
        assert(s.skip(1) =~= rest + b);
    }
}

/// A long flag has its value behind the first `=`, and a short one right behind its letter; a
/// flag without one has none attached.
pub proof fn a_value_is_attached_to_its_flag(name: Seq<char>, value: Seq<char>, c: char)
    requires
        !name.contains('='),
        c <= '\x7f',
        c != '-',
    ensures
        split_flag(seq!['-', '-'] + name + seq!['='] + value) == (
            seq!['-', '-'] + name,
            Some(value),
        ),
        split_flag(seq!['-', '-'] + name) == (seq!['-', '-'] + name, None::<Seq<char>>),
        value.len() > 0 ==> split_flag(seq!['-', c] + value) == (seq!['-', c], Some(value)),
        split_flag(seq!['-', c]) == (seq!['-', c], None::<Seq<char>>),
        name.len() > 0 && name[0] != '-' ==> split_flag(name) == (name, None::<Seq<char>>),
{
    reveal_strlit("--");
    let f = seq!['-', '-'] + name;
    assert("--"@ =~= seq!['-', '-']);
    if f.contains('=') {
        let i = choose|i: int| 0 <= i < f.len() && f[i] == '=';
        assert(name[i - 2] == '=');
    }
    let long = f + seq!['='] + value;
    lemma_equals_at(f, seq!['='] + value);
    assert(f + (seq!['='] + value) =~= long);
    assert(long.take(2) =~= "--"@);
    assert(long.take(f.len() as int) =~= f);
    assert(long.skip(f.len() as int + 1) =~= value);
    lemma_equals_at(f, Seq::empty());
    assert(f + Seq::<char>::empty() =~= f);
    assert(f.take(2) =~= "--"@);
    let short = seq!['-', c] + value;
    assert(short[1] == c);
    if has_prefix(short, "--"@) {
        assert(short.take(2)[1] == '-');
    }
    assert(short.take(2) =~= seq!['-', c]);
    assert(short.skip(2) =~= value);
    let bare = seq!['-', c];
    if has_prefix(bare, "--"@) {
        assert(bare.take(2)[1] == '-');
    }
    if name.len() > 0 && name[0] != '-' && has_prefix(name, "--"@) {
        assert(name.take(2)[0] == '-');
    }
}

proof fn lemma_history_flags()
    ensures
        crate::history::history_flag("-t"@) is Type,
        crate::history::history_flag("--type"@) is Type,
        crate::history::history_flag("-n"@) is NoNewline,
        crate::history::history_flag("--no-newline"@) is NoNewline,
        crate::history::history_flag("--node"@) is Node,
        crate::history::history_flag("--config"@) is Config,
{
    reveal_strlit("-t");
    reveal_strlit("--type");
    reveal_strlit("-n");
    reveal_strlit("--no-newline");
    reveal_strlit("--node");
    reveal_strlit("--config");
    assert("-t"@[1] == 't' && "-n"@[1] == 'n');
    assert("--type"@[2] == 't' && "--node"@[2] == 'n');
    assert("--no-newline"@.len() == 12 && "--config"@.len() == 8);
}

/// Each flag of the history sets its own value, attached or as the next argument, and leaves
/// the others as they are.
pub proof fn a_history_flag_sets_its_own_value(
    args: Seq<Seq<char>>,
    i: int,
    v: FlagsView,
    name: Seq<char>,
    value: Seq<char>,
)
    requires
        0 <= i < args.len(),
        split_flag(args[i]) == (name, Some(value)) || (split_flag(args[i]) == (
            name,
            None::<Seq<char>>,
        ) && i + 1 < args.len() && args[i + 1] == value),
    ensures
        ({
            let next = if split_flag(args[i]).1 is Some {
                i + 1
            } else {
                i + 2
            };
            &&& name == "-t"@ || name == "--type"@ ==> flags_parsed(args, i, v) == flags_parsed(
                args,
                next,
                FlagsView { type_: Some(value), ..v },
            )
            &&& name == "--node"@ ==> flags_parsed(args, i, v) == flags_parsed(
                args,
                next,
                FlagsView { node: Some(value), ..v },
            )
            &&& name == "--config"@ ==> flags_parsed(args, i, v) == flags_parsed(
                args,
                next,
                FlagsView { config: Some(value), ..v },
            )
        }),
{
    lemma_history_flags();
}

/// `-n` takes no value, and what is no flag is an entry, in the order in which they come; a
/// flag that needs a value and has none is an error, and so is an unknown one.
pub proof fn what_is_no_flag_is_an_entry(args: Seq<Seq<char>>, i: int, v: FlagsView)
    requires
        0 <= i < args.len(),
    ensures
        split_flag(args[i]) == ("-n"@, None::<Seq<char>>) || split_flag(args[i]) == (
            "--no-newline"@,
            None::<Seq<char>>,
        ) ==> flags_parsed(args, i, v) == flags_parsed(
            args,
            i + 1,
            FlagsView { no_newline: true, ..v },
        ),
        split_flag(args[i]).0 == "-n"@ && split_flag(args[i]).1 is Some ==> flags_parsed(
            args,
            i,
            v,
        ) is Err,
        args[i].len() > 0 && args[i][0] != '-' ==> flags_parsed(args, i, v) == flags_parsed(
            args,
            i + 1,
            FlagsView { ids: v.ids.push(args[i]), ..v },
        ),
        i + 1 == args.len() && split_flag(args[i]).1 is None && (split_flag(args[i]).0 == "-t"@
            || split_flag(args[i]).0 == "--type"@ || split_flag(args[i]).0 == "--node"@
            || split_flag(args[i]).0 == "--config"@) ==> flags_parsed(args, i, v) is Err,
{
    lemma_history_flags();
    reveal_strlit("-");
    reveal_strlit("--");
    reveal_strlit("-t");
    reveal_strlit("--type");
    reveal_strlit("-n");
    reveal_strlit("--no-newline");
    reveal_strlit("--node");
    reveal_strlit("--config");
    let a = args[i];
    if a.len() > 0 && a[0] != '-' {
        if has_prefix(a, "--"@) {
            assert(a.take(2)[0] == '-');
        }
        if has_prefix(a, "-"@) {
            assert(a.take(1)[0] == '-');
        }
        assert(split_flag(a).0 == a);
        assert("-t"@[0] == '-' && "--type"@[0] == '-' && "-n"@[0] == '-' && "--no-newline"@[0]
            == '-' && "--node"@[0] == '-' && "--config"@[0] == '-');
    }
}

/// `list` takes no entry, `get` and `restore` take one; there is no other command.
pub proof fn each_command_takes_its_entries(verb: Seq<char>, ids: Seq<Seq<char>>)
    ensures
        verb == "list"@ && ids.len() == 0 ==> command_parsed(verb, ids) == Ok::<
            CommandView,
            Seq<char>,
        >(CommandView::List),
        verb == "get"@ && ids.len() == 1 ==> command_parsed(verb, ids) == Ok::<
            CommandView,
            Seq<char>,
        >(CommandView::Get(ids[0])),
        verb == "restore"@ && ids.len() == 1 ==> command_parsed(verb, ids) == Ok::<
            CommandView,
            Seq<char>,
        >(CommandView::Restore(ids[0])),
        command_parsed(verb, ids) is Ok ==> {
            ||| verb == "list"@ && ids.len() == 0
            ||| verb == "get"@ && ids.len() == 1
            ||| verb == "restore"@ && ids.len() == 1
        },
{
    reveal_strlit("list");
    reveal_strlit("get");
    reveal_strlit("restore");
    assert("list"@.len() == 4 && "get"@.len() == 3 && "restore"@.len() == 7);
}

/// The command is the first argument with the entries among the others; flags that say how to
/// print are refused where nothing is printed, and the values are those of the flags.
pub proof fn the_first_argument_is_the_command(args: Seq<Seq<char>>, v: FlagsView, c: CommandView)
    requires
        args.len() > 0,
        flags_parsed(args, 1, crate::history::no_flags()) == Ok::<FlagsView, Seq<char>>(v),
        command_parsed(args[0], v.ids) == Ok::<CommandView, Seq<char>>(c),
    ensures
        !(c is Get) && (v.type_ is Some || v.no_newline) ==> history_parsed(args) is Err,
        c is Get || (v.type_ is None && !v.no_newline) ==> (history_parsed(args) matches Ok(h) && {
            &&& h.command == c
            &&& h.type_ == v.type_
            &&& h.no_newline == v.no_newline
            &&& h.node == v.node
            &&& h.config == v.config
        }),
        history_parsed(Seq::empty()) is Err,
{
}

/// A command with its entry and nothing else asks for just that: the entry as it was typed, of
/// the local daemon, in whatever type is best.
pub proof fn a_command_asks_for_its_entry(
    list: &[String],
    other: &[String],
    a: Result<HistoryArgs, String>,
    b: Result<HistoryArgs, String>,
)
    requires
        call_ensures(HistoryArgs::parse, (list,), a),
        call_ensures(HistoryArgs::parse, (other,), b),
        texts(list@) == seq!["list"@],
        texts(other@).len() == 2,
        texts(other@)[1].len() > 0,
        texts(other@)[1][0] != '-',
    ensures
        a matches Ok(v) && v@ == plainly(CommandView::List),
        texts(other@)[0] == "get"@ ==> (b matches Ok(v) && v@ == plainly(
            CommandView::Get(texts(other@)[1]),
        )),
        texts(other@)[0] == "restore"@ ==> (b matches Ok(v) && v@ == plainly(
            CommandView::Restore(texts(other@)[1]),
        )),
        texts(other@)[0] == "list"@ ==> b is Err,
{
    let (x, y) = (texts(list@), texts(other@));
    reveal_with_fuel(flags_parsed, 3);
    each_command_takes_its_entries("list"@, Seq::empty());
    what_is_no_flag_is_an_entry(y, 1, crate::history::no_flags());
    assert(flags_parsed(x, 1, crate::history::no_flags()) == Ok::<FlagsView, Seq<char>>(
        crate::history::no_flags(),
    ));
    assert(Seq::<Seq<char>>::empty().push(y[1]) =~= seq![y[1]]);
    each_command_takes_its_entries(y[0], seq![y[1]]);
}

/// A command without flags.
pub open spec fn plainly(command: CommandView) -> HistoryView {
    HistoryView { command, type_: None, no_newline: false, node: None, config: None }
}

/// A listing that is awaited is called one; anything else is a clipboard.
pub proof fn what_is_awaited_is_named(command: &Command, r: &'static str)
    requires
        call_ensures(awaited, (command,), r),
    ensures
        command is List ==> r@ == "history listing"@,
        !(command is List) ==> r@ == "clipboard"@,
{
}

/// The listing that is printed has the header first and then a line for each entry, in the order
/// in which the node gave them.
pub proof fn the_listing_follows_the_answer(entries: &[HistoryEntry], addr: &str, r: String)
    requires
        call_ensures(render_listing, (entries, addr), r),
    ensures
        has_prefix(r@, decimal(entries@.len()) + " remembered clipboard(s) on "@ + addr@),
        entries@.len() > 0 ==> crate::laws::cli::stands_in(
            row_lines(entries@.map_values(|e: HistoryEntry| row_of(e)), table_of(entries@)),
            r@,
        ),
{
    let head = decimal(entries@.len()) + " remembered clipboard(s) on "@ + addr@;
    assert(r@.take(head.len() as int) =~= head);
    let rows = entries@.map_values(|e: HistoryEntry| row_of(e));
    let table = table_of(entries@);
    if entries@.len() > 0 {
        lemma_rows(seq![header_row()], rows, table);
        let first = row_lines(seq![header_row()], table);
        let part = row_lines(rows, table);
        let a = head + "\n\n"@ + first;
        assert(r@.subrange(a.len() as int, (a.len() + part.len()) as int) =~= part);
        assert(crate::laws::cli::stands_at(part, r@, a.len() as int));
    }
}

proof fn lemma_rows(
    a: Seq<Seq<Seq<char>>>,
    b: Seq<Seq<Seq<char>>>,
    table: Seq<Seq<Seq<char>>>,
)
    ensures
        row_lines(a + b, table) == row_lines(a, table) + row_lines(b, table),
    decreases b.len(),
{
    if b.len() == 0 {
        assert(a + b =~= a);
        assert(row_lines(a, table) + row_lines(b, table) =~= row_lines(a, table));
    } else {
        lemma_rows(a, b.drop_last(), table);
        assert((a + b).drop_last() =~= a + b.drop_last());
        assert((a + b).last() == b.last());
        assert(row_lines(a + b, table) =~= row_lines(a, table) + row_lines(b, table));
    }
}

/// Each thing that a node may lack is told as what it is, and with the numbers, the types or the
/// filter that it is about.
pub proof fn a_miss_says_what_it_is(miss: &HistoryMiss, addr: &str, r: String)
    requires
        call_ensures(explain, (miss, addr), r),
    ensures
        miss is Disabled ==> stands_in("history_entries = 0"@, r@),
        miss is Empty ==> stands_in("has not remembered"@, r@),
        miss is NoSuchEntry ==> stands_in("no such entry"@, r@),
        miss is Ambiguous ==> stands_in("type more of it"@, r@),
        miss is NotOffered ==> stands_in("does not offer the requested type"@, r@),
        miss is NotSynced ==> stands_in("does not handle the selection that entry came from"@, r@),
        miss is WriteFailed ==> stands_in("could not write"@, r@),
        miss matches HistoryMiss::Filtered(reason) ==> (reason is Denied ==> stands_in(
            "denied by that node's MIME rules"@,
            r@,
        )),
        miss matches HistoryMiss::Filtered(reason) ==> (reason is TooLarge ==> stands_in(
            "max_payload_size"@,
            r@,
        )),
        miss matches HistoryMiss::Filtered(reason) ==> (reason is Sensitive ==> stands_in(
            "password-manager secret"@,
            r@,
        )),
        !(miss is NotOffered) ==> stands_in(addr@, r@),
        miss matches HistoryMiss::NoSuchEntry { entries } ==> stands_in(
            decimal(*entries as nat),
            r@,
        ),
        miss matches HistoryMiss::Ambiguous { matches: n } ==> stands_in(decimal(*n as nat), r@),
        miss matches HistoryMiss::NotOffered { available: types } ==> stands_in(
            available(texts(types@)),
            r@,
        ),
{
    lemma_miss(*miss, addr@, r);
    lemma_miss_names(*miss, addr@, r);
}

proof fn lemma_miss(miss: HistoryMiss, addr: Seq<char>, r: String)
    requires
        r@ == explanation(miss, addr),
    ensures
        miss is Disabled ==> stands_in("history_entries = 0"@, r@),
        miss is Empty ==> stands_in("has not remembered"@, r@),
        miss is NoSuchEntry ==> stands_in("no such entry"@, r@),
        miss is Ambiguous ==> stands_in("type more of it"@, r@),
        miss is NotOffered ==> stands_in("does not offer the requested type"@, r@),
        miss is NotSynced ==> stands_in("does not handle the selection that entry came from"@, r@),
        miss is WriteFailed ==> stands_in("could not write"@, r@),
        miss matches HistoryMiss::Filtered(reason) ==> (reason is Denied ==> stands_in(
            "denied by that node's MIME rules"@,
            r@,
        )),
        miss matches HistoryMiss::Filtered(reason) ==> (reason is TooLarge ==> stands_in(
            "max_payload_size"@,
            r@,
        )),
        miss matches HistoryMiss::Filtered(reason) ==> (reason is Sensitive ==> stands_in(
            "password-manager secret"@,
            r@,
        )),
{
    match miss {
        HistoryMiss::Disabled => {
            let lit = " is not keeping a clipboard history (history_entries = 0 in its config)"@;
            reveal_strlit(" is not keeping a clipboard history (history_entries = 0 in its config)");
            reveal_strlit("history_entries = 0");
            assert(lit.subrange(37, 56) =~= "history_entries = 0"@);
            assert(stands_at("history_entries = 0"@, lit, 37));
            lemma_within(addr, lit, Seq::empty(), "history_entries = 0"@, 37);
            assert(addr + lit + (Seq::empty()) =~= r@);
        },
        HistoryMiss::Empty => {
            let lit = " has not remembered any clipboard contents yet"@;
            reveal_strlit(" has not remembered any clipboard contents yet");
            reveal_strlit("has not remembered");
            assert(lit.subrange(1, 19) =~= "has not remembered"@);
            assert(stands_at("has not remembered"@, lit, 1));
            lemma_within(addr, lit, Seq::empty(), "has not remembered"@, 1);
            assert(addr + lit + (Seq::empty()) =~= r@);
        },
        HistoryMiss::NoSuchEntry { entries } => {
            let lit = " has no such entry: it remembers "@;
            reveal_strlit(" has no such entry: it remembers ");
            reveal_strlit("no such entry");
            assert(lit.subrange(5, 18) =~= "no such entry"@);
            assert(stands_at("no such entry"@, lit, 5));
            lemma_within(addr, lit, decimal(entries as nat) + ", numbered 1 to "@ + decimal(entries as nat) + ", and no id there starts with that (`clipmesh history list` shows what is left — an entry may have been dropped to stay under that node's history limits, and a copy since your last listing renumbers the rows but never the ids)"@, "no such entry"@, 5);
            assert(addr + lit + (decimal(entries as nat) + ", numbered 1 to "@ + decimal(entries as nat) + ", and no id there starts with that (`clipmesh history list` shows what is left — an entry may have been dropped to stay under that node's history limits, and a copy since your last listing renumbers the rows but never the ids)"@) =~= r@);
        },
        HistoryMiss::Ambiguous { matches: n } => {
            let lit = " — type more of it"@;
            reveal_strlit(" — type more of it");
            reveal_strlit("type more of it");
            assert(lit.subrange(3, 18) =~= "type more of it"@);
            assert(stands_at("type more of it"@, lit, 3));
            lemma_within("that id matches "@ + decimal(n as nat) + " remembered clipboards on "@ + addr, lit, Seq::empty(), "type more of it"@, 3);
            assert("that id matches "@ + decimal(n as nat) + " remembered clipboards on "@ + addr + lit + (Seq::empty()) =~= r@);
        },
        HistoryMiss::NotOffered { available: types } => {
            let lit = "that entry does not offer the requested type (available: "@;
            reveal_strlit("that entry does not offer the requested type (available: ");
            reveal_strlit("does not offer the requested type");
            assert(lit.subrange(11, 44) =~= "does not offer the requested type"@);
            assert(stands_at("does not offer the requested type"@, lit, 11));
            lemma_within(Seq::empty(), lit, available(texts(types@)) + ")"@, "does not offer the requested type"@, 11);
            assert(Seq::empty() + lit + (available(texts(types@)) + ")"@) =~= r@);
        },
        HistoryMiss::NotSynced => {
            let lit = " does not handle the selection that entry came from — for a middle-click selection it needs sync_selection, and the GNOME backend has none at all"@;
            reveal_strlit(" does not handle the selection that entry came from — for a middle-click selection it needs sync_selection, and the GNOME backend has none at all");
            reveal_strlit("does not handle the selection that entry came from");
            assert(lit.subrange(1, 51) =~= "does not handle the selection that entry came from"@);
            assert(stands_at("does not handle the selection that entry came from"@, lit, 1));
            lemma_within(addr, lit, Seq::empty(), "does not handle the selection that entry came from"@, 1);
            assert(addr + lit + (Seq::empty()) =~= r@);
        },
        HistoryMiss::WriteFailed => {
            let lit = " could not write the entry to its clipboard; its log says why"@;
            reveal_strlit(" could not write the entry to its clipboard; its log says why");
            reveal_strlit("could not write");
            assert(lit.subrange(1, 16) =~= "could not write"@);
            assert(stands_at("could not write"@, lit, 1));
            lemma_within(addr, lit, Seq::empty(), "could not write"@, 1);
            assert(addr + lit + (Seq::empty()) =~= r@);
        },
        HistoryMiss::Filtered(reason) => {
            let lit = crate::history::filter_text(reason);
            let pre = addr + " still has that entry, but "@;
            let post = " — its content filters have changed since it was remembered"@;
            assert(pre + lit + post =~= r@);
            match reason {
                Unavailable::Denied => {
                    reveal_strlit("every type in it is now denied by that node's MIME rules (see `clipmesh --rules` on that host)");
                    reveal_strlit("denied by that node's MIME rules");
                    assert(lit.subrange(24, 56) =~= "denied by that node's MIME rules"@);
                    assert(stands_at("denied by that node's MIME rules"@, lit, 24));
                    lemma_within(pre, lit, post, "denied by that node's MIME rules"@, 24);
                },
                Unavailable::TooLarge => {
                    reveal_strlit("it now exceeds that node's max_payload_size");
                    reveal_strlit("max_payload_size");
                    assert(lit.subrange(27, 43) =~= "max_payload_size"@);
                    assert(stands_at("max_payload_size"@, lit, 27));
                    lemma_within(pre, lit, post, "max_payload_size"@, 27);
                },
                Unavailable::Sensitive => {
                    reveal_strlit("it is flagged as a password-manager secret");
                    reveal_strlit("password-manager secret");
                    assert(lit.subrange(19, 42) =~= "password-manager secret"@);
                    assert(stands_at("password-manager secret"@, lit, 19));
                    lemma_within(pre, lit, post, "password-manager secret"@, 19);
                },
                _ => {},
            }
        },
    }
}

proof fn lemma_miss_names(miss: HistoryMiss, addr: Seq<char>, r: String)
    requires
        r@ == explanation(miss, addr),
    ensures
        !(miss is NotOffered) ==> stands_in(addr, r@),
        miss matches HistoryMiss::NoSuchEntry { entries } ==> stands_in(
            decimal(entries as nat),
            r@,
        ),
        miss matches HistoryMiss::Ambiguous { matches: n } ==> stands_in(decimal(n as nat), r@),
        miss matches HistoryMiss::NotOffered { available: types } ==> stands_in(
            available(texts(types@)),
            r@,
        ),
{
    let none = Seq::<char>::empty();
    match miss {
        HistoryMiss::Ambiguous { matches: n } => {
            let d = decimal(n as nat);
            let x = "that id matches "@ + d + " remembered clipboards on "@;
            lemma_stands_in(x, addr, " — type more of it"@);
            lemma_stands_in(
                "that id matches "@,
                d,
                " remembered clipboards on "@ + addr + " — type more of it"@,
            );
            assert("that id matches "@ + d + (" remembered clipboards on "@ + addr
                + " — type more of it"@) =~= r@);
        },
        HistoryMiss::NotOffered { available: types } => {
            lemma_stands_in(
                "that entry does not offer the requested type (available: "@,
                available(texts(types@)),
                ")"@,
            );
        },
        HistoryMiss::NoSuchEntry { entries } => {
            let d = decimal(entries as nat);
            let x = addr + " has no such entry: it remembers "@;
            let z = r@.skip((x.len() + d.len()) as int);
            assert(r@ =~= x + d + z);
            lemma_stands_in(x, d, z);
            assert(r@ =~= none + addr + r@.skip(addr.len() as int));
            lemma_stands_in(none, addr, r@.skip(addr.len() as int));
        },
        _ => {
            assert(r@ =~= none + addr + r@.skip(addr.len() as int));
            lemma_stands_in(none, addr, r@.skip(addr.len() as int));
        },
    }
}

} // verus!
