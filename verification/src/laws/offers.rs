//! Offers: what they hold, what fits into one, and the texts that legacy atoms stand for.

use crate::clipboard::atoms::{clean, is_content, is_machinery, latin1_to_utf8, reencode, text_value};
use crate::clipboard::atoms::{cleaned, content, latin1, machinery, reencoded, source_in};
use crate::clipboard::atoms::value_of;
use crate::clipboard::atoms::without_nuls;
use crate::clipboard::budget::{after_type, after_types, weight, BudgetView};
use crate::clipboard::budget::OfferBudget;
use crate::clipboard::budget::OfferReader;
use crate::clipboard::wayland::is_content_type;
use crate::offer::{bytes_of, distinct_types, offer_pairs, place_of, types_of, with_pair, Offer, Pair};
use crate::text::texts;
use vstd::prelude::*;
use vstd::utf8::{decode_utf8, encode_utf8, valid_utf8};

verus! {

/// What was put in under a type is found there, what is under another type stays, and the
/// order of the types stays: a new type comes last.
pub proof fn what_is_put_in_is_found(
    pairs: Seq<Pair>,
    mime: Seq<char>,
    data: Seq<u8>,
    other: Seq<char>,
)
    ensures
        bytes_of(with_pair(pairs, mime, data), mime) == Some(data),
        other != mime ==> bytes_of(with_pair(pairs, mime, data), other) == bytes_of(pairs, other),
        bytes_of(pairs, mime) is Some ==> types_of(with_pair(pairs, mime, data)) == types_of(pairs),
        bytes_of(pairs, mime) is None ==> types_of(with_pair(pairs, mime, data)) == types_of(
            pairs,
        ).push(mime),
        bytes_of(Seq::<Pair>::empty(), mime) is None,
{
    let now = with_pair(pairs, mime, data);
    crate::offer::lemma_place_of(pairs, mime);
    crate::offer::lemma_place_of(now, mime);
    let i = place_of(pairs, mime);
    if i >= 0 {
        assert(types_of(now) =~= types_of(pairs));
        lemma_updated(pairs, i, (mime, data), other);
        lemma_updated(pairs, i, (mime, data), mime);
        crate::offer::lemma_place_of(pairs, other);
        let j = place_of(pairs, other);
        if other != mime && j >= 0 {
            assert(j != i);
            assert(now[j] == pairs[j]);
        }
    } else {
        assert(types_of(now) =~= types_of(pairs).push(mime));
        assert(now.drop_last() =~= pairs);
        crate::offer::lemma_place_of(pairs, other);
        if other != mime && place_of(pairs, other) >= 0 {
            assert(now[place_of(pairs, other)] == pairs[place_of(pairs, other)]);
        }
    }
}

proof fn lemma_updated(pairs: Seq<Pair>, i: int, p: Pair, mime: Seq<char>)
    requires
        0 <= i < pairs.len(),
        pairs[i].0 == p.0,
    ensures
        place_of(pairs.update(i, p), mime) == place_of(pairs, mime),
    decreases pairs.len(),
{
    let now = pairs.update(i, p);
    if i == pairs.len() - 1 {
        assert(now.drop_last() =~= pairs.drop_last());
    } else {
        lemma_updated(pairs.drop_last(), i, p, mime);
        assert(now.drop_last() =~= pairs.drop_last().update(i, p));
        assert(now.last() == pairs.last());
    }
}

/// The bytes of a type are those of the representation of that type.
pub proof fn each_type_has_its_own_bytes(pairs: Seq<Pair>, i: int, mime: Seq<char>)
    requires
        distinct_types(pairs),
        0 <= i < pairs.len(),
    ensures
        bytes_of(pairs, pairs[i].0) == Some(pairs[i].1),
        !types_of(pairs).contains(mime) ==> bytes_of(pairs, mime) is None,
{
    crate::offer::lemma_place_of(pairs, pairs[i].0);
    crate::offer::lemma_place_of(pairs, mime);
    let j = place_of(pairs, pairs[i].0);
    if i < j {
        assert(pairs[i].0 != pairs[j].0);
    } else if j < i {
        assert(pairs[j].0 != pairs[i].0);
    }
    if place_of(pairs, mime) >= 0 {
        assert(types_of(pairs)[place_of(pairs, mime)] == mime);
    }
}

/// An offer weighs the bytes of the names and of the data of all its representations.
pub proof fn every_byte_weighs(a: Seq<Pair>, p: Pair, b: Seq<Pair>)
    ensures
        weight(a + seq![p] + b) == weight(a + b) + encode_utf8(p.0).len() + p.1.len(),
        weight(Seq::empty()) == 0,
    decreases b.len(),
{
    let (all, less) = (a + seq![p] + b, a + b);
    if b.len() == 0 {
        assert(all.drop_last() =~= a);
        assert(less =~= a);
        assert(all.last() == p);
    } else {
        every_byte_weighs(a, p, b.drop_last());
        assert(all.drop_last() =~= a + seq![p] + b.drop_last());
        assert(less.drop_last() =~= a + b.drop_last());
        assert(all.last() == b.last() && less.last() == b.last());
    }
}

proof fn lemma_only_advertised(
    max: nat,
    types: Seq<Seq<char>>,
    reads: Seq<Option<Seq<u8>>>,
    i: int,
)
    requires
        types.len() == reads.len(),
        0 <= i < after_types(max, types, reads).pairs.len(),
    ensures
        exists|n: int|
            {
                &&& 0 <= n < types.len()
                &&& #[trigger] types[n] == after_types(max, types, reads).pairs[i].0
                &&& reads[n] == Some(after_types(max, types, reads).pairs[i].1)
                &&& !machinery(types[n])
            },
    decreases types.len(),
{
    let all = after_types(max, types, reads).pairs;
    if types.len() > 0 {
        let (t, r) = (types.drop_last(), reads.drop_last());
        let rest = after_types(max, t, r).pairs;
        if i < rest.len() {
            lemma_only_advertised(max, t, r, i);
            let n = choose|n: int|
                {
                    &&& 0 <= n < t.len()
                    &&& #[trigger] t[n] == rest[i].0
                    &&& r[n] == Some(rest[i].1)
                    &&& !machinery(t[n])
                };
            assert(types[n] == all[i].0);
        } else {
            assert(types[types.len() - 1] == all[i].0);
        }
    }
}

/// Nothing is in the assembled offer but what an advertised type that is no machinery read as.
pub proof fn only_what_was_read_is_in_the_offer(
    max: nat,
    types: Seq<Seq<char>>,
    reads: Seq<Option<Seq<u8>>>,
    p: Pair,
)
    requires
        types.len() == reads.len(),
        after_types(max, types, reads).pairs.contains(p),
    ensures
        exists|n: int|
            0 <= n < types.len() && #[trigger] types[n] == p.0 && reads[n] == Some(p.1)
                && !machinery(types[n]),
{
    let all = after_types(max, types, reads).pairs;
    let i = choose|i: int| 0 <= i < all.len() && all[i] == p;
    lemma_only_advertised(max, types, reads, i);
}

/// A representation that fits what the types before it left of the budget is in the offer,
/// with exactly what was read: if its type is no machinery and was not advertised before, and
/// reading it gave something.
pub proof fn what_fits_is_in_the_offer(
    max: nat,
    types: Seq<Seq<char>>,
    reads: Seq<Option<Seq<u8>>>,
    n: int,
    data: Seq<u8>,
)
    requires
        types.len() == reads.len(),
        0 <= n < types.len(),
        reads[n] == Some(data),
        !machinery(types[n]),
        forall|i: int| 0 <= i < n ==> #[trigger] types[i] != types[n],
        encode_utf8(types[n]).len() + data.len() + weight(
            after_types(max, types.take(n), reads.take(n)).pairs,
        ) <= max,
    ensures
        after_types(max, types, reads).pairs.contains((types[n], data)),
        bytes_of(after_types(max, types, reads).pairs, types[n]) == Some(data),
{
    let mime = types[n];
    let (t, r) = (types.take(n), reads.take(n));
    let b = after_types(max, t, r);
    crate::clipboard::budget::the_budget_is_never_exceeded(max, t, r);
    crate::offer::lemma_place_of(b.pairs, mime);
    if place_of(b.pairs, mime) >= 0 {
        let i = place_of(b.pairs, mime);
        lemma_only_advertised(max, t, r, i);
        let k = choose|k: int|
            {
                &&& 0 <= k < t.len()
                &&& #[trigger] t[k] == b.pairs[i].0
                &&& r[k] == Some(b.pairs[i].1)
                &&& !machinery(t[k])
            };
        assert(types[k] == mime);
    }
    let (t1, r1) = (types.take(n + 1), reads.take(n + 1));
    assert(t1.drop_last() =~= t);
    assert(r1.drop_last() =~= r);
    assert(t1.last() == mime && r1.last() == Some(data));
    let c = after_types(max, t1, r1);
    assert(c.pairs == b.pairs.push((mime, data)));
    crate::clipboard::budget::earlier_types_survive(max, types, reads, n + 1);
    let all = after_types(max, types, reads).pairs;
    let at = b.pairs.len() as int;
    assert(all.take(c.pairs.len() as int)[at] == c.pairs[at]);
    assert(all[at] == (mime, data));
    crate::clipboard::budget::the_budget_is_never_exceeded(max, types, reads);
    each_type_has_its_own_bytes(all, at, mime);
}

/// A representation that does not fit what is left leaves the offer as it is; so does one of
/// a machinery type, of a type that is in the offer, or that could not be read.
pub proof fn what_does_not_fit_changes_nothing(b: BudgetView, mime: Seq<char>, read: Option<Seq<u8>>)
    requires
        machinery(mime) || read is None || types_of(b.pairs).contains(mime) || encode_utf8(
            mime,
        ).len() + read->0.len() + weight(b.pairs) > b.max,
    ensures
        after_type(b, mime, read) == b,
{
    crate::offer::lemma_place_of(b.pairs, mime);
    if types_of(b.pairs).contains(mime) {
        let i = choose|i: int| 0 <= i < types_of(b.pairs).len() && types_of(b.pairs)[i] == mime;
        assert(b.pairs[i].0 == mime);
    }
}

/// The representations that could be read, of the types that are no machinery, in the order in
/// which they are advertised.
pub open spec fn readable(types: Seq<Seq<char>>, reads: Seq<Option<Seq<u8>>>) -> Seq<Pair>
    decreases types.len(),
{
    if types.len() == 0 {
        Seq::empty()
    } else {
        let rest = readable(types.drop_last(), reads.drop_last());
        if !machinery(types.last()) && reads.last() is Some {
            rest.push((types.last(), reads.last()->0))
        } else {
            rest
        }
    }
}

/// Where no type repeats and everything that could be read is within the limit together, the
/// offer is all of it, in the order in which it was advertised.
pub proof fn where_all_fits_all_is_in_the_offer(
    max: nat,
    types: Seq<Seq<char>>,
    reads: Seq<Option<Seq<u8>>>,
)
    requires
        types.len() == reads.len(),
        types.no_duplicates(),
        weight(readable(types, reads)) <= max,
    ensures
        after_types(max, types, reads).pairs == readable(types, reads),
    decreases types.len(),
{
    if types.len() > 0 {
        let (t, r) = (types.drop_last(), reads.drop_last());
        let mime = types.last();
        assert(t.no_duplicates()) by {
            assert forall|i: int, j: int| 0 <= i < t.len() && 0 <= j < t.len() && i != j implies t[i]
                != t[j] by {
                assert(types[i] != types[j]);
            }
        }
        let rest = readable(t, r);
        let all = readable(types, reads);
        if !machinery(mime) && reads.last() is Some {
            assert(all.drop_last() =~= rest);
        }
        where_all_fits_all_is_in_the_offer(max, t, r);
        let b = after_types(max, t, r);
        crate::clipboard::budget::the_budget_is_never_exceeded(max, t, r);
        crate::offer::lemma_place_of(b.pairs, mime);
        if place_of(b.pairs, mime) >= 0 {
            let i = place_of(b.pairs, mime);
            lemma_only_advertised(max, t, r, i);
            let k = choose|k: int|
                {
                    &&& 0 <= k < t.len()
                    &&& #[trigger] t[k] == b.pairs[i].0
                    &&& r[k] == Some(b.pairs[i].1)
                    &&& !machinery(t[k])
                };
            assert(types[k] == types[types.len() - 1]);
        }
    }
}

/// A type is worth reading unless it is machinery or in the offer, and then with all that is
/// left of the budget.
pub proof fn what_is_left_is_planned(b: &OfferBudget, mime: &str, r: Option<usize>)
    requires
        call_ensures(OfferBudget::plan, (b, mime), r),
    ensures
        machinery(mime@) ==> r is None,
        types_of(b@.pairs).contains(mime@) ==> r is None,
        !machinery(mime@) && !types_of(b@.pairs).contains(mime@) ==> r is Some && r->0 + weight(
            b@.pairs,
        ) == b@.max,
{
    crate::offer::lemma_place_of(b@.pairs, mime@);
    let types = types_of(b@.pairs);
    if types.contains(mime@) {
        let i = choose|i: int| 0 <= i < types.len() && types[i] == mime@;
        assert(b@.pairs[i].0 == mime@);
    }
    if place_of(b@.pairs, mime@) >= 0 {
        assert(types[place_of(b@.pairs, mime@)] == mime@);
    }
}

/// The atoms of the selection protocol itself are machinery, and no other type is.
pub proof fn the_machinery_is_this(mime: Seq<char>)
    ensures
        machinery(mime) <==> seq![
            "TARGETS"@,
            "TIMESTAMP"@,
            "MULTIPLE"@,
            "SAVE_TARGETS"@,
            "DELETE"@,
            "INSERT_SELECTION"@,
            "INSERT_PROPERTY"@,
        ].contains(mime),
        mime.contains('/') ==> !machinery(mime) && content(mime),
        mime == "UTF8_STRING"@ || mime == "STRING"@ || mime == "TEXT"@ || mime
            == "COMPOUND_TEXT"@ ==> content(mime),
{
    let list = seq![
        "TARGETS"@,
        "TIMESTAMP"@,
        "MULTIPLE"@,
        "SAVE_TARGETS"@,
        "DELETE"@,
        "INSERT_SELECTION"@,
        "INSERT_PROPERTY"@,
    ];
    assert(list[0] == "TARGETS"@ && list[1] == "TIMESTAMP"@ && list[2] == "MULTIPLE"@);
    assert(list[3] == "SAVE_TARGETS"@ && list[4] == "DELETE"@ && list[5] == "INSERT_SELECTION"@);
    assert(list[6] == "INSERT_PROPERTY"@);
    if list.contains(mime) {
        let i = choose|i: int| 0 <= i < list.len() && list[i] == mime;
    }
    if machinery(mime) {
        crate::clipboard::atoms::machinery_is_never_content(mime);
    }
}

/// A text is derived from an atom that is there; from the one that declares UTF-8 before one
/// that declares ISO-8859-1, and from that before one that declares nothing.
pub proof fn the_best_text_atom_is_taken(names: Seq<Seq<char>>)
    ensures
        source_in(names) matches Some(a) ==> names.contains(a) && (a == "UTF8_STRING"@ || a
            == "STRING"@ || a == "TEXT"@),
        source_in(names) is None <==> !names.contains("UTF8_STRING"@) && !names.contains(
            "STRING"@,
        ) && !names.contains("TEXT"@),
        names.contains("UTF8_STRING"@) ==> source_in(names) == Some("UTF8_STRING"@),
        source_in(names) == Some("TEXT"@) ==> !names.contains("STRING"@),
{
    reveal_strlit("UTF8_STRING");
    reveal_strlit("STRING");
    reveal_strlit("TEXT");
    assert("UTF8_STRING"@.len() == 11 && "STRING"@.len() == 6 && "TEXT"@.len() == 4);
}

/// What an atom holds is read by the encoding that it declares: UTF-8 as it is, ISO-8859-1 byte
/// by byte, and of `TEXT` whichever it is.
pub proof fn an_atom_is_read_in_its_encoding(bytes: Seq<u8>, i: int)
    requires
        0 <= i < bytes.len(),
    ensures
        reencoded("UTF8_STRING"@, bytes) == bytes,
        valid_utf8(bytes) ==> reencoded("TEXT"@, bytes) == bytes,
        !valid_utf8(bytes) ==> reencoded("TEXT"@, bytes) == reencoded("STRING"@, bytes),
        valid_utf8(reencoded("STRING"@, bytes)),
        decode_utf8(reencoded("STRING"@, bytes)).len() == bytes.len(),
        decode_utf8(reencoded("STRING"@, bytes))[i] as u32 == bytes[i],
{
    reveal_strlit("UTF8_STRING");
    reveal_strlit("STRING");
    reveal_strlit("TEXT");
    assert("UTF8_STRING"@.len() == 11 && "STRING"@.len() == 6 && "TEXT"@.len() == 4);
    crate::clipboard::atoms::latin1_is_lossless(bytes);
    assert(latin1(bytes)[i] as u32 == bytes[i]);
}

/// `n` NULs.
pub open spec fn nuls(n: nat) -> Seq<u8> {
    Seq::new(n, |i: int| 0u8)
}

proof fn lemma_nuls(v: Seq<u8>) -> (n: nat)
    ensures
        v == without_nuls(v) + nuls(n),
        without_nuls(v).len() > 0 ==> without_nuls(v).last() != 0,
    decreases v.len(),
{
    if v.len() > 0 && v.last() == 0 {
        let n = lemma_nuls(v.drop_last());
        let front = v.drop_last();
        assert(without_nuls(v) == without_nuls(front));
        assert(v =~= front.push(0u8));
        assert(nuls(n).push(0u8) =~= nuls((n + 1) as nat));
        assert((without_nuls(front) + nuls(n)).push(0u8) =~= without_nuls(front) + nuls(n).push(0u8));
        n + 1
    } else {
        assert(v =~= v + nuls(0));
        0
    }
}

/// Cleaning a text takes the NULs at its end away, and then at most one line end.
pub proof fn cleaning_takes_nuls_and_one_line_end(v: Seq<u8>)
    ensures
        exists|n: nat|
            {
                ||| v == cleaned(v) + #[trigger] nuls(n)
                ||| v == cleaned(v) + seq![10u8] + nuls(n)
                ||| v == cleaned(v) + seq![13u8, 10u8] + nuls(n)
            },
        v.len() > 0 && v.last() != 0 && v.last() != 10 ==> cleaned(v) == v,
        v.len() > 1 && v.last() == 10 ==> cleaned(v).len() < v.len(),
{
    let n = lemma_nuls(v);
    let z = nuls(n);
    let w = without_nuls(v);
    let c = cleaned(v);
    if w.len() > 0 && w.last() == 10 {
        let x = w.drop_last();
        if x.len() > 0 && x.last() == 13 {
            assert(w =~= c + seq![13u8, 10u8]);
            assert(v =~= c + seq![13u8, 10u8] + z);
        } else {
            assert(w =~= c + seq![10u8]);
            assert(v =~= c + seq![10u8] + z);
        }
    } else {
        assert(v =~= c + z);
    }
}

/// Machinery and content are told as what they are.
pub proof fn each_atom_is_told_as_what_it_is(mime: &str, m: bool, c: bool, w: bool)
    requires
        call_ensures(is_machinery, (mime,), m),
        call_ensures(is_content, (mime,), c),
        call_ensures(is_content_type, (mime,), w),
    ensures
        m <==> machinery(mime@),
        m ==> !c,
        mime@.contains('/') ==> c,
        w == c,
{
    the_machinery_is_this(mime@);
    if m {
        crate::clipboard::atoms::machinery_is_never_content(mime@);
    }
}

/// The text of an offer is that of its best text atom, read in its encoding and cleaned; an offer
/// without such an atom has none.
pub proof fn the_text_is_that_of_the_best_atom(
    offer: &Offer,
    r: Option<(&'static str, Vec<u8>)>,
    v: Option<Vec<u8>>,
    raw: Seq<u8>,
)
    requires
        call_ensures(text_value, (offer,), r),
        call_ensures(value_of, (offer, "UTF8_STRING"), v),
        bytes_of(offer_pairs(*offer), "UTF8_STRING"@) == Some(raw),
    ensures
        r is Some,
        (r->0).0@ == "UTF8_STRING"@,
        (r->0).1@ == cleaned(raw),
        v is Some,
        v->0@ == cleaned(raw),
{
    let pairs = offer_pairs(*offer);
    crate::offer::lemma_place_of(pairs, "UTF8_STRING"@);
    let i = place_of(pairs, "UTF8_STRING"@);
    assert(types_of(pairs)[i] == "UTF8_STRING"@);
    the_best_text_atom_is_taken(types_of(pairs));
    if raw.len() > 0 {
        an_atom_is_read_in_its_encoding(raw, 0);
    } else {
        reveal_strlit("UTF8_STRING");
        reveal_strlit("STRING");
        reveal_strlit("TEXT");
        assert("UTF8_STRING"@.len() == 11 && "STRING"@.len() == 6 && "TEXT"@.len() == 4);
    }
}

/// Without a text atom there is no text.
pub proof fn without_an_atom_there_is_no_text(
    offer: &Offer,
    r: Option<(&'static str, Vec<u8>)>,
    atom: &str,
    v: Option<Vec<u8>>,
)
    requires
        call_ensures(text_value, (offer,), r),
        call_ensures(value_of, (offer, atom), v),
    ensures
        r is None <==> bytes_of(offer_pairs(*offer), "UTF8_STRING"@) is None && bytes_of(
            offer_pairs(*offer),
            "STRING"@,
        ) is None && bytes_of(offer_pairs(*offer), "TEXT"@) is None,
        v is None <==> bytes_of(offer_pairs(*offer), atom@) is None,
{
    let pairs = offer_pairs(*offer);
    lemma_listed(pairs, "UTF8_STRING"@);
    lemma_listed(pairs, "STRING"@);
    lemma_listed(pairs, "TEXT"@);
    the_best_text_atom_is_taken(types_of(pairs));
}

proof fn lemma_listed(pairs: Seq<Pair>, mime: Seq<char>)
    ensures
        bytes_of(pairs, mime) is Some <==> types_of(pairs).contains(mime),
{
    crate::offer::lemma_place_of(pairs, mime);
    let types = types_of(pairs);
    if place_of(pairs, mime) >= 0 {
        assert(types[place_of(pairs, mime)] == mime);
    }
    if types.contains(mime) {
        let i = choose|i: int| 0 <= i < types.len() && types[i] == mime;
        assert(pairs[i].0 == mime);
    }
}

/// Text is cleaned and read as it is, whatever calls for it.
pub proof fn a_text_is_cleaned(
    v: Vec<u8>,
    c: Vec<u8>,
    atom: &str,
    bytes: &[u8],
    e: Vec<u8>,
    l: Vec<u8>,
)
    requires
        call_ensures(clean, (v,), c),
        call_ensures(reencode, (atom, bytes), e),
        call_ensures(latin1_to_utf8, (bytes,), l),
    ensures
        v@.len() > 0 && v@.last() != 0 && v@.last() != 10 ==> c@ == v@,
        c@ == cleaned(v@),
        atom@ == "UTF8_STRING"@ ==> e@ == bytes@,
        atom@ == "STRING"@ ==> e@ == l@,
        valid_utf8(l@),
        decode_utf8(l@).len() == bytes@.len(),
{
    cleaning_takes_nuls_and_one_line_end(v@);
    reveal_strlit("UTF8_STRING");
    reveal_strlit("STRING");
    reveal_strlit("TEXT");
    assert("UTF8_STRING"@.len() == 11 && "STRING"@.len() == 6 && "TEXT"@.len() == 4);
    crate::clipboard::atoms::latin1_is_lossless(bytes@);
}

/// A reader goes through the types in their order, hands out each that is worth reading with what
/// is left of the budget, and ends with the offer that the reads gave.
pub proof fn a_reader_makes_the_offer_of_its_reads(
    types: Vec<String>,
    max: usize,
    new: OfferReader,
    a: &mut OfferReader,
    data: Vec<u8>,
    done: OfferReader,
    r: (Offer, usize),
)
    requires
        call_ensures(OfferReader::new, (types, max), new),
        call_ensures(OfferReader::got, (a, Some(data)), ()),
        call_ensures(OfferReader::finish, (done,), r),
    ensures
        new.advertised() == texts(types@),
        new.max() == max,
        new.reads().len() == 0,
        final(a).reads() == old(a).reads().push(Some(data@)),
        final(a).advertised() == old(a).advertised(),
        final(a).max() == old(a).max(),
        offer_pairs(r.0) == after_types(done.max(), done.advertised(), done.reads()).pairs,
        r.1 == weight(offer_pairs(r.0)),
{
}

/// What a reader hands out next is the first type that is neither machinery nor in the offer.
pub proof fn the_next_type_is_handed_out(a: &mut OfferReader, r: Option<(&str, usize)>)
    requires
        call_ensures(OfferReader::next, (a,), r),
    ensures
        r matches Some((mime, budget)) ==> {
            let n = final(a).reads().len() as int;
            let pairs = after_types(
                final(a).max(),
                final(a).advertised().take(n),
                final(a).reads(),
            ).pairs;
            &&& mime@ == old(a).advertised()[n]
            &&& !machinery(mime@)
            &&& bytes_of(pairs, mime@) is None
        },
        r is None ==> final(a).reads().len() == final(a).advertised().len(),
        final(a).advertised() == old(a).advertised(),
        old(a).reads().len() <= final(a).reads().len(),
{
}

} // verus!
