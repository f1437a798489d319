//! The Wayland backend's offer assembly.

use crate::clipboard::atoms::{content, copy_bytes, is_content};
use crate::clipboard::budget::{after_types, planned, read_view, weight, BudgetView, OfferBudget};
use crate::clipboard::{keep_wanted, wanted_types};
use crate::offer::{new_offer, offer_at, offer_len, offer_pairs, Offer, Pair};
use crate::text::texts;
use vstd::prelude::*;

verus! {

/// Wayland clipboard via the data-control protocol.
#[derive(Debug, PartialEq, Eq, Structural)]
pub struct WaylandClipboard {
    max_payload: usize,
}

impl WaylandClipboard {
    /// The most bytes of an offer.
    pub closed spec fn limit(&self) -> usize {
        self.max_payload
    }

    /// A clipboard whose offers hold at most `max_payload` bytes.
    pub fn new(max_payload: usize) -> (r: WaylandClipboard)
        ensures
            r.limit() == max_payload,
    {
        WaylandClipboard { max_payload }
    }

    /// The most bytes of an offer.
    pub fn max_payload(&self) -> (r: usize)
        ensures
            r == self.limit(),
    {
        self.max_payload
    }
}

/// Whether a failed read of this advertised type likely lost real content (worth a
/// warning) rather than an X11/XWayland pseudo-target that always errors on read.
pub fn is_content_type(mime: &str) -> (r: bool)
    ensures
        r == content(mime@),
{
    is_content(mime)
}

/// The bytes of what reads gave.
pub open spec fn read_views(reads: Seq<Option<Vec<u8>>>) -> Seq<Option<Seq<u8>>> {
    reads.map_values(|r: Option<Vec<u8>>| read_view(r))
}

/// Whether `out` is an answer of `read` on the type `mime` with `budget` bytes left.
pub open spec fn answers<F: Fn(&str, usize) -> Option<Vec<u8>>>(
    read: F,
    mime: Seq<char>,
    budget: int,
    out: Option<Vec<u8>>,
) -> bool {
    exists|m: &str| m@ == mime && #[trigger] call_ensures(read, (m, budget as usize), out)
}

/// Whether `reads` are answers of `read` on the types that are worth reading, each with
/// the budget that was left.
pub open spec fn all_answered<F: Fn(&str, usize) -> Option<Vec<u8>>>(
    read: F,
    max: nat,
    types: Seq<Seq<char>>,
    reads: Seq<Option<Vec<u8>>>,
) -> bool {
    &&& reads.len() == types.len()
    &&& forall|i: int|
        0 <= i < types.len() ==> {
            let b = after_types(max, types.take(i), read_views(reads.take(i)));
            planned(b, #[trigger] types[i]) matches Some(left) ==> answers(
                read,
                types[i],
                left,
                reads[i],
            )
        }
}

/// Builds an [`Offer`] from the advertised `types`, reading each with `read` (given the
/// mime and the remaining byte budget; it may read one byte more, so that an overflow
/// shows). Returns the offer and its total byte size. A representation that can't be
/// read or won't fit is skipped rather than failing the whole offer.
pub fn assemble_offer<F: Fn(&str, usize) -> Option<Vec<u8>>>(
    types: Vec<String>,
    max: usize,
    read: F,
) -> (r: (Offer, usize))
    requires
        forall|m: &str, budget: usize| #[trigger] call_requires(read, (m, budget)),
    ensures
        assembled(read, max as nat, texts(types@), offer_pairs(r.0)),
        r.1 == weight(offer_pairs(r.0)),
        r.1 <= max,
{
    let mut budget = OfferBudget::new(max);
    let ghost ts = texts(types@);
    let ghost mut reads: Seq<Option<Vec<u8>>> = Seq::empty();
    let mut i: usize = 0;
    proof {
        assert(ts.take(0) =~= Seq::<Seq<char>>::empty());
        assert(read_views(reads) =~= Seq::<Option<Seq<u8>>>::empty());
    }
    while i < types.len()
        invariant
            i <= types@.len(),
            ts == texts(types@),
            forall|m: &str, budget: usize| #[trigger] call_requires(read, (m, budget)),
            budget.wf(),
            reads.len() == i,
            budget@ == after_types(max as nat, ts.take(i as int), read_views(reads)),
            all_answered(read, max as nat, ts.take(i as int), reads),
        decreases types@.len() - i,
    {
        let mime = &types[i];
        let ghost was = reads;
        let ghost b = budget@;
        match budget.plan(mime.as_str()) {
            None => {
                proof {
                    reads = reads.push(None);
                }
            },
            Some(left) => {
                let name = mime.as_str();
                let got = read(name, left);
                proof {
                    reads = reads.push(got);
                    assert(name@ == ts[i as int]);
                    assert((left as int) as usize == left);
                    assert(call_ensures(read, (name, (left as int) as usize), got));
                    assert(answers(read, ts[i as int], left as int, got));
                }
                if let Some(data) = got {
                    proof {
                        crate::offer::lemma_place_of(b.pairs, mime@);
                    }
                    let _ = budget.accept(mime.clone(), data);
                }
            },
        }
        proof {
            let (before, now) = (ts.take(i as int), ts.take(i + 1));
            assert(now.drop_last() =~= before);
            assert(now.last() == mime@);
            assert(read_views(reads).drop_last() =~= read_views(was));
            assert(read_views(reads).last() == read_view(reads.last()));
            assert forall|k: int| 0 <= k < now.len() implies {
                let b = after_types(max as nat, now.take(k), read_views(reads.take(k)));
                planned(b, #[trigger] now[k]) matches Some(left) ==> answers(
                    read,
                    now[k],
                    left,
                    reads[k],
                )
            } by {
                assert(now.take(k) =~= before.take(k));
                assert(reads.take(k) =~= was.take(k));
                if k < i {
                    assert(now[k] == before[k]);
                    assert(reads[k] == was[k]);
                } else {
                    assert(before.take(k) =~= before);
                    assert(was.take(k) =~= was);
                }
            }
        }
        i += 1;
    }
    proof {
        assert(ts.take(ts.len() as int) =~= ts);
        lemma_assembled(read, max as nat, ts, reads, budget@);
    }
    budget.finish()
}

proof fn lemma_assembled<F: Fn(&str, usize) -> Option<Vec<u8>>>(
    read: F,
    max: nat,
    types: Seq<Seq<char>>,
    reads: Seq<Option<Vec<u8>>>,
    b: BudgetView,
)
    requires
        all_answered(read, max, types, reads),
        b == after_types(max, types, read_views(reads)),
    ensures
        assembled(read, max, types, b.pairs),
        b.max == max,
{
    crate::clipboard::budget::the_budget_is_never_exceeded(max, types, read_views(reads));
}

/// Whether `pairs` is the offer that reading `types` gives.
pub open spec fn assembled<F: Fn(&str, usize) -> Option<Vec<u8>>>(
    read: F,
    max: nat,
    types: Seq<Seq<char>>,
    pairs: Seq<Pair>,
) -> bool {
    exists|reads: Seq<Option<Vec<u8>>>| #[trigger]
        all_answered(read, max, types, reads) && pairs == after_types(
            max,
            types,
            read_views(reads),
        ).pairs
}

/// What asking for the types that a selection offers gave.
pub enum Listing {
    /// The types, in advertise order.
    Types(Vec<String>),
    /// There is no content.
    Nothing,
    /// They could not be asked for.
    Failed(String),
}

/// Reads a selection, given the types that it offers: all of them, or those that satisfy
/// `only`. A selection without content gives an empty offer.
pub fn read_offer_blocking<F: Fn(&str, usize) -> Option<Vec<u8>>>(
    listing: Listing,
    only: Option<&str>,
    max: usize,
    read: F,
) -> (r: Result<Offer, String>)
    requires
        forall|m: &str, budget: usize| #[trigger] call_requires(read, (m, budget)),
    ensures
        match (listing, r) {
            (Listing::Types(types), Ok(offer)) => assembled(
                read,
                max as nat,
                wanted_types(
                    texts(types@),
                    match only {
                        Some(want) => Some(want@),
                        None => None,
                    },
                ),
                offer_pairs(offer),
            ),
            (Listing::Nothing, Ok(offer)) => offer_pairs(offer).len() == 0,
            (Listing::Failed(why), Err(e)) => e@ == why@,
            _ => false,
        },
{
    match listing {
        Listing::Types(types) => {
            let wanted = keep_wanted(types.as_slice(), only);
            Ok(assemble_offer(wanted, max, read).0)
        },
        Listing::Nothing => Ok(new_offer()),
        Listing::Failed(why) => Err(why),
    }
}

/// The representations to set a selection to, in order; `None` when there is nothing to
/// write.
pub fn write_offer_blocking(offer: &Offer) -> (r: Option<Vec<(String, Vec<u8>)>>)
    ensures
        match r {
            Some(sources) => {
                let pairs = offer_pairs(*offer);
                &&& pairs.len() > 0
                &&& sources@.len() == pairs.len()
                &&& forall|i: int|
                    0 <= i < pairs.len() ==> ((#[trigger] sources@[i]).0@, sources@[i].1@)
                        == pairs[i]
            },
            None => offer_pairs(*offer).len() == 0,
        },
{
    let n: usize = offer_len(offer);
    if n == 0 {
        return None;
    }
    let ghost pairs = offer_pairs(*offer);
    let mut sources: Vec<(String, Vec<u8>)> = Vec::new();
    let mut i: usize = 0;
    while i < n
        invariant
            i <= n,
            pairs == offer_pairs(*offer),
            n == pairs.len(),
            sources@.len() == i,
            forall|k: int|
                0 <= k < i ==> ((#[trigger] sources@[k]).0@, sources@[k].1@) == pairs[k],
        decreases n - i,
    {
        let (mime, data) = offer_at(offer, i);
        sources.push((mime.clone(), copy_bytes(data.as_slice())));
        i += 1;
    }
    Some(sources)
}

} // verus!
