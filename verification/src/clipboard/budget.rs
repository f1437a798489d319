//! The per-representation budget policy every backend's offer assembly runs on:
//! dedup, machinery skipping, and the greedy advertise-order byte budget.

use crate::clipboard::atoms::{is_machinery, machinery};
use crate::offer::{distinct_types, new_offer, offer_get, offer_insert, offer_pairs, place_of};
use crate::offer::{Offer, Pair};
use crate::text::texts;
use vstd::prelude::*;
use vstd::utf8::encode_utf8;

verus! {

/// What a budget has room for, and what has entered the offer so far.
#[verifier::ext_equal]
pub struct BudgetView {
    pub max: nat,
    pub pairs: Seq<Pair>,
}

/// The bytes of one representation: its type and its data.
pub open spec fn weight_of(p: Pair) -> nat {
    encode_utf8(p.0).len() + p.1.len()
}

/// The bytes of an offer: types and data.
pub open spec fn weight(pairs: Seq<Pair>) -> nat
    decreases pairs.len(),
{
    if pairs.len() == 0 {
        0
    } else {
        weight(pairs.drop_last()) + weight_of(pairs.last())
    }
}

/// The bytes that are still allowed to enter.
pub open spec fn left(b: BudgetView) -> int {
    b.max - weight(b.pairs)
}

/// Whether a type is worth reading, and with how many bytes of budget: not if it is
/// in the offer already, nor if it is selection machinery.
pub open spec fn planned(b: BudgetView, mime: Seq<char>) -> Option<int> {
    if place_of(b.pairs, mime) >= 0 || machinery(mime) {
        None
    } else {
        Some(left(b))
    }
}

/// Whether a representation fits what is left.
pub open spec fn fits(b: BudgetView, mime: Seq<char>, data: Seq<u8>) -> bool {
    weight_of((mime, data)) <= left(b)
}

/// The budget after a representation was read: one that fits enters the offer, any
/// other leaves it as it is.
pub open spec fn accepted(b: BudgetView, mime: Seq<char>, data: Seq<u8>) -> BudgetView {
    if fits(b, mime, data) {
        BudgetView { max: b.max, pairs: b.pairs.push((mime, data)) }
    } else {
        b
    }
}

/// The budget after one advertised type, of which reading gave `read`.
pub open spec fn after_type(b: BudgetView, mime: Seq<char>, read: Option<Seq<u8>>) -> BudgetView {
    match (planned(b, mime), read) {
        (Some(_), Some(data)) => accepted(b, mime, data),
        _ => b,
    }
}

/// The bytes of what a read gave.
pub open spec fn read_view(r: Option<Vec<u8>>) -> Option<Seq<u8>> {
    match r {
        Some(v) => Some(v@),
        None => None,
    }
}

/// The budget after the advertised types, of which reading gave `reads`.
pub open spec fn after_types(
    max: nat,
    types: Seq<Seq<char>>,
    reads: Seq<Option<Seq<u8>>>,
) -> BudgetView
    decreases types.len(),
{
    if types.len() == 0 {
        BudgetView { max, pairs: Seq::empty() }
    } else {
        after_type(
            after_types(max, types.drop_last(), reads.drop_last()),
            types.last(),
            reads.last(),
        )
    }
}

/// An offer under construction, with the bytes still allowed to enter it. Types are
/// taken in the order they are offered to it, which the offer then preserves.
pub struct OfferBudget {
    max: usize,
    total: usize,
    offer: Offer,
}

impl View for OfferBudget {
    type V = BudgetView;

    closed spec fn view(&self) -> BudgetView {
        BudgetView { max: self.max as nat, pairs: offer_pairs(self.offer) }
    }
}

impl OfferBudget {
    /// The total is what the offer weighs, it is within the limit, and no type occurs
    /// twice.
    pub closed spec fn wf(&self) -> bool {
        &&& self.total == weight(offer_pairs(self.offer))
        &&& self.total <= self.max
        &&& distinct_types(offer_pairs(self.offer))
    }

    /// An empty offer with room for `max` bytes.
    pub fn new(max: usize) -> (r: OfferBudget)
        ensures
            r.wf(),
            r@ == (BudgetView { max: max as nat, pairs: Seq::empty() }),
    {
        OfferBudget { max, total: 0, offer: new_offer() }
    }

    /// Whether `mime` is worth reading, and with how many bytes of budget. `Some(budget)`:
    /// read up to `budget + 1` bytes, so an overflow is detectable by
    /// [`OfferBudget::accept`].
    pub fn plan(&self, mime: &str) -> (r: Option<usize>)
        requires
            self.wf(),
        ensures
            match r {
                Some(n) => planned(self@, mime@) == Some(n as int),
                None => planned(self@, mime@) is None,
            },
    {
        proof {
            crate::offer::lemma_place_of(offer_pairs(self.offer), mime@);
        }
        if offer_get(&self.offer, mime).is_some() || is_machinery(mime) {
            return None;
        }
        Some(self.max - self.total)
    }

    /// Records a representation that was read. `false` when it doesn't fit what is left
    /// of the budget: it is dropped, and the rest of the offer is unaffected.
    pub fn accept(&mut self, mime: String, data: Vec<u8>) -> (r: bool)
        requires
            old(self).wf(),
            place_of(old(self)@.pairs, mime@) == -1,
        ensures
            final(self).wf(),
            r == fits(old(self)@, mime@, data@),
            final(self)@ == accepted(old(self)@, mime@, data@),
    {
        let budget: usize = self.max - self.total;
        let name: usize = mime.as_str().as_bytes().len();
        if name > budget || data.len() > budget - name {
            return false;
        }
        let ghost p = (mime@, data@);
        let ghost was = offer_pairs(self.offer);
        proof {
            crate::offer::lemma_place_of(was, mime@);
            assert(was.push(p).drop_last() =~= was);
            assert forall|i: int, j: int| 0 <= i < j < was.push(p).len() implies (
            #[trigger] was.push(p)[i]).0 != (#[trigger] was.push(p)[j]).0 by {
                if j < was.len() {
                    assert(was[i].0 != was[j].0);
                } else {
                    assert(was[i].0 != mime@);
                }
            }
        }
        self.total = self.total + name + data.len();
        offer_insert(&mut self.offer, mime, data);
        true
    }

    /// The assembled offer and its total byte size (types and data).
    pub fn finish(self) -> (r: (Offer, usize))
        requires
            self.wf(),
        ensures
            offer_pairs(r.0) == self@.pairs,
            r.1 == weight(self@.pairs),
            r.1 <= self@.max,
    {
        (self.offer, self.total)
    }
}

/// Reads the advertised types one after the other, each within what is left of the
/// budget.
pub struct OfferReader {
    types: Vec<String>,
    at: usize,
    budget: OfferBudget,
    reads: Ghost<Seq<Option<Seq<u8>>>>,
}

impl OfferReader {
    /// The advertised types.
    pub closed spec fn advertised(&self) -> Seq<Seq<char>> {
        texts(self.types@)
    }

    /// What reading the first types gave: `None` also for a type that was not worth reading.
    pub closed spec fn reads(&self) -> Seq<Option<Seq<u8>>> {
        self.reads@
    }

    /// The most bytes of the offer.
    pub closed spec fn max(&self) -> nat {
        self.budget@.max
    }

    /// The budget is what the types so far made of it.
    pub closed spec fn wf(&self) -> bool {
        &&& self.budget.wf()
        &&& self.at <= self.types@.len()
        &&& self.reads@.len() == self.at
        &&& self.budget@ == after_types(
            self.budget@.max,
            texts(self.types@).take(self.at as int),
            self.reads@,
        )
    }

    /// Starts reading `types` into an offer of at most `max` bytes.
    pub fn new(types: Vec<String>, max: usize) -> (r: OfferReader)
        ensures
            r.wf(),
            r.advertised() == texts(types@),
            r.reads() == Seq::<Option<Seq<u8>>>::empty(),
            r.max() == max,
    {
        proof {
            assert(texts(types@).take(0) =~= Seq::<Seq<char>>::empty());
        }
        OfferReader { types, at: 0, budget: OfferBudget::new(max), reads: Ghost(Seq::empty()) }
    }

    /// The next type worth reading, and with how many bytes of budget. What reading it gave
    /// goes to [`OfferReader::got`]. `None` when there is none left.
    pub fn next(&mut self) -> (r: Option<(&str, usize)>)
        requires
            old(self).wf(),
        ensures
            final(self).wf(),
            final(self).advertised() == old(self).advertised(),
            final(self).max() == old(self).max(),
            old(self).reads().len() <= final(self).reads().len(),
            final(self).reads().take(old(self).reads().len() as int) == old(self).reads(),
            forall|i: int|
                old(self).reads().len() <= i < final(self).reads().len() ==> {
                    &&& (#[trigger] final(self).reads()[i]) is None
                    &&& planned(
                        after_types(
                            old(self).max(),
                            old(self).advertised().take(i),
                            final(self).reads().take(i),
                        ),
                        old(self).advertised()[i],
                    ) is None
                },
            match r {
                Some((mime, budget)) => {
                    let n = final(self).reads().len() as int;
                    &&& n < final(self).advertised().len()
                    &&& mime@ == final(self).advertised()[n]
                    &&& planned(
                        after_types(
                            final(self).max(),
                            final(self).advertised().take(n),
                            final(self).reads(),
                        ),
                        mime@,
                    ) == Some(budget as int)
                },
                None => final(self).reads().len() == final(self).advertised().len(),
            },
    {
        let ghost start = self.reads@;
        let ghost ts = texts(self.types@);
        let ghost max = self.budget@.max;
        proof {
            assert(self.reads@.take(start.len() as int) =~= start);
        }
        while self.at < self.types.len()
            invariant
                self.wf(),
                ts == texts(self.types@),
                ts == old(self).advertised(),
                max == self.budget@.max,
                max == old(self).max(),
                start == old(self).reads(),
                start.len() <= self.reads@.len(),
                self.reads@.take(start.len() as int) == start,
                forall|i: int|
                    start.len() <= i < self.reads@.len() ==> {
                        &&& (#[trigger] self.reads@[i]) is None
                        &&& planned(
                            after_types(max, ts.take(i), self.reads@.take(i)),
                            ts[i],
                        ) is None
                    },
            decreases self.types@.len() - self.at,
        {
            let ghost was = self.reads@;
            let ghost n = self.at as int;
            match self.budget.plan(self.types[self.at].as_str()) {
                Some(left) => {
                    return Some((self.types[self.at].as_str(), left));
                },
                None => {
                    self.at = self.at + 1;
                    self.reads = Ghost(was.push(None));
                    proof {
                        let now = self.reads@;
                        assert(ts.take(n + 1).drop_last() =~= ts.take(n));
                        assert(now.drop_last() =~= was);
                        assert(now.take(start.len() as int) =~= start);
                        assert forall|i: int| start.len() <= i < now.len() implies {
                            &&& (#[trigger] now[i]) is None
                            &&& planned(after_types(max, ts.take(i), now.take(i)), ts[i]) is None
                        } by {
                            if i < n {
                                assert(was[i] is None);
                                assert(now.take(i) =~= was.take(i));
                            } else {
                                assert(now.take(i) =~= was);
                            }
                        }
                    }
                },
            }
        }
        None
    }

    /// Takes what reading the type that [`OfferReader::next`] returned gave: `None` when it
    /// could not be read, and it is skipped.
    pub fn got(&mut self, read: Option<Vec<u8>>)
        requires
            old(self).wf(),
            old(self).reads().len() < old(self).advertised().len(),
            planned(
                after_types(
                    old(self).max(),
                    old(self).advertised().take(old(self).reads().len() as int),
                    old(self).reads(),
                ),
                old(self).advertised()[old(self).reads().len() as int],
            ) is Some,
        ensures
            final(self).wf(),
            final(self).advertised() == old(self).advertised(),
            final(self).max() == old(self).max(),
            final(self).reads() == old(self).reads().push(read_view(read)),
    {
        let ghost was = self.reads@;
        let ghost n = self.at as int;
        let ghost ts = texts(self.types@);
        let ghost seen = read_view(read);
        let count: usize = self.types.len();
        assert(self.at < count);
        let mime = self.types[self.at].clone();
        if let Some(data) = read {
            proof {
                crate::offer::lemma_place_of(self.budget@.pairs, mime@);
            }
            let _ = self.budget.accept(mime, data);
        }
        self.at = self.at + 1;
        self.reads = Ghost(was.push(seen));
        proof {
            assert(ts.take(n + 1).drop_last() =~= ts.take(n));
            assert(ts.take(n + 1).last() == mime@);
            assert(was.push(seen).drop_last() =~= was);
        }
    }

    /// The assembled offer and its total byte size, once every type was read.
    pub fn finish(self) -> (r: (Offer, usize))
        requires
            self.wf(),
            self.reads().len() == self.advertised().len(),
        ensures
            offer_pairs(r.0) == after_types(self.max(), self.advertised(), self.reads()).pairs,
            r.1 == weight(offer_pairs(r.0)),
            r.1 <= self.max(),
    {
        proof {
            assert(texts(self.types@).take(self.at as int) =~= texts(self.types@));
        }
        self.budget.finish()
    }
}

/// Whatever was advertised and read, the offer is within the limit, and no type
/// occurs twice in it.
pub proof fn the_budget_is_never_exceeded(
    max: nat,
    types: Seq<Seq<char>>,
    reads: Seq<Option<Seq<u8>>>,
)
    requires
        types.len() == reads.len(),
    ensures
        weight(after_types(max, types, reads).pairs) <= max,
        distinct_types(after_types(max, types, reads).pairs),
        after_types(max, types, reads).max == max,
    decreases types.len(),
{
    if types.len() > 0 {
        the_budget_is_never_exceeded(max, types.drop_last(), reads.drop_last());
        let b = after_types(max, types.drop_last(), reads.drop_last());
        let mime = types.last();
        if planned(b, mime) is Some && reads.last() is Some && fits(b, mime, reads.last()->0) {
            let p = (mime, reads.last()->0);
            crate::offer::lemma_place_of(b.pairs, mime);
            let now = b.pairs.push(p);
            assert(now.drop_last() =~= b.pairs);
            assert forall|i: int, j: int| 0 <= i < j < now.len() implies (#[trigger] now[i]).0 != (
            #[trigger] now[j]).0 by {
                if j < b.pairs.len() {
                    assert(b.pairs[i].0 != b.pairs[j].0);
                } else {
                    assert(b.pairs[i].0 != mime);
                }
            }
        }
    }
}

/// A representation that entered the offer stays: what is advertised later never
/// evicts what is advertised earlier, and comes behind it.
pub proof fn earlier_types_survive(
    max: nat,
    types: Seq<Seq<char>>,
    reads: Seq<Option<Seq<u8>>>,
    n: int,
)
    requires
        types.len() == reads.len(),
        0 <= n <= types.len(),
    ensures
        ({
            let early = after_types(max, types.take(n), reads.take(n)).pairs;
            let all = after_types(max, types, reads).pairs;
            early.len() <= all.len() && all.take(early.len() as int) == early
        }),
    decreases types.len() - n,
{
    let early = after_types(max, types.take(n), reads.take(n)).pairs;
    let all = after_types(max, types, reads).pairs;
    if n == types.len() {
        assert(types.take(n) =~= types);
        assert(reads.take(n) =~= reads);
        assert(all.take(early.len() as int) =~= early);
    } else {
        earlier_types_survive(max, types, reads, n + 1);
        let next = after_types(max, types.take(n + 1), reads.take(n + 1)).pairs;
        assert(types.take(n + 1).drop_last() =~= types.take(n));
        assert(reads.take(n + 1).drop_last() =~= reads.take(n));
        assert(next.take(early.len() as int) =~= early);
        assert(all.take(early.len() as int) =~= next.take(early.len() as int));
    }
}

} // verus!
