//! Clipboard offers: every representation of one clipboard state, in the source's
//! preference order.

use vstd::prelude::*;

verus! {

#[verifier::external_type_specification]
#[verifier::external_body]
#[verifier::reject_recursive_types(K)]
#[verifier::reject_recursive_types(V)]
#[verifier::reject_recursive_types(S)]
pub struct ExIndexMap<K, V, S>(indexmap::IndexMap<K, V, S>);

/// All MIME representations of one clipboard state, in the source compositor's
/// advertise order (preference order, richest first).
pub type Offer = indexmap::IndexMap<String, Vec<u8>>;

/// A representation: its type and its bytes.
pub type Pair = (Seq<char>, Seq<u8>);

/// The representations of an offer, in order.
pub uninterp spec fn offer_pairs(offer: Offer) -> Seq<Pair>;

/// The types of a list of representations, in order.
pub open spec fn types_of(pairs: Seq<Pair>) -> Seq<Seq<char>> {
    pairs.map_values(|p: Pair| p.0)
}

/// Whether no type occurs twice.
pub open spec fn distinct_types(pairs: Seq<Pair>) -> bool {
    forall|i: int, j: int|
        0 <= i < j < pairs.len() ==> (#[trigger] pairs[i]).0 != (#[trigger] pairs[j]).0
}

/// The place of the representation of the type `mime`, or -1.
pub open spec fn place_of(pairs: Seq<Pair>, mime: Seq<char>) -> int
    decreases pairs.len(),
{
    if pairs.len() == 0 {
        -1
    } else if pairs.last().0 == mime {
        pairs.len() - 1
    } else {
        place_of(pairs.drop_last(), mime)
    }
}

/// What [`place_of`] finds.
pub proof fn lemma_place_of(pairs: Seq<Pair>, mime: Seq<char>)
    ensures
        -1 <= place_of(pairs, mime) < pairs.len(),
        place_of(pairs, mime) >= 0 ==> pairs[place_of(pairs, mime)].0 == mime,
        place_of(pairs, mime) == -1 ==> forall|i: int|
            0 <= i < pairs.len() ==> (#[trigger] pairs[i]).0 != mime,
    decreases pairs.len(),
{
    if pairs.len() > 0 && pairs.last().0 != mime {
        let rest = pairs.drop_last();
        lemma_place_of(rest, mime);
        if place_of(pairs, mime) == -1 {
            assert forall|i: int| 0 <= i < pairs.len() implies (#[trigger] pairs[i]).0 != mime by {
                if i < pairs.len() - 1 {
                    assert(rest[i] == pairs[i]);
                }
            }
        }
    }
}

/// The bytes of the representation of the type `mime`.
pub open spec fn bytes_of(pairs: Seq<Pair>, mime: Seq<char>) -> Option<Seq<u8>> {
    let i = place_of(pairs, mime);
    if i >= 0 {
        Some(pairs[i].1)
    } else {
        None
    }
}

/// The representations after one was put in: in the place of the one of its type,
/// or last.
pub open spec fn with_pair(pairs: Seq<Pair>, mime: Seq<char>, data: Seq<u8>) -> Seq<Pair> {
    let i = place_of(pairs, mime);
    if i >= 0 {
        pairs.update(i, (mime, data))
    } else {
        pairs.push((mime, data))
    }
}

/// Whether an offer holds `n` representations, of distinct types.
pub open spec fn counts(pairs: Seq<Pair>, n: nat) -> bool {
    n == pairs.len() && distinct_types(pairs)
}

/// `IndexMap::new`: the empty offer.
#[verifier::external_body]
pub(crate) fn new_offer() -> (offer: Offer)
    ensures
        offer_pairs(offer) == Seq::<Pair>::empty(),
{
    Offer::new()
}

/// `IndexMap::len`: how many representations there are. No type occurs twice.
#[verifier::external_body]
pub(crate) fn offer_len(offer: &Offer) -> (n: usize)
    ensures
        counts(offer_pairs(*offer), n as nat),
{
    offer.len()
}

/// `IndexMap::get_index`: the representation at a place.
#[verifier::external_body]
pub(crate) fn offer_at(offer: &Offer, i: usize) -> (r: (&String, &Vec<u8>))
    requires
        i < offer_pairs(*offer).len(),
    ensures
        (r.0@, r.1@) == offer_pairs(*offer)[i as int],
{
    offer.get_index(i).unwrap()
}

/// `IndexMap::get`: the bytes of the representation of a type.
#[verifier::external_body]
pub(crate) fn offer_get<'a>(offer: &'a Offer, mime: &str) -> (r: Option<&'a Vec<u8>>)
    ensures
        match r {
            Some(data) => bytes_of(offer_pairs(*offer), mime@) == Some(data@),
            None => bytes_of(offer_pairs(*offer), mime@) is None,
        },
{
    offer.get(mime)
}

/// `IndexMap::insert`: puts a representation in, in the place of the one of its
/// type, or last.
#[verifier::external_body]
pub(crate) fn offer_insert(offer: &mut Offer, mime: String, data: Vec<u8>)
    ensures
        offer_pairs(*final(offer)) == with_pair(offer_pairs(*old(offer)), mime@, data@),
{
    offer.insert(mime, data);
}

/// `IndexMap::swap_remove`: takes the bytes of the representation of a type out of an
/// offer that is not needed any more.
#[verifier::external_body]
pub(crate) fn offer_take(offer: Offer, mime: &str) -> (r: Option<Vec<u8>>)
    ensures
        match r {
            Some(data) => bytes_of(offer_pairs(offer), mime@) == Some(data@),
            None => bytes_of(offer_pairs(offer), mime@) is None,
        },
{
    let mut offer = offer;
    offer.swap_remove(mime)
}

/// `IndexMap::clone`: a copy holds the same.
#[verifier::external_body]
pub(crate) fn clone_offer(offer: &Offer) -> (r: Offer)
    ensures
        offer_pairs(r) == offer_pairs(*offer),
{
    offer.clone()
}

/// The types of an offer, in order.
pub fn offer_types(offer: &Offer) -> (r: Vec<String>)
    ensures
        crate::text::texts(r@) == types_of(offer_pairs(*offer)),
{
    let n: usize = offer_len(offer);
    let mut r: Vec<String> = Vec::new();
    let mut i: usize = 0;
    while i < n
        invariant
            i <= n,
            n == offer_pairs(*offer).len(),
            r@.len() == i,
            forall|k: int| 0 <= k < i ==> (#[trigger] r@[k])@ == offer_pairs(*offer)[k].0,
        decreases n - i,
    {
        r.push(offer_at(offer, i).0.clone());
        i += 1;
    }
    proof {
        assert(crate::text::texts(r@) =~= types_of(offer_pairs(*offer)));
    }
    r
}

} // verus!
