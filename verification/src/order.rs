//! The order of strings, and sorting by it.

use crate::text::{chars_of, texts};
use vstd::prelude::*;

verus! {

/// Whether `a` comes before `b`: at the first place where they differ it has the
/// smaller character, or it ends there. (UTF-8 keeps this order, so comparing
/// the encoded bytes is the same comparison.)
pub open spec fn before(a: Seq<char>, b: Seq<char>) -> bool
    decreases a.len(),
{
    if b.len() == 0 {
        false
    } else if a.len() == 0 {
        true
    } else if a[0] != b[0] {
        a[0] < b[0]
    } else {
        before(a.drop_first(), b.drop_first())
    }
}

/// No text comes before itself.
pub proof fn before_is_irreflexive(a: Seq<char>)
    ensures
        !before(a, a),
    decreases a.len(),
{
    if a.len() > 0 {
        before_is_irreflexive(a.drop_first());
    }
}

/// The order is transitive.
pub proof fn before_is_transitive(a: Seq<char>, b: Seq<char>, c: Seq<char>)
    requires
        before(a, b),
        before(b, c),
    ensures
        before(a, c),
    decreases a.len(),
{
    if a.len() > 0 && a[0] == b[0] && b[0] == c[0] {
        before_is_transitive(a.drop_first(), b.drop_first(), c.drop_first());
    }
}

/// Of two different texts one comes before the other.
pub proof fn before_is_total(a: Seq<char>, b: Seq<char>)
    ensures
        before(a, b) || a == b || before(b, a),
    decreases a.len(),
{
    if a.len() > 0 && b.len() > 0 && a[0] == b[0] {
        before_is_total(a.drop_first(), b.drop_first());
        if a.drop_first() == b.drop_first() {
            assert(a =~= seq![a[0]] + a.drop_first());
            assert(b =~= seq![b[0]] + b.drop_first());
        }
    } else if a.len() == 0 && b.len() == 0 {
        assert(a =~= b);
    }
}

/// Whether `a` comes before `b`.
pub fn comes_before(a: &str, b: &str) -> (r: bool)
    ensures
        r == before(a@, b@),
{
    let x = chars_of(a);
    let y = chars_of(b);
    let mut i: usize = 0;
    proof {
        assert(x@.skip(0) =~= a@);
        assert(y@.skip(0) =~= b@);
    }
    while i < x.len() && i < y.len()
        invariant
            i <= x@.len(),
            i <= y@.len(),
            before(a@, b@) == before(x@.skip(i as int), y@.skip(i as int)),
        decreases x@.len() - i,
    {
        if x[i] != y[i] {
            return x[i] < y[i];
        }
        proof {
            assert(x@.skip(i as int).drop_first() =~= x@.skip(i + 1));
            assert(y@.skip(i as int).drop_first() =~= y@.skip(i + 1));
        }
        i += 1;
    }
    i < y.len()
}

/// Whether the texts stand in ascending order; equal ones may repeat.
pub open spec fn ascending(s: Seq<Seq<char>>) -> bool {
    forall|i: int, j: int| 0 <= i < j < s.len() ==> !before(#[trigger] s[j], #[trigger] s[i])
}

/// Whether no text occurs twice.
pub open spec fn distinct(s: Seq<Seq<char>>) -> bool {
    forall|i: int, j: int| 0 <= i < j < s.len() ==> #[trigger] s[i] != #[trigger] s[j]
}

/// Whether `order` lists each place below `n` once.
pub open spec fn arrangement(order: Seq<usize>, n: nat) -> bool {
    &&& order.len() == n
    &&& forall|i: int| 0 <= i < n ==> (#[trigger] order[i]) < n
    &&& forall|i: int, j: int| 0 <= i < j < n ==> #[trigger] order[i] != #[trigger] order[j]
    &&& forall|k: usize| k < n ==> #[trigger] order.contains(k)
}

/// Whether `order` arranges `keys` in ascending order, and equal ones as they
/// stood.
pub open spec fn sorts(order: Seq<usize>, keys: Seq<Seq<char>>) -> bool {
    &&& arrangement(order, keys.len())
    &&& forall|i: int, j: int|
        0 <= i < j < order.len() ==> {
            let (a, b) = (#[trigger] order[i], #[trigger] order[j]);
            &&& !before(keys[b as int], keys[a as int])
            &&& keys[a as int] == keys[b as int] ==> a < b
        }
}

/// The places of `keys` in ascending order of the keys.
pub fn sort_order(keys: &[String]) -> (order: Vec<usize>)
    ensures
        sorts(order@, texts(keys@)),
{
    let mut order: Vec<usize> = Vec::new();
    let mut n: usize = 0;
    proof {
        assert(texts(keys@.take(0)) =~= Seq::<Seq<char>>::empty());
    }
    while n < keys.len()
        invariant
            n <= keys@.len(),
            sorts(order@, texts(keys@.take(n as int))),
        decreases keys@.len() - n,
    {
        let ghost ks = texts(keys@);
        let ghost was = order@;
        proof {
            assert forall|k: int| 0 <= k < n implies texts(keys@.take(n as int))[k] == ks[k] by {}
            assert(texts(keys@.take(n as int)).len() == n);
        }
        let mut at: usize = order.len();
        while at > 0 && comes_before(keys[n].as_str(), keys[order[at - 1]].as_str())
            invariant
                at <= was.len() == n < keys@.len(),
                order@ == was,
                ks == texts(keys@),
                forall|i: int| 0 <= i < n ==> (#[trigger] was[i]) < n,
                forall|i: int| at <= i < n ==> before(ks[n as int], ks[#[trigger] was[i] as int]),
            decreases at,
        {
            at -= 1;
        }
        order.insert(at, n);
        proof {
            let now = order@;
            let keys_now = texts(keys@.take(n + 1));
            assert(keys_now.len() == n + 1);
            assert forall|k: int| 0 <= k < n + 1 implies keys_now[k] == ks[k] by {}
            lemma_insert(was, now, at as int, n as int, ks);
            assert(sorts(now, keys_now)) by {
                assert forall|i: int, j: int| 0 <= i < j < now.len() implies {
                    let (a, b) = (#[trigger] now[i], #[trigger] now[j]);
                    &&& !before(keys_now[b as int], keys_now[a as int])
                    &&& keys_now[a as int] == keys_now[b as int] ==> a < b
                } by {
                    assert(now[i] < n + 1 && now[j] < n + 1);
                }
            }
        }
        n += 1;
    }
    proof {
        assert(keys@.take(keys@.len() as int) =~= keys@);
    }
    order
}

proof fn lemma_insert(was: Seq<usize>, now: Seq<usize>, at: int, n: int, ks: Seq<Seq<char>>)
    requires
        0 <= at <= n < ks.len(),
        n <= usize::MAX,
        was.len() == n,
        now == was.insert(at, n as usize),
        arrangement(was, n as nat),
        forall|i: int, j: int|
            0 <= i < j < n ==> {
                let (a, b) = (#[trigger] was[i], #[trigger] was[j]);
                &&& !before(ks[b as int], ks[a as int])
                &&& ks[a as int] == ks[b as int] ==> a < b
            },
        forall|i: int| at <= i < n ==> before(ks[n as int], ks[#[trigger] was[i] as int]),
        at > 0 ==> !before(ks[n as int], ks[was[at - 1] as int]),
    ensures
        arrangement(now, (n + 1) as nat),
        forall|i: int, j: int|
            0 <= i < j < n + 1 ==> {
                let (a, b) = (#[trigger] now[i], #[trigger] now[j]);
                &&& !before(ks[b as int], ks[a as int])
                &&& ks[a as int] == ks[b as int] ==> a < b
            },
{
    assert forall|i: int| 0 <= i < n + 1 implies #[trigger] now[i] == (if i < at {
        was[i]
    } else if i == at {
        n as usize
    } else {
        was[i - 1]
    }) by {}
    assert forall|k: usize| k < n + 1 implies #[trigger] now.contains(k) by {
        if k == n {
            assert(now[at] == k);
        } else {
            assert(was.contains(k));
            let i = choose|i: int| 0 <= i < n && was[i] == k;
            if i < at {
                assert(now[i] == k);
            } else {
                assert(now[i + 1] == k);
            }
        }
    }
    assert forall|i: int, j: int| 0 <= i < j < n + 1 implies {
        let (a, b) = (#[trigger] now[i], #[trigger] now[j]);
        &&& !before(ks[b as int], ks[a as int])
        &&& ks[a as int] == ks[b as int] ==> a < b
    } by {
        let (a, b) = (now[i], now[j]);
        if i == at {
            // The new key stands before `b`.
            assert(b == was[j - 1]);
            assert(before(ks[n], ks[b as int]));
            if before(ks[b as int], ks[n]) {
                before_is_transitive(ks[n], ks[b as int], ks[n]);
                before_is_irreflexive(ks[n]);
            }
            before_is_irreflexive(ks[n]);
        } else if j == at {
            assert(a == was[i]);
            let last = was[at - 1];
            if before(ks[n], ks[a as int]) {
                // `a` is not behind the last key before the place of insertion.
                if i < at - 1 {
                    assert(!before(ks[last as int], ks[a as int]));
                    before_is_total(ks[last as int], ks[a as int]);
                    if before(ks[a as int], ks[last as int]) {
                        before_is_transitive(ks[n], ks[a as int], ks[last as int]);
                    }
                }
            }
        } else if i < at {
            if j < at {
                assert(a == was[i] && b == was[j]);
            } else {
                assert(a == was[i] && b == was[j - 1]);
            }
        } else {
            assert(a == was[i - 1] && b == was[j - 1]);
        }
    }
}

/// The texts `s` in the arrangement `order`.
pub open spec fn arranged<T>(s: Seq<T>, order: Seq<usize>) -> Seq<T> {
    order.map_values(|k: usize| s[k as int])
}

/// Two arrangements in ascending order of the same distinct texts are the same
/// list.
pub proof fn ascending_is_unique(a: Seq<Seq<char>>, b: Seq<Seq<char>>)
    requires
        ascending(a),
        ascending(b),
        distinct(a),
        distinct(b),
        forall|x: Seq<char>| a.contains(x) <==> b.contains(x),
    ensures
        a == b,
    decreases a.len(),
{
    if a.len() == 0 {
        if b.len() > 0 {
            assert(b.contains(b[0]));
            assert(a.contains(b[0]));
        }
        assert(a =~= b);
    } else {
        assert(a.contains(a[0]));
        assert(b.contains(a[0]));
        assert(b.contains(b[0]));
        assert(a.contains(b[0]));
        let i = choose|i: int| 0 <= i < b.len() && b[i] == a[0];
        let j = choose|j: int| 0 <= j < a.len() && a[j] == b[0];
        // Each head is a smallest text of both lists.
        before_is_total(a[0], b[0]);
        if i > 0 {
            assert(!before(b[i], b[0]));
        }
        if j > 0 {
            assert(!before(a[j], a[0]));
        }
        assert(a[0] == b[0]);
        let (ta, tb) = (a.drop_first(), b.drop_first());
        assert forall|x: Seq<char>| ta.contains(x) <==> tb.contains(x) by {
            if ta.contains(x) {
                let k = choose|k: int| 0 <= k < ta.len() && ta[k] == x;
                assert(a[k + 1] == x);
                assert(a.contains(x));
                assert(b.contains(x));
                let m = choose|m: int| 0 <= m < b.len() && b[m] == x;
                assert(a[0] != a[k + 1]);
                assert(tb[m - 1] == x);
            }
            if tb.contains(x) {
                let k = choose|k: int| 0 <= k < tb.len() && tb[k] == x;
                assert(b[k + 1] == x);
                assert(b.contains(x));
                assert(a.contains(x));
                let m = choose|m: int| 0 <= m < a.len() && a[m] == x;
                assert(b[0] != b[k + 1]);
                assert(ta[m - 1] == x);
            }
        }
        assert forall|i: int, j: int| 0 <= i < j < ta.len() implies !before(
            #[trigger] ta[j],
            #[trigger] ta[i],
        ) && ta[i] != ta[j] by {
            assert(ta[i] == a[i + 1] && ta[j] == a[j + 1]);
        }
        assert forall|i: int, j: int| 0 <= i < j < tb.len() implies !before(
            #[trigger] tb[j],
            #[trigger] tb[i],
        ) && tb[i] != tb[j] by {
            assert(tb[i] == b[i + 1] && tb[j] == b[j + 1]);
        }
        ascending_is_unique(ta, tb);
        assert(a =~= seq![a[0]] + ta);
        assert(b =~= seq![b[0]] + tb);
    }
}

/// Of two texts the one comes before the other that has the smaller character where they
/// differ first, or that ends there.
pub proof fn the_first_difference_decides(a: Seq<char>, b: Seq<char>)
    ensures
        before(a, b) <==> exists|i: int|
            {
                &&& 0 <= i <= a.len()
                &&& i < b.len()
                &&& #[trigger] a.take(i) == b.take(i)
                &&& i == a.len() || a[i] < b[i]
            },
    decreases a.len(),
{
    if b.len() > 0 && a.len() > 0 && a[0] == b[0] {
        let (x, y) = (a.drop_first(), b.drop_first());
        the_first_difference_decides(x, y);
        if before(a, b) {
            let i = choose|i: int|
                {
                    &&& 0 <= i <= x.len()
                    &&& i < y.len()
                    &&& #[trigger] x.take(i) == y.take(i)
                    &&& i == x.len() || x[i] < y[i]
                };
            assert(a.take(i + 1) =~= seq![a[0]] + x.take(i));
            assert(b.take(i + 1) =~= seq![b[0]] + y.take(i));
            assert(a.take(i + 1) == b.take(i + 1));
        }
        if exists|i: int|
            {
                &&& 0 <= i <= a.len()
                &&& i < b.len()
                &&& #[trigger] a.take(i) == b.take(i)
                &&& i == a.len() || a[i] < b[i]
            } {
            let i = choose|i: int|
                {
                    &&& 0 <= i <= a.len()
                    &&& i < b.len()
                    &&& #[trigger] a.take(i) == b.take(i)
                    &&& i == a.len() || a[i] < b[i]
                };
            assert(i > 0);
            assert(x.take(i - 1) =~= a.take(i).drop_first());
            assert(y.take(i - 1) =~= b.take(i).drop_first());
            assert(x.take(i - 1) == y.take(i - 1));
        }
    } else {
        if before(a, b) {
            assert(a.take(0) =~= b.take(0));
        }
        if exists|i: int|
            {
                &&& 0 <= i <= a.len()
                &&& i < b.len()
                &&& #[trigger] a.take(i) == b.take(i)
                &&& i == a.len() || a[i] < b[i]
            } {
            let i = choose|i: int|
                {
                    &&& 0 <= i <= a.len()
                    &&& i < b.len()
                    &&& #[trigger] a.take(i) == b.take(i)
                    &&& i == a.len() || a[i] < b[i]
                };
            if i > 0 {
                assert(a.take(i)[0] == b.take(i)[0]);
            }
        }
    }
}

} // verus!
