//! Glob patterns over MIME type names, and which of two patterns is the more
//! specific.
//!
//! `*` matches any run of bytes, `?` exactly one; both are always wildcards.
//! Everything else is a literal, compared without regard to ASCII case.

use crate::order::{before, before_is_irreflexive, before_is_total, before_is_transitive};
use crate::order::comes_before;
use crate::text::chars_of;
use vstd::prelude::*;
use vstd::utf8::encode_utf8;

verus! {

/// The byte `*`.
pub const STAR: u8 = 42;

/// The byte `?`.
pub const QUESTION: u8 = 63;

/// `b` in lower case, where it is an ASCII letter.
pub open spec fn fold(b: u8) -> u8 {
    if 65 <= b <= 90 {
        (b + 32) as u8
    } else {
        b
    }
}

/// Whether the pattern `p` matches the whole of `t`.
pub open spec fn glob(p: Seq<u8>, t: Seq<u8>) -> bool
    decreases p.len(),
{
    if p.len() == 0 {
        t.len() == 0
    } else if p[0] == STAR {
        exists|k: int| 0 <= k <= t.len() && glob(p.drop_first(), #[trigger] t.skip(k))
    } else {
        &&& t.len() > 0
        &&& p[0] == QUESTION || fold(p[0]) == fold(t[0])
        &&& glob(p.drop_first(), t.drop_first())
    }
}

/// Whether the pattern `pattern` matches `text`.
pub open spec fn covers(pattern: Seq<char>, text: Seq<char>) -> bool {
    glob(encode_utf8(pattern), encode_utf8(text))
}

/// Whether `a` and `b` differ at most in the case of ASCII letters.
pub open spec fn same_folded(a: Seq<u8>, b: Seq<u8>) -> bool {
    &&& a.len() == b.len()
    &&& forall|i: int| 0 <= i < a.len() ==> fold(#[trigger] a[i]) == fold(b[i])
}

/// Whether the bytes `p` hold no wildcard.
pub open spec fn literal(p: Seq<u8>) -> bool {
    forall|i: int| 0 <= i < p.len() ==> #[trigger] p[i] != STAR && p[i] != QUESTION
}

/// A pattern without wildcards matches exactly the texts that equal it up to
/// ASCII case.
pub proof fn literal_pattern_is_case_insensitive_equality(p: Seq<u8>, t: Seq<u8>)
    requires
        literal(p),
    ensures
        glob(p, t) <==> same_folded(p, t),
    decreases p.len(),
{
    if p.len() > 0 {
        assert(p[0] != STAR && p[0] != QUESTION);
        assert(literal(p.drop_first())) by {
            assert forall|i: int| 0 <= i < p.drop_first().len() implies #[trigger] p.drop_first()[i]
                != STAR && p.drop_first()[i] != QUESTION by {
                assert(p.drop_first()[i] == p[i + 1]);
            }
        }
        if t.len() > 0 {
            let (p1, t1) = (p.drop_first(), t.drop_first());
            literal_pattern_is_case_insensitive_equality(p1, t1);
            if glob(p, t) {
                assert forall|i: int| 0 <= i < p.len() implies fold(#[trigger] p[i]) == fold(
                    t[i],
                ) by {
                    if i > 0 {
                        assert(fold(p1[i - 1]) == fold(t1[i - 1]));
                    }
                }
            }
            if same_folded(p, t) {
                assert forall|i: int| 0 <= i < p1.len() implies fold(#[trigger] p1[i]) == fold(
                    t1[i],
                ) by {
                    assert(fold(p[i + 1]) == fold(t[i + 1]));
                }
            }
        }
    }
}

/// Every pattern matches its own text.
pub proof fn a_pattern_matches_itself(p: Seq<u8>)
    ensures
        glob(p, p),
    decreases p.len(),
{
    if p.len() > 0 {
        a_pattern_matches_itself(p.drop_first());
        if p[0] == STAR {
            assert(p.skip(1) =~= p.drop_first());
        }
    }
}

/// A pattern that matches a text matches it in every case.
pub proof fn matching_ignores_case(p: Seq<u8>, t: Seq<u8>, u: Seq<u8>)
    requires
        glob(p, t),
        same_folded(t, u),
    ensures
        glob(p, u),
    decreases p.len(),
{
    if p.len() > 0 {
        if p[0] == STAR {
            let k = choose|k: int| 0 <= k <= t.len() && glob(p.drop_first(), #[trigger] t.skip(k));
            assert(same_folded(t.skip(k), u.skip(k))) by {
                assert forall|i: int| 0 <= i < t.skip(k).len() implies fold(#[trigger] t.skip(k)[i])
                    == fold(u.skip(k)[i]) by {
                    assert(fold(t[i + k]) == fold(u[i + k]));
                }
            }
            matching_ignores_case(p.drop_first(), t.skip(k), u.skip(k));
        } else {
            let (t1, u1) = (t.drop_first(), u.drop_first());
            assert(fold(t[0]) == fold(u[0]));
            assert(same_folded(t1, u1)) by {
                assert forall|i: int| 0 <= i < t1.len() implies fold(#[trigger] t1[i]) == fold(
                    u1[i],
                ) by {
                    assert(fold(t[i + 1]) == fold(u[i + 1]));
                }
            }
            matching_ignores_case(p.drop_first(), t1, u1);
        }
    }
}

/// The pattern `*` matches every text.
pub proof fn star_matches_everything(t: Seq<u8>)
    ensures
        glob(seq![STAR], t),
{
    let p = seq![STAR];
    assert(p.drop_first() =~= Seq::<u8>::empty());
    assert(t.skip(t.len() as int) =~= Seq::<u8>::empty());
    assert(glob(p.drop_first(), t.skip(t.len() as int)));
}

/// A pattern in front of which a `*` stands matches every text behind which it
/// matches.
proof fn lemma_star_absorbs(p: Seq<u8>, t: Seq<u8>, from: int, to: int)
    requires
        p.len() > 0,
        p[0] == STAR,
        0 <= from <= to <= t.len(),
        glob(p, t.skip(to)),
    ensures
        glob(p, t.skip(from)),
{
    let k = choose|k: int|
        0 <= k <= t.skip(to).len() && glob(p.drop_first(), #[trigger] t.skip(to).skip(k));
    assert(t.skip(to).skip(k) =~= t.skip(from).skip(to - from + k));
    assert(glob(p.drop_first(), t.skip(from).skip(to - from + k)));
}

/// A pattern whose first `n` bytes are no stars consumes `n` bytes with them.
proof fn lemma_run_consumes(p: Seq<u8>, t: Seq<u8>, n: int)
    requires
        0 <= n <= p.len(),
        forall|i: int| 0 <= i < n ==> #[trigger] p[i] != STAR,
        glob(p, t),
    ensures
        n <= t.len(),
        glob(p.skip(n), t.skip(n)),
    decreases n,
{
    if n == 0 {
        assert(p.skip(0) =~= p);
        assert(t.skip(0) =~= t);
    } else {
        assert(p[0] != STAR);
        let (p1, t1) = (p.drop_first(), t.drop_first());
        assert forall|i: int| 0 <= i < n - 1 implies #[trigger] p1[i] != STAR by {
            assert(p1[i] == p[i + 1]);
        }
        lemma_run_consumes(p1, t1, n - 1);
        assert(p1.skip(n - 1) =~= p.skip(n));
        assert(t1.skip(n - 1) =~= t.skip(n));
    }
}

/// What a pattern that starts with `*` matches, one byte at a time.
proof fn lemma_star_unfolds(p: Seq<u8>, t: Seq<u8>)
    requires
        p.len() > 0,
        p[0] == STAR,
    ensures
        glob(p, t) <==> glob(p.drop_first(), t) || exists|k: int|
            0 < k <= t.len() && glob(p.drop_first(), #[trigger] t.skip(k)),
{
    assert(t.skip(0) =~= t);
}

/// Whether `b` is a wildcard.
fn wild(b: u8) -> (r: bool)
    ensures
        r == (b == STAR || b == QUESTION),
{
    b == STAR || b == QUESTION
}

/// `b` in lower case, where it is an ASCII letter.
pub fn folded(b: u8) -> (r: u8)
    ensures
        r == fold(b),
{
    if 65 <= b && b <= 90 {
        b + 32
    } else {
        b
    }
}

/// Whether two texts differ at most in the case of ASCII letters.
pub fn eq_ignore_case(a: &[u8], b: &[u8]) -> (r: bool)
    ensures
        r == same_folded(a@, b@),
{
    if a.len() != b.len() {
        return false;
    }
    let mut i: usize = 0;
    while i < a.len()
        invariant
            i <= a@.len() == b@.len(),
            forall|k: int| 0 <= k < i ==> fold(#[trigger] a@[k]) == fold(b@[k]),
        decreases a@.len() - i,
    {
        if folded(a[i]) != folded(b[i]) {
            return false;
        }
        i += 1;
    }
    true
}

/// Whether `key` is a glob rather than an exact key.
pub open spec fn is_glob(key: Seq<char>) -> bool {
    !literal(encode_utf8(key))
}

/// Whether `key` is a glob rather than an exact key.
pub fn has_wildcard(key: &str) -> (r: bool)
    ensures
        r == is_glob(key@),
{
    let b = key.as_bytes();
    let mut i: usize = 0;
    while i < b.len()
        invariant
            b@ == encode_utf8(key@),
            i <= b@.len(),
            forall|k: int| 0 <= k < i ==> #[trigger] b@[k] != STAR && b@[k] != QUESTION,
        decreases b@.len() - i,
    {
        if wild(b[i]) {
            return true;
        }
        i += 1;
    }
    false
}

/// Whether the pattern `pattern` matches the whole of `text`.
pub fn glob_match(pattern: &str, text: &str) -> (r: bool)
    ensures
        r == covers(pattern@, text@),
{
    let p = pattern.as_bytes();
    let t = text.as_bytes();
    if !has_wildcard(pattern) {
        proof {
            literal_pattern_is_case_insensitive_equality(p@, t@);
        }
        return eq_ignore_case(p, t);
    }
    glob_bytes(p, t)
}

/// What the text from the last star on can still match, once that star has
/// swallowed more than up to `at`.
spec fn later(p: Seq<u8>, t: Seq<u8>, star: Option<usize>, at: int) -> bool {
    match star {
        Some(s) => exists|k: int| at < k <= t.len() && glob(p.skip(s + 1), #[trigger] t.skip(k)),
        None => false,
    }
}

fn glob_bytes(p: &[u8], t: &[u8]) -> (r: bool)
    ensures
        r == glob(p@, t@),
{
    let mut pi: usize = 0;
    let mut ti: usize = 0;
    // The last star that was passed, and where the text behind it was tried.
    let mut star: Option<usize> = None;
    let mut star_ti: usize = 0;
    proof {
        assert(p@.skip(0) =~= p@);
        assert(t@.skip(0) =~= t@);
    }
    while ti < t.len()
        invariant
            pi <= p@.len(),
            star_ti <= ti <= t@.len(),
            star is None ==> star_ti == 0,
            star matches Some(s) ==> {
                &&& s < pi
                &&& p@[s as int] == STAR
                &&& ti - star_ti == pi - (s + 1)
                &&& forall|i: int| s < i < pi ==> #[trigger] p@[i] != STAR
            },
            glob(p@, t@) <==> glob(p@.skip(pi as int), t@.skip(ti as int)) || later(
                p@,
                t@,
                star,
                star_ti as int,
            ),
        decreases t@.len() - star_ti, p@.len() - pi,
    {
        let ghost pr = p@.skip(pi as int);
        let ghost tr = t@.skip(ti as int);
        proof {
            if pi < p@.len() {
                assert(pr[0] == p@[pi as int]);
                assert(pr.drop_first() =~= p@.skip(pi + 1));
            }
            assert(tr[0] == t@[ti as int]);
            assert(tr.drop_first() =~= t@.skip(ti + 1));
        }
        if pi < p.len() && p[pi] == STAR {
            proof {
                // A later place for the older star is covered by this one.
                if later(p@, t@, star, star_ti as int) {
                    let s = star->0;
                    let ps = p@.skip(s + 1);
                    let k = choose|k: int|
                        star_ti < k <= t@.len() && glob(p@.skip(s + 1), #[trigger] t@.skip(k));
                    let n = pi - (s + 1);
                    assert forall|i: int| 0 <= i < n implies #[trigger] ps[i] != STAR by {
                        assert(ps[i] == p@[s + 1 + i]);
                    }
                    lemma_run_consumes(ps, t@.skip(k), n);
                    assert(ps.skip(n) =~= pr);
                    assert(t@.skip(k).skip(n) =~= t@.skip(k + n));
                    lemma_star_absorbs(pr, t@, ti as int, k + n);
                }
                assert(glob(p@, t@) <==> glob(pr, tr));
                lemma_star_unfolds(pr, tr);
                assert forall|k: int| 0 < k <= tr.len() implies tr.skip(k) == t@.skip(ti + k) by {
                    assert(tr.skip(k) =~= t@.skip(ti + k));
                }
                if glob(p@, t@) && !glob(pr.drop_first(), tr) {
                    let k = choose|k: int|
                        0 < k <= tr.len() && glob(pr.drop_first(), #[trigger] tr.skip(k));
                    assert(glob(p@.skip(pi + 1), t@.skip(ti + k)));
                }
                if later(p@, t@, Some(pi), ti as int) {
                    let k = choose|k: int|
                        ti < k <= t@.len() && glob(p@.skip(pi + 1), #[trigger] t@.skip(k));
                    assert(tr.skip(k - ti) == t@.skip(k));
                    assert(glob(pr.drop_first(), tr.skip(k - ti)));
                }
            }
            star = Some(pi);
            star_ti = ti;
            pi += 1;
        } else if pi < p.len() && (p[pi] == QUESTION || folded(p[pi]) == folded(t[ti])) {
            pi += 1;
            ti += 1;
        } else if let Some(s) = star {
            proof {
                assert(!glob(pr, tr));
                let ps = p@.skip(s + 1);
                if later(p@, t@, star, star_ti as int) {
                    let k = choose|k: int|
                        star_ti < k <= t@.len() && glob(p@.skip(s + 1), #[trigger] t@.skip(k));
                    if k > star_ti + 1 {
                        assert(glob(p@.skip(s + 1), t@.skip(k)));
                    }
                }
                if glob(ps, t@.skip(star_ti + 1)) {
                    assert(later(p@, t@, star, star_ti as int));
                }
                if later(p@, t@, star, star_ti + 1) {
                    let k = choose|k: int|
                        star_ti + 1 < k <= t@.len() && glob(p@.skip(s + 1), #[trigger] t@.skip(k));
                    assert(later(p@, t@, star, star_ti as int));
                }
            }
            pi = s + 1;
            star_ti += 1;
            ti = star_ti;
        } else {
            proof {
                assert(!glob(pr, tr));
            }
            return false;
        }
    }
    let ghost rest = p@.skip(pi as int);
    proof {
        assert(t@.skip(ti as int) =~= Seq::<u8>::empty());
        if later(p@, t@, star, star_ti as int) {
            let s = star->0;
            let ps = p@.skip(s + 1);
            let k = choose|k: int|
                star_ti < k <= t@.len() && glob(p@.skip(s + 1), #[trigger] t@.skip(k));
            let n = pi - (s + 1);
            assert forall|i: int| 0 <= i < n implies #[trigger] ps[i] != STAR by {
                assert(ps[i] == p@[s + 1 + i]);
            }
            lemma_run_consumes(ps, t@.skip(k), n);
            assert(false);
        }
        assert(glob(p@, t@) <==> glob(rest, Seq::<u8>::empty()));
    }
    let ghost none = Seq::<u8>::empty();
    while pi < p.len() && p[pi] == STAR
        invariant
            pi <= p@.len(),
            none == Seq::<u8>::empty(),
            glob(p@, t@) <==> glob(p@.skip(pi as int), none),
        decreases p@.len() - pi,
    {
        proof {
            let pr = p@.skip(pi as int);
            lemma_star_unfolds(pr, none);
            assert(pr.drop_first() =~= p@.skip(pi + 1));
        }
        pi += 1;
    }
    proof {
        assert(pi < p@.len() ==> p@.skip(pi as int)[0] == p@[pi as int]);
    }
    pi == p.len()
}

/// Whether `c` is a wildcard.
pub open spec fn is_wildcard(c: char) -> bool {
    c == '*' || c == '?'
}

/// How many wildcards `key` holds.
pub open spec fn wildcards(key: Seq<char>) -> nat
    decreases key.len(),
{
    if key.len() == 0 {
        0
    } else {
        wildcards(key.drop_first()) + (if is_wildcard(key[0]) {
            1nat
        } else {
            0nat
        })
    }
}

/// How many literal characters `key` holds.
pub open spec fn literals(key: Seq<char>) -> int {
    key.len() - wildcards(key)
}

/// Whether the rule `a`, which allows or denies, takes precedence over `b`: it
/// has more literal characters, then fewer wildcards, then it denies, then its
/// key comes first.
pub open spec fn outranks(a: Seq<char>, a_allow: bool, b: Seq<char>, b_allow: bool) -> bool {
    if literals(a) != literals(b) {
        literals(a) > literals(b)
    } else if wildcards(a) != wildcards(b) {
        wildcards(a) < wildcards(b)
    } else if a_allow != b_allow {
        b_allow
    } else {
        before(a, b)
    }
}

/// No rule takes precedence over itself.
pub proof fn outranks_is_irreflexive(a: Seq<char>, allow: bool)
    ensures
        !outranks(a, allow, a, allow),
{
    before_is_irreflexive(a);
}

/// Precedence is transitive.
pub proof fn outranks_is_transitive(
    a: Seq<char>,
    a_allow: bool,
    b: Seq<char>,
    b_allow: bool,
    c: Seq<char>,
    c_allow: bool,
)
    requires
        outranks(a, a_allow, b, b_allow),
        outranks(b, b_allow, c, c_allow),
    ensures
        outranks(a, a_allow, c, c_allow),
{
    if before(a, b) && before(b, c) {
        before_is_transitive(a, b, c);
    }
}

/// Of two rules with different keys one takes precedence.
pub proof fn outranks_is_total(a: Seq<char>, a_allow: bool, b: Seq<char>, b_allow: bool)
    requires
        a != b,
    ensures
        outranks(a, a_allow, b, b_allow) || outranks(b, b_allow, a, a_allow),
{
    before_is_total(a, b);
}

/// Two keys that are equally specific: the one that denies takes precedence.
pub proof fn ties_break_to_deny(a: Seq<char>, b: Seq<char>)
    requires
        literals(a) == literals(b),
        wildcards(a) == wildcards(b),
    ensures
        outranks(a, false, b, true),
        !outranks(b, true, a, false),
{
}

proof fn lemma_wildcards_bounded(key: Seq<char>)
    ensures
        wildcards(key) <= key.len(),
    decreases key.len(),
{
    if key.len() > 0 {
        lemma_wildcards_bounded(key.drop_first());
    }
}

/// A key's counts of literal characters and wildcards.
pub fn key_weights(key: &str) -> (r: (usize, usize))
    ensures
        r.0 == literals(key@),
        r.1 == wildcards(key@),
{
    let v = chars_of(key);
    let mut lit: usize = 0;
    let mut wild: usize = 0;
    let mut i: usize = v.len();
    proof {
        assert(v@.skip(i as int) =~= Seq::<char>::empty());
    }
    while i > 0
        invariant
            i <= v.len(),
            lit + wild == v.len() - i,
            wild == wildcards(v@.skip(i as int)),
        decreases i,
    {
        i -= 1;
        proof {
            assert(v@.skip(i as int).drop_first() =~= v@.skip(i + 1));
        }
        if v[i] == '*' || v[i] == '?' {
            wild += 1;
        } else {
            lit += 1;
        }
    }
    proof {
        assert(v@.skip(0) =~= v@);
    }
    (lit, wild)
}

/// Whether the rule `a` takes precedence over `b`, given the weights of both
/// keys.
pub fn takes_precedence(
    a: &str,
    a_weights: (usize, usize),
    a_allow: bool,
    b: &str,
    b_weights: (usize, usize),
    b_allow: bool,
) -> (r: bool)
    requires
        a_weights.0 == literals(a@),
        a_weights.1 == wildcards(a@),
        b_weights.0 == literals(b@),
        b_weights.1 == wildcards(b@),
    ensures
        r == outranks(a@, a_allow, b@, b_allow),
{
    if a_weights.0 != b_weights.0 {
        a_weights.0 > b_weights.0
    } else if a_weights.1 != b_weights.1 {
        a_weights.1 < b_weights.1
    } else if a_allow != b_allow {
        b_allow
    } else {
        comes_before(a, b)
    }
}

/// Whether `b` starts a character.
spec fn leads(b: u8) -> bool {
    !(0x80 <= b <= 0xbf)
}

/// How many characters start in `t`.
spec fn lead_count(t: Seq<u8>) -> nat
    decreases t.len(),
{
    if t.len() == 0 {
        0
    } else {
        lead_count(t.drop_first()) + (if leads(t[0]) {
            1nat
        } else {
            0nat
        })
    }
}

/// How many literal characters start in the pattern `p`.
spec fn literal_count(p: Seq<u8>) -> nat
    decreases p.len(),
{
    if p.len() == 0 {
        0
    } else {
        literal_count(p.drop_first()) + (if leads(p[0]) && p[0] != STAR && p[0] != QUESTION {
            1nat
        } else {
            0nat
        })
    }
}

proof fn lemma_lead_count_skip(t: Seq<u8>, k: int)
    requires
        0 <= k <= t.len(),
    ensures
        lead_count(t.skip(k)) <= lead_count(t),
    decreases k,
{
    if k == 0 {
        assert(t.skip(0) =~= t);
    } else {
        lemma_lead_count_skip(t.drop_first(), k - 1);
        assert(t.drop_first().skip(k - 1) =~= t.skip(k));
    }
}

/// A text holds at least as many characters as a pattern that matches it has
/// literals.
proof fn lemma_literals_fit(p: Seq<u8>, t: Seq<u8>)
    requires
        glob(p, t),
    ensures
        literal_count(p) <= lead_count(t),
    decreases p.len(),
{
    if p.len() > 0 {
        if p[0] == STAR {
            let k = choose|k: int| 0 <= k <= t.len() && glob(p.drop_first(), #[trigger] t.skip(k));
            lemma_literals_fit(p.drop_first(), t.skip(k));
            lemma_lead_count_skip(t, k);
        } else {
            lemma_literals_fit(p.drop_first(), t.drop_first());
        }
    }
}

/// A text that a pattern without wildcards matches holds as many characters as
/// the pattern.
proof fn lemma_literal_pattern_fills(p: Seq<u8>, t: Seq<u8>)
    requires
        glob(p, t),
        literal(p),
    ensures
        literal_count(p) == lead_count(t),
    decreases p.len(),
{
    if p.len() > 0 {
        assert(p[0] != STAR && p[0] != QUESTION);
        assert(literal(p.drop_first())) by {
            assert forall|i: int| 0 <= i < p.drop_first().len() implies #[trigger] p.drop_first()[i]
                != STAR && p.drop_first()[i] != QUESTION by {
                assert(p.drop_first()[i] == p[i + 1]);
            }
        }
        lemma_literal_pattern_fills(p.drop_first(), t.drop_first());
    }
}

/// The shape of the UTF-8 encoding of one character.
proof fn lemma_scalar_bytes(c: char)
    ensures
        ({
            let e = vstd::utf8::encode_scalar(c as u32);
            &&& 1 <= e.len() <= 4
            &&& leads(e[0])
            &&& (c as u32) < 0x80 ==> e.len() == 1 && e[0] as u32 == c as u32
            &&& (c as u32) >= 0x80 ==> e[0] >= 0xc0
            &&& is_wildcard(c) <==> (e[0] == STAR || e[0] == QUESTION)
            &&& forall|i: int| 1 <= i < e.len() ==> 0x80 <= #[trigger] e[i] <= 0xbf
        }),
{
    let s: u32 = c as u32;
    vstd::utf8::char_is_scalar(c);
    assert(s <= 0x7f ==> (s & 0x7f) as u8 == s) by (bit_vector);
    vstd::utf8::char_u32_cast(c, s);
    vstd::utf8::char_u32_cast('*', 42);
    vstd::utf8::char_u32_cast('?', 63);
    assert(0x80 <= (0x80 | (s & 0x3f) as u8) <= 0xbf) by (bit_vector);
    assert(0x80 <= (0x80 | ((s >> 6) & 0x3f) as u8) <= 0xbf) by (bit_vector);
    assert(0x80 <= (0x80 | ((s >> 12) & 0x3f) as u8) <= 0xbf) by (bit_vector);
    assert((0xc0 | ((s >> 6) & 0x1f) as u8) >= 0xc0) by (bit_vector);
    assert((0xe0 | ((s >> 12) & 0xf) as u8) >= 0xc0) by (bit_vector);
    assert((0xf0 | ((s >> 18) & 0x7) as u8) >= 0xc0) by (bit_vector);
}

/// Bytes that only continue a character count for nothing.
proof fn lemma_counts_of_tail(e: Seq<u8>, rest: Seq<u8>)
    requires
        forall|i: int| 0 <= i < e.len() ==> 0x80 <= #[trigger] e[i] <= 0xbf,
    ensures
        lead_count(e + rest) == lead_count(rest),
        literal_count(e + rest) == literal_count(rest),
    decreases e.len(),
{
    if e.len() == 0 {
        assert(e + rest =~= rest);
    } else {
        assert(0x80 <= e[0] <= 0xbf);
        let tail = e.drop_first();
        assert forall|i: int| 0 <= i < tail.len() implies 0x80 <= #[trigger] tail[i] <= 0xbf by {
            assert(tail[i] == e[i + 1]);
        }
        lemma_counts_of_tail(tail, rest);
        assert((e + rest).drop_first() =~= tail + rest);
    }
}

proof fn lemma_counts_of_encoding(s: Seq<char>)
    ensures
        lead_count(encode_utf8(s)) == s.len(),
        literal_count(encode_utf8(s)) == literals(s),
        literal(encode_utf8(s)) <==> wildcards(s) == 0,
    decreases s.len(),
{
    if s.len() > 0 {
        let rest = encode_utf8(s.drop_first());
        lemma_counts_of_encoding(s.drop_first());
        lemma_scalar_bytes(s[0]);
        let e = vstd::utf8::encode_scalar(s[0] as u32);
        let all = encode_utf8(s);
        let tail = e.drop_first();
        assert forall|i: int| 0 <= i < tail.len() implies 0x80 <= #[trigger] tail[i] <= 0xbf by {
            assert(tail[i] == e[i + 1]);
        }
        lemma_counts_of_tail(tail, rest);
        assert(all.drop_first() =~= tail + rest);
        assert(all[0] == e[0]);
        if literal(all) {
            assert(all[0] != STAR && all[0] != QUESTION);
            assert forall|i: int| 0 <= i < rest.len() implies #[trigger] rest[i] != STAR && rest[i]
                != QUESTION by {
                assert(rest[i] == all[e.len() + i]);
            }
        }
        if wildcards(s) == 0 {
            assert forall|i: int| 0 <= i < all.len() implies #[trigger] all[i] != STAR && all[i]
                != QUESTION by {
                if i < e.len() {
                    assert(all[i] == e[i]);
                } else {
                    assert(all[i] == rest[i - e.len()]);
                }
            }
        }
    }
}

/// An exact key takes precedence over every glob that matches the same text,
/// whatever the two decide.
pub proof fn exact_key_outranks_every_glob(
    key: Seq<char>,
    key_allow: bool,
    pattern: Seq<char>,
    pattern_allow: bool,
    text: Seq<char>,
)
    requires
        !is_glob(key),
        is_glob(pattern),
        covers(key, text),
        covers(pattern, text),
    ensures
        outranks(key, key_allow, pattern, pattern_allow),
        !outranks(pattern, pattern_allow, key, key_allow),
{
    lemma_literal_pattern_fills(encode_utf8(key), encode_utf8(text));
    lemma_literals_fit(encode_utf8(pattern), encode_utf8(text));
    lemma_counts_of_encoding(key);
    lemma_counts_of_encoding(pattern);
    lemma_counts_of_encoding(text);
}

/// Two exact keys that match the same text are equally specific: they differ in case
/// at most.
pub proof fn exact_keys_of_a_text_weigh_the_same(a: Seq<char>, b: Seq<char>, text: Seq<char>)
    requires
        !is_glob(a),
        !is_glob(b),
        covers(a, text),
        covers(b, text),
    ensures
        literals(a) == literals(b),
        wildcards(a) == wildcards(b),
{
    lemma_literal_pattern_fills(encode_utf8(a), encode_utf8(text));
    lemma_literal_pattern_fills(encode_utf8(b), encode_utf8(text));
    lemma_counts_of_encoding(a);
    lemma_counts_of_encoding(b);
    lemma_counts_of_encoding(text);
}

/// The only difference between two bytes that matching ignores is the case of an ASCII
/// letter.
pub proof fn only_the_case_of_a_letter_is_ignored(a: u8, b: u8)
    ensures
        fold(a) == fold(b) <==> {
            ||| a == b
            ||| 97 <= a <= 122 && b + 32 == a
            ||| 97 <= b <= 122 && a + 32 == b
        },
{
}

/// `?` matches every single byte, and nothing else.
pub proof fn a_question_mark_matches_one_byte(t: Seq<u8>)
    ensures
        glob(seq![63u8], t) <==> t.len() == 1,
{
    let p = seq![63u8];
    reveal_with_fuel(glob, 2);
    assert(p.drop_first() =~= Seq::<u8>::empty());
}

/// A byte that is no wildcard matches itself in either case, and nothing else.
pub proof fn a_literal_matches_itself_alone(b: u8, t: Seq<u8>)
    requires
        b != 42,
        b != 63,
    ensures
        glob(seq![b], t) <==> t.len() == 1 && (t[0] == b || (97 <= b <= 122 && t[0] + 32 == b) || (65
            <= b <= 90 && t[0] == b + 32)),
{
    let p = seq![b];
    reveal_with_fuel(glob, 2);
    assert(p.drop_first() =~= Seq::<u8>::empty());
}

/// The empty pattern matches the empty text alone, and `*` matches every text.
pub proof fn nothing_matches_nothing_and_a_star_everything(t: Seq<u8>)
    ensures
        glob(Seq::empty(), t) <==> t.len() == 0,
        glob(seq![42u8], t),
{
    star_matches_everything(t);
}

/// A pattern that is put together from two matches the texts that are put together from
/// one that the first matches and one that the second matches, and no others.
pub proof fn patterns_match_piece_by_piece(p: Seq<u8>, q: Seq<u8>, t: Seq<u8>)
    ensures
        glob(p + q, t) <==> exists|k: int|
            0 <= k <= t.len() && glob(p, #[trigger] t.take(k)) && glob(q, t.skip(k)),
    decreases p.len(),
{
    let all = p + q;
    if p.len() == 0 {
        assert(all =~= q);
        assert(t.take(0) =~= Seq::<u8>::empty());
        assert(t.skip(0) =~= t);
        if glob(all, t) {
            assert(glob(p, t.take(0)) && glob(q, t.skip(0)));
        }
    } else {
        let rest = p.drop_first();
        assert(all.drop_first() =~= rest + q);
        if p[0] == STAR {
            if glob(all, t) {
                let j = choose|j: int| 0 <= j <= t.len() && glob(rest + q, #[trigger] t.skip(j));
                patterns_match_piece_by_piece(rest, q, t.skip(j));
                let u = t.skip(j);
                let k = choose|k: int|
                    0 <= k <= u.len() && glob(rest, #[trigger] u.take(k)) && glob(q, u.skip(k));
                assert(t.take(j + k).skip(j) =~= u.take(k));
                assert(u.skip(k) =~= t.skip(j + k));
                assert(glob(rest, t.take(j + k).skip(j)));
                assert(glob(p, t.take(j + k)) && glob(q, t.skip(j + k)));
            }
            if exists|k: int|
                0 <= k <= t.len() && glob(p, #[trigger] t.take(k)) && glob(q, t.skip(k)) {
                let k = choose|k: int|
                    0 <= k <= t.len() && glob(p, #[trigger] t.take(k)) && glob(q, t.skip(k));
                let u = t.take(k);
                let j = choose|j: int| 0 <= j <= u.len() && glob(rest, #[trigger] u.skip(j));
                patterns_match_piece_by_piece(rest, q, t.skip(j));
                assert(t.skip(j).take(k - j) =~= u.skip(j));
                assert(t.skip(j).skip(k - j) =~= t.skip(k));
                assert(glob(rest, t.skip(j).take(k - j)) && glob(q, t.skip(j).skip(k - j)));
                assert(glob(all.drop_first(), t.skip(j)));
            }
        } else {
            if t.len() > 0 {
                let u = t.drop_first();
                patterns_match_piece_by_piece(rest, q, u);
                if glob(all, t) {
                    let k = choose|k: int|
                        0 <= k <= u.len() && glob(rest, #[trigger] u.take(k)) && glob(
                            q,
                            u.skip(k),
                        );
                    assert(t.take(k + 1).drop_first() =~= u.take(k));
                    assert(t.skip(k + 1) =~= u.skip(k));
                    assert(glob(p, t.take(k + 1)) && glob(q, t.skip(k + 1)));
                }
                if exists|k: int|
                    0 <= k <= t.len() && glob(p, #[trigger] t.take(k)) && glob(q, t.skip(k)) {
                    let k = choose|k: int|
                        0 <= k <= t.len() && glob(p, #[trigger] t.take(k)) && glob(q, t.skip(k));
                    assert(k > 0);
                    assert(t.take(k).drop_first() =~= u.take(k - 1));
                    assert(t.skip(k) =~= u.skip(k - 1));
                    assert(glob(rest, u.take(k - 1)) && glob(q, u.skip(k - 1)));
                }
            } else if exists|k: int|
                0 <= k <= t.len() && glob(p, #[trigger] t.take(k)) && glob(q, t.skip(k)) {
                let k = choose|k: int|
                    0 <= k <= t.len() && glob(p, #[trigger] t.take(k)) && glob(q, t.skip(k));
                assert(t.take(k).len() == 0);
            }
        }
    }
}

/// Every character of a key counts once: `*` and `?` as wildcards, any other as a literal.
pub proof fn every_character_counts_once(a: Seq<char>, c: char, b: Seq<char>)
    ensures
        c == '*' || c == '?' ==> wildcards(a + seq![c] + b) == wildcards(a + b) + 1 && literals(
            a + seq![c] + b,
        ) == literals(a + b),
        c != '*' && c != '?' ==> wildcards(a + seq![c] + b) == wildcards(a + b) && literals(
            a + seq![c] + b,
        ) == literals(a + b) + 1,
        wildcards(Seq::empty()) == 0,
        literals(Seq::empty()) == 0,
    decreases a.len(),
{
    let (whole, less) = (a + seq![c] + b, a + b);
    if a.len() == 0 {
        assert(whole.drop_first() =~= b);
        assert(less =~= b);
    } else {
        let rest = a.drop_first();
        every_character_counts_once(rest, c, b);
        assert(whole.drop_first() =~= rest + seq![c] + b);
        assert(less.drop_first() =~= rest + b);
    }
}

/// A key is a glob if one of its characters is `*` or `?`.
pub proof fn a_glob_holds_a_star_or_a_question_mark(key: Seq<char>)
    ensures
        is_glob(key) <==> key.contains('*') || key.contains('?'),
        is_glob(key) <==> wildcards(key) > 0,
{
    lemma_counts_of_encoding(key);
    lemma_holds_wildcard(key);
}

proof fn lemma_holds_wildcard(key: Seq<char>)
    ensures
        wildcards(key) > 0 <==> key.contains('*') || key.contains('?'),
    decreases key.len(),
{
    if key.len() > 0 {
        let rest = key.drop_first();
        lemma_holds_wildcard(rest);
        assert forall|c: char| #[trigger] key.contains(c) <==> key[0] == c || rest.contains(c) by {
            if key.contains(c) {
                let i = choose|i: int| 0 <= i < key.len() && key[i] == c;
                if i > 0 {
                    assert(rest[i - 1] == c);
                }
            }
            if rest.contains(c) {
                let i = choose|i: int| 0 <= i < rest.len() && rest[i] == c;
                assert(key[i + 1] == c);
            }
        }
    }
}

/// The rule whose key has more literal characters takes precedence, whatever the two decide
/// and however many wildcards they hold.
pub proof fn more_literals_win(a: Seq<char>, a_allow: bool, b: Seq<char>, b_allow: bool)
    requires
        literals(a) > literals(b),
    ensures
        outranks(a, a_allow, b, b_allow),
        !outranks(b, b_allow, a, a_allow),
{
}

/// Of two rules whose keys have equally many literal characters, the one with fewer wildcards
/// takes precedence, whatever the two decide.
pub proof fn then_fewer_wildcards_win(a: Seq<char>, a_allow: bool, b: Seq<char>, b_allow: bool)
    requires
        literals(a) == literals(b),
        wildcards(a) < wildcards(b),
    ensures
        outranks(a, a_allow, b, b_allow),
        !outranks(b, b_allow, a, a_allow),
{
}

/// Of two rules that are equally specific and decide alike, the one whose key is first in the
/// order of texts takes precedence.
pub proof fn at_last_the_first_key_wins(a: Seq<char>, b: Seq<char>, allow: bool)
    requires
        literals(a) == literals(b),
        wildcards(a) == wildcards(b),
        before(a, b),
    ensures
        outranks(a, allow, b, allow),
        !outranks(b, allow, a, allow),
{
    if before(b, a) {
        before_is_transitive(a, b, a);
        before_is_irreflexive(a);
    }
}

} // verus!
