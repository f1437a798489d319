//! Texts: white space, numbers, lists and lines.

use crate::text::{all_digits, decimal, digits_value, flag, has_prefix, has_suffix, is_space, join};
use crate::text::{line_len, lines, pad_right, trim, trim_end, trim_start, unsigned};
use vstd::prelude::*;

verus! {

/// Whether a text is made of white space.
pub open spec fn is_blank_text(s: Seq<char>) -> bool {
    forall|i: int| 0 <= i < s.len() ==> is_space(#[trigger] s[i])
}

/// The blanks of ASCII are white space, and its visible characters are not.
pub proof fn ascii_blanks_are_white_space(c: char)
    ensures
        c == ' ' || c == '\t' || c == '\n' || c == '\r' ==> is_space(c),
        ' ' < c && c <= '~' ==> !is_space(c),
{
}

proof fn lemma_trim_end_parts(s: Seq<char>) -> (y: Seq<char>)
    ensures
        s == trim_end(s) + y,
        is_blank_text(y),
        trim_end(s).len() > 0 ==> !is_space(trim_end(s).last()),
    decreases s.len(),
{
    if s.len() > 0 && is_space(s.last()) {
        let y = lemma_trim_end_parts(s.drop_last());
        let z = y.push(s.last());
        let front = s.drop_last();
        assert(trim_end(s) == trim_end(front));
        assert(s =~= front.push(s.last()));
        assert((trim_end(front) + y).push(s.last()) =~= trim_end(front) + z);
        z
    } else {
        assert(s =~= s + Seq::<char>::empty());
        Seq::empty()
    }
}

proof fn lemma_trim_start_parts(s: Seq<char>) -> (x: Seq<char>)
    ensures
        s == x + trim_start(s),
        is_blank_text(x),
        trim_start(s).len() > 0 ==> !is_space(trim_start(s)[0]),
    decreases s.len(),
{
    if s.len() > 0 && is_space(s[0]) {
        let x = lemma_trim_start_parts(s.drop_first());
        let z = seq![s[0]] + x;
        let back = s.drop_first();
        assert(trim_start(s) == trim_start(back));
        assert(s =~= seq![s[0]] + back);
        assert(seq![s[0]] + (x + trim_start(back)) =~= z + trim_start(back));
        z
    } else {
        assert(s =~= Seq::<char>::empty() + s);
        Seq::empty()
    }
}

/// Trimming takes away the white space around a text and nothing else.
pub proof fn trimming_takes_the_white_space_around(s: Seq<char>)
    ensures
        exists|x: Seq<char>, y: Seq<char>|
            s == #[trigger] (x + trim(s) + y) && is_blank_text(x) && is_blank_text(y),
        trim(s).len() > 0 ==> !is_space(trim(s)[0]) && !is_space(trim(s).last()),
{
    let x = lemma_trim_start_parts(s);
    let y = lemma_trim_end_parts(trim_start(s));
    assert(s =~= x + trim(s) + y);
    if trim(s).len() > 0 {
        assert(trim(s)[0] == trim_start(s)[0]);
    }
}

/// Trimming the end of a text takes away the white space there and nothing else.
pub proof fn trimming_the_end_takes_the_white_space_there(s: Seq<char>)
    ensures
        exists|y: Seq<char>| s == #[trigger] (trim_end(s) + y) && is_blank_text(y),
        trim_end(s).len() > 0 ==> !is_space(trim_end(s).last()),
{
    let y = lemma_trim_end_parts(s);
    assert(s == trim_end(s) + y);
}

/// A decimal digit more multiplies a number by ten and adds the digit's value.
pub proof fn a_digit_more_counts_in_tens(s: Seq<char>, c: char)
    requires
        '0' <= c <= '9',
    ensures
        digits_value(s.push(c)) == 10 * digits_value(s) + (c as int - '0' as int),
        digits_value(Seq::empty()) == 0,
{
    assert(s.push(c).drop_last() =~= s);
}

/// A number in decimal is made of digits, has that value, and starts with no zero that it
/// could do without.
pub proof fn a_decimal_has_its_value(n: nat)
    ensures
        decimal(n).len() > 0,
        all_digits(decimal(n)),
        digits_value(decimal(n)) == n,
        decimal(n).len() > 1 ==> decimal(n)[0] != '0',
    decreases n,
{
    let c = crate::text::digit(n % 10);
    assert(c as nat == 48 + n % 10);
    if n < 10 {
        let s = seq![c];
        assert(n % 10 == n);
        assert(s.drop_last() =~= Seq::<char>::empty());
        assert(digits_value(s) == digits_value(s.drop_last()) * 10 + (c as nat - 48) as nat);
        reveal_with_fuel(digits_value, 2);
    } else {
        let d = decimal(n / 10);
        a_decimal_has_its_value(n / 10);
        assert(decimal(n) == d.push(c));
        assert(d.push(c).drop_last() =~= d);
        assert(digits_value(d.push(c)) == digits_value(d) * 10 + n % 10);
        if d.len() == 1 {
            assert(decimal(n)[0] == d[0]);
            assert(digits_value(d) == digits_value(d.drop_last()) * 10 + (d[0] as nat - 48) as nat);
            assert(d.drop_last() =~= Seq::<char>::empty());
        } else {
            assert(decimal(n)[0] == d[0]);
        }
    }
}

/// A number is read from its decimal digits, with or without a `+` in front, as long as it is
/// within the limit; and nothing that holds another character is a number.
pub proof fn a_number_is_read_as_it_is_written(n: nat, max: nat, s: Seq<char>)
    ensures
        unsigned(decimal(n), max) == (if n <= max {
            Some(n)
        } else {
            None
        }),
        unsigned(seq!['+'] + decimal(n), max) == unsigned(decimal(n), max),
        unsigned(Seq::empty(), max) is None,
        unsigned(s, max) is Some ==> s.len() > 0 && all_digits(s.skip(1)) && (s[0] == '+' || '0'
            <= s[0] <= '9') && unsigned(s, max)->0 <= max,
{
    a_decimal_has_its_value(n);
    let d = decimal(n);
    assert('0' <= d[0] <= '9');
    let p = seq!['+'] + d;
    assert(p.drop_first() =~= d);
    if unsigned(s, max) is Some {
        assert forall|i: int| 0 <= i < s.skip(1).len() implies '0' <= #[trigger] s.skip(1)[i]
            <= '9' by {
            if s[0] == '+' {
                assert(s.drop_first()[i] == s.skip(1)[i]);
            } else {
                assert(s[i + 1] == s.skip(1)[i]);
            }
        }
        if s[0] != '+' {
            assert('0' <= s[0] <= '9');
        }
    }
}

/// Two lists are joined by joining each and putting the separator between them; one text alone
/// stays as it is.
pub proof fn joining_goes_piece_by_piece(a: Seq<Seq<char>>, b: Seq<Seq<char>>, sep: Seq<char>)
    ensures
        a.len() > 0 && b.len() > 0 ==> join(a + b, sep) == join(a, sep) + sep + join(b, sep),
        a.len() == 1 ==> join(a, sep) == a[0],
        join(Seq::empty(), sep) == Seq::<char>::empty(),
    decreases b.len(),
{
    if a.len() > 0 && b.len() > 0 {
        let all = a + b;
        assert(all.last() == b.last());
        if b.len() == 1 {
            assert(all.drop_last() =~= a);
        } else {
            let rest = b.drop_last();
            joining_goes_piece_by_piece(a, rest, sep);
            assert(all.drop_last() =~= a + rest);
            assert(join(all, sep) =~= join(a, sep) + sep + join(b, sep));
        }
    }
}

/// A padded text starts with the text, has at least the width, and no more than it needs.
pub proof fn padding_fills_up_with_spaces(s: Seq<char>, width: nat)
    ensures
        pad_right(s, width).len() == (if s.len() < width {
            width
        } else {
            s.len()
        }),
        has_prefix(pad_right(s, width), s),
        forall|i: int|
            s.len() <= i < pad_right(s, width).len() ==> #[trigger] pad_right(s, width)[i] == ' ',
{
    assert(pad_right(s, width).take(s.len() as int) =~= s);
}

/// A text starts with another if it is that one and something behind it.
pub proof fn a_prefix_stands_in_front(p: Seq<char>, t: Seq<char>, s: Seq<char>)
    ensures
        has_prefix(p + t, p),
        has_prefix(s, p) ==> s == p + s.skip(p.len() as int),
        has_suffix(t + p, p),
        has_suffix(s, p) ==> s == s.take(s.len() - p.len()) + p,
{
    assert((p + t).take(p.len() as int) =~= p);
    assert((t + p).skip(t.len() as int) =~= p);
    if has_prefix(s, p) {
        assert(s =~= p + s.skip(p.len() as int));
    }
    if has_suffix(s, p) {
        assert(s =~= s.take(s.len() - p.len()) + p);
    }
}

proof fn lemma_line_len(a: Seq<char>, b: Seq<char>)
    requires
        !a.contains('\n'),
        b.len() == 0 || b[0] == '\n',
    ensures
        line_len(a + b) == a.len(),
    decreases a.len(),
{
    if a.len() == 0 {
        assert(a + b =~= b);
    } else {
        let rest = a.skip(1);
        assert(a[0] != '\n');
        if rest.contains('\n') {
            let i = choose|i: int| 0 <= i < rest.len() && rest[i] == '\n';
            assert(a[i + 1] == '\n');
        }
        lemma_line_len(rest, b);
        assert((a + b).skip(1) =~= rest + b);
    }
}

/// A text is cut into lines at its line feeds; a carriage return in front of one goes with it,
/// and what stands behind the last one is a line if there is anything.
pub proof fn lines_end_at_line_feeds(a: Seq<char>, b: Seq<char>)
    requires
        !a.contains('\n'),
    ensures
        lines(Seq::empty()) == Seq::<Seq<char>>::empty(),
        a.len() > 0 ==> lines(a) == seq![a],
        a.len() == 0 || a.last() != '\r' ==> lines(a + seq!['\n'] + b) == seq![a] + lines(b),
        lines(a + seq!['\r', '\n'] + b) == seq![a] + lines(b),
{
    if a.len() > 0 {
        lemma_line_len(a, Seq::empty());
        assert(a + Seq::<char>::empty() =~= a);
    }
    let s = a + seq!['\n'] + b;
    lemma_line_len(a, seq!['\n'] + b);
    assert(a + (seq!['\n'] + b) =~= s);
    assert(s.take(a.len() as int) =~= a);
    assert(s.skip(a.len() as int + 1) =~= b);
    let t = a + seq!['\r', '\n'] + b;
    let r = a.push('\r');
    assert(!r.contains('\n')) by {
        if r.contains('\n') {
            let i = choose|i: int| 0 <= i < r.len() && r[i] == '\n';
            assert(a[i] == '\n');
        }
    }
    lemma_line_len(r, seq!['\n'] + b);
    assert(r + (seq!['\n'] + b) =~= t);
    assert(t.take(r.len() as int) =~= r);
    assert(t.skip(r.len() as int + 1) =~= b);
    assert(r.drop_last() =~= a);
}

/// A flag is written as `true` or `false`.
pub proof fn a_flag_is_true_or_false()
    ensures
        flag(true) == "true"@,
        flag(false) == "false"@,
{
}

} // verus!
