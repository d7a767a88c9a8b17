//! What taking text apart gives, in terms of the text.
use crate::scan::{
    all_digits, begins_with, digits_value, first_place, i64_in, is_blank, is_digit,
    occurs_at, occurs_in, pieces, trim_end, trim_end_of, trim_start, trimmed, without,
};
use crate::text::{decimal, digit, joined};
use vstd::prelude::*;

verus! {

/// The decimal text of a whole number: a minus sign where it is below zero, and
/// the digits of its size.
pub open spec fn signed_decimal(n: int) -> Seq<char> {
    if n < 0 {
        seq!['-'] + decimal((-n) as nat)
    } else {
        decimal(n as nat)
    }
}

/// The decimal text of a number is digits alone, with none but the last zero in
/// front, and they stand for the number.
pub proof fn lemma_decimal_digits(n: nat)
    ensures
        all_digits(decimal(n)),
        digits_value(decimal(n)) == n,
        n > 0 ==> decimal(n)[0] != '0',
        n == 0 ==> decimal(n) == seq!['0'],
    decreases n,
{
    assert(forall|d: int| 0 <= d < 10 ==> (#[trigger] digit(d)) as int == '0' as int + d);
    if n < 10 {
        let text = decimal(n);
        assert(text.drop_last() =~= Seq::empty());
        assert(digits_value(text.drop_last()) == 0);
        assert(digit(n as int) as int == '0' as int + n);
        assert(n == 0 ==> text =~= seq!['0']);
    } else {
        let front = decimal(n / 10);
        let text = decimal(n);
        lemma_decimal_digits(n / 10);
        assert(text.drop_last() =~= front);
        assert(digit((n % 10) as int) as int == '0' as int + n % 10);
        assert forall|i: int| 0 <= i < text.len() implies is_digit(#[trigger] text[i]) by {
            if i < front.len() {
                assert(text[i] == front[i]);
            }
        }
        assert(text[0] == front[0]);
    }
}

/// A digit is as far behind `0` as it is worth, and one more digit is worth itself
/// and ten times what stands before it.
pub proof fn lemma_digit(d: int, before: Seq<char>)
    requires
        0 <= d < 10,
    ensures
        digit(d) as int == 48 + d,
        digits_value(before.push(digit(d))) == 10 * digits_value(before) + d,
        digits_value(Seq::empty()) == 0,
{
    assert(before.push(digit(d)).drop_last() =~= before);
}

/// Reading the decimal text of a number gives the number.
pub proof fn lemma_number_reads_back(n: i64)
    ensures
        i64_in(signed_decimal(n as int)) == Some(n),
{
    let size: nat = if n < 0 {
        (-n) as nat
    } else {
        n as nat
    };
    let text = signed_decimal(n as int);
    lemma_decimal_digits(size);
    if n < 0 {
        assert(text.skip(1) =~= decimal(size));
    } else {
        assert(is_digit(decimal(size)[0]));
    }
}

/// A sign in front of digits is read as a sign: a minus turns the number round, a
/// plus leaves it.
pub proof fn lemma_signs(digits: Seq<char>)
    requires
        all_digits(digits),
    ensures
        match i64_in(digits) {
            Some(n) => i64_in(seq!['-'] + digits) == Some((-n) as i64) && i64_in(
                seq!['+'] + digits,
            ) == Some(n),
            None => i64_in(seq!['+'] + digits) is None,
        },
{
    let minus = seq!['-'] + digits;
    let plus = seq!['+'] + digits;
    assert(minus.skip(1) =~= digits);
    assert(plus.skip(1) =~= digits);
    assert(is_digit(digits[0]));
    lemma_value_not_negative(digits);
}

/// Digits stand for no number below zero.
proof fn lemma_value_not_negative(digits: Seq<char>)
    requires
        forall|i: int| 0 <= i < digits.len() ==> is_digit(#[trigger] digits[i]),
    ensures
        digits_value(digits) >= 0,
    decreases digits.len(),
{
    if digits.len() > 0 {
        let rest = digits.drop_last();
        assert forall|i: int| 0 <= i < rest.len() implies is_digit(#[trigger] rest[i]) by {
            assert(rest[i] == digits[i]);
        }
        lemma_value_not_negative(rest);
        assert(is_digit(digits[digits.len() - 1]));
    }
}

/// Nothing is read as a number but digits with at most one sign in front.
pub proof fn lemma_only_numbers_are_read(text: Seq<char>)
    requires
        i64_in(text) is Some,
    ensures
        all_digits(text) || (text.len() > 1 && (text[0] == '-' || text[0] == '+') && all_digits(
            text.skip(1),
        )),
{
}

/// What Unicode counts as white space.
pub open spec fn white() -> Seq<char> {
    seq![
        '\u{9}',
        '\u{a}',
        '\u{b}',
        '\u{c}',
        '\u{d}',
        ' ',
        '\u{85}',
        '\u{a0}',
        '\u{1680}',
        '\u{2000}',
        '\u{2001}',
        '\u{2002}',
        '\u{2003}',
        '\u{2004}',
        '\u{2005}',
        '\u{2006}',
        '\u{2007}',
        '\u{2008}',
        '\u{2009}',
        '\u{200a}',
        '\u{2028}',
        '\u{2029}',
        '\u{202f}',
        '\u{205f}',
        '\u{3000}',
    ]
}

/// White space is all that is blank.
pub proof fn lemma_blanks(c: char)
    ensures
        is_blank(c) <==> exists|i: int| 0 <= i < white().len() && #[trigger] white()[i] == c,
{
    let w = white();
    if is_blank(c) {
        let n = c as u32;
        let i: int = if n <= 0xd {
            n - 9
        } else if n == 0x20 {
            5
        } else if n == 0x85 {
            6
        } else if n == 0xa0 {
            7
        } else if n == 0x1680 {
            8
        } else if n <= 0x200a {
            n - 0x2000 + 9
        } else if n == 0x2028 {
            20
        } else if n == 0x2029 {
            21
        } else if n == 0x202f {
            22
        } else if n == 0x205f {
            23
        } else {
            24
        };
        assert(w[i] as u32 == n);
        assert(w[i] == c);
    }
}

/// Nothing but blanks.
pub open spec fn all_blank(s: Seq<char>) -> bool {
    forall|i: int| 0 <= i < s.len() ==> is_blank(#[trigger] s[i])
}

/// A text is blanks, its trimmed part and blanks, and the part neither begins nor
/// ends in one.
pub proof fn lemma_trimmed(s: Seq<char>)
    ensures
        exists|front: Seq<char>, back: Seq<char>|
            s == #[trigger] (front + trimmed(s) + back) && all_blank(front) && all_blank(back),
        trimmed(s).len() > 0 ==> !is_blank(trimmed(s)[0]) && !is_blank(trimmed(s).last()),
{
    let middle = trim_start(s);
    lemma_trim_start(s);
    lemma_trim_end(middle);
    let front = choose|front: Seq<char>| s == #[trigger] (front + middle) && all_blank(front);
    let back = choose|back: Seq<char>|
        middle == #[trigger] (trim_end(middle) + back) && all_blank(back);
    assert(front + trimmed(s) + back =~= s);
    if trimmed(s).len() > 0 {
        assert(middle[0] == trimmed(s)[0]);
    }
}

proof fn lemma_trim_start(s: Seq<char>)
    ensures
        exists|front: Seq<char>| s == #[trigger] (front + trim_start(s)) && all_blank(front),
        trim_start(s).len() > 0 ==> !is_blank(trim_start(s)[0]),
    decreases s.len(),
{
    if s.len() > 0 && is_blank(s[0]) {
        let rest = s.skip(1);
        lemma_trim_start(rest);
        let front = choose|front: Seq<char>|
            rest == #[trigger] (front + trim_start(rest)) && all_blank(front);
        let longer = seq![s[0]] + front;
        assert(longer + trim_start(s) =~= seq![s[0]] + (front + trim_start(rest)));
        assert(s =~= seq![s[0]] + rest);
        assert forall|i: int| 0 <= i < longer.len() implies is_blank(#[trigger] longer[i]) by {
            if i > 0 {
                assert(longer[i] == front[i - 1]);
            }
        }
    } else {
        let none = Seq::<char>::empty();
        assert(none + trim_start(s) =~= s);
    }
}

proof fn lemma_trim_end(s: Seq<char>)
    ensures
        exists|back: Seq<char>| s == #[trigger] (trim_end(s) + back) && all_blank(back),
        trim_end(s).len() > 0 ==> !is_blank(trim_end(s).last()),
    decreases s.len(),
{
    if s.len() > 0 && is_blank(s.last()) {
        let rest = s.drop_last();
        lemma_trim_end(rest);
        let back = choose|back: Seq<char>|
            rest == #[trigger] (trim_end(rest) + back) && all_blank(back);
        let longer = back.push(s.last());
        assert(trim_end(s) + longer =~= (trim_end(rest) + back).push(s.last()));
        assert(s =~= rest.push(s.last()));
        assert forall|i: int| 0 <= i < longer.len() implies is_blank(#[trigger] longer[i]) by {
            if i < back.len() {
                assert(longer[i] == back[i]);
            }
        }
    } else {
        let none = Seq::<char>::empty();
        assert(trim_end(s) + none =~= s);
    }
}

/// Cutting a character off the end leaves the text up to where nothing but that
/// character follows.
pub proof fn lemma_cut(s: Seq<char>, c: char)
    ensures
        exists|k: int|
            0 <= k <= s.len() && trim_end_of(s, c) == #[trigger] s.take(k) && (k > 0 ==> s[k - 1]
                != c) && (forall|i: int| k <= i < s.len() ==> s[i] == c),
    decreases s.len(),
{
    if s.len() > 0 && s.last() == c {
        let rest = s.drop_last();
        lemma_cut(rest, c);
        let k = choose|k: int|
            0 <= k <= rest.len() && trim_end_of(rest, c) == #[trigger] rest.take(k) && (k > 0
                ==> rest[k - 1] != c) && (forall|i: int| k <= i < rest.len() ==> rest[i] == c);
        assert(s.take(k) =~= rest.take(k));
        assert(k > 0 ==> s[k - 1] == rest[k - 1]);
        assert forall|i: int| k <= i < s.len() implies s[i] == c by {
            if i < rest.len() {
                assert(s[i] == rest[i]);
            }
        }
    } else {
        assert(s.take(s.len() as int) =~= s);
    }
}

/// Leaving a character out goes character by character: that one is left out, and
/// any other stays.
pub proof fn lemma_without(s: Seq<char>, x: char, c: char)
    ensures
        without(s.push(x), c) == if x == c {
            without(s, c)
        } else {
            without(s, c).push(x)
        },
        without(Seq::empty(), c) == Seq::<char>::empty(),
{
    assert(s.push(x).drop_last() =~= s);
}

/// A text begins with another just where it is that one and something more.
pub proof fn lemma_begins(prefix: Seq<char>, rest: Seq<char>, s: Seq<char>)
    ensures
        begins_with(prefix + rest, prefix),
        begins_with(s, prefix) ==> s == prefix + s.skip(prefix.len() as int),
{
    assert((prefix + rest).take(prefix.len() as int) =~= prefix);
    if begins_with(s, prefix) {
        assert(s =~= s.take(prefix.len() as int) + s.skip(prefix.len() as int));
    }
}

/// A text occurs in another just where the other is that one with something before
/// and behind it.
pub proof fn lemma_occurs(part: Seq<char>, front: Seq<char>, back: Seq<char>, s: Seq<char>)
    ensures
        occurs_in(part, front + part + back),
        occurs_in(part, s) ==> exists|a: Seq<char>, b: Seq<char>| s == #[trigger] (a + part + b),
{
    let whole = front + part + back;
    let at = front.len() as int;
    assert(whole.subrange(at, at + part.len()) =~= part);
    assert(occurs_at(part, whole, at));
    if occurs_in(part, s) {
        let k = choose|k: int| #[trigger] occurs_at(part, s, k);
        let a = s.take(k);
        let b = s.skip(k + part.len());
        assert(a + part + b =~= s);
    }
}

/// The first place of a character: there it stands, and nowhere before.
pub proof fn lemma_first_place(s: Seq<char>, c: char)
    ensures
        first_place(s, c) <= s.len(),
        first_place(s, c) < s.len() ==> s[first_place(s, c) as int] == c,
        forall|i: int| 0 <= i < first_place(s, c) ==> s[i] != c,
    decreases s.len(),
{
    if s.len() > 0 && s[0] != c {
        let rest = s.skip(1);
        lemma_first_place(rest, c);
        assert forall|i: int| 0 <= i < first_place(s, c) implies s[i] != c by {
            if i > 0 {
                assert(s[i] == rest[i - 1]);
            }
        }
    }
}

/// One text more behind the others.
pub proof fn lemma_joined_push(parts: Seq<Seq<char>>, part: Seq<char>, sep: Seq<char>)
    ensures
        parts.len() > 0 ==> joined(parts.push(part), sep) == joined(parts, sep) + sep + part,
        parts.len() == 0 ==> joined(parts.push(part), sep) == part,
{
    let all = parts.push(part);
    if parts.len() > 0 {
        let rest = all.skip(1);
        assert(rest.drop_last() =~= parts.skip(1));
        assert(rest.last() == part);
        assert(joined(all, sep) =~= joined(parts, sep) + sep + part);
    } else {
        assert(all.skip(1) =~= Seq::empty());
        assert(joined(all, sep) =~= part);
    }
}

/// The pieces of a text, put together again with what they were cut at, are the
/// text, and none of them holds it.
pub proof fn lemma_pieces(s: Seq<char>, sep: char)
    ensures
        pieces(s, sep).len() > 0,
        joined(pieces(s, sep), seq![sep]) == s,
        forall|i: int, k: int|
            0 <= i < pieces(s, sep).len() && 0 <= k < pieces(s, sep)[i].len()
                ==> #[trigger] pieces(s, sep)[i][k] != sep,
    decreases s.len(),
{
    let all = pieces(s, sep);
    let none = Seq::<Seq<char>>::empty();
    if s.len() == 0 {
        lemma_joined_push(none, Seq::empty(), seq![sep]);
        assert(none.push(Seq::empty()) =~= all);
        assert(s =~= Seq::empty());
    } else {
        let rest = s.drop_last();
        let before = pieces(rest, sep);
        lemma_pieces(rest, sep);
        if s.last() == sep {
            lemma_joined_push(before, Seq::empty(), seq![sep]);
            assert(joined(all, seq![sep]) =~= s);
        } else {
            let front = before.drop_last();
            lemma_joined_push(front, before.last(), seq![sep]);
            lemma_joined_push(front, before.last().push(s.last()), seq![sep]);
            assert(front.push(before.last()) =~= before);
            assert(joined(all, seq![sep]) =~= joined(before, seq![sep]).push(s.last()));
            assert(s =~= rest.push(s.last()));
        }
        assert forall|i: int, k: int|
            0 <= i < all.len() && 0 <= k < all[i].len() implies #[trigger] all[i][k] != sep by {
            if i < before.len() - 1 {
                assert(all[i] == before[i]);
                assert(before[i][k] != sep);
            } else if s.last() != sep {
                if k < before.last().len() {
                    assert(before[i][k] == all[i][k]);
                }
            } else if i < before.len() {
                assert(all[i] == before[i]);
                assert(before[i][k] != sep);
            }
        }
    }
}

} // verus!
