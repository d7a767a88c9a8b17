//! The texts of moments in UTC are ordered as the moments are.
use crate::event::calendar::{
    date_of, lemma_earlier_date, lemma_every_day_has_a_date, lemma_year_bounds, Date,
};
use crate::event::timestamp::{
    date_text, lemma_digits_length, offset_of, offset_text, stamp_text, ten_to, time_text,
    wall_text,
};
use crate::text::{
    comes_before, differ_first_at, digit, digits, lemma_ascii_order, lemma_sorts_within,
    sorts_before,
};
use vstd::prelude::*;
use vstd::utf8::is_ascii_chars;

verus! {

/// As many digits are ordered as their numbers are.
proof fn lemma_digits_sort(n: nat, m: nat, width: nat)
    requires
        n < m < ten_to(width),
    ensures
        sorts_before(digits(n, width), digits(m, width)),
    decreases width,
{
    if width > 0 {
        let less = (width - 1) as nat;
        let a = digits(n, width);
        let b = digits(m, width);
        let empty = Seq::<char>::empty();
        lemma_digits_length(n / 10, less);
        lemma_digits_length(m / 10, less);
        if n / 10 < m / 10 {
            lemma_digits_sort(n / 10, m / 10, less);
            lemma_sorts_within(
                empty,
                digits(n / 10, less),
                digits(m / 10, less),
                seq![digit((n % 10) as int)],
                seq![digit((m % 10) as int)],
            );
            assert(empty + digits(n / 10, less) + seq![digit((n % 10) as int)] =~= a);
            assert(empty + digits(m / 10, less) + seq![digit((m % 10) as int)] =~= b);
        } else {
            assert(n / 10 == m / 10 && n % 10 < m % 10);
            assert(digit((n % 10) as int) as int == '0' as int + n % 10);
            assert(digit((m % 10) as int) as int == '0' as int + m % 10);
            assert(a.take(less as int) =~= digits(n / 10, less));
            assert(b.take(less as int) =~= digits(n / 10, less));
            assert(differ_first_at(a, b, less as int));
        }
    }
}

/// Digits are ASCII.
proof fn lemma_digits_ascii(n: nat, width: nat)
    ensures
        is_ascii_chars(digits(n, width)),
    decreases width,
{
    if width > 0 {
        lemma_digits_ascii(n / 10, (width - 1) as nat);
        assert(digit((n % 10) as int) as int == '0' as int + n % 10);
    }
}

/// The texts of moments are ASCII.
proof fn lemma_stamp_ascii(nanos: nat, offset: int)
    ensures
        is_ascii_chars(stamp_text(nanos, offset)),
{
    assert forall|n: nat, width: nat| is_ascii_chars(#[trigger] digits(n, width)) by {
        lemma_digits_ascii(n, width);
    }
}

/// Dates are ordered by their texts.
proof fn lemma_dates_sort(a: Date, b: Date)
    requires
        0 <= a.year <= 9999 && 0 <= b.year <= 9999,
        0 <= a.month <= 99 && 0 <= b.month <= 99,
        0 <= a.day <= 99 && 0 <= b.day <= 99,
        a.year < b.year || (a.year == b.year && (a.month < b.month || (a.month == b.month && a.day
            < b.day))),
    ensures
        sorts_before(date_text(a), date_text(b)),
{
    reveal_with_fuel(ten_to, 5);
    let empty = Seq::<char>::empty();
    let dash = seq!['-'];
    let y = digits(a.year as nat, 4);
    let m = digits(a.month as nat, 2);
    let d = digits(a.day as nat, 2);
    let z = digits(b.year as nat, 4);
    let n = digits(b.month as nat, 2);
    let e = digits(b.day as nat, 2);
    if a.year < b.year {
        lemma_digits_sort(a.year as nat, b.year as nat, 4);
        lemma_sorts_within(empty, y, z, dash + m + dash + d, dash + n + dash + e);
        assert(empty + y + (dash + m + dash + d) =~= date_text(a));
        assert(empty + z + (dash + n + dash + e) =~= date_text(b));
    } else if a.month < b.month {
        lemma_digits_sort(a.month as nat, b.month as nat, 2);
        lemma_sorts_within(y + dash, m, n, dash + d, dash + e);
        assert(y + dash + m + (dash + d) =~= date_text(a));
        assert(y + dash + n + (dash + e) =~= date_text(b));
    } else {
        lemma_digits_sort(a.day as nat, b.day as nat, 2);
        lemma_sorts_within(y + dash + m + dash, d, e, empty, empty);
        assert(y + dash + m + dash + d + empty =~= date_text(a));
        assert(y + dash + m + dash + e + empty =~= date_text(b));
    }
}

/// Of two times of day, the earlier one has the lower hour, or the lower minute of
/// the same hour, or the lower second of the same minute.
proof fn lemma_earlier_time(s: int, t: int)
    requires
        0 <= s < t < 86400,
    ensures
        s / 3600 < t / 3600 || (s / 3600 == t / 3600 && (s / 60 % 60 < t / 60 % 60 || (s / 60 % 60
            == t / 60 % 60 && s % 60 < t % 60))),
{
    lemma_split_time(s);
    lemma_split_time(t);
}

/// Hours, minutes and seconds make up a time of day.
proof fn lemma_split_time(s: int)
    requires
        0 <= s,
    ensures
        s == s / 3600 * 3600 + s / 60 % 60 * 60 + s % 60,
        0 <= s / 60 % 60 < 60,
        0 <= s % 60 < 60,
{
}

/// Times are ordered by their texts, each given by its parts.
proof fn lemma_parts_sort(
    h: nat,
    m: nat,
    a: nat,
    f: nat,
    i: nat,
    n: nat,
    b: nat,
    g: nat,
)
    requires
        h < 100 && m < 100 && a < 100 && f < 1_000_000_000,
        i < 100 && n < 100 && b < 100 && g < 1_000_000_000,
        h < i || (h == i && (m < n || (m == n && (a < b || (a == b && f < g))))),
    ensures
        sorts_before(
            digits(h, 2) + seq![':'] + digits(m, 2) + seq![':'] + digits(a, 2) + seq!['.']
                + digits(f, 9),
            digits(i, 2) + seq![':'] + digits(n, 2) + seq![':'] + digits(b, 2) + seq!['.']
                + digits(g, 9),
        ),
{
    reveal_with_fuel(ten_to, 10);
    let empty = Seq::<char>::empty();
    let c = seq![':'];
    let p = seq!['.'];
    let (hh, mm, aa, ff) = (digits(h, 2), digits(m, 2), digits(a, 2), digits(f, 9));
    let (ii, nn, bb, gg) = (digits(i, 2), digits(n, 2), digits(b, 2), digits(g, 9));
    let x = hh + c + mm + c + aa + p + ff;
    let y = ii + c + nn + c + bb + p + gg;
    if h < i {
        lemma_digits_sort(h, i, 2);
        lemma_sorts_within(empty, hh, ii, c + mm + c + aa + p + ff, c + nn + c + bb + p + gg);
        assert(empty + hh + (c + mm + c + aa + p + ff) =~= x);
        assert(empty + ii + (c + nn + c + bb + p + gg) =~= y);
    } else if m < n {
        lemma_digits_sort(m, n, 2);
        lemma_sorts_within(hh + c, mm, nn, c + aa + p + ff, c + bb + p + gg);
        assert(hh + c + mm + (c + aa + p + ff) =~= x);
        assert(hh + c + nn + (c + bb + p + gg) =~= y);
    } else if a < b {
        lemma_digits_sort(a, b, 2);
        lemma_sorts_within(hh + c + mm + c, aa, bb, p + ff, p + gg);
        assert(hh + c + mm + c + aa + (p + ff) =~= x);
        assert(hh + c + mm + c + bb + (p + gg) =~= y);
    } else {
        lemma_digits_sort(f, g, 9);
        lemma_sorts_within(hh + c + mm + c + aa + p, ff, gg, empty, empty);
        assert(hh + c + mm + c + aa + p + ff + empty =~= x);
        assert(hh + c + mm + c + aa + p + gg + empty =~= y);
    }
}

/// Times of day are ordered by their texts.
proof fn lemma_times_sort(s: int, f: nat, t: int, g: nat)
    requires
        0 <= s < 86400,
        0 <= t < 86400,
        f < 1_000_000_000,
        g < 1_000_000_000,
        s < t || (s == t && f < g),
    ensures
        sorts_before(time_text(s, f), time_text(t, g)),
{
    if s < t {
        lemma_earlier_time(s, t);
    }
    lemma_parts_sort(
        (s / 3600) as nat,
        (s / 60 % 60) as nat,
        (s % 60) as nat,
        f,
        (t / 3600) as nat,
        (t / 60 % 60) as nat,
        (t % 60) as nat,
        g,
    );
}

/// Of two moments, the earlier one has the text that comes first, byte by byte,
/// where the clocks are not ahead, as those of UTC never are.
pub proof fn lemma_utc_texts_are_in_order(a: u64, b: u64, utc: chrono_tz::Tz)
    requires
        a < b,
        offset_of(a, utc) == 0,
        offset_of(b, utc) == 0,
    ensures
        comes_before(wall_text(a, utc), wall_text(b, utc)),
{
    let s = a as int / 1_000_000_000;
    let t = b as int / 1_000_000_000;
    let f = a as nat % 1_000_000_000;
    let g = b as nat % 1_000_000_000;
    let d = date_of(s / 86400);
    let e = date_of(t / 86400);
    let empty = Seq::<char>::empty();
    let blank = seq![' '];
    let x = time_text(s % 86400, f);
    let y = time_text(t % 86400, g);
    let end = offset_text(0);
    assert(s + 0 == s && t + 0 == t);
    lemma_every_day_has_a_date(s / 86400);
    lemma_every_day_has_a_date(t / 86400);
    lemma_year_bounds(d);
    lemma_year_bounds(e);
    if s / 86400 < t / 86400 {
        lemma_earlier_date(d, e);
        lemma_dates_sort(d, e);
        lemma_sorts_within(empty, date_text(d), date_text(e), blank + x + end, blank + y + end);
        assert(empty + date_text(d) + (blank + x + end) =~= stamp_text(a as nat, 0));
        assert(empty + date_text(e) + (blank + y + end) =~= stamp_text(b as nat, 0));
    } else {
        assert(s <= t);
        assert(s / 86400 == t / 86400);
        lemma_times_sort(s % 86400, f, t % 86400, g);
        lemma_sorts_within(date_text(d) + blank, x, y, end, end);
        assert(date_text(d) + blank + x + end == stamp_text(a as nat, 0));
        assert(date_text(d) + blank + y + end == stamp_text(b as nat, 0));
    }
    lemma_stamp_ascii(a as nat, 0);
    lemma_stamp_ascii(b as nat, 0);
    lemma_ascii_order(stamp_text(a as nat, 0), stamp_text(b as nat, 0));
}

} // verus!
