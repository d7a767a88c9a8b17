//! Instants as wall-clock texts that carry their offset from UTC.
use crate::event::calendar::{
    date_of, day_number, is_date, lemma_date_of, lemma_every_day_has_a_date, lemma_year_bounds,
    Date,
};
use crate::scan::digits_value;
use crate::text::{digit, digits, push_digits};
use chrono::{Datelike, Offset, Timelike};
use vstd::arithmetic::div_mod::lemma_fundamental_div_mod_converse;
use vstd::prelude::*;

verus! {

/// A time zone of the IANA database.
#[verifier::external_type_specification]
#[verifier::external_body]
pub struct ExTz(chrono_tz::Tz);

/// How many seconds the clocks of a zone are ahead of UTC, so many seconds
/// after the start of 1970.
pub uninterp spec fn zone_offset(zone: chrono_tz::Tz, secs: int) -> int;

/// What the clocks of a zone show, and how many seconds they are ahead of UTC.
pub struct WallClock {
    pub year: i32,
    pub month: u32,
    pub day: u32,
    pub hour: u32,
    pub minute: u32,
    pub second: u32,
    pub offset: i32,
}

impl WallClock {
    /// The date that the clocks show.
    pub open spec fn date(self) -> Date {
        Date { year: self.year as int, month: self.month as int, day: self.day as int }
    }

    /// The clocks show the moment so many seconds after the start of 1970, as
    /// counted by themselves.
    pub open spec fn shows(self, local: int) -> bool {
        &&& is_date(self.date())
        &&& self.hour < 24
        &&& self.minute < 60
        &&& self.second < 60
        &&& day_number(self.date()) * 86400 + self.hour * 3600 + self.minute * 60 + self.second
            == local
    }
}

/// `chrono::DateTime::from_timestamp`, `with_timezone` and the fields of what
/// comes out: the date and the time of day in a zone, with the offset that
/// holds there at that moment. The offset is less than a day and depends on the
/// zone and the second alone.
#[verifier::external_body]
fn wall_clock(secs: i64, nanos: u32, zone: chrono_tz::Tz) -> (r: Option<WallClock>)
    requires
        0 <= secs <= 18_446_744_073,
        nanos < 1_000_000_000,
    ensures
        match r {
            Some(clock) => {
                &&& clock.offset == zone_offset(zone, secs as int)
                &&& -86400 < clock.offset < 86400
                &&& clock.shows(secs + clock.offset)
            },
            None => false,
        },
{
    let local = chrono::DateTime::from_timestamp(secs, nanos)?.with_timezone(&zone);
    Some(
        WallClock {
            year: local.year(),
            month: local.month(),
            day: local.day(),
            hour: local.hour(),
            minute: local.minute(),
            second: local.second(),
            offset: local.offset().fix().local_minus_utc(),
        },
    )
}

/// A date as `2026-09-07`.
pub open spec fn date_text(date: Date) -> Seq<char> {
    digits(date.year as nat, 4) + seq!['-'] + digits(date.month as nat, 2) + seq!['-'] + digits(
        date.day as nat,
        2,
    )
}

/// So many seconds after midnight, and a part of a second, as
/// `11:04:08.914293456`.
pub open spec fn time_text(seconds: int, nanos: nat) -> Seq<char> {
    digits((seconds / 3600) as nat, 2) + seq![':'] + digits((seconds / 60 % 60) as nat, 2)
        + seq![':'] + digits((seconds % 60) as nat, 2) + seq!['.'] + digits(nanos, 9)
}

/// An offset from UTC in seconds as `+08:00`. What is left over of a minute is
/// dropped.
pub open spec fn offset_text(offset: int) -> Seq<char> {
    let minutes = (if offset < 0 {
        -offset
    } else {
        offset
    }) / 60;
    (if offset < 0 {
        seq!['-']
    } else {
        seq!['+']
    }) + digits((minutes / 60) as nat, 2) + seq![':'] + digits((minutes % 60) as nat, 2)
}

/// The moment `nanos` nanoseconds after the start of 1970, as the clocks show it
/// that are `offset` seconds ahead of UTC.
pub open spec fn stamp_text(nanos: nat, offset: int) -> Seq<char> {
    let local = nanos / 1_000_000_000 + offset;
    date_text(date_of(local / 86400)) + seq![' '] + time_text(
        local % 86400,
        nanos % 1_000_000_000,
    ) + offset_text(offset)
}

/// A moment as `2026-09-07 11:04:08.914293456+08:00`, always 35 characters.
#[derive(Debug)]
pub struct Timestamp {
    text: String,
}

impl View for Timestamp {
    type V = Seq<char>;

    closed spec fn view(&self) -> Seq<char> {
        self.text@
    }
}

impl Timestamp {
    /// The text.
    pub fn as_str(&self) -> (r: &str)
        ensures
            r@ == self@,
    {
        self.text.as_str()
    }
}

/// How many seconds the clocks of a zone are ahead of UTC at a moment.
pub open spec fn offset_of(nanos: u64, tz: chrono_tz::Tz) -> int {
    zone_offset(tz, nanos as int / 1_000_000_000)
}

/// A moment as the clocks of a zone show it.
pub open spec fn wall_text(nanos: u64, tz: chrono_tz::Tz) -> Seq<char> {
    stamp_text(nanos as nat, offset_of(nanos, tz))
}

/// How many nanoseconds after the start of 1970, as the wall clock of a zone
/// shows it, with the offset from UTC that holds there then. The text names that
/// moment, unless the offset has seconds, which are not written.
pub fn format_timestamp(nanos: u64, tz: chrono_tz::Tz) -> (r: Timestamp)
    ensures
        r@ == wall_text(nanos, tz),
        r@.len() == 35,
        -86400 < offset_of(nanos, tz) < 86400,
        offset_of(nanos, tz) % 60 == 0 ==> moment_in(r@) == nanos,
{
    let secs: u64 = nanos / 1_000_000_000;
    let sub: u64 = nanos % 1_000_000_000;
    match wall_clock(secs as i64, sub as u32, tz) {
        Some(clock) => {
            proof {
                lemma_stamp_length(nanos as nat, clock.offset as int);
                if clock.offset as int % 60 == 0 {
                    lemma_stamp_reads_back(nanos, clock.offset as int);
                }
            }
            Timestamp { text: clock_text(nanos, clock) }
        },
        None => Timestamp { text: String::new() },
    }
}

/// A moment as clocks show it.
fn clock_text(nanos: u64, clock: WallClock) -> (r: String)
    requires
        -86400 < clock.offset < 86400,
        clock.shows(nanos as int / 1_000_000_000 + clock.offset),
    ensures
        r@ == stamp_text(nanos as nat, clock.offset as int),
{
    let ghost local = nanos as int / 1_000_000_000 + clock.offset;
    proof {
        lemma_clock(clock, local);
    }
    let mut text = String::new();
    push_digits(&mut text, clock.year as u64, 4);
    text.push('-');
    push_digits(&mut text, clock.month as u64, 2);
    text.push('-');
    push_digits(&mut text, clock.day as u64, 2);
    assert(text@ =~= date_text(clock.date()));
    text.push(' ');
    let ghost before = text@;
    push_digits(&mut text, clock.hour as u64, 2);
    text.push(':');
    push_digits(&mut text, clock.minute as u64, 2);
    text.push(':');
    push_digits(&mut text, clock.second as u64, 2);
    text.push('.');
    push_digits(&mut text, nanos % 1_000_000_000, 9);
    assert(text@ =~= before + time_text(local % 86400, (nanos % 1_000_000_000) as nat));
    let ghost before = text@;
    let size: u64 = if clock.offset < 0 {
        text.push('-');
        (-clock.offset) as u64
    } else {
        text.push('+');
        clock.offset as u64
    };
    let minutes: u64 = size / 60;
    push_digits(&mut text, minutes / 60, 2);
    text.push(':');
    push_digits(&mut text, minutes % 60, 2);
    assert(text@ =~= before + offset_text(clock.offset as int));
    text
}

/// A clock shows the date and the time of day that the count of seconds gives.
proof fn lemma_clock(clock: WallClock, local: int)
    requires
        clock.shows(local),
        -86400 < local < 18_446_744_073 + 86400,
    ensures
        0 <= clock.year <= 9999,
        clock.date() == date_of(local / 86400),
        clock.hour == local % 86400 / 3600,
        clock.minute == local % 86400 / 60 % 60,
        clock.second == local % 86400 % 60,
{
    let days = day_number(clock.date());
    let seconds = clock.hour * 3600 + clock.minute * 60 + clock.second;
    assert(0 <= seconds < 86400);
    lemma_fundamental_div_mod_converse(local, 86400, days, seconds);
    lemma_fundamental_div_mod_converse(
        seconds,
        3600,
        clock.hour as int,
        clock.minute * 60 + clock.second,
    );
    lemma_fundamental_div_mod_converse(
        seconds,
        60,
        clock.hour * 60 + clock.minute,
        clock.second as int,
    );
    lemma_fundamental_div_mod_converse(
        clock.hour * 60 + clock.minute,
        60,
        clock.hour as int,
        clock.minute as int,
    );
    lemma_date_of(clock.date());
    lemma_year_bounds(clock.date());
}

/// So many digits are so many characters.
pub proof fn lemma_digits_length(n: nat, width: nat)
    ensures
        digits(n, width).len() == width,
    decreases width,
{
    if width > 0 {
        lemma_digits_length(n / 10, (width - 1) as nat);
    }
}

/// The text of a moment is always 35 characters long.
pub proof fn lemma_stamp_length(nanos: nat, offset: int)
    ensures
        stamp_text(nanos, offset).len() == 35,
{
    assert forall|n: nat, width: nat| #[trigger] digits(n, width).len() == width by {
        lemma_digits_length(n, width);
    }
}

/// Ten to the power of `width`.
pub open spec fn ten_to(width: nat) -> nat
    decreases width,
{
    if width == 0 {
        1
    } else {
        10 * ten_to((width - 1) as nat)
    }
}

/// A number with no more digits than are written is the number that they stand
/// for.
proof fn lemma_digits_value(n: nat, width: nat)
    requires
        n < ten_to(width),
    ensures
        digits_value(digits(n, width)) == n,
    decreases width,
{
    if width > 0 {
        let less = (width - 1) as nat;
        assert(digits(n, width).drop_last() =~= digits(n / 10, less));
        assert(digit((n % 10) as int) as int == '0' as int + n % 10);
        lemma_digits_value(n / 10, less);
    }
}

/// The text of a moment, part by part.
proof fn lemma_stamp_parts(date: Date, seconds: int, nanos: nat, offset: int)
    ensures
        ({
            let text = date_text(date) + seq![' '] + time_text(seconds, nanos) + offset_text(
                offset,
            );
            let minutes = (if offset < 0 {
                -offset
            } else {
                offset
            }) / 60;
            &&& text.len() == 35
            &&& text.subrange(0, 4) == digits(date.year as nat, 4)
            &&& text.subrange(5, 7) == digits(date.month as nat, 2)
            &&& text.subrange(8, 10) == digits(date.day as nat, 2)
            &&& text.subrange(11, 13) == digits((seconds / 3600) as nat, 2)
            &&& text.subrange(14, 16) == digits((seconds / 60 % 60) as nat, 2)
            &&& text.subrange(17, 19) == digits((seconds % 60) as nat, 2)
            &&& text.subrange(20, 29) == digits(nanos, 9)
            &&& text[29] == if offset < 0 {
                '-'
            } else {
                '+'
            }
            &&& text.subrange(30, 32) == digits((minutes / 60) as nat, 2)
            &&& text.subrange(33, 35) == digits((minutes % 60) as nat, 2)
        }),
{
    assert forall|n: nat, width: nat| #[trigger] digits(n, width).len() == width by {
        lemma_digits_length(n, width);
    }
    let text = date_text(date) + seq![' '] + time_text(seconds, nanos) + offset_text(offset);
    let minutes = (if offset < 0 {
        -offset
    } else {
        offset
    }) / 60;
    assert(text.subrange(0, 4) =~= digits(date.year as nat, 4));
    assert(text.subrange(5, 7) =~= digits(date.month as nat, 2));
    assert(text.subrange(8, 10) =~= digits(date.day as nat, 2));
    assert(text.subrange(11, 13) =~= digits((seconds / 3600) as nat, 2));
    assert(text.subrange(14, 16) =~= digits((seconds / 60 % 60) as nat, 2));
    assert(text.subrange(17, 19) =~= digits((seconds % 60) as nat, 2));
    assert(text.subrange(20, 29) =~= digits(nanos, 9));
    assert(text.subrange(30, 32) =~= digits((minutes / 60) as nat, 2));
    assert(text.subrange(33, 35) =~= digits((minutes % 60) as nat, 2));
}

/// The number that stands at some places of a text.
pub open spec fn number_at(text: Seq<char>, from: int, to: int) -> int {
    digits_value(text.subrange(from, to))
}

/// The offset from UTC in seconds that the text of a moment ends in.
pub open spec fn offset_in(text: Seq<char>) -> int {
    let seconds = (number_at(text, 30, 32) * 60 + number_at(text, 33, 35)) * 60;
    if text[29] == '-' {
        -seconds
    } else {
        seconds
    }
}

/// The moment that a text names: how many nanoseconds after the start of 1970 the
/// clocks show that date and that time, being ahead of UTC by that offset.
pub open spec fn moment_in(text: Seq<char>) -> int {
    let date = Date {
        year: number_at(text, 0, 4),
        month: number_at(text, 5, 7),
        day: number_at(text, 8, 10),
    };
    let local = day_number(date) * 86400 + number_at(text, 11, 13) * 3600 + number_at(
        text,
        14,
        16,
    ) * 60 + number_at(text, 17, 19);
    (local - offset_in(text)) * 1_000_000_000 + number_at(text, 20, 29)
}

/// The text of a moment names that moment, where the offset is of whole minutes.
pub proof fn lemma_stamp_reads_back(nanos: u64, offset: int)
    requires
        -86400 < offset < 86400,
        offset % 60 == 0,
    ensures
        moment_in(stamp_text(nanos as nat, offset)) == nanos,
        offset_in(stamp_text(nanos as nat, offset)) == offset,
{
    let local = nanos as int / 1_000_000_000 + offset;
    let date = date_of(local / 86400);
    let seconds = local % 86400;
    let rest = nanos as nat % 1_000_000_000;
    let minutes = (if offset < 0 {
        -offset
    } else {
        offset
    }) / 60;
    lemma_every_day_has_a_date(local / 86400);
    lemma_year_bounds(date);
    lemma_stamp_parts(date, seconds, rest, offset);
    reveal_with_fuel(ten_to, 10);
    lemma_digits_value(date.year as nat, 4);
    lemma_digits_value(date.month as nat, 2);
    lemma_digits_value(date.day as nat, 2);
    lemma_digits_value((seconds / 3600) as nat, 2);
    lemma_digits_value((seconds / 60 % 60) as nat, 2);
    lemma_digits_value((seconds % 60) as nat, 2);
    lemma_digits_value(rest, 9);
    lemma_digits_value((minutes / 60) as nat, 2);
    lemma_digits_value((minutes % 60) as nat, 2);
    assert(seconds == seconds / 3600 * 3600 + seconds / 60 % 60 * 60 + seconds % 60);
    assert(minutes == minutes / 60 * 60 + minutes % 60);
    assert(local == local / 86400 * 86400 + seconds);
    assert(nanos == nanos as int / 1_000_000_000 * 1_000_000_000 + rest);
}

/// The zone changes what is shown and nothing else: two texts, for whatever zones,
/// name the same moment just where they were made of the same one. Each offset is
/// less than a day, as [`format_timestamp`] states of its own, and of whole
/// minutes.
pub proof fn lemma_zones_only_show(a: u64, here: chrono_tz::Tz, b: u64, there: chrono_tz::Tz)
    requires
        -86400 < offset_of(a, here) < 86400,
        -86400 < offset_of(b, there) < 86400,
        offset_of(a, here) % 60 == 0,
        offset_of(b, there) % 60 == 0,
    ensures
        moment_in(wall_text(a, here)) == moment_in(wall_text(b, there)) <==> a == b,
        wall_text(a, here) == wall_text(b, there) ==> a == b,
{
    lemma_stamp_reads_back(a, offset_of(a, here));
    lemma_stamp_reads_back(b, offset_of(b, there));
}

/// `chrono_tz::Tz::UTC`: the zone whose clocks are never ahead.
#[verifier::external_body]
pub(crate) fn utc() -> (r: chrono_tz::Tz)
    ensures
        forall|secs: int|
            0 <= secs <= 18_446_744_073 ==> #[trigger] zone_offset(r, secs) == 0,
{
    chrono_tz::Tz::UTC
}

/// The whole minutes of an offset, in seconds.
pub open spec fn whole_minutes(offset: int) -> int {
    if offset < 0 {
        -((-offset) / 60 * 60)
    } else {
        offset / 60 * 60
    }
}

/// The text of a moment shows what the clocks show, whatever the offset, and the whole
/// minutes of the offset.
pub proof fn lemma_stamp_shows_the_clocks(nanos: u64, offset: int)
    requires
        -86400 < offset < 86400,
    ensures
        offset_in(stamp_text(nanos as nat, offset)) == whole_minutes(offset),
        moment_in(stamp_text(nanos as nat, offset)) + whole_minutes(offset) * 1_000_000_000
            == nanos + offset * 1_000_000_000,
{
    let local = nanos as int / 1_000_000_000 + offset;
    let date = date_of(local / 86400);
    let seconds = local % 86400;
    let rest = nanos as nat % 1_000_000_000;
    let minutes = (if offset < 0 {
        -offset
    } else {
        offset
    }) / 60;
    lemma_every_day_has_a_date(local / 86400);
    lemma_year_bounds(date);
    lemma_stamp_parts(date, seconds, rest, offset);
    reveal_with_fuel(ten_to, 10);
    lemma_digits_value(date.year as nat, 4);
    lemma_digits_value(date.month as nat, 2);
    lemma_digits_value(date.day as nat, 2);
    lemma_digits_value((seconds / 3600) as nat, 2);
    lemma_digits_value((seconds / 60 % 60) as nat, 2);
    lemma_digits_value((seconds % 60) as nat, 2);
    lemma_digits_value(rest, 9);
    lemma_digits_value((minutes / 60) as nat, 2);
    lemma_digits_value((minutes % 60) as nat, 2);
    assert(seconds == seconds / 3600 * 3600 + seconds / 60 % 60 * 60 + seconds % 60);
    assert(minutes == minutes / 60 * 60 + minutes % 60);
    assert(local == local / 86400 * 86400 + seconds);
    assert(nanos == nanos as int / 1_000_000_000 * 1_000_000_000 + rest);
}

} // verus!
