//! Dates as the interface writes them.
use crate::text::{chars_of, decimal, decimal_of, push_all, string_of};
use chrono::Datelike;
use vstd::prelude::*;

verus! {

/// What `chrono` writes for the instant `ts`, in UTC, by `pattern`, or `None` for an
/// instant `chrono` cannot represent.
pub uninterp spec fn day_text(ts: i64, pattern: Seq<char>) -> Option<Seq<char>>;

/// How the interface writes a day: `dd/mm/yyyy`.
pub open spec fn day_pattern() -> Seq<char> {
    "%d/%m/%Y"@
}

/// `chrono`'s formatting of the instant `ts` seconds after the Unix epoch, in UTC, by
/// `pattern`.
///
/// Called with the day pattern alone, whose every specifier `chrono` knows, so the
/// formatting cannot fail. The text depends on the arguments alone and is named.
#[verifier::external_body]
pub fn format_day(ts: i64, pattern: &str) -> (r: Option<String>)
    requires
        pattern@ == day_pattern(),
    ensures
        match r {
            Some(s) => day_text(ts, pattern@) == Some(s@),
            None => day_text(ts, pattern@) is None,
        },
{
    chrono::DateTime::from_timestamp(ts, 0).map(|day| day.format(pattern).to_string())
}

/// Whether an instant is one the calendar reads in any zone: within what `chrono`
/// represents, from the first day of the year -262143 to the last of +262142, less a day
/// at either end, so that reading it up to a day east or west of UTC stays inside too.
pub open spec fn on_calendar(ts: i64) -> bool {
    -8_334_601_228_800 <= ts <= 8_210_266_790_399
}

/// Whether an offset from UTC is one `chrono` takes: less than a day either way.
pub open spec fn valid_offset(offset: i32) -> bool {
    -86_400 < offset < 86_400
}

/// The calendar year `chrono` gives for instant `ts` read `offset` seconds east of UTC.
pub uninterp spec fn year_at(ts: i64, offset: i32) -> i32;

/// What `chrono` writes for instant `ts`, read `offset` seconds east of UTC, by `pattern`.
pub uninterp spec fn local_text(ts: i64, offset: i32, pattern: Seq<char>) -> Seq<char>;

/// `chrono`'s `Datelike::year` of the instant `ts` in the zone `offset` seconds east of UTC.
///
/// The year depends on the two numbers alone; the contract names it rather than restating
/// the Gregorian calendar.
#[verifier::external_body]
fn local_year(ts: i64, offset: i32) -> (y: i32)
    requires
        on_calendar(ts),
        valid_offset(offset),
    ensures
        y == year_at(ts, offset),
{
    let zone = chrono::FixedOffset::east_opt(offset).expect("an offset under a day");
    let instant = chrono::DateTime::from_timestamp(ts, 0).expect("an instant on the calendar");
    instant.with_timezone(&zone).year()
}

/// `chrono`'s `format` of the instant `ts` in the zone `offset` seconds east of UTC.
///
/// Called with the two month-and-day patterns below, whose every specifier `chrono` knows,
/// so the formatting cannot fail. The text depends on the arguments alone and is named.
#[verifier::external_body]
fn local_format(ts: i64, offset: i32, pattern: &str) -> (s: String)
    requires
        on_calendar(ts),
        valid_offset(offset),
        pattern@ == "%b %-d"@ || pattern@ == "%b %-d, %y"@,
    ensures
        s@ == local_text(ts, offset, pattern@),
{
    let zone = chrono::FixedOffset::east_opt(offset).expect("an offset under a day");
    let instant = chrono::DateTime::from_timestamp(ts, 0).expect("an instant on the calendar");
    instant.with_timezone(&zone).format(pattern).to_string()
}

/// The day an instant falls on for a reader `offset` seconds east of UTC, counted from the
/// first of January 1970: floor division, so the day turns over at the reader's midnight.
pub open spec fn local_day(ts: i64, offset: i32) -> int {
    (ts + offset) / 86_400
}

/// How a date reads beside a task: the day named relative to today when it is within the
/// week either way, and otherwise its month and day, with the year when it is not this one.
/// The days are counted in the reader's own zone.
pub open spec fn relative_text(date: Option<i64>, now: i64, offset: i32) -> Seq<char> {
    match date {
        None => "\u{2014}"@,
        Some(d) => {
            let days = local_day(d, offset) - local_day(now, offset);
            if days == 0 {
                "Today"@
            } else if days == 1 {
                "Tomorrow"@
            } else if days == -1 {
                "Yesterday"@
            } else if 2 <= days <= 6 {
                "in "@ + decimal(days as nat) + " days"@
            } else if -6 <= days <= -2 {
                decimal((-days) as nat) + " days ago"@
            } else if year_at(d, offset) == year_at(now, offset) {
                local_text(d, offset, "%b %-d"@)
            } else {
                local_text(d, offset, "%b %-d, %y"@)
            }
        },
    }
}

/// Near days are named by how far they are from today in the reader's zone: the same
/// day is "Today", one day on "Tomorrow", one day back "Yesterday", two to six days on
/// "in N days" and two to six days back "N days ago", N being the one digit of the count.
pub proof fn law_near_days_are_counted(d: i64, now: i64, offset: i32)
    ensures
        ({
            let days = (d + offset) / 86_400 - (now + offset) / 86_400;
            let digit = seq![((if days < 0 { -days } else { days }) + 48) as u32 as char];
            &&& days == 0 ==> relative_text(Some(d), now, offset) == "Today"@
            &&& days == 1 ==> relative_text(Some(d), now, offset) == "Tomorrow"@
            &&& days == -1 ==> relative_text(Some(d), now, offset) == "Yesterday"@
            &&& 2 <= days <= 6 ==> relative_text(Some(d), now, offset) == "in "@ + digit + " days"@
            &&& -6 <= days <= -2 ==> relative_text(Some(d), now, offset) == digit + " days ago"@
        }),
{
}

/// A date a whole number of days before or after now, from two to six, reads as that many
/// days ago or ahead, and one day back reads as "Yesterday", wherever the reader is.
pub proof fn law_whole_days_back_are_counted(now: i64, offset: i32, k: int)
    requires
        1 <= k <= 6,
        i64::MIN <= now - k * 86_400,
        now + k * 86_400 <= i64::MAX,
    ensures
        k == 1 ==> relative_text(Some((now - k * 86_400) as i64), now, offset) == "Yesterday"@,
        k >= 2 ==> relative_text(Some((now - k * 86_400) as i64), now, offset) == seq![
            (k + 48) as u32 as char,
        ] + " days ago"@,
        k >= 2 ==> relative_text(Some((now + k * 86_400) as i64), now, offset) == "in "@ + seq![
            (k + 48) as u32 as char,
        ] + " days"@,
{
    vstd::arithmetic::div_mod::lemma_hoist_over_denominator(now + offset, -k, 86_400);
    vstd::arithmetic::div_mod::lemma_hoist_over_denominator(now + offset, k, 86_400);
    assert((now + offset) + (-k) * 86_400 == (now - k * 86_400) + offset);
    assert((now + offset) + k * 86_400 == (now + k * 86_400) + offset);
}

/// The reader's day number of an instant on the calendar.
pub(crate) fn day_of(ts: i64, offset: i32) -> (day: i64)
    requires
        on_calendar(ts),
        valid_offset(offset),
    ensures
        day == local_day(ts, offset),
        -100_000_000 <= day <= 100_000_000,
{
    // Shifted by a whole number of days so the division is of a natural number.
    let shifted: u64 = (ts + offset as i64 + 8_640_000_000_000) as u64;
    let q: u64 = shifted / 86_400;
    proof {
        vstd::arithmetic::div_mod::lemma_hoist_over_denominator(
            ts + offset,
            100_000_000,
            86_400,
        );
        assert(shifted == (ts + offset) + 100_000_000 * 86_400);
        assert(q <= 200_000_001) by (nonlinear_arith)
            requires
                shifted <= 16_850_266_876_799u64,
                q == shifted / 86_400,
        ;
    }
    q as i64 - 100_000_000
}

/// Say when a date is, the way a person would.
///
/// The date is read in the reader's zone before asking what day it is: "Today" is a claim
/// about the calendar the reader lives in, and a due date stored as 04:59 UTC is the
/// evening before for a reader five hours behind.
pub fn relative_date(date: Option<i64>, now: i64, offset: i32) -> (s: String)
    requires
        on_calendar(now),
        valid_offset(offset),
        date matches Some(d) ==> on_calendar(d),
    ensures
        s@ == relative_text(date, now, offset),
{
    let d = match date {
        None => {
            return String::from_str("\u{2014}");
        },
        Some(d) => d,
    };
    let days = day_of(d, offset) - day_of(now, offset);
    if days == 0 {
        return String::from_str("Today");
    }
    if days == 1 {
        return String::from_str("Tomorrow");
    }
    if days == -1 {
        return String::from_str("Yesterday");
    }
    if 2 <= days && days <= 6 {
        let mut out = chars_of("in ");
        let n = decimal_of(days as u64);
        push_all(&mut out, n.as_slice());
        let tail = chars_of(" days");
        push_all(&mut out, tail.as_slice());
        return string_of(out.as_slice());
    }
    if -6 <= days && days <= -2 {
        let mut out = decimal_of((-days) as u64);
        let tail = chars_of(" days ago");
        push_all(&mut out, tail.as_slice());
        return string_of(out.as_slice());
    }
    if local_year(d, offset) == local_year(now, offset) {
        local_format(d, offset, "%b %-d")
    } else {
        local_format(d, offset, "%b %-d, %y")
    }
}

/// What a due date already in the past earns saying, if it is one: that it has passed,
/// and when it was.
pub open spec fn past_due_text(due: Option<i64>, now: i64, offset: i32) -> Option<Seq<char>> {
    match due {
        Some(d) => if d < now {
            Some("that date has passed (due "@ + relative_text(Some(d), now, offset) + ")"@)
        } else {
            None
        },
        None => None,
    }
}

/// What a date already in the past earns saying, if it is one.
///
/// A past due date is allowed (overdue is a real state, and backdating something carried
/// for a while is a real thing to want) but it is never confirmed quietly, because `2024`
/// typed where `2026` was meant looks exactly like a deliberate backdate once stored.
pub fn past_due_note(due: Option<i64>, now: i64, offset: i32) -> (note: Option<String>)
    requires
        on_calendar(now),
        valid_offset(offset),
        due matches Some(d) ==> on_calendar(d),
    ensures
        match note {
            Some(n) => past_due_text(due, now, offset) == Some(n@),
            None => past_due_text(due, now, offset) is None,
        },
{
    let d = match due {
        Some(d) => d,
        None => {
            return None;
        },
    };
    if d >= now {
        return None;
    }
    let when = relative_date(Some(d), now, offset);
    let mut out = chars_of("that date has passed (due ");
    let w = chars_of(when.as_str());
    push_all(&mut out, w.as_slice());
    out.push(')');
    proof {
        assert(out@ =~= "that date has passed (due "@ + relative_text(Some(d), now, offset) + ")"@)
            by {
            reveal_strlit(")");
        }
    }
    Some(string_of(out.as_slice()))
}

} // verus!
