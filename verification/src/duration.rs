//! Writing a number of seconds as years, days, hours, minutes and seconds.

use vstd::prelude::*;
use crate::text::{
    append_chars,
    append_str,
    decimal,
    decimal_chars,
    join_chars,
    joined,
    string_of,
    texts,
};

verus! {

/// An amount with its unit: the unit's name takes an `s` unless the amount is
/// one.
pub open spec fn amount_text(amount: nat, label: Seq<char>) -> Seq<char> {
    if amount == 1 {
        decimal(amount) + " "@ + label
    } else {
        decimal(amount) + " "@ + label + "s"@
    }
}

/// The list with the amount added, unless the amount is zero.
pub open spec fn with_amount(parts: Seq<Seq<char>>, amount: nat, label: Seq<char>) -> Seq<
    Seq<char>,
> {
    if amount > 0 {
        parts.push(amount_text(amount, label))
    } else {
        parts
    }
}

/// The amounts that make up a duration, largest unit first, without those
/// that are zero. A minute has 60 seconds, an hour 60 minutes, a day 24 hours
/// and a year 365 days.
pub open spec fn duration_parts(seconds: nat) -> Seq<Seq<char>> {
    let years = with_amount(Seq::empty(), seconds / 60 / 60 / 24 / 365, "year"@);
    let days = with_amount(years, seconds / 60 / 60 / 24 % 365, "day"@);
    let hours = with_amount(days, seconds / 60 / 60 % 24, "hour"@);
    let minutes = with_amount(hours, seconds / 60 % 60, "minute"@);
    with_amount(minutes, seconds % 60, "second"@)
}

/// A duration in words: `now` for none, else its amounts separated by commas,
/// the last two by `and`.
pub open spec fn duration_text(seconds: nat) -> Seq<char> {
    let parts = duration_parts(seconds);
    if seconds == 0 {
        "now"@
    } else if parts.len() == 1 {
        parts[0]
    } else {
        joined(parts.drop_last(), ", "@) + " and "@ + parts.last()
    }
}

fn push_amount(times: &mut Vec<Vec<char>>, amount: u64, label: &str)
    ensures
        texts(final(times)@) == with_amount(texts(old(times)@), amount as nat, label@),
{
    if amount > 0 {
        let mut text = decimal_chars(amount);
        append_str(&mut text, " ");
        append_str(&mut text, label);
        if amount != 1 {
            append_str(&mut text, "s");
        }
        let ghost before = times@;
        times.push(text);
        assert(texts(times@) =~= texts(before).push(text@));
    }
}

/// Writes a number of seconds as a duration in words.
pub fn format_duration(seconds: u64) -> (text: String)
    ensures
        text@ == duration_text(seconds as nat),
{
    if seconds == 0 {
        "now".to_owned()
    } else {
        let mut times: Vec<Vec<char>> = Vec::new();
        assert(texts(times@) =~= Seq::empty());
        let minutes = seconds / 60;
        let hours = minutes / 60;
        let days = hours / 24;
        push_amount(&mut times, days / 365, "year");
        push_amount(&mut times, days % 365, "day");
        push_amount(&mut times, hours % 24, "hour");
        push_amount(&mut times, minutes % 60, "minute");
        push_amount(&mut times, seconds % 60, "second");
        assert(texts(times@) == duration_parts(seconds as nat));
        assert(times.len() > 0) by {
            if seconds % 60 == 0 && minutes % 60 == 0 && hours % 24 == 0 && days % 365 == 0 {
                assert(days / 365 > 0);
            }
        }
        match times.pop() {
            Some(last_unit) => {
                assert(texts(times@) =~= duration_parts(seconds as nat).drop_last());
                if times.len() > 0 {
                    let mut whole = join_chars(&times, ", ");
                    append_str(&mut whole, " and ");
                    append_chars(&mut whole, &last_unit);
                    string_of(&whole)
                } else {
                    string_of(&last_unit)
                }
            },
            None => "now".to_owned(),
        }
    }
}

} // verus!
