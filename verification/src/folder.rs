//! The name of the folder that a report is written to.

use vstd::prelude::*;
use vstd::string::*;
use chrono::{Datelike, Local, Timelike};
use crate::text::{append_decimal, append_padded2, chars_of, decimal, padded2};

verus! {

/// A moment of the calendar, to the minute.
#[derive(Debug, Clone, Copy, PartialEq, Eq, Structural)]
pub struct Timestamp {
    /// The year.
    pub year: i32,
    /// The month of the year.
    pub month: u32,
    /// The day of the month.
    pub day: u32,
    /// The hour of the day.
    pub hour: u32,
    /// The minute of the hour.
    pub minute: u32,
}

impl Timestamp {
    /// Whether month, day, hour and minute lie in the ranges of the calendar
    /// and the clock.
    pub open spec fn on_calendar(self) -> bool {
        &&& 1 <= self.month <= 12
        &&& 1 <= self.day <= 31
        &&& self.hour < 24
        &&& self.minute < 60
    }
}

/// Reads the clock with `chrono::Local::now()` and takes year, month, day,
/// hour and minute of the local time from it, which chrono documents to lie
/// in the ranges of the calendar and the clock. Which moment comes is left
/// open.
#[verifier::external_body]
fn local_now() -> (now: Timestamp)
    ensures
        now.on_calendar(),
{
    let now = Local::now();
    Timestamp {
        year: now.year(),
        month: now.month(),
        day: now.day(),
        hour: now.hour(),
        minute: now.minute(),
    }
}

/// Whether `c` is a letter or a number to Unicode, as `char::is_alphanumeric`
/// tells.
pub uninterp spec fn alphanumeric(c: char) -> bool;

/// Asks `char::is_alphanumeric`, which answers by the Unicode properties
/// Alphabetic and Numeric of the character alone.
#[verifier::external_body]
fn is_alphanumeric(c: char) -> (answer: bool)
    ensures
        answer == alphanumeric(c),
{
    c.is_alphanumeric()
}

/// The letters and numbers of `name`, in their order.
pub open spec fn path_friendly(name: Seq<char>) -> Seq<char> {
    name.filter(|c: char| alphanumeric(c))
}

/// The notation of `n` in base ten, with a minus sign where it is negative.
pub open spec fn signed_decimal(n: int) -> Seq<char> {
    if n < 0 {
        seq!['-'] + decimal((-n) as nat)
    } else {
        decimal(n as nat)
    }
}

/// The name of the folder for the report of the competition `comp_name`
/// made at `now`: the letters and numbers of the name, the year, and month,
/// day, hour and minute in two digits each; reports of made-up records are
/// marked at the end.
pub open spec fn folder_name(comp_name: Seq<char>, now: Timestamp, debug: bool) -> Seq<char> {
    path_friendly(comp_name) + seq!['-'] + signed_decimal(now.year as int) + seq!['_'] + padded2(
        now.month as nat,
    ) + seq!['_'] + padded2(now.day as nat) + seq!['_', '_'] + padded2(now.hour as nat) + seq![
        '_',
    ] + padded2(now.minute as nat) + if debug {
        "_DEBUG"@
    } else {
        Seq::empty()
    }
}

/// The letters and numbers of `name`, in their order.
pub fn keep_alphanumeric(name: &str) -> (kept: String)
    ensures
        kept@ == path_friendly(name@),
{
    let chars = chars_of(name);
    let mut kept = String::new();
    let mut i: usize = 0;
    assert(path_friendly(name@.take(0)) =~= Seq::<char>::empty()) by {
        reveal(Seq::filter);
    }
    while i < chars.len()
        invariant
            i <= chars.len(),
            chars@ == name@,
            kept@ == path_friendly(name@.take(i as int)),
        decreases chars.len() - i,
    {
        proof {
            reveal(Seq::filter);
            assert(name@.take(i + 1).drop_last() =~= name@.take(i as int));
            assert(name@.subrange(i as int, i + 1) =~= seq![name@[i as int]]);
        }
        if is_alphanumeric(chars[i]) {
            kept.append(name.substring_char(i, i + 1));
            assert(kept@ =~= path_friendly(name@.take(i + 1)));
        }
        i += 1;
    }
    assert(name@.take(chars.len() as int) =~= name@);
    kept
}

/// The name of the folder for the report of the competition `comp_name`
/// made at `now`.
pub fn folder_name_at(comp_name: &str, now: &Timestamp, debug: bool) -> (name: String)
    ensures
        name@ == folder_name(comp_name@, *now, debug),
{
    let mut name = keep_alphanumeric(comp_name);
    proof {
        reveal_strlit("-");
        reveal_strlit("_");
        reveal_strlit("__");
    }
    name.append("-");
    if now.year < 0 {
        name.append("-");
        append_decimal(&mut name, (-(now.year as i64)) as u64);
    } else {
        append_decimal(&mut name, now.year as u64);
    }
    name.append("_");
    append_padded2(&mut name, now.month as u64);
    name.append("_");
    append_padded2(&mut name, now.day as u64);
    name.append("__");
    append_padded2(&mut name, now.hour as u64);
    name.append("_");
    append_padded2(&mut name, now.minute as u64);
    if debug {
        name.append("_DEBUG");
    }
    assert(name@ =~= folder_name(comp_name@, *now, debug));
    name
}

/// The name of the folder for the report of the competition `comp_name`
/// made now, by the local time.
pub fn create_foldername(comp_name: &str, debug: bool) -> (name: String)
    ensures
        exists|now: Timestamp| now.on_calendar() && name@ == folder_name(comp_name@, now, debug),
{
    let now = local_now();
    folder_name_at(comp_name, &now, debug)
}

} // verus!
