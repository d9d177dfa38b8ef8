//! Elapsed times with a resolution of one hundredth of a second, and their
//! notation as text: `ss.cc` below one minute, `m:ss.cc` from one minute on.

use vstd::prelude::*;
use vstd::string::*;
use crate::text::{
    all_digits, append_decimal, append_padded2, chars_of, decimal, decimal_value, digit_value,
    is_ascii_digit, is_digit, lemma_decimal, lemma_trimmed_idempotent, lemma_trimmed_identity,
    padded2, trim, trimmed,
};
use crate::wcoerror::WCOError;

verus! {

/// An elapsed time: whole seconds and hundredths of a second. Its view is the
/// time in hundredths of a second; a smaller view is a faster time.
#[derive(Debug, Clone, Copy, PartialEq, Eq, PartialOrd, Ord, Hash, Structural)]
pub struct Duration {
    secs: u64,
    hundredths: u8,
}

impl View for Duration {
    type V = nat;

    closed spec fn view(&self) -> nat {
        (self.secs * 100 + self.hundredths) as nat
    }
}

impl Duration {
    #[verifier::type_invariant]
    spec fn well_formed(&self) -> bool {
        self.hundredths < 100
    }

    /// The time of `total` hundredths of a second.
    pub fn from_centis(total: u64) -> (time: Duration)
        ensures
            time@ == total,
    {
        Duration { secs: total / 100, hundredths: (total % 100) as u8 }
    }

    /// The time of `secs` seconds and `hundredths` hundredths, where the
    /// latter do not make up a second.
    pub fn new(secs: u64, hundredths: u8) -> (time: Option<Duration>)
        ensures
            hundredths < 100 ==> time is Some && time->0@ == secs * 100 + hundredths,
            hundredths >= 100 ==> time is None,
    {
        if hundredths < 100 {
            Some(Duration { secs, hundredths })
        } else {
            None
        }
    }

    /// The whole seconds of the time.
    pub fn as_secs(&self) -> (secs: u64)
        ensures
            secs == self@ / 100,
    {
        proof {
            use_type_invariant(self);
        }
        self.secs
    }

    /// What the time holds beyond its whole seconds, in hundredths.
    pub fn subsec_centis(&self) -> (hundredths: u8)
        ensures
            hundredths == self@ % 100,
            hundredths < 100,
    {
        proof {
            use_type_invariant(self);
        }
        self.hundredths
    }

    /// Whether this time is at least as fast as `other`.
    pub fn le(&self, other: &Duration) -> (faster: bool)
        ensures
            faster == (self@ <= other@),
    {
        proof {
            use_type_invariant(self);
            use_type_invariant(other);
        }
        self.secs < other.secs || (self.secs == other.secs && self.hundredths <= other.hundredths)
    }

    /// Whether this time and `other` are the same.
    pub fn same(&self, other: &Duration) -> (same: bool)
        ensures
            same == (self@ == other@),
            same == (*self == *other),
    {
        proof {
            use_type_invariant(self);
            use_type_invariant(other);
        }
        self.secs == other.secs && self.hundredths == other.hundredths
    }
}

/// The place of the first `c` in `s`, or the length of `s` where it holds
/// none.
pub open spec fn first_index(s: Seq<char>, c: char) -> int
    decreases s.len(),
{
    if s.len() == 0 {
        0
    } else if s.first() == c {
        0
    } else {
        1 + first_index(s.drop_first(), c)
    }
}

/// The number that `s` denotes: ASCII digits, at least one, after at most one
/// `+`.
pub open spec fn number_value(s: Seq<char>) -> Option<nat> {
    let digits = if s.len() > 0 && s.first() == '+' {
        s.drop_first()
    } else {
        s
    };
    if digits.len() > 0 && all_digits(digits) {
        Some(decimal_value(digits))
    } else {
        None
    }
}

/// The time below one minute that `s` denotes, in hundredths of a second:
/// a number below 60, a point and exactly two digits.
pub open spec fn sub_minute_value(s: Seq<char>) -> Option<nat> {
    let point = first_index(s, '.');
    if point >= s.len() {
        None
    } else {
        let fraction = s.skip(point + 1);
        match number_value(s.take(point)) {
            Some(secs) => if secs < 60 && fraction.len() == 2 && all_digits(fraction) {
                Some(secs * 100 + decimal_value(fraction))
            } else {
                None
            },
            None => None,
        }
    }
}

/// The time that `text` denotes, in hundredths of a second. Whitespace
/// around the notation counts for nothing. Without a colon the notation is
/// that of a time below one minute; with one, a number of minutes below 60
/// stands before the colon and a time below one minute after it.
pub open spec fn time_value(text: Seq<char>) -> Option<nat> {
    let s = trimmed(text);
    let colon = first_index(s, ':');
    if colon >= s.len() {
        sub_minute_value(s)
    } else {
        match (number_value(s.take(colon)), sub_minute_value(s.skip(colon + 1))) {
            (Some(minutes), Some(rest)) => if minutes < 60 {
                Some(minutes * 6000 + rest)
            } else {
                None
            },
            _ => None,
        }
    }
}

/// The notation of the time of `centis` hundredths of a second: seconds and
/// hundredths below one minute, minutes, seconds and hundredths from there
/// on, with seconds after minutes and hundredths written in two digits.
pub open spec fn time_text(centis: nat) -> Seq<char> {
    let minutes = (centis / 100) / 60;
    let secs = (centis / 100) % 60;
    let hundredths = centis % 100;
    if minutes == 0 {
        decimal(secs) + seq!['.'] + padded2(hundredths)
    } else {
        decimal(minutes) + seq![':'] + padded2(secs) + seq!['.'] + padded2(hundredths)
    }
}

/// `first_index` is the one place before which `c` does not occur and at
/// which it does, or the length.
pub proof fn lemma_first_index(s: Seq<char>, c: char, at: int)
    requires
        0 <= at <= s.len(),
        forall|k: int| 0 <= k < at ==> s[k] != c,
        at < s.len() ==> s[at] == c,
    ensures
        first_index(s, c) == at,
    decreases s.len(),
{
    if s.len() > 0 && at > 0 {
        let rest = s.drop_first();
        assert forall|k: int| 0 <= k < at - 1 implies rest[k] != c by {
            assert(rest[k] == s[k + 1]);
        }
        lemma_first_index(rest, c, at - 1);
    }
}

/// Two digits after a filling zero denote the number they were written
/// for.
pub proof fn lemma_padded2(n: nat)
    requires
        n < 100,
    ensures
        padded2(n).len() == 2,
        all_digits(padded2(n)),
        decimal_value(padded2(n)) == n,
        number_value(padded2(n)) == Some(n),
{
    lemma_decimal(n);
    let s = padded2(n);
    if n < 10 {
        assert(s.drop_last() =~= seq!['0']);
        assert(seq!['0'].drop_last() =~= Seq::<char>::empty());
        assert(decimal_value(seq!['0'].drop_last()) == 0);
        assert(decimal_value(seq!['0']) == 0);
    }
    assert(s.first() != '+');
}

/// The notation of a number denotes that number.
pub proof fn lemma_number_value_decimal(n: nat)
    ensures
        number_value(decimal(n)) == Some(n),
{
    lemma_decimal(n);
    assert(is_digit(decimal(n)[0]));
}

/// The notation of a time below one minute denotes that time.
proof fn lemma_sub_minute_roundtrip(whole: Seq<char>, secs: nat, hundredths: nat)
    requires
        secs < 60,
        hundredths < 100,
        whole.len() > 0,
        all_digits(whole),
        number_value(whole) == Some(secs),
    ensures
        sub_minute_value(whole + seq!['.'] + padded2(hundredths)) == Some(
            secs * 100 + hundredths,
        ),
{
    lemma_padded2(hundredths);
    let s = whole + seq!['.'] + padded2(hundredths);
    let point = whole.len() as int;
    assert forall|k: int| 0 <= k < point implies s[k] != '.' by {
        assert(s[k] == whole[k]);
        assert(is_digit(whole[k]));
    }
    assert(s[point] == '.');
    lemma_first_index(s, '.', point);
    assert(s.take(point) =~= whole);
    assert(s.skip(point + 1) =~= padded2(hundredths));
}

/// What is written for a time below one hour is read as that time: reading
/// is a left inverse of writing.
pub proof fn lemma_parse_format_roundtrip(minutes: nat, secs: nat, hundredths: nat)
    requires
        minutes < 60,
        secs < 60,
        hundredths < 100,
    ensures
        time_value(time_text(minutes * 6000 + secs * 100 + hundredths)) == Some(
            minutes * 6000 + secs * 100 + hundredths,
        ),
{
    let centis = minutes * 6000 + secs * 100 + hundredths;
    assert(centis % 100 == hundredths);
    assert(centis / 100 == minutes * 60 + secs);
    assert((centis / 100) / 60 == minutes);
    assert((centis / 100) % 60 == secs);
    let text = time_text(centis);
    lemma_padded2(hundredths);
    lemma_padded2(secs);
    lemma_decimal(secs);
    lemma_decimal(minutes);
    lemma_number_value_decimal(secs);
    lemma_number_value_decimal(minutes);
    let tail = padded2(hundredths);
    assert(is_digit(tail[1]));
    if minutes == 0 {
        let whole = decimal(secs);
        assert(text == whole + seq!['.'] + tail);
        assert(text.first() == whole[0]);
        assert(text.last() == tail[1]);
        assert(is_digit(whole[0]));
        lemma_trimmed_identity(text);
        assert forall|k: int| 0 <= k < text.len() implies text[k] != ':' by {
            if k < whole.len() {
                assert(text[k] == whole[k]);
                assert(is_digit(whole[k]));
            } else if k > whole.len() {
                assert(text[k] == tail[k - whole.len() - 1]);
                assert(is_digit(tail[k - whole.len() - 1]));
            }
        }
        lemma_first_index(text, ':', text.len() as int);
        lemma_sub_minute_roundtrip(whole, secs, hundredths);
    } else {
        let head = decimal(minutes);
        let whole = padded2(secs);
        let rest = whole + seq!['.'] + tail;
        assert(text =~= head + seq![':'] + rest);
        assert(text.first() == head[0]);
        assert(text.last() == tail[1]);
        assert(is_digit(head[0]));
        lemma_trimmed_identity(text);
        let colon = head.len() as int;
        assert forall|k: int| 0 <= k < colon implies text[k] != ':' by {
            assert(text[k] == head[k]);
            assert(is_digit(head[k]));
        }
        assert(text[colon] == ':');
        lemma_first_index(text, ':', colon);
        assert(text.take(colon) =~= head);
        assert(text.skip(colon + 1) =~= rest);
        lemma_sub_minute_roundtrip(whole, secs, hundredths);
    }
}

/// Whitespace around a text counts for nothing: the text is read as it is
/// read without it.
pub proof fn lemma_time_value_ignores_whitespace(text: Seq<char>)
    ensures
        time_value(trimmed(text)) == time_value(text),
{
    lemma_trimmed_idempotent(text);
}

/// A text that is read as a time denotes less than one hour.
pub proof fn lemma_time_value_bound(text: Seq<char>)
    ensures
        time_value(text) matches Some(centis) ==> centis < 360000,
{
    let s = trimmed(text);
    let colon = first_index(s, ':');
    lemma_sub_minute_bound(s);
    if colon < s.len() {
        lemma_sub_minute_bound(s.skip(colon + 1));
    }
}

/// A text that is read as a time below one minute denotes less than that.
pub proof fn lemma_sub_minute_bound(s: Seq<char>)
    ensures
        sub_minute_value(s) matches Some(centis) ==> centis < 6000,
{
    if sub_minute_value(s) is Some {
        let point = first_index(s, '.');
        lemma_two_digits(s.skip(point + 1));
    }
}

/// Two digits denote ten times the first plus the second.
pub proof fn lemma_two_digits(s: Seq<char>)
    requires
        s.len() == 2,
        all_digits(s),
    ensures
        decimal_value(s) == 10 * digit_value(s[0]) + digit_value(s[1]),
        decimal_value(s) < 100,
{
    let head = s.drop_last();
    assert(head.len() == 1);
    assert(head.last() == s[0]);
    assert(head.drop_last().len() == 0);
    assert(decimal_value(head.drop_last()) == 0);
    assert(decimal_value(head) == digit_value(s[0]));
    assert(is_digit(s[0]));
    assert(is_digit(s[1]));
}

/// The place of the first `c` in `chars` between `from` and `to`, or `to`.
fn find_char(chars: &Vec<char>, from: usize, to: usize, c: char) -> (at: usize)
    requires
        from <= to <= chars.len(),
    ensures
        from <= at <= to,
        at - from == first_index(chars@.subrange(from as int, to as int), c),
{
    let mut at: usize = from;
    while at < to && chars[at] != c
        invariant
            from <= at <= to <= chars.len(),
            forall|k: int| from <= k < at ==> chars[k] != c,
        decreases to - at,
    {
        at += 1;
    }
    proof {
        let s = chars@.subrange(from as int, to as int);
        assert forall|k: int| 0 <= k < at - from implies s[k] != c by {
            assert(s[k] == chars[from + k]);
        }
        lemma_first_index(s, c, at - from);
    }
    at
}

/// The number below `limit` that `chars` denotes between `from` and `to`.
fn parse_number_below(chars: &Vec<char>, from: usize, to: usize, limit: u64) -> (value: Option<
    u64,
>)
    requires
        from <= to <= chars.len(),
        0 < limit <= 1000,
    ensures
        value == match number_value(chars@.subrange(from as int, to as int)) {
            Some(v) => if v < limit {
                Some(v as u64)
            } else {
                None
            },
            None => None,
        },
{
    let ghost s = chars@.subrange(from as int, to as int);
    let start: usize = if from < to && chars[from] == '+' {
        from + 1
    } else {
        from
    };
    let ghost digits = chars@.subrange(start as int, to as int);
    assert(digits =~= if s.len() > 0 && s.first() == '+' {
        s.drop_first()
    } else {
        s
    });
    if start == to {
        return None;
    }
    let mut acc: u64 = 0;
    let mut over: bool = false;
    let mut at: usize = start;
    assert(chars@.subrange(start as int, at as int) =~= Seq::<char>::empty());
    while at < to
        invariant
            start <= at <= to <= chars.len(),
            0 < limit <= 1000,
            number_value(chars@.subrange(from as int, to as int)) == if digits.len() > 0
                && all_digits(digits) {
                Some(decimal_value(digits))
            } else {
                None
            },
            all_digits(chars@.subrange(start as int, at as int)),
            !over ==> acc == decimal_value(chars@.subrange(start as int, at as int)) && acc
                < limit,
            over ==> decimal_value(chars@.subrange(start as int, at as int)) >= limit,
            digits == chars@.subrange(start as int, to as int),
        decreases to - at,
    {
        let c = chars[at];
        let ghost before = chars@.subrange(start as int, at as int);
        let ghost after = chars@.subrange(start as int, at + 1);
        assert(after.drop_last() =~= before);
        assert(after.last() == c);
        if !is_ascii_digit(c) {
            assert(digits[at - start] == c);
            return None;
        }
        assert forall|k: int| 0 <= k < after.len() implies is_digit(#[trigger] after[k]) by {
            if k < before.len() {
                assert(after[k] == before[k]);
            }
        }
        if !over {
            let d: u64 = (c as u32 - 0x30) as u64;
            acc = acc * 10 + d;
            if acc >= limit {
                over = true;
            }
        }
        at += 1;
    }
    assert(chars@.subrange(start as int, at as int) =~= digits);
    if over {
        None
    } else {
        Some(acc)
    }
}

/// The time below one minute that `chars` denotes between `from` and `to`,
/// in hundredths of a second.
fn parse_sub_minute(chars: &Vec<char>, from: usize, to: usize) -> (value: Option<u64>)
    requires
        from <= to <= chars.len(),
    ensures
        value is Some <==> sub_minute_value(chars@.subrange(from as int, to as int)) is Some,
        value matches Some(centis) ==> sub_minute_value(chars@.subrange(from as int, to as int))
            == Some(centis as nat) && centis < 6000,
{
    let ghost s = chars@.subrange(from as int, to as int);
    let point = find_char(chars, from, to, '.');
    if point == to {
        return None;
    }
    assert(s.take(point - from) =~= chars@.subrange(from as int, point as int));
    let ghost fraction = chars@.subrange(point + 1, to as int);
    assert(s.skip(point - from + 1) =~= fraction);
    let whole = parse_number_below(chars, from, point, 60);
    match whole {
        None => None,
        Some(secs) => {
            if to - point != 3 {
                return None;
            }
            let tens = chars[point + 1];
            let units = chars[point + 2];
            assert(fraction[0] == tens);
            assert(fraction[1] == units);
            if !is_ascii_digit(tens) || !is_ascii_digit(units) {
                return None;
            }
            proof {
                lemma_two_digits(fraction);
            }
            let hundredths: u64 = (tens as u32 - 0x30) as u64 * 10 + (units as u32 - 0x30) as u64;
            Some(secs * 100 + hundredths)
        },
    }
}

/// Reads a time below one minute, written as seconds, a point and two
/// digits of hundredths. Any other text is refused with `MalformedTime`,
/// which then carries the text.
pub fn parse_sub_minute_time(text: &str) -> (time: Result<Duration, WCOError>)
    ensures
        match time {
            Ok(t) => sub_minute_value(text@) == Some(t@),
            Err(WCOError::MalformedTime(refused)) => sub_minute_value(text@) is None && refused@
                == text@,
            Err(_) => false,
        },
{
    let chars = chars_of(text);
    assert(chars@.subrange(0, chars.len() as int) =~= text@);
    match parse_sub_minute(&chars, 0, chars.len()) {
        Some(centis) => Ok(Duration::from_centis(centis)),
        None => Err(WCOError::MalformedTime(String::from_str(text))),
    }
}

/// Reads a time written as `ss.cc` or `m:ss.cc`, with or without whitespace
/// around it. Any other text is refused with `MalformedTime`, which then
/// carries the text: one with more than one colon, with a fraction of other
/// than two digits, with 60 seconds or more after the minutes or alone, with
/// 60 minutes or more, or with a part that is no number.
pub fn parse_time(text: &str) -> (time: Result<Duration, WCOError>)
    ensures
        match time {
            Ok(t) => time_value(text@) == Some(t@),
            Err(WCOError::MalformedTime(refused)) => time_value(text@) is None && refused@
                == text@,
            Err(_) => false,
        },
{
    let chars = chars_of(trim(text));
    let n = chars.len();
    let ghost s = trimmed(text@);
    assert(chars@.subrange(0, n as int) =~= s);
    let colon = find_char(&chars, 0, n, ':');
    let centis = if colon == n {
        parse_sub_minute(&chars, 0, n)
    } else {
        assert(s.take(colon as int) =~= chars@.subrange(0, colon as int));
        assert(s.skip(colon + 1) =~= chars@.subrange(colon + 1, n as int));
        let rest = parse_sub_minute(&chars, colon + 1, n);
        match (parse_number_below(&chars, 0, colon, 60), rest) {
            (Some(minutes), Some(rest)) => Some(minutes * 6000 + rest),
            _ => None,
        }
    };
    match centis {
        Some(centis) => Ok(Duration::from_centis(centis)),
        None => Err(WCOError::MalformedTime(String::from_str(text))),
    }
}

/// Writes a time: `ss.cc` below one minute, `m:ss.cc` from one minute on,
/// where seconds after minutes and hundredths take two digits.
pub fn format_time(time: &Duration) -> (text: String)
    ensures
        text@ == time_text(time@),
{
    let hundredths = time.subsec_centis() as u64;
    let secs = time.as_secs() % 60;
    let minutes = time.as_secs() / 60;
    let mut text = String::new();
    proof {
        reveal_strlit(":");
        reveal_strlit(".");
    }
    if minutes == 0 {
        append_decimal(&mut text, secs);
    } else {
        append_decimal(&mut text, minutes);
        text.append(":");
        append_padded2(&mut text, secs);
    }
    text.append(".");
    append_padded2(&mut text, hundredths);
    assert(text@ =~= time_text(time@));
    text
}

} // verus!
