//! Decimal rendering of numbers into text, and the wall-clock stamp that
//! prefixes log lines.

use crate::election::heartbeat::{
    duration_millis, duration_secs, duration_subsec_millis, duration_whole_secs,
};
use std::time::{Duration, SystemTime, UNIX_EPOCH};
use vstd::prelude::*;
use vstd::string::StrSliceExecFns;

verus! {

/// The character of a decimal digit.
pub open spec fn digit_char(d: nat) -> char {
    seq!['0', '1', '2', '3', '4', '5', '6', '7', '8', '9'][d as int]
}

/// The decimal representation of `n`, without leading zeros.
pub open spec fn decimal(n: nat) -> Seq<char>
    decreases n,
{
    if n < 10 {
        seq![digit_char(n)]
    } else {
        decimal(n / 10).push(digit_char(n % 10))
    }
}

/// The decimal representation of `n`, left-padded with zeros to `width`.
pub open spec fn zero_padded(n: nat, width: nat) -> Seq<char> {
    if decimal(n).len() >= width {
        decimal(n)
    } else {
        Seq::new((width - decimal(n).len()) as nat, |i: int| '0') + decimal(n)
    }
}

/// `String::push` (std): appends one character to the string.
#[verifier::external_body]
pub(crate) fn string_push(s: &mut String, c: char)
    ensures
        final(s)@ == old(s)@.push(c),
{
    s.push(c);
}

fn digit(d: u64) -> (c: char)
    requires
        d < 10,
    ensures
        c == digit_char(d as nat),
{
    if d == 0 {
        '0'
    } else if d == 1 {
        '1'
    } else if d == 2 {
        '2'
    } else if d == 3 {
        '3'
    } else if d == 4 {
        '4'
    } else if d == 5 {
        '5'
    } else if d == 6 {
        '6'
    } else if d == 7 {
        '7'
    } else if d == 8 {
        '8'
    } else {
        '9'
    }
}

/// Appends the decimal representation of `n`.
pub fn push_decimal(s: &mut String, n: u64)
    ensures
        final(s)@ == old(s)@ + decimal(n as nat),
    decreases n,
{
    if n >= 10 {
        push_decimal(s, n / 10);
    }
    string_push(s, digit(n % 10));
    assert(s@ =~= old(s)@ + decimal(n as nat));
}

/// Appends the decimal representation of `n`, left-padded with zeros to `width`.
pub fn push_padded(s: &mut String, n: u64, width: usize)
    ensures
        final(s)@ == old(s)@ + zero_padded(n as nat, width as nat),
{
    let mut digits = String::new();
    push_decimal(&mut digits, n);
    let len = digits.as_str().unicode_len();
    assert(digits@ =~= decimal(n as nat));
    if len < width {
        let mut i: usize = 0;
        while i < width - len
            invariant
                len < width,
                len == decimal(n as nat).len(),
                i <= width - len,
                s@ == old(s)@ + Seq::new(i as nat, |k: int| '0'),
            decreases width - len - i,
        {
            string_push(s, '0');
            i = i + 1;
            assert(s@ =~= old(s)@ + Seq::new(i as nat, |k: int| '0'));
        }
    }
    append_chars(s, &digits);
    assert(s@ =~= old(s)@ + zero_padded(n as nat, width as nat));
}

/// Appends all characters of `other`.
pub fn append_chars(s: &mut String, other: &String)
    ensures
        final(s)@ == old(s)@ + other@,
{
    string_append(s, other.as_str());
}

/// `String::push_str` (std): appends the characters of `other`.
#[verifier::external_body]
pub(crate) fn string_append(s: &mut String, other: &str)
    ensures
        final(s)@ == old(s)@ + other@,
{
    s.push_str(other);
}

/// The text `HH:MM:SS.mmm` of a time of day, from seconds since the epoch
/// and the milliseconds within the second.
pub open spec fn clock_text(secs: nat, millis: nat) -> Seq<char> {
    zero_padded((secs / 3600) % 24, 2) + seq![':'] + zero_padded((secs / 60) % 60, 2) + seq![':']
        + zero_padded(secs % 60, 2) + seq!['.'] + zero_padded(millis, 3)
}

/// Renders a time of day as `HH:MM:SS.mmm`.
pub fn format_clock(secs: u64, millis: u32) -> (text: String)
    ensures
        text@ == clock_text(secs as nat, millis as nat),
{
    let mut text = String::new();
    push_padded(&mut text, (secs / 3600) % 24, 2);
    string_push(&mut text, ':');
    push_padded(&mut text, (secs / 60) % 60, 2);
    string_push(&mut text, ':');
    push_padded(&mut text, secs % 60, 2);
    string_push(&mut text, '.');
    push_padded(&mut text, millis as u64, 3);
    assert(text@ =~= clock_text(secs as nat, millis as nat));
    text
}

#[verifier::external_type_specification]
#[verifier::external_body]
pub struct ExSystemTime(SystemTime);

/// `SystemTime::now` (std): the system clock now. It depends on the clock;
/// nothing is claimed of it.
#[verifier::external_body]
fn system_now() -> SystemTime {
    SystemTime::now()
}

/// What `SystemTime::duration_since(UNIX_EPOCH)` (std) returns for the
/// reading `t`: the time from the Unix epoch to `t`, or `None` (std's error)
/// where `t` is before the epoch. It depends on `t` alone.
pub uninterp spec fn epoch_offset(t: SystemTime) -> Option<Duration>;

/// `SystemTime::duration_since(UNIX_EPOCH)` (std); the result is named
/// `epoch_offset`, its error read as `None`.
#[verifier::external_body]
fn since_unix_epoch(t: &SystemTime) -> (r: Option<Duration>)
    ensures
        r == epoch_offset(*t),
{
    match t.duration_since(UNIX_EPOCH) {
        Ok(d) => Some(d),
        Err(_) => None,
    }
}

/// The UTC time of day of the reading `t` as `HH:MM:SS.mmm`; a reading
/// before the epoch gives midnight.
pub open spec fn clock_text_at(t: SystemTime) -> Seq<char> {
    match epoch_offset(t) {
        Some(d) => clock_text(duration_secs(d) as nat, duration_millis(d) as nat),
        None => clock_text(0, 0),
    }
}

/// The UTC time of day of the system clock reading `t`, as `HH:MM:SS.mmm`.
pub fn timestamp_at(t: &SystemTime) -> (text: String)
    ensures
        text@ == clock_text_at(*t),
{
    match since_unix_epoch(t) {
        Some(d) => {
            let secs = duration_whole_secs(&d);
            let millis = duration_subsec_millis(&d);
            format_clock(secs, millis)
        },
        None => format_clock(0, 0),
    }
}

/// The current UTC time of day as `HH:MM:SS.mmm`: `timestamp_at` a reading
/// of the system clock taken now. A clock set before the epoch reads as
/// midnight.
pub fn get_timestamp() -> (text: String)
    ensures
        exists|t: SystemTime| text@ == #[trigger] clock_text_at(t),
{
    let now = system_now();
    timestamp_at(&now)
}

} // verus!
