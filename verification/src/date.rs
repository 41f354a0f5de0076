//! Calendar dates as plain year / month / day values, with the lexicographic
//! calendar order and the "Month Day, Year" rendering used by the artifacts.
//! Parsing that form is delegated to the chrono crate behind one trusted
//! wrapper; everything downstream works on this type alone.

use vstd::prelude::*;
use chrono::Datelike;

verus! {

/// A calendar date. `month` runs 1..=12 and `day` 1..=31, as the parser
/// hands them out.
#[derive(Clone, Copy, PartialEq, Eq, Structural, Debug)]
pub struct Date {
    pub year: i32,
    pub month: u8,
    pub day: u8,
}

impl Date {
    pub open spec fn wf(self) -> bool {
        1 <= self.month <= 12 && 1 <= self.day <= 31
    }
}

/// Strict calendar order: year, then month, then day.
pub open spec fn date_lt(a: Date, b: Date) -> bool {
    a.year < b.year || (a.year == b.year && (a.month < b.month || (a.month == b.month
        && a.day < b.day)))
}

pub open spec fn date_le(a: Date, b: Date) -> bool {
    date_lt(a, b) || a == b
}

/// `a` is strictly earlier than `b` in the calendar.
pub fn date_lt_exec(a: &Date, b: &Date) -> (r: bool)
    ensures
        r == date_lt(*a, *b),
{
    a.year < b.year || (a.year == b.year && (a.month < b.month || (a.month == b.month
        && a.day < b.day)))
}

/// What `chrono::NaiveDate::parse_from_str` accepts for the format
/// `"%B %d, %Y"` and the date it denotes, as (year, month, day).
pub uninterp spec fn parsed_date_of(s: Seq<char>) -> Option<(int, int, int)>;

/// Relies on `chrono::NaiveDate::parse_from_str` with format `"%B %d, %Y"`:
/// the result depends on the input characters alone, and on success the
/// `Datelike` accessors return the month in 1..=12 and the day in 1..=31.
#[verifier::external_body]
fn parse_month_day_year(s: &str) -> (r: Option<(i32, u32, u32)>)
    ensures
        r is Some <==> parsed_date_of(s@) is Some,
        r matches Some(t) ==> {
            &&& parsed_date_of(s@) == Some((t.0 as int, t.1 as int, t.2 as int))
            &&& 1 <= t.1 <= 12
            &&& 1 <= t.2 <= 31
        },
{
    match chrono::NaiveDate::parse_from_str(s, "%B %d, %Y") {
        Ok(d) => Some((d.year(), d.month(), d.day())),
        Err(_) => None,
    }
}

/// Parses a "Month Day, Year" string into a [`Date`].
pub fn parse_date(s: &str) -> (r: Option<Date>)
    ensures
        r is Some <==> parsed_date_of(s@) is Some,
        r matches Some(d) ==> {
            &&& d.wf()
            &&& parsed_date_of(s@) == Some((d.year as int, d.month as int, d.day as int))
        },
{
    match parse_month_day_year(s) {
        Some(t) => Some(Date { year: t.0, month: t.1 as u8, day: t.2 as u8 }),
        None => None,
    }
}

/// The decimal digit character for `x` in 0..=9.
pub open spec fn digit_char(x: int) -> char {
    if x == 0 { '0' }
    else if x == 1 { '1' }
    else if x == 2 { '2' }
    else if x == 3 { '3' }
    else if x == 4 { '4' }
    else if x == 5 { '5' }
    else if x == 6 { '6' }
    else if x == 7 { '7' }
    else if x == 8 { '8' }
    else { '9' }
}

fn digit_char_exec(x: u32) -> (c: char)
    requires
        x <= 9,
    ensures
        c == digit_char(x as int),
{
    if x == 0 { '0' }
    else if x == 1 { '1' }
    else if x == 2 { '2' }
    else if x == 3 { '3' }
    else if x == 4 { '4' }
    else if x == 5 { '5' }
    else if x == 6 { '6' }
    else if x == 7 { '7' }
    else if x == 8 { '8' }
    else { '9' }
}

/// Lower-case hexadecimal digit for `x` in 0..=15.
pub fn hex_char_exec(x: u32) -> (c: char)
    requires
        x <= 15,
    ensures
        c == crate::json::hex_char(x as int),
{
    if x < 10 {
        digit_char_exec(x)
    } else if x == 10 { 'a' }
    else if x == 11 { 'b' }
    else if x == 12 { 'c' }
    else if x == 13 { 'd' }
    else if x == 14 { 'e' }
    else { 'f' }
}

/// Decimal digits of `n`, most significant first, no leading zeros.
pub open spec fn dec_digits(n: nat) -> Seq<char>
    decreases n,
{
    if n < 10 {
        seq![digit_char(n as int)]
    } else {
        dec_digits(n / 10) + seq![digit_char((n % 10) as int)]
    }
}

/// Appends the decimal digits of `n` to `out`.
fn push_dec(out: &mut Vec<char>, n: u32)
    ensures
        final(out)@ == old(out)@ + dec_digits(n as nat),
    decreases n,
{
    if n < 10 {
        out.push(digit_char_exec(n));
        assert(out@ =~= old(out)@ + dec_digits(n as nat));
    } else {
        push_dec(out, n / 10);
        out.push(digit_char_exec(n % 10));
        assert(out@ =~= old(out)@ + dec_digits(n as nat));
    }
}

/// The month name used by the "Month Day, Year" form.
pub open spec fn month_name(m: int) -> Seq<char> {
    if m == 1 { "January"@ }
    else if m == 2 { "February"@ }
    else if m == 3 { "March"@ }
    else if m == 4 { "April"@ }
    else if m == 5 { "May"@ }
    else if m == 6 { "June"@ }
    else if m == 7 { "July"@ }
    else if m == 8 { "August"@ }
    else if m == 9 { "September"@ }
    else if m == 10 { "October"@ }
    else if m == 11 { "November"@ }
    else { "December"@ }
}

fn month_name_exec(m: u8) -> (r: &'static str)
    requires
        1 <= m <= 12,
    ensures
        r@ == month_name(m as int),
{
    if m == 1 { "January" }
    else if m == 2 { "February" }
    else if m == 3 { "March" }
    else if m == 4 { "April" }
    else if m == 5 { "May" }
    else if m == 6 { "June" }
    else if m == 7 { "July" }
    else if m == 8 { "August" }
    else if m == 9 { "September" }
    else if m == 10 { "October" }
    else if m == 11 { "November" }
    else { "December" }
}

/// Zero-pads a digit run on the left to at least four characters.
pub open spec fn pad4(ds: Seq<char>) -> Seq<char> {
    if ds.len() >= 4 {
        ds
    } else {
        Seq::new((4 - ds.len()) as nat, |i: int| '0') + ds
    }
}

/// The year part of the rendering: at least four digits, sign first for
/// years before year zero.
pub open spec fn year_chars(y: int) -> Seq<char> {
    if y < 0 {
        seq!['-'] + pad4(dec_digits((-y) as nat))
    } else {
        pad4(dec_digits(y as nat))
    }
}

/// The full "Month Day, Year" rendering: month name, space, two-digit day,
/// comma, space, year.
pub open spec fn date_chars(d: Date) -> Seq<char> {
    month_name(d.month as int) + seq![' ', digit_char(d.day as int / 10), digit_char(
        d.day as int % 10,
    ), ',', ' '] + year_chars(d.year as int)
}

/// Renders a date in the "Month Day, Year" form, e.g. `January 05, 2024`.
pub fn format_date(d: &Date) -> (r: String)
    requires
        d.wf(),
    ensures
        r@ == date_chars(*d),
{
    let mut out: Vec<char> = Vec::new();
    crate::chars::push_str_chars(&mut out, month_name_exec(d.month));
    out.push(' ');
    out.push(digit_char_exec(d.day as u32 / 10));
    out.push(digit_char_exec(d.day as u32 % 10));
    out.push(',');
    out.push(' ');
    let ghost mid = out@;
    if d.year < 0 {
        out.push('-');
        let a: u32 = (-(d.year as i64)) as u32;
        push_year_digits(&mut out, a);
        proof {
            assert(a as nat == (-(d.year as int)) as nat);
            assert(out@ =~= mid + year_chars(d.year as int));
        }
    } else {
        push_year_digits(&mut out, d.year as u32);
        proof {
            assert(out@ =~= mid + year_chars(d.year as int));
        }
    }
    proof {
        assert(out@ =~= date_chars(*d));
    }
    crate::chars::chars_to_string(&out)
}

/// Appends the zero-padded decimal year digits of `a`.
fn push_year_digits(out: &mut Vec<char>, a: u32)
    ensures
        final(out)@ == old(out)@ + pad4(dec_digits(a as nat)),
{
    if a < 10 {
        out.push('0');
        out.push('0');
        out.push('0');
    } else if a < 100 {
        out.push('0');
        out.push('0');
    } else if a < 1000 {
        out.push('0');
    }
    proof {
        lemma_dec_digits_len(a as nat);
    }
    push_dec(out, a);
    assert(out@ =~= old(out)@ + pad4(dec_digits(a as nat)));
}

/// How many digits a number has: one per decimal order of magnitude.
proof fn lemma_dec_digits_len(n: nat)
    ensures
        n < 10 ==> dec_digits(n).len() == 1,
        10 <= n < 100 ==> dec_digits(n).len() == 2,
        100 <= n < 1000 ==> dec_digits(n).len() == 3,
        n >= 1000 ==> dec_digits(n).len() >= 4,
    decreases n,
{
    if n >= 10 {
        lemma_dec_digits_len(n / 10);
    }
}

} // verus!
