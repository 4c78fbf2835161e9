//! Dates: from a day, the French name of a month and a year to an ISO date,
//! and the two dates of a date-range cell.

use crate::error::ParseError;
use crate::number::{all_digits, decimal, digit_char, push_decimal};
use crate::text::{
    chars_of, is_text, pad_start, pad_start_chars, split, split_chars, string_of, strip_prefix,
    strip_prefix_chars, trim, trim_chars,
};
use vstd::prelude::*;

verus! {

/// The number, from 1 to 12, of the month with the French name `name`;
/// `None` where `name` is not one of the twelve names, written in lower case.
pub open spec fn month_number(name: Seq<char>) -> Option<u8> {
    if name == "janvier"@ {
        Some(1u8)
    } else if name == "février"@ {
        Some(2u8)
    } else if name == "mars"@ {
        Some(3u8)
    } else if name == "avril"@ {
        Some(4u8)
    } else if name == "mai"@ {
        Some(5u8)
    } else if name == "juin"@ {
        Some(6u8)
    } else if name == "juillet"@ {
        Some(7u8)
    } else if name == "août"@ {
        Some(8u8)
    } else if name == "septembre"@ {
        Some(9u8)
    } else if name == "octobre"@ {
        Some(10u8)
    } else if name == "novembre"@ {
        Some(11u8)
    } else if name == "décembre"@ {
        Some(12u8)
    } else {
        None
    }
}

/// The ISO form of a date: the year as given, the month in two digits and the
/// day filled up to two characters with zeros, joined by hyphens.
pub open spec fn iso_date(day: Seq<char>, month: u8, year: Seq<char>) -> Seq<char> {
    year + seq!['-'] + pad_start(decimal(month as nat), 2, '0') + seq!['-'] + pad_start(
        day,
        2,
        '0',
    )
}

/// The ISO date of a day, a month's name and a year, or `UnknownMonthName`.
pub open spec fn normalized_date(day: Seq<char>, month: Seq<char>, year: Seq<char>) -> Result<
    Seq<char>,
    ParseError,
> {
    match month_number(month) {
        Some(m) => Ok(iso_date(day, m, year)),
        None => Err(ParseError::UnknownMonthName),
    }
}

/// The date token of one segment of a date range: the segment trimmed,
/// without a leading `Du ` and then without a leading `au `.
pub open spec fn date_token(segment: Seq<char>) -> Seq<char> {
    strip_prefix(strip_prefix(trim(segment), "Du "@), "au "@)
}

/// The ISO date that a date token writes. The token must hold exactly three
/// parts separated by single spaces: day, month's name, year.
pub open spec fn token_date(token: Seq<char>) -> Result<Seq<char>, ParseError> {
    let parts = split(token, " "@);
    if parts.len() != 3 {
        Err(ParseError::StructureMismatch)
    } else {
        normalized_date(parts[0], parts[1], parts[2])
    }
}

/// The start and end date of a date-range cell. The cell must hold exactly
/// two segments separated by `<br>`; the first segment's error comes first.
pub open spec fn date_range(text: Seq<char>) -> Result<(Seq<char>, Seq<char>), ParseError> {
    let segments = split(text, "<br>"@);
    if segments.len() != 2 {
        Err(ParseError::StructureMismatch)
    } else {
        match token_date(date_token(segments[0])) {
            Err(e) => Err(e),
            Ok(start) => match token_date(date_token(segments[1])) {
                Err(e) => Err(e),
                Ok(end) => Ok((start, end)),
            },
        }
    }
}

/// A month is written in exactly two digits, and a month's name stands for a
/// number from 1 to 12.
pub proof fn lemma_month_in_two_digits(name: Seq<char>)
    requires
        month_number(name) is Some,
    ensures
        1 <= month_number(name)->Some_0 <= 12,
        pad_start(decimal(month_number(name)->Some_0 as nat), 2, '0').len() == 2,
        all_digits(pad_start(decimal(month_number(name)->Some_0 as nat), 2, '0')),
{
    let m = month_number(name)->Some_0 as nat;
    reveal_with_fuel(decimal, 2);
    assert(1 <= m <= 12);
    if m < 10 {
        assert(decimal(m) =~= seq![digit_char(m)]);
    } else {
        assert(decimal(m) =~= seq![digit_char(m / 10), digit_char(m % 10)]);
    }
}

/// The number of the month named `name`.
pub fn month_of(name: &Vec<char>) -> (month: Option<u8>)
    ensures
        month == month_number(name@),
        month matches Some(m) ==> 1 <= m <= 12,
{
    if is_text(name, "janvier") {
        Some(1)
    } else if is_text(name, "février") {
        Some(2)
    } else if is_text(name, "mars") {
        Some(3)
    } else if is_text(name, "avril") {
        Some(4)
    } else if is_text(name, "mai") {
        Some(5)
    } else if is_text(name, "juin") {
        Some(6)
    } else if is_text(name, "juillet") {
        Some(7)
    } else if is_text(name, "août") {
        Some(8)
    } else if is_text(name, "septembre") {
        Some(9)
    } else if is_text(name, "octobre") {
        Some(10)
    } else if is_text(name, "novembre") {
        Some(11)
    } else if is_text(name, "décembre") {
        Some(12)
    } else {
        None
    }
}

/// The ISO date of a day, a month's name and a year, as characters.
pub fn normalize_date(day: &Vec<char>, month: &Vec<char>, year: &Vec<char>) -> (date: Result<
    Vec<char>,
    ParseError,
>)
    ensures
        match date {
            Ok(d) => normalized_date(day@, month@, year@) == Ok::<Seq<char>, ParseError>(d@),
            Err(e) => normalized_date(day@, month@, year@) == Err::<Seq<char>, ParseError>(e),
        },
{
    match month_of(month) {
        None => Err(ParseError::UnknownMonthName),
        Some(m) => {
            let mut digits: Vec<char> = Vec::new();
            push_decimal(&mut digits, m as u32);
            let mut month_part = pad_start_chars(&digits, 2, '0');
            let mut day_part = pad_start_chars(day, 2, '0');
            let mut date: Vec<char> = Vec::new();
            date.extend_from_slice(year.as_slice());
            date.push('-');
            date.append(&mut month_part);
            date.push('-');
            date.append(&mut day_part);
            proof {
                assert(date@ =~= iso_date(day@, m, year@));
            }
            Ok(date)
        },
    }
}

/// Normalises a date given as day, French month name and year to
/// `year-month-day`, with month and day in two digits. Day and year are taken
/// as they are. Fails with `UnknownMonthName` exactly when `month` is none of
/// the twelve names.
pub fn format_date(day: &str, month: &str, year: &str) -> (date: Result<String, ParseError>)
    ensures
        match date {
            Ok(d) => normalized_date(day@, month@, year@) == Ok::<Seq<char>, ParseError>(d@),
            Err(e) => normalized_date(day@, month@, year@) == Err::<Seq<char>, ParseError>(e),
        },
{
    let day_chars = chars_of(day);
    let month_chars = chars_of(month);
    let year_chars = chars_of(year);
    match normalize_date(&day_chars, &month_chars, &year_chars) {
        Ok(d) => Ok(string_of(&d)),
        Err(e) => Err(e),
    }
}

/// The ISO date that the token `token` writes.
pub fn date_of_token(token: &Vec<char>) -> (date: Result<Vec<char>, ParseError>)
    ensures
        match date {
            Ok(d) => token_date(token@) == Ok::<Seq<char>, ParseError>(d@),
            Err(e) => token_date(token@) == Err::<Seq<char>, ParseError>(e),
        },
{
    let space = chars_of(" ");
    let parts = split_chars(token, &space);
    if parts.len() != 3 {
        return Err(ParseError::StructureMismatch);
    }
    normalize_date(&parts[0], &parts[1], &parts[2])
}

/// The date token of `segment`.
pub fn token_of_segment(segment: &Vec<char>) -> (token: Vec<char>)
    ensures
        token@ == date_token(segment@),
{
    let trimmed = trim_chars(segment);
    let from = chars_of("Du ");
    let to = chars_of("au ");
    let without_from = strip_prefix_chars(&trimmed, &from);
    strip_prefix_chars(&without_from, &to)
}

/// The start and end date of the date-range cell `text`, as characters.
pub fn date_range_chars(text: &Vec<char>) -> (dates: Result<(Vec<char>, Vec<char>), ParseError>)
    ensures
        match dates {
            Ok((start, end)) => date_range(text@) == Ok::<(Seq<char>, Seq<char>), ParseError>(
                (start@, end@),
            ),
            Err(e) => date_range(text@) == Err::<(Seq<char>, Seq<char>), ParseError>(e),
        },
{
    let marker = chars_of("<br>");
    let segments = split_chars(text, &marker);
    if segments.len() != 2 {
        return Err(ParseError::StructureMismatch);
    }
    let first = token_of_segment(&segments[0]);
    let start = match date_of_token(&first) {
        Ok(d) => d,
        Err(e) => {
            return Err(e);
        },
    };
    let second = token_of_segment(&segments[1]);
    match date_of_token(&second) {
        Ok(end) => Ok((start, end)),
        Err(e) => Err(e),
    }
}

/// Reads the two dates of a date-range cell: two segments separated by
/// `<br>`, each a day, a French month name and a year after an optional
/// leading `Du ` or `au `. Returns them as ISO dates. Fails with
/// `StructureMismatch` where there are not two segments or a segment has not
/// three parts, with `UnknownMonthName` where a month's name is unknown.
pub fn parse_dates(text: &str) -> (dates: Result<(String, String), ParseError>)
    ensures
        match dates {
            Ok((start, end)) => date_range(text@) == Ok::<(Seq<char>, Seq<char>), ParseError>(
                (start@, end@),
            ),
            Err(e) => date_range(text@) == Err::<(Seq<char>, Seq<char>), ParseError>(e),
        },
{
    let chars = chars_of(text);
    match date_range_chars(&chars) {
        Ok((start, end)) => Ok((string_of(&start), string_of(&end))),
        Err(e) => Err(e),
    }
}

} // verus!
