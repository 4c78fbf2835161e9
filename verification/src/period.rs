//! Periods: one meeting pattern of a group, read from the five cells of a
//! row of the periods table.

use crate::date::{date_range, date_range_chars};
use crate::error::ParseError;
use crate::location::{location_from_chars, location_of, Location, LocationView};
use crate::markup::{select_fragments, selection};
use crate::text::{chars_of, split, split_chars, string_of, string_views, trim, trim_chars};
use vstd::prelude::*;

verus! {

/// One recurring meeting of a group.
#[derive(Clone, Debug, PartialEq, Eq)]
pub struct Period {
    pub day: String,
    pub start_date: String,
    pub end_date: String,
    pub start_time: String,
    pub end_time: String,
    pub location: Option<Location>,
    pub type_: String,
}

/// A period as mathematical data.
pub struct PeriodView {
    pub day: Seq<char>,
    pub start_date: Seq<char>,
    pub end_date: Seq<char>,
    pub start_time: Seq<char>,
    pub end_time: Seq<char>,
    pub location: Option<LocationView>,
    pub type_: Seq<char>,
}

impl View for Period {
    type V = PeriodView;

    open spec fn view(&self) -> PeriodView {
        PeriodView {
            day: self.day@,
            start_date: self.start_date@,
            end_date: self.end_date@,
            start_time: self.start_time@,
            end_time: self.end_time@,
            location: match self.location {
                Some(l) => Some(l@),
                None => None,
            },
            type_: self.type_@,
        }
    }
}

/// The start and end time of a time-range cell: the cell is split at
/// `&nbsp;` into exactly four tokens, each trimmed; the second is the start
/// and the fourth the end.
pub open spec fn time_range(text: Seq<char>) -> Result<(Seq<char>, Seq<char>), ParseError> {
    let tokens = split(text, "&nbsp;"@);
    if tokens.len() != 4 {
        Err(ParseError::MalformedTimeField)
    } else {
        Ok((trim(tokens[1]), trim(tokens[3])))
    }
}

/// The text of a cell: that of its first link where it has one, else its own.
pub open spec fn text_of_cell(cell: Seq<char>, links: Seq<Seq<char>>) -> Seq<char> {
    if links.len() > 0 {
        links[0]
    } else {
        cell
    }
}

/// The period that the texts of a row's cells write. There must be exactly
/// five: day, date range, time range, location, type. The day is trimmed and
/// the type is taken as it is. An error of the time range comes before one of
/// the date range.
pub open spec fn period_of(texts: Seq<Seq<char>>) -> Result<PeriodView, ParseError> {
    if texts.len() != 5 {
        Err(ParseError::StructureMismatch)
    } else {
        match time_range(texts[2]) {
            Err(e) => Err(e),
            Ok(times) => match date_range(texts[1]) {
                Err(e) => Err(e),
                Ok(dates) => Ok(
                    PeriodView {
                        day: trim(texts[0]),
                        start_date: dates.0,
                        end_date: dates.1,
                        start_time: times.0,
                        end_time: times.1,
                        location: location_of(texts[3]),
                        type_: texts[4],
                    },
                ),
            },
        }
    }
}

/// The texts of the cells of a row, each cell queried for its links.
pub open spec fn row_texts(cells: Seq<Seq<char>>) -> Seq<Seq<char>> {
    Seq::new(cells.len(), |i: int| text_of_cell(cells[i], selection(cells[i], "a"@)))
}

/// The period that the cells of a row write.
pub open spec fn row_period(cells: Seq<Seq<char>>) -> Result<PeriodView, ParseError> {
    period_of(row_texts(cells))
}

/// Reads the start and end time of a time-range cell. Fails with
/// `MalformedTimeField` exactly when the cell does not split into four tokens
/// at `&nbsp;`.
pub fn parse_times(text: &str) -> (times: Result<(String, String), ParseError>)
    ensures
        match times {
            Ok((start, end)) => time_range(text@) == Ok::<(Seq<char>, Seq<char>), ParseError>(
                (start@, end@),
            ),
            Err(e) => time_range(text@) == Err::<(Seq<char>, Seq<char>), ParseError>(e),
        },
{
    let chars = chars_of(text);
    let joint = chars_of("&nbsp;");
    let tokens = split_chars(&chars, &joint);
    if tokens.len() != 4 {
        return Err(ParseError::MalformedTimeField);
    }
    let start = trim_chars(&tokens[1]);
    let end = trim_chars(&tokens[3]);
    Ok((string_of(&start), string_of(&end)))
}

/// The text of a cell, given the cell and the texts of the links in it: the
/// first link's text where there is a link, else the cell itself.
pub fn cell_text(cell: &str, links: &Vec<String>) -> (text: String)
    ensures
        text@ == text_of_cell(cell@, string_views(links@)),
{
    if links.len() > 0 {
        links[0].clone()
    } else {
        cell.to_owned()
    }
}

/// Builds a period from the texts of a row's cells. Fails with
/// `StructureMismatch` where there are not five texts, then with
/// `MalformedTimeField` for an ill-formed time range, then with
/// `StructureMismatch` for an ill-formed date range or `UnknownMonthName` for
/// an unknown month.
pub fn period_from_texts(texts: &Vec<String>) -> (period: Result<Period, ParseError>)
    ensures
        match period {
            Ok(p) => period_of(string_views(texts@)) == Ok::<PeriodView, ParseError>(p@),
            Err(e) => period_of(string_views(texts@)) == Err::<PeriodView, ParseError>(e),
        },
{
    if texts.len() != 5 {
        return Err(ParseError::StructureMismatch);
    }
    proof {
        let views = string_views(texts@);
    }
    let (start_time, end_time) = match parse_times(texts[2].as_str()) {
        Ok(times) => times,
        Err(e) => {
            return Err(e);
        },
    };
    let date_chars = chars_of(texts[1].as_str());
    let (start_date, end_date) = match date_range_chars(&date_chars) {
        Ok(dates) => dates,
        Err(e) => {
            return Err(e);
        },
    };
    let day_chars = chars_of(texts[0].as_str());
    let day = trim_chars(&day_chars);
    let location_chars = chars_of(texts[3].as_str());
    Ok(
        Period {
            day: string_of(&day),
            start_date: string_of(&start_date),
            end_date: string_of(&end_date),
            start_time,
            end_time,
            location: location_from_chars(&location_chars),
            type_: texts[4].clone(),
        },
    )
}

/// Reads one period from the cells of a table row. The text of each cell is
/// that of the first link in it, where it has one, else the cell's own; the
/// five texts are then read as by `period_from_texts`.
pub fn parse_period(cells: &Vec<String>) -> (period: Result<Period, ParseError>)
    ensures
        match period {
            Ok(p) => row_period(string_views(cells@)) == Ok::<PeriodView, ParseError>(p@),
            Err(e) => row_period(string_views(cells@)) == Err::<PeriodView, ParseError>(e),
        },
{
    let mut texts: Vec<String> = Vec::new();
    let mut i: usize = 0;
    while i < cells.len()
        invariant
            i <= cells.len(),
            string_views(texts@) == row_texts(string_views(cells@)).take(i as int),
        decreases cells.len() - i,
    {
        let links = select_fragments(cells[i].as_str(), "a");
        let text = cell_text(cells[i].as_str(), &links);
        texts.push(text);
        proof {
            assert(row_texts(string_views(cells@)).take(i + 1) =~= row_texts(
                string_views(cells@),
            ).take(i as int).push(text@));
        }
        i += 1;
    }
    period_from_texts(&texts)
}

/// A row of five cells whose time range does not split into four tokens
/// writes no period: it fails with `MalformedTimeField`, whatever its other
/// cells hold.
pub proof fn lemma_malformed_time_range(texts: Seq<Seq<char>>)
    requires
        texts.len() == 5,
        split(texts[2], "&nbsp;"@).len() != 4,
    ensures
        period_of(texts) == Err::<PeriodView, ParseError>(ParseError::MalformedTimeField),
{
}

} // verus!
