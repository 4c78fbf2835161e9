//! Groups: one section of a course, read from the lines of a group fragment.

use crate::error::ParseError;
use crate::markup::{nested_selection, row_views, select_fragments, select_nested, selection};
use crate::number::{parse_u32, parse_u32_chars};
use crate::period::{parse_period, row_period, Period, PeriodView};
use crate::text::{chars_of, nth_token, string_views, token_at};
use vstd::prelude::*;

verus! {

/// An examination of a group. Nothing is read into it yet.
#[derive(Clone, Debug, PartialEq, Eq)]
pub struct Exam {}

/// One section of a course.
#[derive(Clone, Debug, PartialEq, Eq)]
pub struct Group {
    pub id: u32,
    pub available_places: u32,
    pub teachers: Vec<String>,
    pub periods: Vec<Period>,
    pub exams: Option<Vec<Exam>>,
}

/// A group as mathematical data.
pub struct GroupView {
    pub id: u32,
    pub available_places: u32,
    pub teachers: Seq<Seq<char>>,
    pub periods: Seq<PeriodView>,
    pub exams: Option<Seq<Exam>>,
}

/// The periods of `periods` as mathematical data.
pub open spec fn period_views(periods: Seq<Period>) -> Seq<PeriodView> {
    Seq::new(periods.len(), |i: int| periods[i]@)
}

impl View for Group {
    type V = GroupView;

    open spec fn view(&self) -> GroupView {
        GroupView {
            id: self.id,
            available_places: self.available_places,
            teachers: string_views(self.teachers@),
            periods: period_views(self.periods@),
            exams: match self.exams {
                Some(exams) => Some(exams@),
                None => None,
            },
        }
    }
}

/// The outcome of reading a group as mathematical data.
pub open spec fn outcome_view(outcome: Result<Group, ParseError>) -> Result<GroupView, ParseError> {
    match outcome {
        Ok(g) => Ok(g@),
        Err(e) => Err(e),
    }
}

/// The unsigned integer that the token of `text` at position `k` writes, or
/// `MalformedNumericField` where there is no such token or it writes none.
pub open spec fn numeric_token(text: Seq<char>, k: nat) -> Result<u32, ParseError> {
    match token_at(text, k) {
        None => Err(ParseError::MalformedNumericField),
        Some(token) => match parse_u32(token) {
            Some(n) => Ok(n),
            None => Err(ParseError::MalformedNumericField),
        },
    }
}

/// The number in the first of the elements `found`, at token `k` of its
/// text, or `StructureMismatch` where no element was found.
pub open spec fn numeric_field(found: Seq<Seq<char>>, k: nat) -> Result<u32, ParseError> {
    if found.len() == 0 {
        Err(ParseError::StructureMismatch)
    } else {
        numeric_token(found[0], k)
    }
}

/// A group's number: the second token of the first `h3` of its line.
pub open spec fn group_id_of(line: Seq<char>) -> Result<u32, ParseError> {
    numeric_field(selection(line, "h3"@), 1)
}

/// A group's free places: the first token of the first `span` of its line.
pub open spec fn places_of(line: Seq<char>) -> Result<u32, ParseError> {
    numeric_field(selection(line, "span"@), 0)
}

/// A group's teachers: the list items of its line, one teacher each.
pub open spec fn teachers_of(line: Seq<char>) -> Seq<Seq<char>> {
    selection(line, "td>ul>li"@)
}

/// The periods that the rows `rows` write, each row given by its cells, in
/// order; the error of the first row that fails.
pub open spec fn rows_periods(rows: Seq<Seq<Seq<char>>>) -> Result<Seq<PeriodView>, ParseError>
    decreases rows.len(),
{
    if rows.len() == 0 {
        Ok(Seq::empty())
    } else {
        match rows_periods(rows.drop_last()) {
            Err(e) => Err(e),
            Ok(periods) => match row_period(rows.last()) {
                Err(e) => Err(e),
                Ok(p) => Ok(periods.push(p)),
            },
        }
    }
}

/// The periods of a table given by its rows: the first row is the header,
/// which must be there; each row after it writes a period.
pub open spec fn table_periods(rows: Seq<Seq<Seq<char>>>) -> Result<Seq<PeriodView>, ParseError> {
    if rows.len() == 0 {
        Err(ParseError::StructureMismatch)
    } else {
        rows_periods(rows.skip(1))
    }
}

/// A group's periods: those of the table rows of its line.
pub open spec fn periods_of(line: Seq<char>) -> Result<Seq<PeriodView>, ParseError> {
    table_periods(nested_selection(line, "tr"@, "td"@))
}

/// The group that the lines of a group fragment write. There must be at
/// least five lines: the second holds the number, the third the places, the
/// fourth the teachers, the fifth the periods. Errors come in that order.
pub open spec fn group_of_lines(lines: Seq<Seq<char>>) -> Result<GroupView, ParseError> {
    if lines.len() < 5 {
        Err(ParseError::StructureMismatch)
    } else {
        match group_id_of(lines[1]) {
            Err(e) => Err(e),
            Ok(id) => match places_of(lines[2]) {
                Err(e) => Err(e),
                Ok(places) => match periods_of(lines[4]) {
                    Err(e) => Err(e),
                    Ok(periods) => Ok(
                        GroupView {
                            id: id,
                            available_places: places,
                            teachers: teachers_of(lines[3]),
                            periods: periods,
                            exams: None,
                        },
                    ),
                },
            },
        }
    }
}

/// The lines of a group fragment: its `div.ligne` elements.
pub open spec fn lines_of(html: Seq<char>) -> Seq<Seq<char>> {
    selection(html, "div.ligne"@)
}

/// The group that a group fragment writes.
pub open spec fn group_of(html: Seq<char>) -> Result<GroupView, ParseError> {
    group_of_lines(lines_of(html))
}

/// Reads the number at token `k` of the first of the elements `found`.
/// Fails with `StructureMismatch` where `found` is empty, with
/// `MalformedNumericField` where the token is missing or is no unsigned
/// 32-bit integer.
pub fn number_from_elements(found: &Vec<String>, k: usize) -> (number: Result<u32, ParseError>)
    ensures
        number == numeric_field(string_views(found@), k as nat),
{
    if found.len() == 0 {
        return Err(ParseError::StructureMismatch);
    }
    let chars = chars_of(found[0].as_str());
    match nth_token(&chars, k) {
        None => Err(ParseError::MalformedNumericField),
        Some(token) => match parse_u32_chars(&token) {
            Some(n) => Ok(n),
            None => Err(ParseError::MalformedNumericField),
        },
    }
}

/// Reads a group's number from its line: the second token of the text of the
/// line's first `h3`.
pub fn parse_group_id(doc: &str) -> (id: Result<u32, ParseError>)
    ensures
        id == group_id_of(doc@),
{
    let headers = select_fragments(doc, "h3");
    number_from_elements(&headers, 1)
}

/// Reads a group's number of free places from its line: the first token of
/// the text of the line's first `span`.
pub fn parse_group_places(doc: &str) -> (places: Result<u32, ParseError>)
    ensures
        places == places_of(doc@),
{
    let spans = select_fragments(doc, "span");
    number_from_elements(&spans, 0)
}

/// Reads a group's teachers from its line: the text of each list item, in
/// order, repetitions kept.
pub fn parse_group_teachers(doc: &str) -> (teachers: Vec<String>)
    ensures
        string_views(teachers@) == teachers_of(doc@),
{
    select_fragments(doc, "td>ul>li")
}

/// Reads the periods of a table given by its rows, each row by its cells.
/// The first row is the header and is passed over. Fails with
/// `StructureMismatch` where there is no row at all, else with the error of
/// the first row that does not write a period.
pub fn periods_from_rows(rows: &Vec<Vec<String>>) -> (periods: Result<Vec<Period>, ParseError>)
    ensures
        match periods {
            Ok(ps) => table_periods(row_views(rows@)) == Ok::<Seq<PeriodView>, ParseError>(
                period_views(ps@),
            ),
            Err(e) => table_periods(row_views(rows@)) == Err::<Seq<PeriodView>, ParseError>(e),
        },
{
    if rows.len() == 0 {
        return Err(ParseError::StructureMismatch);
    }
    let ghost body = row_views(rows@).skip(1);
    let mut periods: Vec<Period> = Vec::new();
    let mut i: usize = 1;
    proof {
        assert(period_views(periods@) =~= Seq::<PeriodView>::empty());
    }
    while i < rows.len()
        invariant
            1 <= i <= rows.len(),
            body == row_views(rows@).skip(1),
            rows_periods(body.take(i - 1)) == Ok::<Seq<PeriodView>, ParseError>(
                period_views(periods@),
            ),
        decreases rows.len() - i,
    {
        let ghost upto = body.take(i as int);
        proof {
            assert(upto.drop_last() =~= body.take(i - 1));
        }
        match parse_period(&rows[i]) {
            Err(e) => {
                proof {
                    lemma_rows_periods_error(body, i as int);
                }
                return Err(e);
            },
            Ok(p) => {
                let ghost before = period_views(periods@);
                periods.push(p);
                proof {
                    assert(period_views(periods@) =~= before.push(p@));
                }
            },
        }
        i += 1;
    }
    proof {
        assert(body.take(rows.len() - 1) =~= body);
    }
    Ok(periods)
}

/// Once the rows up to some row fail, all the rows fail with the same error.
pub proof fn lemma_rows_periods_error(rows: Seq<Seq<Seq<char>>>, k: int)
    requires
        0 <= k <= rows.len(),
        rows_periods(rows.take(k)) is Err,
    ensures
        rows_periods(rows) == rows_periods(rows.take(k)),
    decreases rows.len() - k,
{
    if k < rows.len() {
        assert(rows.drop_last().take(k) =~= rows.take(k));
        lemma_rows_periods_error(rows.drop_last(), k);
    } else {
        assert(rows.take(k) =~= rows);
    }
}

/// Reads a group's periods from its line: one period for each table row
/// after the first, in order.
pub fn parse_group_periods(doc: &str) -> (periods: Result<Vec<Period>, ParseError>)
    ensures
        match periods {
            Ok(ps) => periods_of(doc@) == Ok::<Seq<PeriodView>, ParseError>(period_views(ps@)),
            Err(e) => periods_of(doc@) == Err::<Seq<PeriodView>, ParseError>(e),
        },
{
    let rows = select_nested(doc, "tr", "td");
    periods_from_rows(&rows)
}

/// Builds a group from the lines of its fragment. Fails with
/// `StructureMismatch` where there are fewer than five lines; else with the
/// error of the number, of the places or of the periods, the first that
/// fails. The group has no examinations.
pub fn group_from_lines(lines: &Vec<String>) -> (group: Result<Group, ParseError>)
    ensures
        outcome_view(group) == group_of_lines(string_views(lines@)),
{
    if lines.len() < 5 {
        return Err(ParseError::StructureMismatch);
    }
    proof {
        let views = string_views(lines@);
    }
    let id = match parse_group_id(lines[1].as_str()) {
        Ok(id) => id,
        Err(e) => {
            return Err(e);
        },
    };
    let available_places = match parse_group_places(lines[2].as_str()) {
        Ok(places) => places,
        Err(e) => {
            return Err(e);
        },
    };
    let periods = match parse_group_periods(lines[4].as_str()) {
        Ok(periods) => periods,
        Err(e) => {
            return Err(e);
        },
    };
    let teachers = parse_group_teachers(lines[3].as_str());
    Ok(Group { id, available_places, teachers, periods, exams: None })
}

/// Reads one group from its fragment: the fragment's `div.ligne` elements
/// are its lines, read as by `group_from_lines`. The result depends on the
/// fragment alone.
pub fn parse_group(html: String) -> (group: Result<Group, ParseError>)
    ensures
        outcome_view(group) == group_of(html@),
{
    let lines = select_fragments(html.as_str(), "div.ligne");
    group_from_lines(&lines)
}

/// Reading a group is a function of the fragment: two outcomes for the same
/// fragment are the same record or the same error.
pub proof fn lemma_group_parser_deterministic(
    html: Seq<char>,
    first: Result<Group, ParseError>,
    second: Result<Group, ParseError>,
)
    requires
        outcome_view(first) == group_of(html),
        outcome_view(second) == group_of(html),
    ensures
        outcome_view(first) == outcome_view(second),
{
}

} // verus!
