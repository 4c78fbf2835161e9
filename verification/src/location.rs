//! Locations: a campus, with or without a classroom, read from a cell whose
//! parts are separated by `|`.

use crate::text::{
    chars_of, free_of, is_space, is_trimmed, lemma_split_at_delimiter,
    lemma_split_without_delimiter, lemma_trim_of_padded, lemma_trim_of_trimmed, split, split_chars,
    string_of, trim, trim_chars,
};
use vstd::prelude::*;

verus! {

/// Where a period takes place.
#[derive(Clone, Debug, PartialEq, Eq)]
pub struct Location {
    pub classroom: Option<String>,
    pub campus: String,
}

/// A location as mathematical data.
pub struct LocationView {
    pub classroom: Option<Seq<char>>,
    pub campus: Seq<char>,
}

impl View for Location {
    type V = LocationView;

    open spec fn view(&self) -> LocationView {
        LocationView {
            classroom: match self.classroom {
                Some(room) => Some(room@),
                None => None,
            },
            campus: self.campus@,
        }
    }
}

/// The location that a location cell writes. An empty cell writes none. The
/// cell is split at `|` and each segment is trimmed: one segment is the
/// campus; of two, the first is the classroom, unless it is empty, and the
/// second the campus. A cell of more than two segments writes none.
pub open spec fn location_of(text: Seq<char>) -> Option<LocationView> {
    let segments = split(text, "|"@);
    if text.len() == 0 {
        None
    } else if segments.len() == 1 {
        Some(LocationView { classroom: None, campus: trim(segments[0]) })
    } else if segments.len() == 2 {
        Some(
            LocationView {
                classroom: if trim(segments[0]).len() > 0 {
                    Some(trim(segments[0]))
                } else {
                    None
                },
                campus: trim(segments[1]),
            },
        )
    } else {
        None
    }
}

/// The location that the characters of a location cell write.
pub fn location_from_chars(text: &Vec<char>) -> (location: Option<Location>)
    ensures
        match location {
            Some(l) => location_of(text@) == Some(l@),
            None => location_of(text@) is None,
        },
{
    if text.len() == 0 {
        return None;
    }
    let bar = chars_of("|");
    let segments = split_chars(text, &bar);
    if segments.len() == 1 {
        let campus = trim_chars(&segments[0]);
        Some(Location { classroom: None, campus: string_of(&campus) })
    } else if segments.len() == 2 {
        let room = trim_chars(&segments[0]);
        let campus = trim_chars(&segments[1]);
        let classroom = if room.len() > 0 {
            Some(string_of(&room))
        } else {
            None
        };
        Some(Location { classroom, campus: string_of(&campus) })
    } else {
        None
    }
}

/// Reads the location cell `text`: nothing for an empty cell; a campus for a
/// cell without `|`; a classroom, if it is not empty, and a campus for a cell
/// with one `|`; nothing for a cell with more.
pub fn parse_location(text: &str) -> (location: Option<Location>)
    ensures
        match location {
            Some(l) => location_of(text@) == Some(l@),
            None => location_of(text@) is None,
        },
{
    let chars = chars_of(text);
    location_from_chars(&chars)
}

/// A campus reads back: a text without `|` and without white space at its
/// ends, and not empty, is the campus of a location without classroom.
pub proof fn lemma_campus_reads_back(campus: Seq<char>)
    requires
        campus.len() > 0,
        is_trimmed(campus),
        free_of(campus, '|'),
    ensures
        location_of(campus) == Some(LocationView { classroom: None, campus: campus }),
{
    reveal_strlit("|");
    lemma_split_without_delimiter(campus, "|"@);
    lemma_trim_of_trimmed(campus);
}

/// A classroom and a campus read back: two texts without `|` and without
/// white space at their ends, the classroom not empty, joined by ` | `, are
/// the classroom and the campus of the location that the joined text writes.
pub proof fn lemma_classroom_and_campus_read_back(classroom: Seq<char>, campus: Seq<char>)
    requires
        classroom.len() > 0,
        is_trimmed(classroom),
        is_trimmed(campus),
        free_of(classroom, '|'),
        free_of(campus, '|'),
    ensures
        location_of(classroom + " | "@ + campus) == Some(
            LocationView { classroom: Some(classroom), campus: campus },
        ),
{
    reveal_strlit("|");
    reveal_strlit(" | ");
    let space = seq![' '];
    let left = classroom + space;
    let right = space + campus;
    let text = classroom + " | "@ + campus;
    assert(text =~= left + "|"@ + right);
    lemma_split_at_delimiter(left, right, "|"@);
    lemma_split_without_delimiter(right, "|"@);
    assert(split(text, "|"@) =~= seq![left, right]);
    assert(is_space(' '));
    lemma_trim_of_padded(Seq::empty(), classroom, space);
    assert(Seq::<char>::empty() + classroom + space =~= left);
    lemma_trim_of_padded(space, campus, Seq::empty());
    assert(space + campus + Seq::<char>::empty() =~= right);
}

} // verus!
