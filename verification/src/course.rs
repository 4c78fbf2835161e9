//! Courses: which schedule page belongs to a course in a semester.

use crate::number::{decimal, push_decimal};
use crate::text::{chars_of, string_of};
use vstd::prelude::*;

verus! {

/// A semester of the academic year.
#[derive(Clone, Copy, Debug, PartialEq, Eq)]
pub enum Semester {
    Winter,
    Summer,
    Fall,
}

impl Semester {
    /// The digit that stands for the semester in a page's address: 1 for
    /// winter, 2 for summer, 3 for fall.
    pub open spec fn code_of(self) -> u8 {
        match self {
            Semester::Winter => 1,
            Semester::Summer => 2,
            Semester::Fall => 3,
        }
    }

    /// The digit that stands for the semester in a page's address.
    pub fn code(&self) -> (code: u8)
        ensures
            code == self.code_of(),
    {
        match self {
            Semester::Winter => 1,
            Semester::Summer => 2,
            Semester::Fall => 3,
        }
    }
}

/// A course as offered in one semester to one program.
#[derive(Clone, Debug, PartialEq, Eq)]
pub struct Class {
    pub symbol: String,
    pub year: u32,
    pub semester: Semester,
    pub program_code: u32,
}

/// The address of the schedule page of a course: the symbol, then the year
/// directly followed by the semester's digit, then the program's code, each
/// number in decimal.
pub open spec fn url_of(
    symbol: Seq<char>,
    year: u32,
    semester: Semester,
    program_code: u32,
) -> Seq<char> {
    "https://etudier.uqam.ca/wshoraire/cours/"@ + symbol + "/"@ + decimal(year as nat) + decimal(
        semester.code_of() as nat,
    ) + "/"@ + decimal(program_code as nat)
}

impl Class {
    /// The address of the course's schedule page.
    pub fn get_url(&self) -> (url: String)
        ensures
            url@ == url_of(self.symbol@, self.year, self.semester, self.program_code),
    {
        let mut url = chars_of("https://etudier.uqam.ca/wshoraire/cours/");
        let mut symbol = chars_of(self.symbol.as_str());
        let slash = chars_of("/");
        url.append(&mut symbol);
        url.extend_from_slice(slash.as_slice());
        push_decimal(&mut url, self.year);
        push_decimal(&mut url, self.semester.code() as u32);
        url.extend_from_slice(slash.as_slice());
        push_decimal(&mut url, self.program_code);
        string_of(&url)
    }
}

} // verus!
