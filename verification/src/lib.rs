//! Extraction of course-schedule records (groups, their periods, teachers and
//! locations) from the markup of a university schedule page.

pub mod course;
pub mod date;
pub mod error;
pub mod group;
pub mod location;
pub mod markup;
pub mod number;
pub mod page;
pub mod period;
pub mod text;
