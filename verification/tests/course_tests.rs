use uqam_scraper::course::{Class, Semester};

#[test]
fn url_of_a_fall_course() {
    let class = Class {
        symbol: String::from("inf1070"),
        year: 2022,
        semester: Semester::Fall,
        program_code: 7316,
    };
    assert_eq!(class.get_url(), "https://etudier.uqam.ca/wshoraire/cours/inf1070/20223/7316");
}

#[test]
fn url_holds_each_semester_digit() {
    let mut class = Class {
        symbol: String::from("MAT1600"),
        year: 2023,
        semester: Semester::Winter,
        program_code: 0,
    };
    assert_eq!(class.get_url(), "https://etudier.uqam.ca/wshoraire/cours/MAT1600/20231/0");
    class.semester = Semester::Summer;
    assert_eq!(class.get_url(), "https://etudier.uqam.ca/wshoraire/cours/MAT1600/20232/0");
}

#[test]
fn url_takes_symbol_and_numbers_as_they_are() {
    let class = Class {
        symbol: String::from(""),
        year: 0,
        semester: Semester::Fall,
        program_code: 4294967295,
    };
    assert_eq!(class.get_url(), "https://etudier.uqam.ca/wshoraire/cours//03/4294967295");
}

#[test]
fn semester_codes() {
    assert_eq!(Semester::Winter.code(), 1);
    assert_eq!(Semester::Summer.code(), 2);
    assert_eq!(Semester::Fall.code(), 3);
}
