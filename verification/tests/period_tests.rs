use uqam_scraper::error::ParseError;
use uqam_scraper::location::Location;
use uqam_scraper::period::{cell_text, parse_period, parse_times, period_from_texts, Period};

fn strings(items: &[&str]) -> Vec<String> {
    items.iter().map(|s| String::from(*s)).collect()
}

fn monday_period() -> Period {
    Period {
        day: String::from("Lundi"),
        start_date: String::from("2022-09-05"),
        end_date: String::from("2022-12-12"),
        start_time: String::from("9h30"),
        end_time: String::from("12h30"),
        location: Some(Location {
            classroom: Some(String::from("PK-1140")),
            campus: String::from("Campus Centre-Ville"),
        }),
        type_: String::from("Cours magistral"),
    }
}

#[test]
fn time_range_gives_second_and_fourth_token() {
    assert_eq!(
        parse_times("De&nbsp;9h30&nbsp;à&nbsp;12h30"),
        Ok((String::from("9h30"), String::from("12h30")))
    );
    assert_eq!(
        parse_times(" De &nbsp; 18h00 &nbsp;à&nbsp;\n21h00 "),
        Ok((String::from("18h00"), String::from("21h00")))
    );
    assert_eq!(parse_times("&nbsp;&nbsp;&nbsp;"), Ok((String::from(""), String::from(""))));
}

#[test]
fn three_time_tokens_are_malformed() {
    assert_eq!(parse_times("De&nbsp;9h30&nbsp;à"), Err(ParseError::MalformedTimeField));
}

#[test]
fn other_token_counts_are_malformed_too() {
    assert_eq!(parse_times(""), Err(ParseError::MalformedTimeField));
    assert_eq!(parse_times("9h30"), Err(ParseError::MalformedTimeField));
    assert_eq!(parse_times("De 9h30 à 12h30"), Err(ParseError::MalformedTimeField));
    assert_eq!(
        parse_times("De&nbsp;9h30&nbsp;à&nbsp;12h30&nbsp;env."),
        Err(ParseError::MalformedTimeField)
    );
}

#[test]
fn cell_text_prefers_the_first_link() {
    assert_eq!(cell_text("<a>x</a> y <a>z</a>", &strings(&["x", "z"])), "x");
    assert_eq!(cell_text("plain", &strings(&[])), "plain");
    assert_eq!(cell_text("<a></a>rest", &strings(&[""])), "");
}

#[test]
fn five_texts_make_a_period() {
    let texts = strings(&[
        " Lundi ",
        "Du 05 septembre 2022<br>au 12 décembre 2022",
        "De&nbsp;9h30&nbsp;à&nbsp;12h30",
        "PK-1140 | Campus Centre-Ville",
        "Cours magistral",
    ]);
    assert_eq!(period_from_texts(&texts), Ok(monday_period()));
}

#[test]
fn type_is_verbatim_and_location_may_be_absent() {
    let texts = strings(&[
        "Mardi",
        "Du 9 janvier 2023<br>au 1 mai 2023",
        "De&nbsp;13h30&nbsp;à&nbsp;16h30",
        "",
        "  Atelier \n",
    ]);
    let period = period_from_texts(&texts).unwrap();
    assert_eq!(period.day, "Mardi");
    assert_eq!(period.start_date, "2023-01-09");
    assert_eq!(period.end_date, "2023-05-01");
    assert_eq!(period.location, None);
    assert_eq!(period.type_, "  Atelier \n");
}

#[test]
fn other_than_five_texts_is_a_structure_mismatch() {
    assert_eq!(period_from_texts(&strings(&[])), Err(ParseError::StructureMismatch));
    let four = strings(&["Lundi", "Du 1 mai 2022<br>au 2 mai 2022", "a&nbsp;b&nbsp;c&nbsp;d", ""]);
    assert_eq!(period_from_texts(&four), Err(ParseError::StructureMismatch));
    let six = strings(&[
        "Lundi",
        "Du 1 mai 2022<br>au 2 mai 2022",
        "a&nbsp;b&nbsp;c&nbsp;d",
        "",
        "Cours",
        "extra",
    ]);
    assert_eq!(period_from_texts(&six), Err(ParseError::StructureMismatch));
}

#[test]
fn errors_of_the_cells() {
    let bad_time = strings(&["Lundi", "Du 1 mai 2022<br>au 2 mai 2022", "De&nbsp;9h&nbsp;à", "", "C"]);
    assert_eq!(period_from_texts(&bad_time), Err(ParseError::MalformedTimeField));
    let bad_month = strings(&["Lundi", "Du 1 may 2022<br>au 2 mai 2022", "a&nbsp;b&nbsp;c&nbsp;d", "", "C"]);
    assert_eq!(period_from_texts(&bad_month), Err(ParseError::UnknownMonthName));
    let bad_range = strings(&["Lundi", "Du 1 mai 2022", "a&nbsp;b&nbsp;c&nbsp;d", "", "C"]);
    assert_eq!(period_from_texts(&bad_range), Err(ParseError::StructureMismatch));
}

#[test]
fn time_error_comes_before_date_error() {
    let both = strings(&["Lundi", "Du 1 may 2022", "De&nbsp;9h&nbsp;à", "", "C"]);
    assert_eq!(period_from_texts(&both), Err(ParseError::MalformedTimeField));
}

#[test]
fn row_cells_are_read_through_their_links() {
    let cells = strings(&[
        "<a href=\"#j\">Lundi</a>",
        "Du 05 septembre 2022<br>au 12 décembre 2022",
        "De&nbsp;9h30&nbsp;à&nbsp;12h30",
        "<a href=\"/plan\">PK-1140 | Campus Centre-Ville</a> <a href=\"/x\">autre</a>",
        "Cours magistral",
    ]);
    assert_eq!(parse_period(&cells), Ok(monday_period()));
}

#[test]
fn row_with_three_time_tokens_fails_as_malformed_time() {
    let cells = strings(&[
        "Lundi",
        "Du 05 septembre 2022<br>au 12 décembre 2022",
        "De&nbsp;9h30&nbsp;à",
        "PK-1140 | Campus Centre-Ville",
        "Cours magistral",
    ]);
    assert_eq!(parse_period(&cells), Err(ParseError::MalformedTimeField));
}

#[test]
fn row_without_five_cells_is_a_structure_mismatch() {
    assert_eq!(parse_period(&strings(&["Lundi", "x"])), Err(ParseError::StructureMismatch));
    assert_eq!(parse_period(&strings(&[])), Err(ParseError::StructureMismatch));
}
