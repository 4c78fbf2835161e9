use uqam_scraper::error::ParseError;
use uqam_scraper::group::{
    group_from_lines, number_from_elements, parse_group, parse_group_id, parse_group_periods,
    parse_group_places, parse_group_teachers, periods_from_rows, Group,
};
use uqam_scraper::location::Location;
use uqam_scraper::period::Period;

fn owned(items: &[&str]) -> Vec<String> {
    items.iter().map(|s| String::from(*s)).collect()
}

const ID_LINE: &str = "<h3> Groupe 20 </h3>";
const PLACES_LINE: &str = "<table><tr><td>Places: <span>12 places</span></td></tr></table>";
const TEACHERS_LINE: &str =
    "<table><tr><td><ul><li>Alice Tremblay</li><li>Bob Roy</li><li>Alice Tremblay</li></ul></td></tr></table>";
const PERIODS_LINE: &str = "<table>\
<tr><th>Jour</th><th>Dates</th><th>Heure</th><th>Lieu</th><th>Type</th></tr>\
<tr><td>Lundi</td><td>Du 05 septembre 2022<br>au 12 décembre 2022</td>\
<td>De&nbsp;9h30&nbsp;à&nbsp;12h30</td>\
<td><a href=\"/plan\">PK-1140 | Campus Centre-Ville</a></td><td>Cours magistral</td></tr>\
<tr><td>Jeudi</td><td>Du 08 septembre 2022<br>au 15 décembre 2022</td>\
<td>De&nbsp;14h00&nbsp;à&nbsp;16h00</td><td></td><td>Atelier</td></tr>\
</table>";

fn expected_periods() -> Vec<Period> {
    vec![
        Period {
            day: String::from("Lundi"),
            start_date: String::from("2022-09-05"),
            end_date: String::from("2022-12-12"),
            start_time: String::from("9h30"),
            end_time: String::from("12h30"),
            location: Some(Location {
                classroom: Some(String::from("PK-1140")),
                campus: String::from("Campus Centre-Ville"),
            }),
            type_: String::from("Cours magistral"),
        },
        Period {
            day: String::from("Jeudi"),
            start_date: String::from("2022-09-08"),
            end_date: String::from("2022-12-15"),
            start_time: String::from("14h00"),
            end_time: String::from("16h00"),
            location: None,
            type_: String::from("Atelier"),
        },
    ]
}

fn group_fragment() -> String {
    format!(
        "<div class=\"ligne\"><h2>Horaire</h2></div>\
<div class=\"ligne\">{}</div><div class=\"ligne\">{}</div>\
<div class=\"ligne\">{}</div><div class=\"ligne\">{}</div>",
        ID_LINE, PLACES_LINE, TEACHERS_LINE, PERIODS_LINE
    )
}

#[test]
fn number_is_read_from_the_first_element() {
    assert_eq!(number_from_elements(&owned(&["Groupe 20", "Groupe 30"]), 1), Ok(20));
    assert_eq!(number_from_elements(&owned(&["12 places"]), 0), Ok(12));
    assert_eq!(number_from_elements(&owned(&["\n Groupe\t\t+7 \n"]), 1), Ok(7));
}

#[test]
fn number_without_an_element_is_a_structure_mismatch() {
    assert_eq!(number_from_elements(&owned(&[]), 0), Err(ParseError::StructureMismatch));
}

#[test]
fn number_that_is_absent_or_not_numeric_is_malformed() {
    assert_eq!(number_from_elements(&owned(&["Groupe"]), 1), Err(ParseError::MalformedNumericField));
    assert_eq!(number_from_elements(&owned(&[""]), 0), Err(ParseError::MalformedNumericField));
    assert_eq!(number_from_elements(&owned(&["Groupe A"]), 1), Err(ParseError::MalformedNumericField));
    assert_eq!(number_from_elements(&owned(&["Groupe -3"]), 1), Err(ParseError::MalformedNumericField));
    assert_eq!(
        number_from_elements(&owned(&["Groupe 4294967296"]), 1),
        Err(ParseError::MalformedNumericField)
    );
}

#[test]
fn group_id_is_the_second_token_of_the_header() {
    assert_eq!(parse_group_id(ID_LINE), Ok(20));
    assert_eq!(parse_group_id("<p>x</p><h3>Groupe 041</h3><h3>Groupe 5</h3>"), Ok(41));
}

#[test]
fn group_id_errors() {
    assert_eq!(parse_group_id("<h2>Groupe 20</h2>"), Err(ParseError::StructureMismatch));
    assert_eq!(parse_group_id("<h3>Groupe</h3>"), Err(ParseError::MalformedNumericField));
    assert_eq!(parse_group_id("<h3>Groupe vingt</h3>"), Err(ParseError::MalformedNumericField));
}

#[test]
fn places_are_the_first_token_of_the_span() {
    assert_eq!(parse_group_places(PLACES_LINE), Ok(12));
    assert_eq!(parse_group_places("<span> 0 </span>"), Ok(0));
}

#[test]
fn places_errors() {
    assert_eq!(parse_group_places("<b>12</b>"), Err(ParseError::StructureMismatch));
    assert_eq!(parse_group_places("<span>aucune</span>"), Err(ParseError::MalformedNumericField));
    assert_eq!(parse_group_places("<span></span>"), Err(ParseError::MalformedNumericField));
}

#[test]
fn teachers_keep_order_and_repetitions() {
    assert_eq!(
        parse_group_teachers(TEACHERS_LINE),
        owned(&["Alice Tremblay", "Bob Roy", "Alice Tremblay"])
    );
}

#[test]
fn teachers_may_be_none() {
    assert_eq!(parse_group_teachers("<table><tr><td></td></tr></table>"), Vec::<String>::new());
    assert_eq!(parse_group_teachers("<ul><li>hors tableau</li></ul>"), Vec::<String>::new());
}

#[test]
fn rows_after_the_header_become_periods() {
    let rows = vec![
        owned(&["Jour", "Dates", "Heure", "Lieu", "Type"]),
        owned(&[
            "Lundi",
            "Du 05 septembre 2022<br>au 12 décembre 2022",
            "De&nbsp;9h30&nbsp;à&nbsp;12h30",
            "PK-1140 | Campus Centre-Ville",
            "Cours magistral",
        ]),
        owned(&[
            "Jeudi",
            "Du 08 septembre 2022<br>au 15 décembre 2022",
            "De&nbsp;14h00&nbsp;à&nbsp;16h00",
            "",
            "Atelier",
        ]),
    ];
    assert_eq!(periods_from_rows(&rows), Ok(expected_periods()));
}

#[test]
fn header_row_alone_gives_no_period() {
    assert_eq!(periods_from_rows(&vec![owned(&[])]), Ok(Vec::new()));
    assert_eq!(periods_from_rows(&vec![owned(&["whatever"])]), Ok(Vec::new()));
}

#[test]
fn table_without_rows_is_a_structure_mismatch() {
    assert_eq!(periods_from_rows(&Vec::new()), Err(ParseError::StructureMismatch));
    assert_eq!(parse_group_periods("<p>rien</p>"), Err(ParseError::StructureMismatch));
}

#[test]
fn first_failing_row_decides() {
    let good = owned(&["L", "Du 1 mai 2022<br>au 2 mai 2022", "a&nbsp;b&nbsp;c&nbsp;d", "", "C"]);
    let bad_time = owned(&["L", "Du 1 mai 2022<br>au 2 mai 2022", "a&nbsp;b", "", "C"]);
    let bad_month = owned(&["L", "Du 1 may 2022<br>au 2 mai 2022", "a&nbsp;b&nbsp;c&nbsp;d", "", "C"]);
    let rows = vec![owned(&[]), good.clone(), bad_month.clone(), bad_time.clone()];
    assert_eq!(periods_from_rows(&rows), Err(ParseError::UnknownMonthName));
    let rows = vec![owned(&[]), bad_time, good, bad_month];
    assert_eq!(periods_from_rows(&rows), Err(ParseError::MalformedTimeField));
}

#[test]
fn periods_are_read_from_the_table_of_the_line() {
    assert_eq!(parse_group_periods(PERIODS_LINE), Ok(expected_periods()));
}

#[test]
fn fewer_than_five_lines_is_a_structure_mismatch() {
    assert_eq!(group_from_lines(&owned(&[])), Err(ParseError::StructureMismatch));
    let four = owned(&["", ID_LINE, PLACES_LINE, TEACHERS_LINE]);
    assert_eq!(group_from_lines(&four), Err(ParseError::StructureMismatch));
}

#[test]
fn five_lines_make_a_group() {
    let lines = owned(&["ignored", ID_LINE, PLACES_LINE, TEACHERS_LINE, PERIODS_LINE, "ignored too"]);
    assert_eq!(
        group_from_lines(&lines),
        Ok(Group {
            id: 20,
            available_places: 12,
            teachers: owned(&["Alice Tremblay", "Bob Roy", "Alice Tremblay"]),
            periods: expected_periods(),
            exams: None,
        })
    );
}

#[test]
fn group_errors_come_in_the_order_of_the_lines() {
    let lines = owned(&["", "<h3>Groupe x</h3>", "<b>no span</b>", "", ""]);
    assert_eq!(group_from_lines(&lines), Err(ParseError::MalformedNumericField));
    let lines = owned(&["", ID_LINE, "<b>no span</b>", "", ""]);
    assert_eq!(group_from_lines(&lines), Err(ParseError::StructureMismatch));
    let lines = owned(&["", ID_LINE, "<span>n</span>", "", PERIODS_LINE]);
    assert_eq!(group_from_lines(&lines), Err(ParseError::MalformedNumericField));
    let lines = owned(&["", ID_LINE, PLACES_LINE, "", "<table><tr><td>x</td></tr><tr><td>y</td></tr></table>"]);
    assert_eq!(group_from_lines(&lines), Err(ParseError::StructureMismatch));
}

#[test]
fn group_is_read_from_its_fragment() {
    let group = parse_group(group_fragment()).unwrap();
    assert_eq!(group.id, 20);
    assert_eq!(group.available_places, 12);
    assert_eq!(group.teachers, owned(&["Alice Tremblay", "Bob Roy", "Alice Tremblay"]));
    assert_eq!(group.periods, expected_periods());
    assert_eq!(group.exams, None);
}

#[test]
fn fragment_with_three_lines_is_a_structure_mismatch() {
    let fragment = String::from(
        "<div class=\"ligne\">a</div><div class=\"ligne\"><h3>Groupe 1</h3></div><div class=\"ligne\">c</div>",
    );
    assert_eq!(parse_group(fragment), Err(ParseError::StructureMismatch));
    assert_eq!(parse_group(String::new()), Err(ParseError::StructureMismatch));
}

#[test]
fn same_fragment_gives_the_same_group() {
    let first = parse_group(group_fragment());
    let second = parse_group(group_fragment());
    assert!(first.is_ok());
    assert_eq!(first, second);
    let broken = String::from("<div class=\"ligne\"></div>");
    assert_eq!(parse_group(broken.clone()), parse_group(broken));
}
