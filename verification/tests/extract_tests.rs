use icalnigma::dom;
use icalnigma::error::{Error, Field};
use icalnigma::extract::{
    find_with_class, get_month_from_german, is_of_class, load_day, load_events, load_month,
    month_from_lowercase, process_event, read_heading, read_table, read_tooltip,
};
use icalnigma::metadata::{read_row, read_rows};
use icalnigma::model::{Event, EventData};
use icalnigma::skipped::{skipped, skipped_blocks, skipped_in_day, skipped_in_month};
use icalnigma::time::DateTime;
use icalnigma::tree::{Document, HandleExtensions};

fn parse(text: &str) -> Document {
    dom::parse(text).unwrap()
}

fn time(year: i32, month: u32, day: u32, hour: u32, minute: u32) -> DateTime {
    DateTime::new(year, month, day, hour, minute, 0).unwrap()
}

fn failure(field: Field, text: &str) -> Error {
    Error::Extraction { field, text: text.to_string() }
}

fn body_of(document: &Document) -> usize {
    let html = document.get_node_by_tag_name(0, "html").unwrap();
    document.get_node_by_tag_name(html, "body").unwrap()
}

/// The first element named `tag` at any depth below `node`.
fn descend(document: &Document, node: usize, tag: &str) -> Option<usize> {
    if document.named(node, tag) {
        return Some(node);
    }
    for child in document.node(node).unwrap().children.clone() {
        if let Some(found) = descend(document, child, tag) {
            return Some(found);
        }
    }
    None
}

fn plain_block(first: &str, second: &str) -> String {
    format!("<div class=\"month_block\"><a href=\"#\">{}<br>{}</a></div>", first, second)
}

fn tooltip_block(label: &str, created: &str, range: &str, rows: &[(&str, &str)]) -> String {
    let mut table = String::new();
    for (key, value) in rows {
        table.push_str(&format!(
            "<tr><td class=\"label\">{}</td><td class=\"value\">{}</td></tr>",
            key, value
        ));
    }
    format!(
        "<div class=\"month_block\"><a href=\"#\"><span class=\"tooltip\"><strong>{}</strong>\
         <div>{}</div><div>{}</div><table class=\"infotable\">{}</table></span>\
         09:00 - 12:15<br>shown</a><span class=\"person\">P</span></div>",
        label, created, range, table
    )
}

fn lecture_rows() -> Vec<(&'static str, &'static str)> {
    vec![
        ("Titel:", "Mathematik"),
        ("Veranstaltungsart:", "Vorlesung"),
        ("Sprache:", "Deutsch"),
        ("Ressourcen:", "INF-23A, Hörsaal 1"),
        ("Leer:", ""),
        ("Soll-Stunden:", "48"),
    ]
}

fn day(number: &str, blocks: &str) -> String {
    format!("<td class=\"month_cell\"><div>{}</div>{}</td>", number, blocks)
}

fn month(heading: &str, cells: &str) -> String {
    format!(
        "<div class=\"calendar\"><h2>{}</h2><table><tbody><tr>{}</tr></tbody></table></div>",
        heading, cells
    )
}

fn cell_of(document: &Document) -> usize {
    descend(document, 0, "td").unwrap()
}

fn names(events: &[Event]) -> Vec<String> {
    events.iter().map(|event| event.name.clone()).collect()
}

#[test]
fn months_in_german() {
    let months = ["Januar", "Februar", "März", "April", "Mai", "Juni", "Juli", "August",
        "September", "Oktober", "November", "Dezember"];
    for (i, name) in months.iter().enumerate() {
        assert_eq!(get_month_from_german(name), Ok(i as u32 + 1));
        assert_eq!(get_month_from_german(&name.to_uppercase()), Ok(i as u32 + 1));
        assert_eq!(month_from_lowercase(&name.to_lowercase()), Some(i as u32 + 1));
    }
    assert_eq!(get_month_from_german("MÄRZ"), Ok(3));
    assert_eq!(get_month_from_german("mÄrZ"), Ok(3));
    assert_eq!(month_from_lowercase("März"), None);
}

#[test]
fn other_words_are_no_months() {
    for word in ["", "Jan", "January", "Maerz", "Marz", " Mai", "Mai ", "13"] {
        assert_eq!(get_month_from_german(word), Err(failure(Field::Month, word)));
        assert_eq!(month_from_lowercase(word), None);
    }
}

#[test]
fn heading_names_month_and_year() {
    assert_eq!(read_heading("Januar 2024"), Ok((1, 2024)));
    assert_eq!(read_heading("  DEZEMBER\t\n1999  und mehr"), Ok((12, 1999)));
    assert_eq!(read_heading("März -44"), Ok((3, -44)));
    assert_eq!(read_heading("Mai +7"), Ok((5, 7)));
}

#[test]
fn heading_failures() {
    assert_eq!(read_heading(""), Err(failure(Field::Heading, "")));
    assert_eq!(read_heading(" \t "), Err(failure(Field::Heading, " \t ")));
    assert_eq!(read_heading("2024 Januar"), Err(failure(Field::Month, "2024")));
    assert_eq!(read_heading("Januar"), Err(failure(Field::Year, "")));
    assert_eq!(read_heading("Januar zwanzig"), Err(failure(Field::Year, "zwanzig")));
    assert_eq!(read_heading("Januar\u{a0}2024"), Err(failure(Field::Month, "Januar\u{a0}2024")));
    assert_eq!(read_heading("Januar 99999999999"), Err(failure(Field::Year, "99999999999")));
}

#[test]
fn classes_of_elements() {
    let document = parse("<div class=\"a\"></div><div class=\"b\"></div><div></div><div class=\"b\"></div>");
    let divs = document.get_nodes_by_tag_name(body_of(&document), "div");
    assert!(is_of_class(&document, divs[0], "a"));
    assert!(!is_of_class(&document, divs[0], "b"));
    assert!(!is_of_class(&document, divs[2], ""));
    assert!(!is_of_class(&document, 9999, "a"));
    assert_eq!(find_with_class(&document, &divs, "b"), Some(divs[1]));
    assert_eq!(find_with_class(&document, &divs[2..], "b"), Some(divs[3]));
    assert_eq!(find_with_class(&document, &divs, "c"), None);
    assert_eq!(find_with_class(&document, &[], "a"), None);
}

#[test]
fn rows_of_the_table() {
    let document = parse(
        "<table><tr><td>Titel::</td><td>Mathe</td><td>more</td></tr>\
         <tr><td>Nur eine Zelle</td></tr>\
         <tr><td>Leer:</td><td></td></tr>\
         <tr><td></td><td>ohne Schlüssel</td></tr>\
         <tr><td>Ort: innen:</td><td> <b>x</b>Raum </td></tr>\
         <tr><th>Kopf</th><td>a</td><td>b</td></tr></table>",
    );
    let tbody = descend(&document, 0, "tbody").unwrap();
    let rows = document.get_nodes_by_tag_name(tbody, "tr");
    assert_eq!(rows.len(), 6);
    assert_eq!(read_row(&document, rows[0]), Some(("Titel".to_string(), "Mathe".to_string())));
    assert_eq!(read_row(&document, rows[1]), None);
    assert_eq!(read_row(&document, rows[2]), None);
    assert_eq!(read_row(&document, rows[3]), None);
    assert_eq!(read_row(&document, rows[4]), Some(("Ort: innen".to_string(), " ".to_string())));
    assert_eq!(read_row(&document, rows[5]), Some(("a".to_string(), "b".to_string())));
    let table = descend(&document, 0, "table").unwrap();
    assert_eq!(read_table(&document, table), read_rows(&document, &rows));
    assert_eq!(read_table(&document, tbody), Vec::new());
    assert_eq!(
        read_rows(&document, &rows),
        vec![
            ("Titel".to_string(), "Mathe".to_string()),
            ("Ort: innen".to_string(), " ".to_string()),
            ("a".to_string(), "b".to_string())
        ]
    );
}

#[test]
fn tooltip_texts_are_read_from_its_parts() {
    let document = parse(&tooltip_block(
        "Prüfung",
        "erstellt am 21.09.2112:42",
        "Mo 04.10.21 09:00-12:15",
        &[("Titel:", "Klausur"), ("Leer:", "")],
    ));
    let span = descend(&document, 0, "span").unwrap();
    let texts = read_tooltip(&document, span).unwrap();
    assert_eq!(texts.label, "Prüfung");
    assert_eq!(texts.created, "erstellt am 21.09.2112:42");
    assert_eq!(texts.range, "Mo 04.10.21 09:00-12:15");
    assert_eq!(texts.metadata, vec![("Titel".to_string(), "Klausur".to_string())]);
}

#[test]
fn tooltip_failures() {
    let read = |inner: &str| {
        let document = parse(&format!("<span class=\"tooltip\">{}</span>", inner));
        let span = descend(&document, 0, "span").unwrap();
        read_tooltip(&document, span)
    };
    assert_eq!(read(""), Err(failure(Field::Kind, "")));
    assert_eq!(read("<strong></strong><div>a</div><div>b</div>"), Err(failure(Field::Kind, "")));
    assert_eq!(read("<strong>x</strong><div>a</div>"), Err(failure(Field::Tooltip, "")));
    assert_eq!(
        read("<strong>x</strong><div></div><div>b</div>"),
        Err(failure(Field::Created, ""))
    );
    assert_eq!(
        read("<strong>x</strong><div>a</div><div></div>"),
        Err(failure(Field::TimeRange, ""))
    );
    assert_eq!(
        read("<strong>x</strong><div>a</div><div>b</div>"),
        Err(failure(Field::Tooltip, ""))
    );
    assert_eq!(
        read("<strong>x</strong><div>a</div><div>b</div><table></table>").unwrap().metadata,
        Vec::new()
    );
    assert!(read("<strong>x</strong><div>a</div><div>b</div><table><tr></tr></table>").is_ok());
}

#[test]
fn event_from_the_texts_of_the_link() {
    let document = parse(&plain_block("08:00 - 09:30 INF-23A, Hörsaal 1", "Mathematik"));
    let block = descend(&document, 0, "div").unwrap();
    assert_eq!(
        process_event(&document, block, 2024, 1, 15),
        Ok(Event {
            creation: None,
            creator: None,
            begin: time(2024, 1, 15, 7, 0),
            end: time(2024, 1, 15, 8, 30),
            name: "Mathematik".to_string(),
            lecturers: Vec::new(),
            locations: vec!["Hörsaal 1".to_string()],
            courses: vec!["INF-23A".to_string()],
            data: EventData::Exam,
        })
    );
}

#[test]
fn event_from_the_tooltip() {
    let document = parse(&tooltip_block(
        "Lehrveranstaltung",
        "erstellt am 21.09.2112:42",
        "Mo 04.10.21 09:00-12:15",
        &lecture_rows(),
    ));
    let block = descend(&document, 0, "div").unwrap();
    assert_eq!(
        process_event(&document, block, 1999, 1, 1),
        Ok(Event {
            creation: Some(time(2021, 9, 21, 10, 42)),
            creator: None,
            begin: time(2021, 10, 4, 7, 0),
            end: time(2021, 10, 4, 10, 15),
            name: "Mathematik".to_string(),
            lecturers: Vec::new(),
            locations: vec!["Hörsaal 1".to_string()],
            courses: vec!["INF-23A".to_string()],
            data: EventData::Lecture {
                number: None,
                language: Some("Deutsch".to_string()),
                kind: Some("Vorlesung".to_string()),
                categories: Vec::new(),
                total_hours: Some(48),
            },
        })
    );
}

#[test]
fn a_table_that_names_an_exam() {
    let document = parse(&tooltip_block(
        "Prüfung",
        "erstellt am 21.09.2112:42",
        "Mo 04.10.21 09:00-12:15",
        &[("Name:", "Klausur"), ("Veranstaltungsart:", "Prüfung")],
    ));
    let block = descend(&document, 0, "div").unwrap();
    let event = process_event(&document, block, 2021, 10, 4).unwrap();
    assert_eq!(event.data, EventData::Exam);
    assert_eq!(event.name, "Klausur");
}

#[test]
fn event_failures() {
    let read = |html: &str| {
        let document = parse(html);
        let block = descend(&document, 0, "div").unwrap();
        process_event(&document, block, 2024, 1, 15)
    };
    assert_eq!(read("<div class=\"month_block\">text</div>"), Err(failure(Field::Link, "")));
    assert_eq!(read("<div><a href=\"#\"></a></div>"), Err(failure(Field::Event, "")));
    assert_eq!(
        read("<div><a href=\"#\"><b>08:00 - 09:30</b></a></div>"),
        Err(failure(Field::Event, ""))
    );
    assert_eq!(
        read("<div><a href=\"#\">ganztägig<br>Fest</a></div>"),
        Err(failure(Field::Metadata, "ganztägig"))
    );
    assert_eq!(
        read(&tooltip_block("Unbekannt", "erstellt am 21.09.2112:42", "Mo 04.10.21 09:00-12:15", &[])),
        Err(failure(Field::Kind, "Unbekannt"))
    );
    assert_eq!(
        read("<div><a><span class=\"tooltip\"></span>08:00 - 09:30 A<br>x</a></div>"),
        Err(failure(Field::Kind, ""))
    );
    assert!(read("<div><a><span class=\"other\"></span>08:00 - 09:30 A<br>x</a></div>").is_ok());
}

#[test]
fn a_day_with_one_unmarked_and_one_marked_division_has_one_event() {
    let cell = day("15", &plain_block("08:00 - 09:30 A", "Mathematik"));
    let document = parse(&format!("<table><tr>{}</tr></table>", cell));
    let events = load_day(&document, cell_of(&document), 2024, 1).unwrap().unwrap();
    assert_eq!(names(&events), vec!["Mathematik"]);
    assert_eq!(events[0].begin, time(2024, 1, 15, 7, 0));
}

#[test]
fn a_day_without_marked_divisions_is_no_day() {
    for cell in [
        "<td class=\"month_cell\"></td>".to_string(),
        day("15", ""),
        day("15", "<div>frei</div><div class=\"other\">x</div>"),
        day("kein Tag", "<div>frei</div>"),
        format!(
            "<td class=\"month_cell\">{}</td>",
            plain_block("08:00 - 09:30 A", "only division")
        ),
    ] {
        let document = parse(&format!("<table><tr>{}</tr></table>", cell));
        assert_eq!(load_day(&document, cell_of(&document), 2024, 1), Ok(None));
    }
}

#[test]
fn a_day_skips_what_is_unmarked_or_cannot_be_read() {
    let blocks = format!(
        "{}<div>Feiertag</div>{}{}{}",
        plain_block("08:00 - 09:30 A", "first"),
        plain_block("kaputt", "second"),
        tooltip_block("Unbekannt", "erstellt am 21.09.2112:42", "Mo 04.10.21 09:00-12:15", &[]),
        plain_block("10:00 - 11:30 B", "fourth")
    );
    let document = parse(&format!("<table><tr>{}</tr></table>", day(" 15", &blocks).replace(" 15", "15")));
    let events = load_day(&document, cell_of(&document), 2024, 1).unwrap().unwrap();
    assert_eq!(names(&events), vec!["first", "fourth"]);
}

#[test]
fn a_day_whose_events_all_fail_is_an_empty_day() {
    let document =
        parse(&format!("<table><tr>{}</tr></table>", day("15", &plain_block("kaputt", "x"))));
    assert_eq!(load_day(&document, cell_of(&document), 2024, 1), Ok(Some(Vec::new())));
}

#[test]
fn day_number_failures() {
    let block = plain_block("08:00 - 09:30 A", "x");
    let read = |number: &str| {
        let document = parse(&format!("<table><tr>{}</tr></table>", day(number, &block)));
        load_day(&document, cell_of(&document), 2024, 1)
    };
    assert_eq!(read(""), Err(failure(Field::DayNumber, "")));
    assert_eq!(read("<b>15</b>"), Err(failure(Field::DayNumber, "")));
    assert_eq!(read("15."), Err(failure(Field::DayNumber, "15.")));
    assert_eq!(read(" 15"), Err(failure(Field::DayNumber, " 15")));
    assert!(read("+15").is_ok());
    assert_eq!(read("32"), Ok(Some(Vec::new())));
}

#[test]
fn a_month_gathers_its_days_under_the_period_of_the_first_end() {
    let cells = format!(
        "<td>not a day</td>{}{}{}<td class=\"month_cell\"></td>{}",
        day("31", &plain_block("23:00 - 23:30 A", "a")),
        day("x", &plain_block("08:00 - 09:30 B", "lost day")),
        day("2", &format!("{}{}", plain_block("08:00 - 09:30 B", "b"), plain_block("10:00 - 11:00 C", "c"))),
        day("3", &plain_block("kaputt", "lost event")),
    );
    let document = parse(&month("Januar 2024", &cells));
    let calendar = descend(&document, 0, "div").unwrap();
    let (period, events) = load_month(&document, calendar).unwrap().unwrap();
    assert_eq!(period, 202401);
    assert_eq!(names(&events), vec!["a", "b", "c"]);
}

#[test]
fn the_period_is_that_of_the_end_in_utc() {
    let document =
        parse(&month("Januar 2024", &day("1", &plain_block("00:15 - 00:45 A", "early"))));
    let calendar = descend(&document, 0, "div").unwrap();
    let (period, events) = load_month(&document, calendar).unwrap().unwrap();
    assert_eq!(period, 202312);
    assert_eq!(events[0].end, time(2023, 12, 31, 23, 45));
}

#[test]
fn a_month_without_events_is_nothing() {
    for html in [
        "<div class=\"calendar\"></div>".to_string(),
        "<div class=\"calendar\"><h2></h2><table></table></div>".to_string(),
        month("Januar 2024", ""),
        month("Januar 2024", &day("1", "")),
        month("Januar 2024", &day("1", &plain_block("kaputt", "x"))),
        "<div class=\"calendar\"><h2>Januar 2024</h2></div>".to_string(),
        format!(
            "<div class=\"calendar\"><table><tr>{}</tr></table></div>",
            day("1", &plain_block("08:00 - 09:30 A", "no heading"))
        ),
    ] {
        let document = parse(&html);
        let calendar = descend(&document, 0, "div").unwrap();
        assert_eq!(load_month(&document, calendar), Ok(None));
    }
}

#[test]
fn a_month_with_a_heading_that_cannot_be_read_fails() {
    let cell = day("1", &plain_block("08:00 - 09:30 A", "x"));
    let read = |heading: &str| {
        let document = parse(&month(heading, &cell));
        let calendar = descend(&document, 0, "div").unwrap();
        load_month(&document, calendar)
    };
    assert_eq!(read("Jänner 2024"), Err(failure(Field::Month, "Jänner")));
    assert_eq!(read("Januar"), Err(failure(Field::Year, "")));
    assert_eq!(read("Januar MMXXIV"), Err(failure(Field::Year, "MMXXIV")));
    assert_eq!(read(" "), Err(failure(Field::Heading, " ")));
}

#[test]
fn events_of_a_page_by_period() {
    let page = format!(
        "<html><head><title>t</title></head><body><h1>Plan</h1>{}<div class=\"other\">{}</div>{}{}</body></html>",
        month("Februar 2024", &day("5", &plain_block("08:00 - 09:30 B", "feb"))),
        month("März 2024", &day("5", &plain_block("08:00 - 09:30 B", "not a calendar"))),
        month("Januar 2024", &day("15", &plain_block("08:00 - 09:30 A", "jan"))),
        month("April 2024", ""),
    );
    let months = load_events(&parse(&page)).unwrap();
    assert_eq!(months.periods(), vec![202401, 202402]);
    assert_eq!(names(months.get(202401).unwrap()), vec!["jan"]);
    assert_eq!(names(&months.into_events()), vec!["jan", "feb"]);
}

#[test]
fn a_later_month_of_the_same_period_takes_the_place_of_an_earlier() {
    let page = format!(
        "{}{}",
        month("Januar 2024", &day("15", &plain_block("08:00 - 09:30 A", "first"))),
        month("Januar 2024", &day("16", &plain_block("08:00 - 09:30 A", "second"))),
    );
    let months = load_events(&parse(&page)).unwrap();
    assert_eq!(names(&months.into_events()), vec!["second"]);
}

#[test]
fn an_unknown_kind_skips_one_event_and_keeps_the_month() {
    let blocks = format!(
        "{}{}{}",
        tooltip_block("Prüfung", "erstellt am 21.09.2112:42", "Mo 04.10.21 09:00-12:15", &[("Name:", "Klausur")]),
        tooltip_block("Unbekannt", "erstellt am 21.09.2112:42", "Mo 04.10.21 13:00-14:00", &[("Name:", "Rätsel")]),
        tooltip_block("Lehrveranstaltung", "erstellt am 21.09.2112:42", "Mo 04.10.21 15:00-16:00", &lecture_rows()),
    );
    let months = load_events(&parse(&month("Oktober 2021", &day("4", &blocks)))).unwrap();
    let events = months.into_events();
    assert_eq!(names(&events), vec!["Klausur", "Mathematik"]);
    assert_eq!(events[0].data, EventData::Exam);
    assert!(matches!(events[1].data, EventData::Lecture { .. }));
}

#[test]
fn a_page_without_events_has_no_months() {
    assert_eq!(load_events(&parse("")).unwrap().len(), 0);
    assert_eq!(load_events(&parse("<p>nothing</p>")).unwrap().len(), 0);
}

#[test]
fn a_heading_that_cannot_be_read_fails_the_page() {
    let page = format!(
        "{}{}",
        month("Januar 2024", &day("15", &plain_block("08:00 - 09:30 A", "jan"))),
        month("Smarch 2024", &day("15", &plain_block("08:00 - 09:30 A", "x"))),
    );
    assert_eq!(load_events(&parse(&page)), Err(failure(Field::Month, "Smarch")));
}

#[test]
fn a_document_without_html_or_body_fails() {
    assert_eq!(load_events(&Document::new()), Err(Error::Structure { field: Field::Html }));
    let (document, _) = Document::new().add_element(0, "html", Vec::new());
    assert_eq!(load_events(&document), Err(Error::Structure { field: Field::Body }));
    let (document, html) = Document::new().add_element(0, "html", Vec::new());
    let (document, _) = document.add_element(html.unwrap(), "body", Vec::new());
    assert_eq!(load_events(&document).unwrap().len(), 0);
}

#[test]
fn what_a_day_passes_over() {
    let blocks = format!(
        "{}<div>Feiertag</div><div class=\"other\"><b>x</b></div>{}{}{}",
        plain_block("08:00 - 09:30 A", "first"),
        plain_block("kaputt", "second"),
        tooltip_block("Unbekannt", "erstellt am 21.09.2112:42", "Mo 04.10.21 09:00-12:15", &[]),
        plain_block("10:00 - 11:30 B", "fourth")
    );
    let document = parse(&format!("<table><tr>{}</tr></table>", day("15", &blocks)));
    let cell = cell_of(&document);
    let wanted = vec![
        failure(Field::Division, "Feiertag"),
        failure(Field::Division, ""),
        failure(Field::Metadata, "kaputt"),
        failure(Field::Kind, "Unbekannt"),
    ];
    assert_eq!(skipped_in_day(&document, cell, 2024, 1), wanted);
    let divisions = document.get_nodes_by_tag_name(cell, "div");
    assert_eq!(skipped_blocks(&document, &divisions[1..], 2024, 1, 15), wanted);
    let events = load_day(&document, cell, 2024, 1).unwrap().unwrap();
    assert_eq!(events.len() + wanted.len(), divisions.len() - 1);
}

#[test]
fn a_day_whose_number_cannot_be_read_is_passed_over_whole() {
    let document = parse(&format!(
        "<table><tr>{}</tr></table>",
        day("x", &format!("{}{}", plain_block("kaputt", "a"), plain_block("08:00 - 09:30 A", "b")))
    ));
    assert_eq!(
        skipped_in_day(&document, cell_of(&document), 2024, 1),
        vec![failure(Field::DayNumber, "x")]
    );
}

#[test]
fn a_day_without_events_passes_nothing_over() {
    for cell in [day("15", ""), day("x", "<div>frei</div>"), "<td class=\"month_cell\"></td>".to_string()] {
        let document = parse(&format!("<table><tr>{}</tr></table>", cell));
        assert_eq!(skipped_in_day(&document, cell_of(&document), 2024, 1), Vec::new());
    }
}

#[test]
fn what_a_page_passes_over() {
    let page = format!(
        "{}<div class=\"other\">{}</div>{}{}{}",
        month(
            "Januar 2024",
            &format!(
                "{}<td>{}</td>{}",
                day("x", &plain_block("08:00 - 09:30 A", "lost day")),
                plain_block("kaputt", "not a day"),
                day("2", &format!("{}{}", plain_block("08:00 - 09:30 B", "b"), plain_block("09:30 - 08:00 C", "c"))),
            )
        ),
        month("Januar 2024", &day("3", &plain_block("kaputt", "not a calendar"))),
        month("Februar 2024", &day("30", &plain_block("08:00 - 09:30 B", "no such day"))),
        month("Smarch 2024", &day("1", &plain_block("kaputt", "no such month"))),
        format!("<div class=\"calendar\"><table><tr>{}</tr></table></div>", day("y", "")),
    );
    let document = parse(&page);
    assert_eq!(
        skipped(&document),
        vec![
            failure(Field::DayNumber, "x"),
            failure(Field::TimeRange, "09:30 - 08:00 C"),
            failure(Field::LocalTime, "08:00 - 09:30 B"),
        ]
    );
    let first = descend(&document, 0, "div").unwrap();
    assert_eq!(skipped_in_month(&document, first).len(), 2);
    assert_eq!(load_events(&document), Err(failure(Field::Month, "Smarch")));
}

#[test]
fn a_document_without_body_passes_nothing_over() {
    assert_eq!(skipped(&Document::new()), Vec::new());
    let (document, _) = Document::new().add_element(0, "html", Vec::new());
    assert_eq!(skipped(&document), Vec::new());
    assert_eq!(skipped(&parse("")), Vec::new());
}
