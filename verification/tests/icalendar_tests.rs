use icalnigma::icalendar::{write_calendar, write_calendar_at, write_ical_field, write_lecture};
use icalnigma::model::{Event, EventData, Lecturer};
use icalnigma::time::DateTime;

fn time(year: i32, month: u32, day: u32, hour: u32, minute: u32) -> DateTime {
    DateTime::new(year, month, day, hour, minute, 0).unwrap()
}

fn lecture() -> Event {
    Event {
        creation: Some(time(2021, 9, 21, 10, 42)),
        creator: Some("mustermann".to_string()),
        begin: time(2021, 10, 4, 7, 0),
        end: time(2021, 10, 4, 10, 15),
        name: "Mathematik".to_string(),
        lecturers: vec![
            Lecturer { name: "Prof. A".to_string() },
            Lecturer { name: "Dr. B, C".to_string() },
        ],
        locations: vec!["Hörsaal 1".to_string(), "Raum 2".to_string()],
        courses: vec!["INF-23A".to_string(), "INF-23B".to_string()],
        data: EventData::Lecture {
            number: Some("T3INF1001".to_string()),
            language: Some("Deutsch".to_string()),
            kind: Some("Vorlesung".to_string()),
            categories: vec!["Informatik".to_string(), "Pflicht".to_string()],
            total_hours: Some(48),
        },
    }
}

fn exam() -> Event {
    Event {
        creation: None,
        creator: None,
        begin: time(2024, 1, 15, 7, 0),
        end: time(2024, 1, 15, 8, 30),
        name: "Klausur, schriftlich".to_string(),
        lecturers: Vec::new(),
        locations: Vec::new(),
        courses: Vec::new(),
        data: EventData::Exam,
    }
}

fn written(event: &Event) -> String {
    let mut output = Vec::new();
    write_lecture(&mut output, event);
    String::from_utf8(output).unwrap()
}

#[test]
fn block_of_a_lecture() {
    let event = lecture();
    let wanted = format!(
        "BEGIN:VEVENT\r\n\
         UID:{}@icalnigma\r\n\
         CREATED:20210921T104200Z\r\n\
         DTSTART:20211004T070000Z\r\n\
         DTEND:20211004T101500Z\r\n\
         SUMMARY:Mathematik - Vorlesung\r\n\
         LOCATION:Hörsaal 1\\, Raum 2\r\n\
         CATEGORIES:Informatik,Pflicht\r\n\
         ORGANIZER;CN=\"Prof. A\":noreply@siphalor.de\r\n\
         ATTENDEE;CN=\"Prof. A\":noreply@siphalor.de\r\n\
         ATTENDEE;CN=\"Dr. B, C\":noreply@siphalor.de\r\n\
         ATTENDEE;CN=\"INF-23A\":noreply@siphalor.de\r\n\
         ATTENDEE;CN=\"INF-23B\":noreply@siphalor.de\r\n\
         DESCRIPTION:Informatik\\, Pflicht\\n\\nSprache: Deutsch\\nInsgesamte Stunden\r\n \
         : 48\\nDozent:innen: Prof. A\\, Dr. B\\, C\\n\r\n\
         END:VEVENT\r\n",
        event.hash()
    );
    assert_eq!(written(&event), wanted);
}

#[test]
fn block_of_an_exam_without_people_and_places() {
    let event = exam();
    let wanted = format!(
        "BEGIN:VEVENT\r\n\
         UID:{}@icalnigma\r\n\
         DTSTART:20240115T070000Z\r\n\
         DTEND:20240115T083000Z\r\n\
         SUMMARY:Klausur\\, schriftlich\r\n\
         DESCRIPTION:Dozent:innen sind aufgrund von Datenschutzbedenken der DHBW \r\n \
         nicht mehr öffentlich!\r\n\
         END:VEVENT\r\n",
        event.hash()
    );
    assert_eq!(written(&event), wanted);
}

#[test]
fn block_of_a_lecture_of_which_little_is_known() {
    let mut event = exam();
    event.name = "Seminar".to_string();
    event.locations = vec!["".to_string()];
    event.courses = vec!["INF-1".to_string()];
    event.data = EventData::Lecture {
        number: None,
        language: None,
        kind: None,
        categories: Vec::new(),
        total_hours: Some(0),
    };
    let wanted = format!(
        "BEGIN:VEVENT\r\n\
         UID:{}@icalnigma\r\n\
         DTSTART:20240115T070000Z\r\n\
         DTEND:20240115T083000Z\r\n\
         SUMMARY:Seminar\r\n\
         LOCATION:\r\n\
         ATTENDEE;CN=\"INF-1\":noreply@siphalor.de\r\n\
         DESCRIPTION:Insgesamte Stunden: 0\\nDozent:innen sind aufgrund von Datens\r\n \
         chutzbedenken der DHBW nicht mehr öffentlich!\r\n\
         END:VEVENT\r\n",
        event.hash()
    );
    assert_eq!(written(&event), wanted);
}

/// Folds a line character by character: a character goes on the line
/// while the line stays within 72 bytes.
fn folded(line: &str) -> String {
    let mut out = String::new();
    let mut length = 0;
    for c in line.chars() {
        if length + c.len_utf8() > 72 {
            out.push_str("\r\n ");
            length = 0;
        }
        out.push(c);
        length += c.len_utf8();
    }
    if !line.is_empty() {
        out.push_str("\r\n");
    }
    out
}

#[test]
fn block_is_its_lines_folded_one_by_one() {
    let event = lecture();
    let lines = [
        "BEGIN:VEVENT".to_string(),
        format!("UID:{}@icalnigma", event.hash()),
        "CREATED:20210921T104200Z".to_string(),
        "DTSTART:20211004T070000Z".to_string(),
        "DTEND:20211004T101500Z".to_string(),
        "SUMMARY:Mathematik - Vorlesung".to_string(),
        "LOCATION:Hörsaal 1\\, Raum 2".to_string(),
        "CATEGORIES:Informatik,Pflicht".to_string(),
        "ORGANIZER;CN=\"Prof. A\":noreply@siphalor.de".to_string(),
        "ATTENDEE;CN=\"Prof. A\":noreply@siphalor.de".to_string(),
        "ATTENDEE;CN=\"Dr. B, C\":noreply@siphalor.de".to_string(),
        "ATTENDEE;CN=\"INF-23A\":noreply@siphalor.de".to_string(),
        "ATTENDEE;CN=\"INF-23B\":noreply@siphalor.de".to_string(),
        "DESCRIPTION:Informatik\\, Pflicht\\n\\nSprache: Deutsch\\nInsgesamte Stunden: 48\\nDozent:innen: Prof. A\\, Dr. B\\, C\\n".to_string(),
        "END:VEVENT".to_string(),
    ];
    let wanted: String = lines.iter().map(|line| folded(line)).collect();
    assert_eq!(written(&event), wanted);
}

#[test]
fn a_long_title_is_folded() {
    let mut event = exam();
    event.name = "ä".repeat(40);
    let text = written(&event);
    assert!(text.contains(&format!("SUMMARY:{}\r\n {}\r\n", "ä".repeat(32), "ä".repeat(8))));
    for line in text.split("\r\n") {
        assert!(line.trim_start_matches(' ').len() <= 72);
    }
}

#[test]
fn calendar_with_header_and_footer() {
    let events = vec![exam(), lecture()];
    let mut output = b"before".to_vec();
    write_calendar_at(&mut output, &events, &time(2024, 3, 9, 8, 7));
    let wanted = format!(
        "beforeBEGIN:VCALENDAR\r\n\
         VERSION:2.0\r\n\
         PRODID:-//Siphalor//DHiCalnigma//DE\r\n\
         X-ICALNIGMA-TIME:09.03.2024 08:07\r\n\
         {}{}END:VCALENDAR\r\n",
        written(&events[0]),
        written(&events[1])
    );
    assert_eq!(String::from_utf8(output).unwrap(), wanted);
}

#[test]
fn calendar_without_events() {
    let mut output = Vec::new();
    write_calendar_at(&mut output, &Vec::new(), &time(1999, 12, 31, 23, 59));
    assert_eq!(
        String::from_utf8(output).unwrap(),
        "BEGIN:VCALENDAR\r\nVERSION:2.0\r\nPRODID:-//Siphalor//DHiCalnigma//DE\r\n\
         X-ICALNIGMA-TIME:31.12.1999 23:59\r\nEND:VCALENDAR\r\n"
    );
}

#[test]
fn calendar_is_marked_with_the_present_time() {
    let events = vec![exam()];
    let before = DateTime::now().unwrap();
    let mut output = Vec::new();
    assert!(write_calendar(&mut output, &events));
    let after = DateTime::now().unwrap();
    let mut with_before = Vec::new();
    write_calendar_at(&mut with_before, &events, &before);
    let mut with_after = Vec::new();
    write_calendar_at(&mut with_after, &events, &after);
    assert!(output == with_before || output == with_after);
}

#[test]
fn uid_is_the_hash_as_a_field() {
    let event = exam();
    let mut output = Vec::new();
    write_ical_field(&mut output, "UID", &format!("{}@icalnigma", event.hash()));
    assert!(written(&event).into_bytes()[14..].starts_with(&output));
}

fn unfolded(written: &str) -> String {
    written.replace("\r\n ", "")
}

#[test]
fn block_is_read_back_by_unfolding() {
    let mut event = lecture();
    event.name = "Höhere Mathematik, Teil 2: ".repeat(8);
    event.locations = vec!["Hörsaal 1".repeat(12), "Raum, links".to_string()];
    let lines: Vec<String> =
        unfolded(&written(&event)).split("\r\n").map(|line| line.to_string()).collect();
    assert_eq!(lines.last().unwrap(), "");
    assert_eq!(lines[0], "BEGIN:VEVENT");
    let value = |key: &str| {
        let line = lines.iter().find(|line| line.starts_with(key)).unwrap();
        line[key.len()..].replace("\\,", ",")
    };
    assert_eq!(value("SUMMARY:"), event.title());
    assert_eq!(value("LOCATION:"), event.locations.join(", "));
    assert_eq!(
        value("DESCRIPTION:"),
        "Informatik, Pflicht\\n\\nSprache: Deutsch\\nInsgesamte Stunden: 48\\nDozent:innen: Prof. A, Dr. B, C\\n"
    );
    assert_eq!(value("UID:"), format!("{}@icalnigma", event.hash()));
    assert_eq!(lines.len(), 15 + 1);
}

#[test]
fn a_fold_mark_in_a_name_breaks_the_block() {
    let mut event = exam();
    event.name = "a\r\n b".to_string();
    assert!(unfolded(&written(&event)).contains("SUMMARY:ab\r\n"));
}
