//! One event from the texts that a page gives for it. A page gives either
//! a tooltip with a table, or two lines of text in the link of the event.
use crate::clock::{read_span, read_stamp, span_at_front, stamp, WallTime};
use crate::error::{fail, reads, Error, Failure, Field};
use crate::metadata::{find, lookup, pairs, Pair};
use crate::model::{Event, EventData, EventDataView, EventView};
use crate::number::{parse_u32, parsed_u32};
use crate::resources::{
    classify, courses_among, list_names, list_resources, locations_among, resource_tokens,
    strings_of,
};
use crate::text::{
    chars_of, equal, has_prefix, pieces, starts_with, texts, tokenize, tokens, trim_start,
    trimmed_start, CharClass,
};
use crate::time::{berlin_moment, DateTime, Moment};
use vstd::prelude::*;
use vstd::string::StringExecFns;

verus! {

/// The time in UTC at which clocks in Berlin show `wall`, where there is
/// exactly one and it lies in the years 0 to 9999.
pub open spec fn local_moment(wall: WallTime) -> Option<Moment> {
    berlin_moment(wall.year, wall.month, wall.day, wall.hour, wall.minute)
}

/// The view of an optional time.
pub open spec fn optional_moment(time: Option<DateTime>) -> Option<Moment> {
    match time {
        Some(t) => Some(t@),
        None => None,
    }
}

/// The event with the given parts, where both times are there and the end
/// is not before the beginning. `text` is what the times were read from.
pub open spec fn finished(
    name: Seq<char>,
    courses: Seq<Seq<char>>,
    locations: Seq<Seq<char>>,
    data: EventDataView,
    creation: Option<Moment>,
    begin: Option<Moment>,
    end: Option<Moment>,
    text: Seq<char>,
) -> Result<EventView, Failure> {
    match (begin, end) {
        (Some(b), Some(e)) => if b.at_or_before(e) {
            Ok(
                EventView {
                    creation,
                    creator: None,
                    begin: b,
                    end: e,
                    name,
                    lecturers: Seq::empty(),
                    locations,
                    courses,
                    data,
                },
            )
        } else {
            Err(fail(Field::TimeRange, text))
        },
        _ => Err(fail(Field::LocalTime, text)),
    }
}

/// Every event that is put together ends no earlier than it begins, at
/// times that exist.
pub proof fn lemma_finished_is_well_formed(
    name: Seq<char>,
    courses: Seq<Seq<char>>,
    locations: Seq<Seq<char>>,
    data: EventDataView,
    creation: Option<Moment>,
    begin: Option<Moment>,
    end: Option<Moment>,
    text: Seq<char>,
)
    requires
        creation matches Some(c) ==> c.valid(),
        begin matches Some(b) ==> b.valid(),
        end matches Some(e) ==> e.valid(),
    ensures
        finished(name, courses, locations, data, creation, begin, end, text) matches Ok(event)
            ==> event.well_formed(),
{
}

/// Every event that is read from the texts of a link or of a tooltip ends
/// no earlier than it begins, at times that exist.
pub proof fn lemma_read_events_are_well_formed(
    lines: Seq<Seq<char>>,
    year: i32,
    month: u32,
    day: u32,
    tooltip: TooltipView,
)
    ensures
        plain_event(lines, year, month, day) matches Ok(event) ==> event.well_formed(),
        detailed_event(tooltip) matches Ok(event) ==> event.well_formed(),
{
}

/// Puts an event together, once its times are known in UTC.
pub fn finish_event(
    name: String,
    courses: Vec<String>,
    locations: Vec<String>,
    data: EventData,
    creation: Option<DateTime>,
    begin: Option<DateTime>,
    end: Option<DateTime>,
    text: &str,
) -> (made: Result<Event, Error>)
    ensures
        reads(
            made,
            finished(
                name@,
                texts(courses@),
                texts(locations@),
                data@,
                optional_moment(creation),
                optional_moment(begin),
                optional_moment(end),
                text@,
            ),
        ),
{
    match (begin, end) {
        (Some(b), Some(e)) => {
            if b.at_or_before(&e) {
                let event = Event {
                    creation,
                    creator: None,
                    begin: b,
                    end: e,
                    name,
                    lecturers: Vec::new(),
                    locations,
                    courses,
                    data,
                };
                assert(event@.lecturers =~= Seq::<Seq<char>>::empty());
                Ok(event)
            } else {
                Err(Error::extraction(Field::TimeRange, text))
            }
        },
        _ => Err(Error::extraction(Field::LocalTime, text)),
    }
}

/// The event that two lines of text describe, on the given day in Berlin:
/// the first line gives the times of day and, after them, the resources;
/// the second gives the name, `missingno` where there is none.
pub open spec fn plain_event(lines: Seq<Seq<char>>, year: i32, month: u32, day: u32) -> Result<
    EventView,
    Failure,
> {
    if lines.len() == 0 {
        Err(fail(Field::Event, Seq::empty()))
    } else {
        match span_at_front(lines[0]) {
            None => Err(fail(Field::Metadata, lines[0])),
            Some(span) => {
                let names = resource_tokens(
                    lines[0].subrange(span.rest as int, lines[0].len() as int),
                );
                finished(
                    if lines.len() > 1 {
                        lines[1]
                    } else {
                        "missingno"@
                    },
                    courses_among(names),
                    locations_among(names),
                    EventDataView::Exam,
                    None,
                    local_moment(
                        WallTime {
                            year,
                            month,
                            day,
                            hour: span.begin_hour,
                            minute: span.begin_minute,
                        },
                    ),
                    local_moment(
                        WallTime { year, month, day, hour: span.end_hour, minute: span.end_minute },
                    ),
                    lines[0],
                )
            },
        }
    }
}

/// Reads an event from the lines of text in its link.
pub fn read_plain_event(lines: &Vec<String>, year: i32, month: u32, day: u32) -> (made: Result<
    Event,
    Error,
>)
    ensures
        reads(made, plain_event(texts(lines@), year, month, day)),
{
    if lines.len() == 0 {
        return Err(Error::missing(Field::Event));
    }
    assert(texts(lines@)[0] == lines@[0]@);
    let chars = chars_of(lines[0].as_str());
    let span = match read_span(chars.as_slice()) {
        Some(span) => span,
        None => {
            return Err(Error::extraction(Field::Metadata, lines[0].as_str()));
        },
    };
    let names = list_names(&chars.as_slice()[span.rest..chars.len()]);
    let (courses, locations) = classify(&names);
    let name = if lines.len() > 1 {
        assert(texts(lines@)[1] == lines@[1]@);
        lines[1].clone()
    } else {
        String::from_str("missingno")
    };
    let begin = DateTime::from_berlin(year, month, day, span.begin_hour, span.begin_minute);
    let end = DateTime::from_berlin(year, month, day, span.end_hour, span.end_minute);
    finish_event(name, courses, locations, EventData::Exam, None, begin, end, lines[0].as_str())
}

/// The texts of a tooltip: the label of the kind of event, the line that
/// tells when the event was created, the line that tells when it takes
/// place, and the rows of the table.
#[derive(Clone, Debug, PartialEq, Eq)]
pub struct Tooltip {
    pub label: String,
    pub created: String,
    pub range: String,
    pub metadata: Vec<(String, String)>,
}

/// The texts of a tooltip as character sequences.
pub struct TooltipView {
    pub label: Seq<char>,
    pub created: Seq<char>,
    pub range: Seq<char>,
    pub metadata: Seq<Pair>,
}

impl View for Tooltip {
    type V = TooltipView;

    open spec fn view(&self) -> TooltipView {
        TooltipView {
            label: self.label@,
            created: self.created@,
            range: self.range@,
            metadata: pairs(self.metadata@),
        }
    }
}

/// What the table tells of a lecture.
pub open spec fn lecture_data(metadata: Seq<Pair>) -> EventDataView {
    EventDataView::Lecture {
        number: lookup(metadata, "Veranstaltungsnummer"@),
        language: lookup(metadata, "Sprache"@),
        kind: lookup(metadata, "Veranstaltungsart"@),
        categories: match lookup(metadata, "Veranstaltungskategorie"@) {
            Some(list) => resource_tokens(list),
            None => Seq::empty(),
        },
        total_hours: match lookup(metadata, "Soll-Stunden"@) {
            Some(hours) => parsed_u32(hours),
            None => None,
        },
    }
}

/// The kind of event that `label` names, with what the table tells of it.
/// The label is the one that stands at the head of the tooltip. The row
/// `Veranstaltungsart` of the table does not choose the kind of event: it
/// names the kind of a lecture, which is shown after the name in the title.
pub open spec fn event_data(label: Seq<char>, metadata: Seq<Pair>) -> Result<
    EventDataView,
    Failure,
> {
    if label == "Lehrveranstaltung"@ {
        Ok(lecture_data(metadata))
    } else if label == "Prüfung"@ {
        Ok(EventDataView::Exam)
    } else if label == "Sonstiger Termin"@ {
        Ok(EventDataView::Other)
    } else {
        Err(fail(Field::Kind, label))
    }
}

/// The title that the table gives: the value under `Veranstaltungsname`,
/// else that under `Titel`, else that under `Name`, else nothing.
pub open spec fn title_of(metadata: Seq<Pair>) -> Seq<char> {
    match lookup(metadata, "Veranstaltungsname"@) {
        Some(title) => title,
        None => match lookup(metadata, "Titel"@) {
            Some(title) => title,
            None => match lookup(metadata, "Name"@) {
                Some(title) => title,
                None => Seq::empty(),
            },
        },
    }
}

/// The names under `Ressourcen` in the table.
pub open spec fn resources_of(metadata: Seq<Pair>) -> Seq<Seq<char>> {
    match lookup(metadata, "Ressourcen"@) {
        Some(list) => resource_tokens(list),
        None => Seq::empty(),
    }
}

/// The point in time that a line of creation names: after white space the
/// line begins with `erstellt am`, and the 14 characters that follow are
/// read as `dd.mm.yyHH:MM`.
pub open spec fn created_stamp(text: Seq<char>) -> Option<WallTime> {
    let line = trimmed_start(text);
    let from = "erstellt am"@.len();
    if has_prefix(line, "erstellt am"@) && from + 14 <= line.len() {
        stamp(line.subrange(from as int, from as int + 14))
    } else {
        None
    }
}

/// The two points in time that a line of a time range names. The line is
/// cut at white space and hyphens; the first piece, a day of the week, is
/// passed over; then follow the date, the time of the beginning and the
/// time of the end. The date with each time is read as `dd.mm.yyHH:MM`.
pub open spec fn range_stamps(text: Seq<char>) -> Option<(WallTime, WallTime)> {
    let found = tokens(text, CharClass::WhitespaceOrHyphen);
    if found.len() >= 4 {
        match (stamp(found[1] + found[2]), stamp(found[1] + found[3])) {
            (Some(begin), Some(end)) => Some((begin, end)),
            _ => None,
        }
    } else {
        None
    }
}

/// The event that the texts of a tooltip describe.
pub open spec fn detailed_event(tooltip: TooltipView) -> Result<EventView, Failure> {
    match event_data(tooltip.label, tooltip.metadata) {
        Err(failure) => Err(failure),
        Ok(data) => match created_stamp(tooltip.created) {
            None => Err(fail(Field::Created, tooltip.created)),
            Some(created) => match range_stamps(tooltip.range) {
                None => Err(fail(Field::TimeRange, tooltip.range)),
                Some((begin, end)) => match local_moment(created) {
                    None => Err(fail(Field::LocalTime, tooltip.created)),
                    Some(creation) => finished(
                        title_of(tooltip.metadata),
                        courses_among(resources_of(tooltip.metadata)),
                        locations_among(resources_of(tooltip.metadata)),
                        data,
                        Some(creation),
                        local_moment(begin),
                        local_moment(end),
                        tooltip.range,
                    ),
                },
            },
        },
    }
}

/// Reads what the table tells of a lecture.
pub fn read_lecture_data(metadata: &Vec<(String, String)>) -> (data: EventData)
    ensures
        data@ == lecture_data(pairs(metadata@)),
{
    let categories = match find(metadata, "Veranstaltungskategorie") {
        Some(list) => {
            let names = list_resources(list.as_str());
            strings_of(&names)
        },
        None => {
            let none: Vec<String> = Vec::new();
            assert(texts(none@) =~= Seq::<Seq<char>>::empty());
            none
        },
    };
    let total_hours = match find(metadata, "Soll-Stunden") {
        Some(hours) => {
            let chars = chars_of(hours.as_str());
            parse_u32(chars.as_slice())
        },
        None => None,
    };
    EventData::Lecture {
        number: find(metadata, "Veranstaltungsnummer"),
        language: find(metadata, "Sprache"),
        kind: find(metadata, "Veranstaltungsart"),
        categories,
        total_hours,
    }
}

/// Reads the kind of event that `label` names.
pub fn read_event_data(label: &str, metadata: &Vec<(String, String)>) -> (data: Result<
    EventData,
    Error,
>)
    ensures
        reads(data, event_data(label@, pairs(metadata@))),
{
    if equal(label, "Lehrveranstaltung") {
        Ok(read_lecture_data(metadata))
    } else if equal(label, "Prüfung") {
        Ok(EventData::Exam)
    } else if equal(label, "Sonstiger Termin") {
        Ok(EventData::Other)
    } else {
        Err(Error::extraction(Field::Kind, label))
    }
}

/// Reads the title that the table gives.
pub fn read_title(metadata: &Vec<(String, String)>) -> (title: String)
    ensures
        title@ == title_of(pairs(metadata@)),
{
    match find(metadata, "Veranstaltungsname") {
        Some(title) => title,
        None => match find(metadata, "Titel") {
            Some(title) => title,
            None => match find(metadata, "Name") {
                Some(title) => title,
                None => String::new(),
            },
        },
    }
}

/// Reads the names under `Ressourcen` in the table.
pub fn read_resources(metadata: &Vec<(String, String)>) -> (names: Vec<Vec<char>>)
    ensures
        pieces(names@) == resources_of(pairs(metadata@)),
{
    match find(metadata, "Ressourcen") {
        Some(list) => list_resources(list.as_str()),
        None => {
            let none: Vec<Vec<char>> = Vec::new();
            assert(pieces(none@) =~= Seq::<Seq<char>>::empty());
            none
        },
    }
}

/// Reads the point in time that a line of creation names.
pub fn read_created(text: &str) -> (found: Option<WallTime>)
    ensures
        found == created_stamp(text@),
{
    let chars = chars_of(text);
    let line = trim_start(chars.as_slice());
    let prefix = chars_of("erstellt am");
    let from = prefix.len();
    if !starts_with(line, "erstellt am") {
        return None;
    }
    if line.len() - from < 14 {
        return None;
    }
    read_stamp(&line[from..from + 14])
}

/// Writes one text after another.
fn concat(first: &Vec<char>, second: &Vec<char>) -> (both: Vec<char>)
    ensures
        both@ == first@ + second@,
{
    let mut both: Vec<char> = Vec::new();
    let mut i: usize = 0;
    while i < first.len()
        invariant
            i <= first.len(),
            both@ =~= first@.subrange(0, i as int),
        decreases first.len() - i,
    {
        both.push(first[i]);
        i += 1;
    }
    let mut j: usize = 0;
    while j < second.len()
        invariant
            j <= second.len(),
            both@ =~= first@ + second@.subrange(0, j as int),
        decreases second.len() - j,
    {
        both.push(second[j]);
        j += 1;
    }
    assert(second@.subrange(0, second.len() as int) =~= second@);
    both
}

/// Reads the two points in time that a line of a time range names.
pub fn read_range(text: &str) -> (found: Option<(WallTime, WallTime)>)
    ensures
        found == range_stamps(text@),
{
    let chars = chars_of(text);
    let found = tokenize(chars.as_slice(), CharClass::WhitespaceOrHyphen);
    if found.len() < 4 {
        assert(pieces(found@).len() == found@.len());
        return None;
    }
    assert(pieces(found@)[1] == found@[1]@);
    assert(pieces(found@)[2] == found@[2]@);
    assert(pieces(found@)[3] == found@[3]@);
    let first = concat(&found[1], &found[2]);
    let second = concat(&found[1], &found[3]);
    match (read_stamp(first.as_slice()), read_stamp(second.as_slice())) {
        (Some(begin), Some(end)) => Some((begin, end)),
        _ => None,
    }
}

/// Reads an event from the texts of its tooltip.
pub fn read_detailed_event(tooltip: &Tooltip) -> (made: Result<Event, Error>)
    ensures
        reads(made, detailed_event(tooltip@)),
{
    let data = match read_event_data(tooltip.label.as_str(), &tooltip.metadata) {
        Ok(data) => data,
        Err(error) => {
            return Err(error);
        },
    };
    let created = match read_created(tooltip.created.as_str()) {
        Some(created) => created,
        None => {
            return Err(Error::extraction(Field::Created, tooltip.created.as_str()));
        },
    };
    let (begin, end) = match read_range(tooltip.range.as_str()) {
        Some(found) => found,
        None => {
            return Err(Error::extraction(Field::TimeRange, tooltip.range.as_str()));
        },
    };
    let creation = match DateTime::from_berlin(
        created.year,
        created.month,
        created.day,
        created.hour,
        created.minute,
    ) {
        Some(creation) => creation,
        None => {
            return Err(Error::extraction(Field::LocalTime, tooltip.created.as_str()));
        },
    };
    let names = read_resources(&tooltip.metadata);
    let (courses, locations) = classify(&names);
    finish_event(
        read_title(&tooltip.metadata),
        courses,
        locations,
        data,
        Some(creation),
        DateTime::from_berlin(begin.year, begin.month, begin.day, begin.hour, begin.minute),
        DateTime::from_berlin(end.year, end.month, end.day, end.hour, end.minute),
        tooltip.range.as_str(),
    )
}

} // verus!
