//! The calendar file: a header, one block of content lines for each event,
//! and a footer.
use crate::folding::{
    ended_lines, folded, folded_lines, folds_cleanly, lemma_free_of_returns_folds_cleanly,
    lemma_text_free_of_returns, lemma_unfolding_restores, lemma_unfolding_restores_lines,
    reads_back, unfolded, write_ical_line, CARRIAGE_RETURN, LINE_FEED, SPACE,
};
use crate::model::{
    lecturer_names, views, Event, EventData, EventDataView, EventView, Lecturer,
};
use crate::number::{decimal, lemma_decimal_holds_digits, push_decimal};
use crate::text::{
    all_returns_free, escape_commas, escaped_commas, join, joined,
    lemma_escaped_commas_returns_free, lemma_joined_returns_free, lemma_unescape_restores,
    returns_free, texts, unescaped_commas,
};
use crate::time::{DateTime, Moment};
use vstd::prelude::*;
use vstd::string::StringExecFns;
use vstd::utf8::{decode_utf8, encode_utf8};

verus! {

/// The content line of a field: the key, a colon, and the value with its
/// commas escaped.
pub open spec fn field_line(key: Seq<char>, value: Seq<char>) -> Seq<char> {
    key.push(':') + escaped_commas(value)
}

/// The content line that gives a time to the minute under `label`, which
/// ends in a colon. The seconds are always written as `00`.
pub open spec fn time_line(label: Seq<char>, time: Moment) -> Seq<char> {
    label + time.compact() + "00Z"@
}

/// The content line that names a person or a course in the role `role`.
pub open spec fn person_line(role: Seq<char>, name: Seq<char>) -> Seq<char> {
    role + ";CN=\""@ + name + "\":noreply@siphalor.de"@
}

/// The lines that name each of `names` as an attendee.
pub open spec fn attendee_lines(names: Seq<Seq<char>>) -> Seq<Seq<char>> {
    names.map_values(|name: Seq<char>| person_line("ATTENDEE"@, name))
}

/// What the description says of a lecture: its categories, its language
/// and its hours, as far as they are known.
pub open spec fn lecture_notes(data: EventDataView) -> Seq<char> {
    match data {
        EventDataView::Lecture { categories, language, total_hours, .. } => {
            (if categories.len() > 0 {
                joined(categories, ", "@) + "\\n\\n"@
            } else {
                Seq::empty()
            }) + (match language {
                Some(l) => "Sprache: "@ + l + "\\n"@,
                None => Seq::empty(),
            }) + (match total_hours {
                Some(h) => "Insgesamte Stunden: "@ + decimal(h as nat) + "\\n"@,
                None => Seq::empty(),
            })
        },
        _ => Seq::empty(),
    }
}

/// What the description says of the lecturers, by their names.
pub open spec fn lecturer_notes(lecturers: Seq<Seq<char>>) -> Seq<char> {
    if lecturers.len() > 0 {
        "Dozent:innen: "@ + joined(lecturers, ", "@) + "\\n"@
    } else {
        "Dozent:innen sind aufgrund von Datenschutzbedenken der DHBW nicht mehr öffentlich!"@
    }
}

/// The description of an event.
pub open spec fn description(event: EventView) -> Seq<char> {
    lecture_notes(event.data) + lecturer_notes(event.lecturers)
}

/// The line that gives the creation time, where there is one.
pub open spec fn creation_lines(event: EventView) -> Seq<Seq<char>> {
    match event.creation {
        Some(time) => seq![time_line("CREATED:"@, time)],
        None => Seq::empty(),
    }
}

/// The line that gives the locations, where there are any.
pub open spec fn location_lines(event: EventView) -> Seq<Seq<char>> {
    if event.locations.len() > 0 {
        seq![field_line("LOCATION"@, joined(event.locations, ", "@))]
    } else {
        Seq::empty()
    }
}

/// The line that gives the categories of a lecture, where there are any.
pub open spec fn category_lines(event: EventView) -> Seq<Seq<char>> {
    match event.data {
        EventDataView::Lecture { categories, .. } => if categories.len() > 0 {
            seq!["CATEGORIES:"@ + joined(categories, ","@)]
        } else {
            Seq::empty()
        },
        _ => Seq::empty(),
    }
}

/// The lines for the lecturers: the first as organizer, then each as
/// attendee.
pub open spec fn lecturer_lines(event: EventView) -> Seq<Seq<char>> {
    if event.lecturers.len() > 0 {
        seq![person_line("ORGANIZER"@, event.lecturers[0])] + attendee_lines(event.lecturers)
    } else {
        Seq::empty()
    }
}

/// The lines that open the block of an event: its identity, its times, its
/// title and its locations.
pub open spec fn opening_lines(event: EventView) -> Seq<Seq<char>> {
    seq![
        "BEGIN:VEVENT"@,
        field_line("UID"@, decimal(event.hash_value() as nat) + "@icalnigma"@),
    ] + creation_lines(event) + seq![
        time_line("DTSTART:"@, event.begin),
        time_line("DTEND:"@, event.end),
        field_line("SUMMARY"@, event.title_text()),
    ] + location_lines(event)
}

/// The lines that close the block of an event: its description and the end
/// mark.
pub open spec fn closing_lines(event: EventView) -> Seq<Seq<char>> {
    seq![field_line("DESCRIPTION"@, description(event)), "END:VEVENT"@]
}

/// The content lines of the block of an event, in order.
pub open spec fn event_lines(event: EventView) -> Seq<Seq<char>> {
    opening_lines(event) + category_lines(event) + lecturer_lines(event) + attendee_lines(
        event.courses,
    ) + closing_lines(event)
}

/// What is written for an event.
pub open spec fn event_text(event: EventView) -> Seq<u8> {
    folded_lines(event_lines(event))
}

/// What is written for the events of `events`, one after the other.
pub open spec fn events_text(events: Seq<EventView>) -> Seq<u8>
    decreases events.len(),
{
    if events.len() == 0 {
        Seq::empty()
    } else {
        events_text(events.drop_last()) + event_text(events.last())
    }
}

/// The content lines before the first event of a calendar made at
/// `generated`.
pub open spec fn header_lines(generated: Moment) -> Seq<Seq<char>> {
    seq![
        "BEGIN:VCALENDAR"@,
        "VERSION:2.0"@,
        "PRODID:-//Siphalor//DHiCalnigma//DE"@,
        "X-ICALNIGMA-TIME:"@ + generated.dotted(),
    ]
}

/// The calendar file for `events`, made at `generated`.
pub open spec fn calendar_text(events: Seq<EventView>, generated: Moment) -> Seq<u8> {
    folded_lines(header_lines(generated)) + events_text(events) + folded_lines(
        seq!["END:VCALENDAR"@],
    )
}

/// The lines written for `lines` and one more line.
pub proof fn lemma_folded_lines_push(lines: Seq<Seq<char>>, line: Seq<char>)
    ensures
        folded_lines(lines.push(line)) == folded_lines(lines) + folded(encode_utf8(line)),
{
    assert(lines.push(line).drop_last() =~= lines);
}

/// The lines written for two runs of lines, one after the other.
pub proof fn lemma_folded_lines_concat(first: Seq<Seq<char>>, second: Seq<Seq<char>>)
    ensures
        folded_lines(first + second) == folded_lines(first) + folded_lines(second),
    decreases second.len(),
{
    if second.len() == 0 {
        assert(first + second =~= first);
        assert(folded_lines(first) + folded_lines(second) =~= folded_lines(first));
    } else {
        lemma_folded_lines_concat(first, second.drop_last());
        assert((first + second).drop_last() =~= first + second.drop_last());
        assert(folded_lines(first + second) =~= folded_lines(first) + (folded_lines(
            second.drop_last(),
        ) + folded(encode_utf8(second.last()))));
    }
}

/// A field that was written is read back whole: unfolding what was written
/// gives the content line and its line end, the line begins with the key
/// and a colon, and taking the escapes out of the rest gives the value.
/// This holds unless a physical line of the field holds a carriage return,
/// a line feed and a space in a row.
pub proof fn lemma_field_reads_back(key: Seq<char>, value: Seq<char>)
    requires
        folds_cleanly(encode_utf8(field_line(key, value))),
    ensures
        ({
            let logical = unfolded(folded(encode_utf8(field_line(key, value))));
            let line = decode_utf8(logical.subrange(0, logical.len() - 2));
            &&& logical.len() >= 2
            &&& logical.subrange(logical.len() - 2, logical.len() as int) == seq![
                CARRIAGE_RETURN,
                LINE_FEED,
            ]
            &&& line.len() > key.len()
            &&& line.subrange(0, key.len() as int) == key
            &&& line[key.len() as int] == ':'
            &&& unescaped_commas(line.subrange(key.len() as int + 1, line.len() as int)) == value
        }),
{
    let content = field_line(key, value);
    let bytes = encode_utf8(content);
    assert(bytes.len() > 0) by {
        assert(content.len() > 0);
        assert(bytes == vstd::utf8::encode_scalar(content[0] as u32) + encode_utf8(
            content.drop_first(),
        ));
    }
    lemma_unfolding_restores(bytes);
    let logical = unfolded(folded(bytes));
    assert(logical.subrange(0, logical.len() - 2) =~= bytes);
    assert(logical.subrange(logical.len() - 2, logical.len() as int) =~= seq![
        CARRIAGE_RETURN,
        LINE_FEED,
    ]);
    vstd::utf8::encode_utf8_decode_utf8(content);
    assert(content.subrange(0, key.len() as int) =~= key);
    assert(content.subrange(key.len() as int + 1, content.len() as int) =~= escaped_commas(value));
    lemma_unescape_restores(value);
}

/// Whether `line` begins with one of the letters `A` to `Z`.
pub open spec fn begins_plainly(line: Seq<char>) -> bool {
    line.len() > 0 && 'A' <= line[0] <= 'Z'
}

/// A line that begins with a letter from `A` to `Z` is written with that
/// letter as its first byte.
proof fn lemma_plain_beginning(line: Seq<char>)
    requires
        begins_plainly(line),
    ensures
        encode_utf8(line).len() > 0,
        encode_utf8(line)[0] != SPACE,
        encode_utf8(line)[0] != LINE_FEED,
{
    let scalar = line[0] as u32;
    assert(0x41 <= scalar <= 0x5a);
    assert(scalar & 0x7F == scalar) by (bit_vector)
        requires
            scalar <= 0x7f,
    ;
    assert(encode_utf8(line) == vstd::utf8::encode_scalar(scalar) + encode_utf8(
        line.drop_first(),
    ));
    assert(vstd::utf8::encode_scalar(scalar) =~= seq![scalar as u8]);
}

/// Every content line of the block of an event begins with a letter from
/// `A` to `Z`.
proof fn lemma_event_lines_begin_plainly(event: EventView)
    ensures
        forall|i: int|
            0 <= i < event_lines(event).len() ==> begins_plainly(#[trigger] event_lines(event)[i]),
{
    reveal_strlit("BEGIN:VEVENT");
    reveal_strlit("UID");
    reveal_strlit("CREATED:");
    reveal_strlit("DTSTART:");
    reveal_strlit("DTEND:");
    reveal_strlit("SUMMARY");
    reveal_strlit("LOCATION");
    reveal_strlit("CATEGORIES:");
    reveal_strlit("ORGANIZER");
    reveal_strlit("ATTENDEE");
    reveal_strlit("DESCRIPTION");
    reveal_strlit("END:VEVENT");
    let opening = opening_lines(event);
    let categories = category_lines(event);
    let lecturers = lecturer_lines(event);
    let courses = attendee_lines(event.courses);
    let closing = closing_lines(event);
    assert forall|i: int| 0 <= i < opening.len() implies begins_plainly(#[trigger] opening[i]) by {
        let first = seq![
            "BEGIN:VEVENT"@,
            field_line("UID"@, decimal(event.hash_value() as nat) + "@icalnigma"@),
        ];
        let times = seq![
            time_line("DTSTART:"@, event.begin),
            time_line("DTEND:"@, event.end),
            field_line("SUMMARY"@, event.title_text()),
        ];
        let created = creation_lines(event);
        let places = location_lines(event);
        assert(opening == first + created + times + places);
        if i < 2 {
            assert(opening[i] == first[i]);
        } else if i < 2 + created.len() {
            assert(opening[i] == created[i - 2]);
        } else if i < 2 + created.len() + 3 {
            assert(opening[i] == times[i - 2 - created.len()]);
        } else {
            assert(opening[i] == places[i - 2 - created.len() - 3]);
        }
    }
    assert forall|i: int| 0 <= i < categories.len() implies begins_plainly(
        #[trigger] categories[i],
    ) by {}
    assert forall|i: int| 0 <= i < lecturers.len() implies begins_plainly(
        #[trigger] lecturers[i],
    ) by {
        if i > 0 {
            assert(lecturers[i] == attendee_lines(event.lecturers)[i - 1]);
        }
    }
    assert forall|i: int| 0 <= i < courses.len() implies begins_plainly(#[trigger] courses[i]) by {}
    assert forall|i: int| 0 <= i < closing.len() implies begins_plainly(#[trigger] closing[i]) by {}
    let lines = event_lines(event);
    assert(lines == opening + categories + lecturers + courses + closing);
    assert forall|i: int| 0 <= i < lines.len() implies begins_plainly(#[trigger] lines[i]) by {
        let a = opening.len() as int;
        let b = a + categories.len();
        let c = b + lecturers.len();
        let d = c + courses.len();
        if i < a {
            assert(lines[i] == opening[i]);
        } else if i < b {
            assert(lines[i] == categories[i - a]);
        } else if i < c {
            assert(lines[i] == lecturers[i - b]);
        } else if i < d {
            assert(lines[i] == courses[i - c]);
        } else {
            assert(lines[i] == closing[i - d]);
        }
    }
}

/// The content line of a field holds its key, a colon and its value: what
/// follows the colon, with the escapes taken out, is the value.
pub proof fn lemma_field_line_holds_value(key: Seq<char>, value: Seq<char>)
    ensures
        field_line(key, value).len() > key.len(),
        field_line(key, value).subrange(0, key.len() as int) == key,
        field_line(key, value)[key.len() as int] == ':',
        unescaped_commas(
            field_line(key, value).subrange(
                key.len() as int + 1,
                field_line(key, value).len() as int,
            ),
        ) == value,
{
    let line = field_line(key, value);
    assert(line.subrange(0, key.len() as int) =~= key);
    assert(line.subrange(key.len() as int + 1, line.len() as int) =~= escaped_commas(value));
    lemma_unescape_restores(value);
}

/// The block of an event is read back whole: unfolding what was written
/// for the event gives its content lines, each with its line end. Among
/// them are the lines of the fields `SUMMARY`, `LOCATION` and
/// `DESCRIPTION`, which hold the title, the locations and the description
/// as `lemma_field_line_holds_value` says. This holds unless a physical
/// line of the block holds a carriage return, a line feed and a space in a
/// row.
pub proof fn lemma_block_reads_back(event: EventView)
    requires
        forall|i: int|
            0 <= i < event_lines(event).len() ==> folds_cleanly(
                encode_utf8(#[trigger] event_lines(event)[i]),
            ),
    ensures
        unfolded(event_text(event)) == ended_lines(event_lines(event)),
{
    let lines = event_lines(event);
    lemma_event_lines_begin_plainly(event);
    assert forall|i: int| 0 <= i < lines.len() implies reads_back(
        encode_utf8(#[trigger] lines[i]),
    ) by {
        assert(begins_plainly(lines[i]));
        lemma_plain_beginning(lines[i]);
    }
    lemma_unfolding_restores_lines(lines);
}

/// Whether the texts of an event that are written into its block hold no
/// carriage return.
pub open spec fn plain_event(event: EventView) -> bool {
    &&& returns_free(event.name)
    &&& all_returns_free(event.lecturers)
    &&& all_returns_free(event.locations)
    &&& all_returns_free(event.courses)
    &&& event.data matches EventDataView::Lecture { language, kind, categories, .. } ==> {
        &&& all_returns_free(categories)
        &&& language matches Some(l) ==> returns_free(l)
        &&& kind matches Some(k) ==> returns_free(k)
    }
}

/// The line of a field holds no carriage return where key and value hold
/// none.
proof fn lemma_field_line_returns_free(key: Seq<char>, value: Seq<char>)
    requires
        returns_free(key),
        returns_free(value),
    ensures
        returns_free(field_line(key, value)),
{
    lemma_escaped_commas_returns_free(value);
}

/// The line of a time holds no carriage return where its label holds none.
proof fn lemma_time_line_returns_free(label: Seq<char>, time: Moment)
    requires
        returns_free(label),
    ensures
        returns_free(time_line(label, time)),
{
    reveal_strlit("00Z");
    assert(returns_free(time.compact()));
}

/// The line of a person holds no carriage return where role and name hold
/// none.
proof fn lemma_person_line_returns_free(role: Seq<char>, name: Seq<char>)
    requires
        returns_free(role),
        returns_free(name),
    ensures
        returns_free(person_line(role, name)),
{
    reveal_strlit(";CN=\"");
    reveal_strlit("\":noreply@siphalor.de");
}

/// The lines of attendees hold no carriage return where the names hold
/// none.
proof fn lemma_attendee_lines_returns_free(names: Seq<Seq<char>>)
    requires
        all_returns_free(names),
    ensures
        all_returns_free(attendee_lines(names)),
{
    reveal_strlit("ATTENDEE");
    assert forall|i: int| 0 <= i < attendee_lines(names).len() implies returns_free(
        #[trigger] attendee_lines(names)[i],
    ) by {
        assert(returns_free(names[i]));
        lemma_person_line_returns_free("ATTENDEE"@, names[i]);
    }
}

/// The description of an event holds no carriage return where the texts of
/// the event hold none.
proof fn lemma_description_returns_free(event: EventView)
    requires
        plain_event(event),
    ensures
        returns_free(description(event)),
{
    reveal_strlit(", ");
    reveal_strlit("\\n\\n");
    reveal_strlit("\\n");
    reveal_strlit("Sprache: ");
    reveal_strlit("Insgesamte Stunden: ");
    reveal_strlit("Dozent:innen: ");
    reveal_strlit(
        "Dozent:innen sind aufgrund von Datenschutzbedenken der DHBW nicht mehr öffentlich!",
    );
    lemma_joined_returns_free(event.lecturers, ", "@);
    assert(returns_free(lecturer_notes(event.lecturers)));
    match event.data {
        EventDataView::Lecture { categories, language, total_hours, .. } => {
            lemma_joined_returns_free(categories, ", "@);
            match total_hours {
                Some(hours) => {
                    lemma_decimal_holds_digits(hours as nat);
                    assert(returns_free(decimal(hours as nat)));
                },
                None => {},
            }
            assert(returns_free(lecture_notes(event.data)));
        },
        _ => {},
    }
}

/// The content lines of the block of an event hold no carriage return
/// where the texts of the event hold none.
proof fn lemma_event_lines_returns_free(event: EventView)
    requires
        plain_event(event),
    ensures
        all_returns_free(event_lines(event)),
{
    reveal_strlit("BEGIN:VEVENT");
    reveal_strlit("UID");
    reveal_strlit("@icalnigma");
    reveal_strlit("CREATED:");
    reveal_strlit("DTSTART:");
    reveal_strlit("DTEND:");
    reveal_strlit("SUMMARY");
    reveal_strlit(" - ");
    reveal_strlit("LOCATION");
    reveal_strlit(", ");
    reveal_strlit(",");
    reveal_strlit("CATEGORIES:");
    reveal_strlit("ORGANIZER");
    reveal_strlit("DESCRIPTION");
    reveal_strlit("END:VEVENT");
    let opening = opening_lines(event);
    let categories = category_lines(event);
    let lecturers = lecturer_lines(event);
    let courses = attendee_lines(event.courses);
    let closing = closing_lines(event);
    assert(all_returns_free(opening)) by {
        lemma_decimal_holds_digits(event.hash_value() as nat);
        assert(returns_free(decimal(event.hash_value() as nat) + "@icalnigma"@));
        lemma_field_line_returns_free(
            "UID"@,
            decimal(event.hash_value() as nat) + "@icalnigma"@,
        );
        lemma_time_line_returns_free("DTSTART:"@, event.begin);
        lemma_time_line_returns_free("DTEND:"@, event.end);
        assert(returns_free(event.title_text()));
        lemma_field_line_returns_free("SUMMARY"@, event.title_text());
        let first = seq![
            "BEGIN:VEVENT"@,
            field_line("UID"@, decimal(event.hash_value() as nat) + "@icalnigma"@),
        ];
        let times = seq![
            time_line("DTSTART:"@, event.begin),
            time_line("DTEND:"@, event.end),
            field_line("SUMMARY"@, event.title_text()),
        ];
        let created = creation_lines(event);
        let places = location_lines(event);
        assert(all_returns_free(created)) by {
            match event.creation {
                Some(time) => {
                    lemma_time_line_returns_free("CREATED:"@, time);
                },
                None => {},
            }
        }
        assert(all_returns_free(places)) by {
            lemma_joined_returns_free(event.locations, ", "@);
            lemma_field_line_returns_free("LOCATION"@, joined(event.locations, ", "@));
        }
        assert(opening == first + created + times + places);
        assert forall|i: int| 0 <= i < opening.len() implies returns_free(
            #[trigger] opening[i],
        ) by {
            if i < 2 {
                assert(opening[i] == first[i]);
            } else if i < 2 + created.len() {
                assert(opening[i] == created[i - 2]);
            } else if i < 2 + created.len() + 3 {
                assert(opening[i] == times[i - 2 - created.len()]);
            } else {
                assert(opening[i] == places[i - 2 - created.len() - 3]);
            }
        }
    }
    assert(all_returns_free(categories)) by {
        match event.data {
            EventDataView::Lecture { categories, .. } => {
                lemma_joined_returns_free(categories, ","@);
            },
            _ => {},
        }
    }
    assert(all_returns_free(lecturers)) by {
        lemma_attendee_lines_returns_free(event.lecturers);
        if event.lecturers.len() > 0 {
            assert(returns_free(event.lecturers[0]));
            lemma_person_line_returns_free("ORGANIZER"@, event.lecturers[0]);
            assert forall|i: int| 0 <= i < lecturers.len() implies returns_free(
                #[trigger] lecturers[i],
            ) by {
                if i > 0 {
                    assert(lecturers[i] == attendee_lines(event.lecturers)[i - 1]);
                }
            }
        }
    }
    lemma_attendee_lines_returns_free(event.courses);
    assert(all_returns_free(closing)) by {
        lemma_description_returns_free(event);
        lemma_field_line_returns_free("DESCRIPTION"@, description(event));
    }
    let lines = event_lines(event);
    assert(lines == opening + categories + lecturers + courses + closing);
    assert forall|i: int| 0 <= i < lines.len() implies returns_free(#[trigger] lines[i]) by {
        let a = opening.len() as int;
        let b = a + categories.len();
        let c = b + lecturers.len();
        let d = c + courses.len();
        if i < a {
            assert(lines[i] == opening[i]);
        } else if i < b {
            assert(lines[i] == categories[i - a]);
        } else if i < c {
            assert(lines[i] == lecturers[i - b]);
        } else if i < d {
            assert(lines[i] == courses[i - c]);
        } else {
            assert(lines[i] == closing[i - d]);
        }
    }
}

/// The block of an event whose texts hold no carriage return is read back
/// whole: unfolding what was written for the event gives its content
/// lines, each with its line end.
pub proof fn lemma_plain_block_reads_back(event: EventView)
    requires
        plain_event(event),
    ensures
        unfolded(event_text(event)) == ended_lines(event_lines(event)),
{
    let lines = event_lines(event);
    lemma_event_lines_returns_free(event);
    assert forall|i: int| 0 <= i < lines.len() implies folds_cleanly(
        encode_utf8(#[trigger] lines[i]),
    ) by {
        assert(returns_free(lines[i]));
        lemma_text_free_of_returns(lines[i]);
        lemma_free_of_returns_folds_cleanly(encode_utf8(lines[i]));
    }
    lemma_block_reads_back(event);
}

/// Writes the field `key` with the value `value`: the commas of the value
/// are escaped, and the line is folded.
pub fn write_ical_field(output: &mut Vec<u8>, key: &str, value: &str)
    ensures
        final(output)@ == old(output)@ + folded(encode_utf8(field_line(key@, value@))),
{
    let mut line = String::from_str(key);
    line.push(':');
    let escaped = escape_commas(value);
    line.append(escaped.as_str());
    write_ical_line(output, line.as_str());
}

/// Writes a time to the minute under `label`.
fn write_time_line(output: &mut Vec<u8>, label: &str, time: &DateTime)
    ensures
        final(output)@ == old(output)@ + folded(encode_utf8(time_line(label@, time@))),
{
    let mut line = String::from_str(label);
    time.push_compact(&mut line);
    line.append("00Z");
    write_ical_line(output, line.as_str());
}

/// Writes the line that names `name` in the role `role`.
fn write_person_line(output: &mut Vec<u8>, role: &str, name: &str)
    ensures
        final(output)@ == old(output)@ + folded(encode_utf8(person_line(role@, name@))),
{
    let mut line = String::from_str(role);
    line.append(";CN=\"");
    line.append(name);
    line.append("\":noreply@siphalor.de");
    write_ical_line(output, line.as_str());
}

/// Writes each of `names` as an attendee.
fn write_attendees(output: &mut Vec<u8>, names: &Vec<String>)
    ensures
        final(output)@ == old(output)@ + folded_lines(attendee_lines(texts(names@))),
{
    let ghost all = attendee_lines(texts(names@));
    let mut i: usize = 0;
    assert(all.subrange(0, 0) =~= Seq::<Seq<char>>::empty());
    assert(output@ + folded_lines(all.subrange(0, 0)) =~= output@);
    while i < names.len()
        invariant
            i <= names.len(),
            all == attendee_lines(texts(names@)),
            all.len() == names.len(),
            output@ == old(output)@ + folded_lines(all.subrange(0, i as int)),
        decreases names.len() - i,
    {
        let ghost before = output@;
        write_person_line(output, "ATTENDEE", names[i].as_str());
        proof {
            assert(all[i as int] == person_line("ATTENDEE"@, names@[i as int]@));
            assert(all.subrange(0, i + 1) =~= all.subrange(0, i as int).push(all[i as int]));
            lemma_folded_lines_push(all.subrange(0, i as int), all[i as int]);
            assert(output@ =~= old(output)@ + folded_lines(all.subrange(0, i + 1)));
        }
        i += 1;
    }
    assert(all.subrange(0, names.len() as int) =~= all);
}

/// Copies the names of `lecturers`.
fn names_of(lecturers: &Vec<Lecturer>) -> (names: Vec<String>)
    ensures
        texts(names@) == lecturer_names(lecturers@),
{
    let mut names: Vec<String> = Vec::new();
    let mut i: usize = 0;
    while i < lecturers.len()
        invariant
            i <= lecturers.len(),
            texts(names@) =~= lecturer_names(lecturers@).subrange(0, i as int),
        decreases lecturers.len() - i,
    {
        let ghost before = texts(names@);
        let name = lecturers[i].name.clone();
        names.push(name);
        assert(texts(names@) =~= before.push(lecturers@[i as int].name@));
        i += 1;
    }
    names
}

/// Builds the description of `event`.
fn describe(event: &Event, names: &Vec<String>) -> (text: String)
    requires
        texts(names@) == lecturer_names(event.lecturers@),
    ensures
        text@ == description(event@),
{
    assert(names@.len() == event.lecturers@.len()) by {
        assert(texts(names@).len() == names@.len());
        assert(lecturer_names(event.lecturers@).len() == event.lecturers@.len());
    }
    let mut text = String::new();
    if let EventData::Lecture { categories, language, total_hours, .. } = &event.data {
        if categories.len() > 0 {
            let list = join(categories, ", ");
            text.append(list.as_str());
            text.append("\\n\\n");
        }
        if let Some(language) = language {
            text.append("Sprache: ");
            text.append(language.as_str());
            text.append("\\n");
        }
        if let Some(hours) = total_hours {
            text.append("Insgesamte Stunden: ");
            push_decimal(&mut text, *hours as u64);
            text.append("\\n");
        }
    }
    assert(text@ =~= lecture_notes(event.data@));
    if names.len() > 0 {
        text.append("Dozent:innen: ");
        let list = join(names, ", ");
        text.append(list.as_str());
        text.append("\\n");
    } else {
        text.append(
            "Dozent:innen sind aufgrund von Datenschutzbedenken der DHBW nicht mehr öffentlich!",
        );
    }
    assert(text@ =~= description(event@));
    text
}

/// Writes the lines that open the block of `event`.
fn write_opening(output: &mut Vec<u8>, event: &Event)
    ensures
        final(output)@ == old(output)@ + folded_lines(opening_lines(event@)),
{
    let ghost start = output@;
    let ghost mut lines: Seq<Seq<char>> = Seq::empty();
    assert(start + folded_lines(lines) =~= start);

    write_ical_line(output, "BEGIN:VEVENT");
    proof {
        lemma_folded_lines_push(lines, "BEGIN:VEVENT"@);
        lines = lines.push("BEGIN:VEVENT"@);
        assert(output@ =~= start + folded_lines(lines));
    }

    let mut uid = String::new();
    push_decimal(&mut uid, event.hash());
    uid.append("@icalnigma");
    assert(uid@ =~= decimal(event@.hash_value() as nat) + "@icalnigma"@);
    write_ical_field(output, "UID", uid.as_str());
    proof {
        lemma_folded_lines_push(lines, field_line("UID"@, uid@));
        lines = lines.push(field_line("UID"@, uid@));
        assert(output@ =~= start + folded_lines(lines));
    }

    if let Some(creation) = &event.creation {
        write_time_line(output, "CREATED:", creation);
        proof {
            lemma_folded_lines_push(lines, time_line("CREATED:"@, creation@));
            lines = lines.push(time_line("CREATED:"@, creation@));
            assert(output@ =~= start + folded_lines(lines));
        }
    }
    let ghost first = seq![
        "BEGIN:VEVENT"@,
        field_line("UID"@, decimal(event@.hash_value() as nat) + "@icalnigma"@),
    ] + creation_lines(event@);
    assert(lines =~= first);

    write_time_line(output, "DTSTART:", &event.begin);
    proof {
        lemma_folded_lines_push(lines, time_line("DTSTART:"@, event.begin@));
        lines = lines.push(time_line("DTSTART:"@, event.begin@));
        assert(output@ =~= start + folded_lines(lines));
    }
    write_time_line(output, "DTEND:", &event.end);
    proof {
        lemma_folded_lines_push(lines, time_line("DTEND:"@, event.end@));
        lines = lines.push(time_line("DTEND:"@, event.end@));
        assert(output@ =~= start + folded_lines(lines));
    }
    let title = event.title();
    write_ical_field(output, "SUMMARY", title.as_str());
    proof {
        lemma_folded_lines_push(lines, field_line("SUMMARY"@, title@));
        lines = lines.push(field_line("SUMMARY"@, title@));
        assert(output@ =~= start + folded_lines(lines));
    }
    let ghost second = first + seq![
        time_line("DTSTART:"@, event.begin@),
        time_line("DTEND:"@, event.end@),
        field_line("SUMMARY"@, event@.title_text()),
    ];
    assert(lines =~= second);

    if event.locations.len() > 0 {
        let places = join(&event.locations, ", ");
        write_ical_field(output, "LOCATION", places.as_str());
        proof {
            lemma_folded_lines_push(lines, field_line("LOCATION"@, places@));
            lines = lines.push(field_line("LOCATION"@, places@));
            assert(output@ =~= start + folded_lines(lines));
        }
    }
    assert(lines =~= second + location_lines(event@));
}

/// Writes the line of categories of `event`, where there is one.
fn write_categories(output: &mut Vec<u8>, event: &Event)
    ensures
        final(output)@ == old(output)@ + folded_lines(category_lines(event@)),
{
    assert(output@ + folded_lines(Seq::empty()) =~= output@);
    if let EventData::Lecture { categories, .. } = &event.data {
        if categories.len() > 0 {
            let mut line = String::from_str("CATEGORIES:");
            let list = join(categories, ",");
            line.append(list.as_str());
            write_ical_line(output, line.as_str());
            proof {
                lemma_folded_lines_push(Seq::empty(), line@);
                assert(Seq::<Seq<char>>::empty().push(line@) =~= category_lines(event@));
                assert(final(output)@ =~= old(output)@ + folded_lines(category_lines(event@)));
            }
        }
    }
}

/// Writes the lines for the lecturers of `event`, whose names are `names`.
fn write_lecturers(output: &mut Vec<u8>, event: &Event, names: &Vec<String>)
    requires
        texts(names@) == lecturer_names(event.lecturers@),
    ensures
        final(output)@ == old(output)@ + folded_lines(lecturer_lines(event@)),
{
    assert(output@ + folded_lines(Seq::empty()) =~= output@);
    if event.lecturers.len() > 0 {
        let ghost first = person_line("ORGANIZER"@, event.lecturers@[0].name@);
        write_person_line(output, "ORGANIZER", event.lecturers[0].name.as_str());
        write_attendees(output, names);
        proof {
            lemma_folded_lines_push(Seq::empty(), first);
            assert(Seq::<Seq<char>>::empty().push(first) =~= seq![first]);
            lemma_folded_lines_concat(seq![first], attendee_lines(texts(names@)));
            assert(final(output)@ =~= old(output)@ + folded_lines(lecturer_lines(event@)));
        }
    }
}

/// Writes the lines that close the block of `event`, whose lecturers have
/// the names `names`.
fn write_closing(output: &mut Vec<u8>, event: &Event, names: &Vec<String>)
    requires
        texts(names@) == lecturer_names(event.lecturers@),
    ensures
        final(output)@ == old(output)@ + folded_lines(closing_lines(event@)),
{
    let text = describe(event, names);
    write_ical_field(output, "DESCRIPTION", text.as_str());
    write_ical_line(output, "END:VEVENT");
    proof {
        let first = field_line("DESCRIPTION"@, text@);
        lemma_folded_lines_push(Seq::empty(), first);
        lemma_folded_lines_push(seq![first], "END:VEVENT"@);
        assert(Seq::<Seq<char>>::empty().push(first) =~= seq![first]);
        assert(seq![first].push("END:VEVENT"@) =~= closing_lines(event@));
        assert(folded_lines(Seq::empty()) =~= Seq::<u8>::empty());
        assert(final(output)@ =~= old(output)@ + folded_lines(closing_lines(event@)));
    }
}

/// What was written for two runs of lines after `start` is what is written
/// for both runs as one.
proof fn lemma_written_more(start: Seq<u8>, first: Seq<Seq<char>>, second: Seq<Seq<char>>)
    ensures
        start + folded_lines(first) + folded_lines(second) == start + folded_lines(first + second),
{
    lemma_folded_lines_concat(first, second);
    assert(start + folded_lines(first) + folded_lines(second) =~= start + (folded_lines(first)
        + folded_lines(second)));
}

/// Writes the block of content lines for `event`.
pub fn write_lecture(output: &mut Vec<u8>, event: &Event)
    ensures
        final(output)@ == old(output)@ + event_text(event@),
{
    let ghost start = output@;
    let ghost a = opening_lines(event@);
    let ghost b = category_lines(event@);
    let ghost c = lecturer_lines(event@);
    let ghost d = attendee_lines(texts(event.courses@));
    let ghost e = closing_lines(event@);
    let names = names_of(&event.lecturers);
    write_opening(output, event);
    write_categories(output, event);
    proof {
        lemma_written_more(start, a, b);
    }
    assert(output@ == start + folded_lines(a + b));
    write_lecturers(output, event, &names);
    proof {
        lemma_written_more(start, a + b, c);
    }
    assert(output@ == start + folded_lines(a + b + c));
    write_attendees(output, &event.courses);
    proof {
        lemma_written_more(start, a + b + c, d);
    }
    assert(output@ == start + folded_lines(a + b + c + d));
    write_closing(output, event, &names);
    proof {
        lemma_written_more(start, a + b + c + d, e);
    }
}

/// Writes the calendar file for `events` as made at `generated`.
pub fn write_calendar_at(output: &mut Vec<u8>, events: &Vec<Event>, generated: &DateTime)
    ensures
        final(output)@ == old(output)@ + calendar_text(views(events@), generated@),
{
    let ghost start = output@;
    let ghost mut lines: Seq<Seq<char>> = Seq::empty();
    assert(start + folded_lines(lines) =~= start);
    write_ical_line(output, "BEGIN:VCALENDAR");
    proof {
        lemma_folded_lines_push(lines, "BEGIN:VCALENDAR"@);
        lines = lines.push("BEGIN:VCALENDAR"@);
        assert(output@ =~= start + folded_lines(lines));
    }
    write_ical_line(output, "VERSION:2.0");
    proof {
        lemma_folded_lines_push(lines, "VERSION:2.0"@);
        lines = lines.push("VERSION:2.0"@);
        assert(output@ =~= start + folded_lines(lines));
    }
    write_ical_line(output, "PRODID:-//Siphalor//DHiCalnigma//DE");
    proof {
        lemma_folded_lines_push(lines, "PRODID:-//Siphalor//DHiCalnigma//DE"@);
        lines = lines.push("PRODID:-//Siphalor//DHiCalnigma//DE"@);
        assert(output@ =~= start + folded_lines(lines));
    }
    let mut stamp = String::from_str("X-ICALNIGMA-TIME:");
    generated.push_dotted(&mut stamp);
    write_ical_line(output, stamp.as_str());
    proof {
        lemma_folded_lines_push(lines, stamp@);
        lines = lines.push(stamp@);
        assert(output@ =~= start + folded_lines(lines));
        assert(lines =~= header_lines(generated@));
    }
    let ghost head = output@;
    let mut i: usize = 0;
    let ghost all = views(events@);
    assert(all.subrange(0, 0) =~= Seq::<EventView>::empty());
    assert(head + events_text(all.subrange(0, 0)) =~= head);
    while i < events.len()
        invariant
            i <= events.len(),
            all == views(events@),
            output@ == head + events_text(all.subrange(0, i as int)),
        decreases events.len() - i,
    {
        write_lecture(output, &events[i]);
        proof {
            let done = all.subrange(0, i + 1);
            assert(done.drop_last() =~= all.subrange(0, i as int));
            assert(done.last() == events@[i as int]@);
            assert(output@ =~= head + events_text(done));
        }
        i += 1;
    }
    assert(all.subrange(0, events.len() as int) =~= all);
    write_ical_line(output, "END:VCALENDAR");
    proof {
        lemma_folded_lines_push(Seq::empty(), "END:VCALENDAR"@);
        assert(Seq::<Seq<char>>::empty().push("END:VCALENDAR"@) =~= seq!["END:VCALENDAR"@]);
        assert(folded_lines(Seq::<Seq<char>>::empty()) =~= Seq::<u8>::empty());
        assert(output@ =~= start + calendar_text(views(events@), generated@));
    }
}

/// Writes the calendar file for `events`, marked with the present time.
/// Nothing is written, and `false` returned, where the clock shows a time
/// before the year 1970 or after the year 9999.
pub fn write_calendar(output: &mut Vec<u8>, events: &Vec<Event>) -> (written: bool)
    ensures
        written ==> exists|generated: Moment|
            generated.valid() && final(output)@ == old(output)@ + #[trigger] calendar_text(
                views(events@),
                generated,
            ),
        !written ==> final(output)@ == old(output)@,
{
    match DateTime::now() {
        Some(generated) => {
            write_calendar_at(output, events, &generated);
            true
        },
        None => false,
    }
}

} // verus!
