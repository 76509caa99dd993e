//! Calendar events and the number that identifies one.
use crate::text::texts;
use crate::time::{DateTime, Moment};
use std::collections::hash_map::DefaultHasher;
use std::hash::{Hash, Hasher};
use vstd::prelude::*;
use vstd::std_specs::hash::DefaultHasherAdditionalSpecFns;
use vstd::string::StringExecFns;

verus! {

/// A person who teaches.
#[derive(Clone, Debug, PartialEq, Eq)]
pub struct Lecturer {
    pub name: String,
}

/// What an event holds beyond time and place, by its kind.
#[derive(Clone, Debug, PartialEq, Eq)]
pub enum EventData {
    Lecture {
        /// The number of the lecture; several events may share it.
        number: Option<String>,
        /// The language the lecture is held in.
        language: Option<String>,
        /// The kind of lecture, shown after the name in the title.
        kind: Option<String>,
        /// The categories the lecture is filed under.
        categories: Vec<String>,
        /// The hours that the whole lecture module takes.
        total_hours: Option<u32>,
    },
    Exam,
    Other,
}

/// One occurrence in the calendar. Times are in UTC.
#[derive(Clone, Debug, PartialEq, Eq)]
pub struct Event {
    /// When the record was written, where the source says so.
    pub creation: Option<DateTime>,
    /// Who reserved the slot, where the source says so.
    pub creator: Option<String>,
    pub begin: DateTime,
    pub end: DateTime,
    pub name: String,
    pub lecturers: Vec<Lecturer>,
    /// The rooms and buildings, in the order of the source.
    pub locations: Vec<String>,
    /// The courses and groups, in the order of the source.
    pub courses: Vec<String>,
    pub data: EventData,
}

/// The names of `lecturers`.
pub open spec fn lecturer_names(lecturers: Seq<Lecturer>) -> Seq<Seq<char>> {
    lecturers.map_values(|lecturer: Lecturer| lecturer.name@)
}

/// What an event holds beyond time and place, with texts as character
/// sequences.
pub enum EventDataView {
    Lecture {
        number: Option<Seq<char>>,
        language: Option<Seq<char>>,
        kind: Option<Seq<char>>,
        categories: Seq<Seq<char>>,
        total_hours: Option<u32>,
    },
    Exam,
    Other,
}

/// An event, with texts as character sequences and times as moments.
pub struct EventView {
    pub creation: Option<Moment>,
    pub creator: Option<Seq<char>>,
    pub begin: Moment,
    pub end: Moment,
    pub name: Seq<char>,
    pub lecturers: Seq<Seq<char>>,
    pub locations: Seq<Seq<char>>,
    pub courses: Seq<Seq<char>>,
    pub data: EventDataView,
}

impl View for EventData {
    type V = EventDataView;

    open spec fn view(&self) -> EventDataView {
        match *self {
            EventData::Lecture { number, language, kind, categories, total_hours } => {
                EventDataView::Lecture {
                    number: optional_text(number),
                    language: optional_text(language),
                    kind: optional_text(kind),
                    categories: texts(categories@),
                    total_hours,
                }
            },
            EventData::Exam => EventDataView::Exam,
            EventData::Other => EventDataView::Other,
        }
    }
}

impl View for Event {
    type V = EventView;

    open spec fn view(&self) -> EventView {
        EventView {
            creation: match self.creation {
                Some(time) => Some(time@),
                None => None,
            },
            creator: optional_text(self.creator),
            begin: self.begin@,
            end: self.end@,
            name: self.name@,
            lecturers: lecturer_names(self.lecturers@),
            locations: texts(self.locations@),
            courses: texts(self.courses@),
            data: self.data@,
        }
    }
}

/// The views of `events`.
pub open spec fn views(events: Seq<Event>) -> Seq<EventView> {
    events.map_values(|event: Event| event@)
}

impl EventView {
    /// Whether the event ends no earlier than it begins, at times that exist.
    pub open spec fn well_formed(self) -> bool {
        &&& self.begin.valid()
        &&& self.end.valid()
        &&& self.begin.at_or_before(self.end)
        &&& self.creation matches Some(c) ==> c.valid()
    }
}

/// The view of an optional string.
pub open spec fn optional_text(text: Option<String>) -> Option<Seq<char>> {
    match text {
        Some(t) => Some(t@),
        None => None,
    }
}

/// The four things that make two events the same event: the second of
/// creation counted from 1970 (0 where there is none), the name, the day
/// on which the event begins, and the creator.
pub struct Identity {
    pub creation: int,
    pub name: Seq<char>,
    pub year: int,
    pub month: int,
    pub day: int,
    pub creator: Option<Seq<char>>,
}

/// What a hasher is fed for an identity: the writes that hashing the tuple
/// (creation, name, year, month, day, creator) makes, in this order.
pub uninterp spec fn identity_writes(
    creation: i64,
    name: Seq<char>,
    year: i32,
    month: u32,
    day: u32,
    creator: Option<Seq<char>>,
) -> Seq<Seq<u8>>;

/// Calls `Hash::hash` of the standard library on the tuple of the six
/// values, which feeds `state` each of them in turn. What is fed depends on
/// the values alone.
#[verifier::external_body]
fn feed_identity(
    state: &mut DefaultHasher,
    creation: i64,
    name: &String,
    year: i32,
    month: u32,
    day: u32,
    creator: Option<&String>,
)
    ensures
        final(state)@ == old(state)@ + identity_writes(
            creation,
            name@,
            year,
            month,
            day,
            match creator {
                Some(c) => Some(c@),
                None => None,
            },
        ),
{
    (creation, name, year, month, day, creator).hash(state);
}

impl EventView {
    /// The identity of the event.
    pub open spec fn identity(self) -> Identity {
        Identity {
            creation: match self.creation {
                Some(c) => c.epoch_seconds(),
                None => 0,
            },
            name: self.name,
            year: self.begin.year,
            month: self.begin.month,
            day: self.begin.day,
            creator: self.creator,
        }
    }

    /// The number that stands for the identity of the event.
    pub open spec fn hash_value(self) -> u64 {
        let id = self.identity();
        DefaultHasher::spec_finish(
            identity_writes(
                id.creation as i64,
                id.name,
                id.year as i32,
                id.month as u32,
                id.day as u32,
                id.creator,
            ),
        )
    }

    /// The title shown for the event: the name, followed for a lecture of a
    /// known kind by ` - ` and the kind.
    pub open spec fn title_text(self) -> Seq<char> {
        match self.data {
            EventDataView::Lecture { kind: Some(kind), .. } => self.name + " - "@ + kind,
            _ => self.name,
        }
    }
}

impl Event {
    /// Whether the event ends no earlier than it begins, at times that exist.
    pub open spec fn well_formed(self) -> bool {
        self@.well_formed()
    }

    /// A number that identifies the event. It depends on the creation time,
    /// the name, the day of the beginning and the creator, and on nothing
    /// else.
    pub fn hash(&self) -> (hash: u64)
        ensures
            hash == self@.hash_value(),
    {
        let creation: i64 = match &self.creation {
            Some(time) => time.timestamp(),
            None => 0,
        };
        let mut hasher = DefaultHasher::new();
        feed_identity(
            &mut hasher,
            creation,
            &self.name,
            self.begin.year(),
            self.begin.month(),
            self.begin.day(),
            self.creator.as_ref(),
        );
        proof {
            let id = self@.identity();
            let writes = identity_writes(
                id.creation as i64,
                id.name,
                id.year as i32,
                id.month as u32,
                id.day as u32,
                id.creator,
            );
            assert(Seq::<Seq<u8>>::empty() + writes =~= writes);
        }
        hasher.finish()
    }

    /// The title shown for the event.
    pub fn title(&self) -> (title: String)
        ensures
            title@ == self@.title_text(),
    {
        let mut title = self.name.clone();
        if let EventData::Lecture { kind: Some(kind), .. } = &self.data {
            title.append(" - ");
            title.append(kind.as_str());
        }
        title
    }
}

/// Two events with the same creation time, name, first day and creator
/// have the same hash, whatever else they hold.
pub proof fn lemma_hash_depends_on_identity_only(a: EventView, b: EventView)
    requires
        a.identity() == b.identity(),
    ensures
        a.hash_value() == b.hash_value(),
{
}

} // verus!
