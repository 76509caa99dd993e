//! What can go wrong, by kind: a document without its frame, a day or an
//! event that cannot be read, and trouble with the archive.
use vstd::prelude::*;
use vstd::string::StringExecFns;

verus! {

/// The part of the input that a failure concerns.
#[derive(Clone, Copy, Debug, PartialEq, Eq)]
pub enum Field {
    /// The text of the document as a whole.
    Text,
    /// The `html` element of the document.
    Html,
    /// The `body` element of the document.
    Body,
    /// The heading of a month, which names the month and the year.
    Heading,
    /// The name of the month in a heading.
    Month,
    /// The year in a heading.
    Year,
    /// The number of the day in a day cell.
    DayNumber,
    /// A `div` of a day that is not marked as an event.
    Division,
    /// The block of an event.
    Event,
    /// The link that holds an event.
    Link,
    /// The line of an event that gives its times and resources.
    Metadata,
    /// The parts of the tooltip of an event.
    Tooltip,
    /// The label that tells the kind of an event.
    Kind,
    /// The time at which an event was created.
    Created,
    /// The time range of an event.
    TimeRange,
    /// A time on the clocks of Berlin that has no single time in UTC.
    LocalTime,
    /// An attribute of an element.
    Attribute,
}

/// A failure.
#[derive(Clone, Debug, PartialEq, Eq)]
pub enum Error {
    /// The document lacks a part without which nothing can be read.
    Structure { field: Field },
    /// One day or one event cannot be read; `text` is what was found.
    Extraction { field: Field, text: String },
    /// The archive cannot be read or written; `text` says why.
    Archive { text: String },
}

/// A failure, with texts as character sequences.
pub enum Failure {
    Structure { field: Field },
    Extraction { field: Field, text: Seq<char> },
    Archive { text: Seq<char> },
}

impl View for Error {
    type V = Failure;

    open spec fn view(&self) -> Failure {
        match *self {
            Error::Structure { field } => Failure::Structure { field },
            Error::Extraction { field, text } => Failure::Extraction { field, text: text@ },
            Error::Archive { text } => Failure::Archive { text: text@ },
        }
    }
}

/// The name of a part of the input, as messages show it.
pub open spec fn field_label(field: Field) -> Seq<char> {
    match field {
        Field::Text => "text"@,
        Field::Html => "html"@,
        Field::Body => "body"@,
        Field::Heading => "heading"@,
        Field::Month => "month"@,
        Field::Year => "year"@,
        Field::DayNumber => "day number"@,
        Field::Division => "division"@,
        Field::Event => "event"@,
        Field::Link => "link"@,
        Field::Metadata => "metadata"@,
        Field::Tooltip => "tooltip"@,
        Field::Kind => "kind"@,
        Field::Created => "created"@,
        Field::TimeRange => "time range"@,
        Field::LocalTime => "local time"@,
        Field::Attribute => "attribute"@,
    }
}

/// The message for a failure.
pub open spec fn message_text(failure: Failure) -> Seq<char> {
    match failure {
        Failure::Structure { field } => "document has no "@ + field_label(field),
        Failure::Extraction { field, text } => "cannot read "@ + field_label(field) + ": "@
            + text,
        Failure::Archive { text } => "archive: "@ + text,
    }
}

impl Field {
    /// The name of the part, as messages show it.
    pub fn label(&self) -> (label: &'static str)
        ensures
            label@ == field_label(*self),
    {
        match self {
            Field::Text => "text",
            Field::Html => "html",
            Field::Body => "body",
            Field::Heading => "heading",
            Field::Month => "month",
            Field::Year => "year",
            Field::DayNumber => "day number",
            Field::Division => "division",
            Field::Event => "event",
            Field::Link => "link",
            Field::Metadata => "metadata",
            Field::Tooltip => "tooltip",
            Field::Kind => "kind",
            Field::Created => "created",
            Field::TimeRange => "time range",
            Field::LocalTime => "local time",
            Field::Attribute => "attribute",
        }
    }
}

impl Error {
    /// A failure to read `field`, where `text` was found.
    pub fn extraction(field: Field, text: &str) -> (error: Error)
        ensures
            error@ == (Failure::Extraction { field, text: text@ }),
    {
        Error::Extraction { field, text: String::from_str(text) }
    }

    /// A failure to read `field`, where nothing was found.
    pub fn missing(field: Field) -> (error: Error)
        ensures
            error@ == (Failure::Extraction { field, text: Seq::empty() }),
    {
        Error::Extraction { field, text: String::new() }
    }

    /// Whether nothing can be read after this failure.
    pub fn is_fatal(&self) -> (fatal: bool)
        ensures
            fatal == (self@ is Structure),
    {
        match self {
            Error::Structure { .. } => true,
            _ => false,
        }
    }

    /// The message for the failure.
    pub fn message(&self) -> (message: String)
        ensures
            message@ == message_text(self@),
    {
        match self {
            Error::Structure { field } => {
                let mut message = String::from_str("document has no ");
                message.append(field.label());
                message
            },
            Error::Extraction { field, text } => {
                let mut message = String::from_str("cannot read ");
                message.append(field.label());
                message.append(": ");
                message.append(text.as_str());
                message
            },
            Error::Archive { text } => {
                let mut message = String::from_str("archive: ");
                message.append(text.as_str());
                message
            },
        }
    }
}

/// The views of `errors`.
pub open spec fn failures(errors: Seq<Error>) -> Seq<Failure> {
    errors.map_values(|error: Error| error@)
}

/// The failure to read `field`, where `text` was found.
pub open spec fn fail(field: Field, text: Seq<char>) -> Failure {
    Failure::Extraction { field, text }
}

/// Whether a result says what `wanted` says: a value with the wanted view,
/// or a failure with the wanted view.
pub open spec fn reads<T: View>(result: Result<T, Error>, wanted: Result<T::V, Failure>) -> bool {
    match (result, wanted) {
        (Ok(value), Ok(other)) => value@ == other,
        (Err(error), Err(failure)) => error@ == failure,
        _ => false,
    }
}

/// Whether a result says what `wanted` says: the same value, or a failure
/// with the same view.
pub open spec fn agrees<T>(result: Result<T, Error>, wanted: Result<T, Failure>) -> bool {
    match (result, wanted) {
        (Ok(value), Ok(other)) => value == other,
        (Err(error), Err(failure)) => error@ == failure,
        _ => false,
    }
}

} // verus!
