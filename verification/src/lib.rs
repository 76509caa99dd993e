//! Reads the events of a timetable page and writes them as a calendar file.
//!
//! The bytes of a page become a document (`dom`, `tree`); the document is
//! read month by month, day by day and event by event (`extract`, `event`,
//! `metadata`, `resources`, `clock`), and what cannot be read is listed
//! (`skipped`); the months that were read can be merged with months read
//! earlier (`months`); the events are written as content lines, folded to
//! the length that the format allows (`icalendar`, `folding`).
pub mod clock;
pub mod dom;
pub mod error;
pub mod event;
pub mod extract;
pub mod folding;
pub mod icalendar;
pub mod metadata;
pub mod model;
pub mod months;
pub mod number;
pub mod resources;
pub mod skipped;
pub mod text;
pub mod time;
pub mod tree;
