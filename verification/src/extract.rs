//! From a document to the events of its months. A month is a `div` of the
//! class `calendar`: a heading that names month and year, and a table whose
//! cells of the class `month_cell` are days. The first `div` of a day is
//! its number; every later `div` of the class `month_block` is an event.
//! A day or an event that cannot be read is left out; the others stay.
use crate::error::{agrees, fail, reads, Error, Failure, Field};
use crate::event::{
    detailed_event, plain_event, read_detailed_event, read_plain_event, Tooltip, TooltipView,
};
use crate::metadata::{pairs, read_rows, rows_metadata, Pair};
use crate::model::{views, Event, EventView};
use crate::months::Months;
use crate::number::{parse_i32, parse_u32, parsed_i32, parsed_u32};
use crate::text::{chars_of, equal, pieces, string_of, tokenize, tokens, CharClass};
use crate::tree::{
    all_named, all_texts, attribute, children, first_named, first_text, Document, DocumentNode,
    Handle, HandleExtensions,
};
use vstd::prelude::*;
use vstd::slice::slice_to_vec;

verus! {

pub type Year = i32;

pub type Month = u32;

pub type Day = u32;

/// `text` in lower case, as Unicode defines it.
pub uninterp spec fn lowercase_text(text: Seq<char>) -> Seq<char>;

/// Calls `str::to_lowercase` of the standard library, which gives the
/// lower case of a text by the rules of Unicode.
#[verifier::external_body]
fn lowercase(text: &str) -> (lower: String)
    ensures
        lower@ == lowercase_text(text@),
{
    text.to_lowercase()
}

/// The number of the month that `lower` names in German, in lower case.
pub open spec fn month_number(lower: Seq<char>) -> Option<Month> {
    if lower == "januar"@ {
        Some(1u32)
    } else if lower == "februar"@ {
        Some(2u32)
    } else if lower == "märz"@ {
        Some(3u32)
    } else if lower == "april"@ {
        Some(4u32)
    } else if lower == "mai"@ {
        Some(5u32)
    } else if lower == "juni"@ {
        Some(6u32)
    } else if lower == "juli"@ {
        Some(7u32)
    } else if lower == "august"@ {
        Some(8u32)
    } else if lower == "september"@ {
        Some(9u32)
    } else if lower == "oktober"@ {
        Some(10u32)
    } else if lower == "november"@ {
        Some(11u32)
    } else if lower == "dezember"@ {
        Some(12u32)
    } else {
        None
    }
}

/// The number of the month that `text` names in German, in any case.
pub open spec fn german_month(text: Seq<char>) -> Result<Month, Failure> {
    match month_number(lowercase_text(text)) {
        Some(month) => Ok(month),
        None => Err(fail(Field::Month, text)),
    }
}

/// The number of the month that `lower` names in German, in lower case.
pub fn month_from_lowercase(lower: &str) -> (month: Option<Month>)
    ensures
        month == month_number(lower@),
{
    if equal(lower, "januar") {
        Some(1)
    } else if equal(lower, "februar") {
        Some(2)
    } else if equal(lower, "märz") {
        Some(3)
    } else if equal(lower, "april") {
        Some(4)
    } else if equal(lower, "mai") {
        Some(5)
    } else if equal(lower, "juni") {
        Some(6)
    } else if equal(lower, "juli") {
        Some(7)
    } else if equal(lower, "august") {
        Some(8)
    } else if equal(lower, "september") {
        Some(9)
    } else if equal(lower, "oktober") {
        Some(10)
    } else if equal(lower, "november") {
        Some(11)
    } else if equal(lower, "dezember") {
        Some(12)
    } else {
        None
    }
}

/// The number of the month that `text` names in German, in any case.
pub fn get_month_from_german(text: &str) -> (month: Result<Month, Error>)
    ensures
        agrees(month, german_month(text@)),
{
    let lower = lowercase(text);
    match month_from_lowercase(lower.as_str()) {
        Some(month) => Ok(month),
        None => Err(Error::extraction(Field::Month, text)),
    }
}

/// The month and the year that a heading names: its first word is the name
/// of the month in German, its second the year.
pub open spec fn heading_of(text: Seq<char>) -> Result<(Month, Year), Failure> {
    let words = tokens(text, CharClass::AsciiWhitespace);
    if words.len() == 0 {
        Err(fail(Field::Heading, text))
    } else {
        match german_month(words[0]) {
            Err(failure) => Err(failure),
            Ok(month) => if words.len() < 2 {
                Err(fail(Field::Year, Seq::empty()))
            } else {
                match parsed_i32(words[1]) {
                    Some(year) => Ok((month, year)),
                    None => Err(fail(Field::Year, words[1])),
                }
            },
        }
    }
}

/// Reads the month and the year that a heading names.
pub fn read_heading(text: &str) -> (heading: Result<(Month, Year), Error>)
    ensures
        agrees(heading, heading_of(text@)),
{
    let chars = chars_of(text);
    let words = tokenize(chars.as_slice(), CharClass::AsciiWhitespace);
    assert(pieces(words@).len() == words@.len());
    if words.len() == 0 {
        return Err(Error::extraction(Field::Heading, text));
    }
    assert(pieces(words@)[0] == words@[0]@);
    let name = string_of(words[0].as_slice());
    let month = match get_month_from_german(name.as_str()) {
        Ok(month) => month,
        Err(error) => {
            return Err(error);
        },
    };
    if words.len() < 2 {
        return Err(Error::missing(Field::Year));
    }
    assert(pieces(words@)[1] == words@[1]@);
    match parse_i32(words[1].as_slice()) {
        Some(year) => Ok((month, year)),
        None => {
            let found = string_of(words[1].as_slice());
            Err(Error::Extraction { field: Field::Year, text: found })
        },
    }
}

/// Whether `node` is an element of the class `class`.
pub open spec fn has_class(nodes: Seq<DocumentNode>, node: Handle, class: Seq<char>) -> bool {
    attribute(nodes, node, "class"@) == Some(class)
}

/// The first of `among` that has the class `class`.
pub open spec fn first_with_class(
    nodes: Seq<DocumentNode>,
    among: Seq<Handle>,
    class: Seq<char>,
) -> Option<Handle>
    decreases among.len(),
{
    if among.len() == 0 {
        None
    } else if has_class(nodes, among[0], class) {
        Some(among[0])
    } else {
        first_with_class(nodes, among.drop_first(), class)
    }
}

/// Tests `node` for the class `class`.
pub fn is_of_class(document: &Document, node: Handle, class: &str) -> (yes: bool)
    ensures
        yes == has_class(document@, node, class@),
{
    match document.get_attribute_value(node, "class") {
        Some(found) => equal(found.as_str(), class),
        None => false,
    }
}

/// Finds the first of `among` that has the class `class`.
pub fn find_with_class(document: &Document, among: &[Handle], class: &str) -> (found: Option<
    Handle,
>)
    ensures
        found == first_with_class(document@, among@, class@),
{
    let mut i: usize = 0;
    assert(among@.subrange(0, among@.len() as int) =~= among@);
    while i < among.len()
        invariant
            i <= among.len(),
            first_with_class(document@, among@, class@) == first_with_class(
                document@,
                among@.subrange(i as int, among@.len() as int),
                class@,
            ),
        decreases among.len() - i,
    {
        assert(among@.subrange(i as int, among@.len() as int).drop_first() =~= among@.subrange(
            i + 1,
            among@.len() as int,
        ));
        if is_of_class(document, among[i], class) {
            return Some(among[i]);
        }
        i += 1;
    }
    None
}

/// The tooltip in the link of an event: the first `span` of the class
/// `tooltip`.
pub open spec fn tooltip_of(nodes: Seq<DocumentNode>, link: Handle) -> Option<Handle> {
    first_with_class(nodes, all_named(nodes, children(nodes, link), "span"@), "tooltip"@)
}

/// What the rows of the table `table` say: the rows are those of its
/// `tbody`, and a table without one has no rows.
pub open spec fn table_metadata(nodes: Seq<DocumentNode>, table: Handle) -> Seq<Pair> {
    match first_named(nodes, children(nodes, table), "tbody"@) {
        None => Seq::empty(),
        Some(body) => rows_metadata(nodes, all_named(nodes, children(nodes, body), "tr"@)),
    }
}

/// Reads the rows of the table `table`.
pub fn read_table(document: &Document, table: Handle) -> (metadata: Vec<(String, String)>)
    ensures
        pairs(metadata@) == table_metadata(document@, table),
{
    match document.get_node_by_tag_name(table, "tbody") {
        None => {
            let none: Vec<(String, String)> = Vec::new();
            assert(pairs(none@) =~= Seq::<Pair>::empty());
            none
        },
        Some(body) => {
            let rows = document.get_nodes_by_tag_name(body, "tr");
            read_rows(document, &rows)
        },
    }
}

/// The texts of a tooltip. Its `strong` element holds the label of the
/// kind of event, its first `div` the line of creation, its second `div`
/// the line of the time range, and its `table` the rows.
pub open spec fn tooltip_texts(nodes: Seq<DocumentNode>, tooltip: Handle) -> Result<
    TooltipView,
    Failure,
> {
    let parts = children(nodes, tooltip);
    let lines = all_named(nodes, parts, "div"@);
    match first_named(nodes, parts, "strong"@) {
        None => Err(fail(Field::Kind, Seq::empty())),
        Some(strong) => match first_text(nodes, children(nodes, strong)) {
            None => Err(fail(Field::Kind, Seq::empty())),
            Some(label) => if lines.len() < 2 {
                Err(fail(Field::Tooltip, Seq::empty()))
            } else {
                match first_text(nodes, children(nodes, lines[0])) {
                    None => Err(fail(Field::Created, Seq::empty())),
                    Some(created) => match first_text(nodes, children(nodes, lines[1])) {
                        None => Err(fail(Field::TimeRange, Seq::empty())),
                        Some(range) => match first_named(nodes, parts, "table"@) {
                            None => Err(fail(Field::Tooltip, Seq::empty())),
                            Some(table) => Ok(
                                TooltipView {
                                    label,
                                    created,
                                    range,
                                    metadata: table_metadata(nodes, table),
                                },
                            ),
                        },
                    },
                }
            },
        },
    }
}

/// Reads the texts of a tooltip.
pub fn read_tooltip(document: &Document, tooltip: Handle) -> (texts: Result<Tooltip, Error>)
    ensures
        reads(texts, tooltip_texts(document@, tooltip)),
{
    let lines = document.get_nodes_by_tag_name(tooltip, "div");
    let strong = match document.get_node_by_tag_name(tooltip, "strong") {
        Some(strong) => strong,
        None => {
            return Err(Error::missing(Field::Kind));
        },
    };
    let label = match document.get_content(strong) {
        Some(label) => label,
        None => {
            return Err(Error::missing(Field::Kind));
        },
    };
    if lines.len() < 2 {
        return Err(Error::missing(Field::Tooltip));
    }
    let created = match document.get_content(lines[0]) {
        Some(created) => created,
        None => {
            return Err(Error::missing(Field::Created));
        },
    };
    let range = match document.get_content(lines[1]) {
        Some(range) => range,
        None => {
            return Err(Error::missing(Field::TimeRange));
        },
    };
    let table = match document.get_node_by_tag_name(tooltip, "table") {
        Some(table) => table,
        None => {
            return Err(Error::missing(Field::Tooltip));
        },
    };
    let metadata = read_table(document, table);
    Ok(Tooltip { label, created, range, metadata })
}

#[verifier::opaque]
/// The event in the block `block` of a day. The block holds a link. Where
/// the link holds a tooltip, the event is read from the tooltip, which
/// gives its own date; else it is read from the texts of the link, for the
/// given day.
pub open spec fn event_of(
    nodes: Seq<DocumentNode>,
    block: Handle,
    year: Year,
    month: Month,
    day: Day,
) -> Result<EventView, Failure> {
    match first_named(nodes, children(nodes, block), "a"@) {
        None => Err(fail(Field::Link, Seq::empty())),
        Some(link) => match tooltip_of(nodes, link) {
            Some(tooltip) => match tooltip_texts(nodes, tooltip) {
                Ok(texts) => detailed_event(texts),
                Err(failure) => Err(failure),
            },
            None => plain_event(all_texts(nodes, children(nodes, link)), year, month, day),
        },
    }
}

/// Reads the event in the block `event_handle` of the given day.
pub fn process_event(
    document: &Document,
    event_handle: Handle,
    year: Year,
    month: Month,
    day: Day,
) -> (event: Result<Event, Error>)
    ensures
        reads(event, event_of(document@, event_handle, year, month, day)),
{
    reveal(event_of);
    let link = match document.get_node_by_tag_name(event_handle, "a") {
        Some(link) => link,
        None => {
            return Err(Error::missing(Field::Link));
        },
    };
    let spans = document.get_nodes_by_tag_name(link, "span");
    match find_with_class(document, spans.as_slice(), "tooltip") {
        Some(tooltip) => match read_tooltip(document, tooltip) {
            Ok(texts) => read_detailed_event(&texts),
            Err(error) => Err(error),
        },
        None => {
            let lines = document.get_text_nodes(link);
            read_plain_event(&lines, year, month, day)
        },
    }
}

/// The events of the blocks `blocks` of a day: of each block of the class
/// `month_block` its event, where it can be read.
pub open spec fn block_events(
    nodes: Seq<DocumentNode>,
    blocks: Seq<Handle>,
    year: Year,
    month: Month,
    day: Day,
) -> Seq<EventView>
    decreases blocks.len(),
{
    if blocks.len() == 0 {
        Seq::empty()
    } else {
        let before = block_events(nodes, blocks.drop_last(), year, month, day);
        if has_class(nodes, blocks.last(), "month_block"@) {
            match event_of(nodes, blocks.last(), year, month, day) {
                Ok(event) => before.push(event),
                Err(_) => before,
            }
        } else {
            before
        }
    }
}

#[verifier::opaque]
/// The blocks of the day cell `cell` and the number of the day. A cell
/// without a `div` of the class `month_block` after its first `div` is no
/// day with events. Else the first `div` holds the number of the day, and
/// the later ones are the blocks.
pub open spec fn day_blocks(nodes: Seq<DocumentNode>, cell: Handle) -> Result<
    Option<(Seq<Handle>, Day)>,
    Failure,
> {
    let parts = all_named(nodes, children(nodes, cell), "div"@);
    if parts.len() < 2 || first_with_class(
        nodes,
        parts.subrange(1, parts.len() as int),
        "month_block"@,
    ) is None {
        Ok(None)
    } else {
        match first_text(nodes, children(nodes, parts[0])) {
            None => Err(fail(Field::DayNumber, Seq::empty())),
            Some(number) => match parsed_u32(number) {
                None => Err(fail(Field::DayNumber, number)),
                Some(day) => Ok(Some((parts.subrange(1, parts.len() as int), day))),
            },
        }
    }
}

/// The events of the day cell `cell` of the given month: those of its
/// blocks, where it is a day with events.
pub open spec fn day_events(nodes: Seq<DocumentNode>, cell: Handle, year: Year, month: Month) -> Result<
    Option<Seq<EventView>>,
    Failure,
> {
    match day_blocks(nodes, cell) {
        Err(failure) => Err(failure),
        Ok(None) => Ok(None),
        Ok(Some((blocks, day))) => Ok(Some(block_events(nodes, blocks, year, month, day))),
    }
}

/// Whether the blocks and the number that were read of a day are those
/// wanted.
pub open spec fn reads_blocks(
    result: Result<Option<(Vec<Handle>, Day)>, Error>,
    wanted: Result<Option<(Seq<Handle>, Day)>, Failure>,
) -> bool {
    match (result, wanted) {
        (Ok(Some(found)), Ok(Some(other))) => found.0@ == other.0 && found.1 == other.1,
        (Ok(None), Ok(None)) => true,
        (Err(error), Err(failure)) => error@ == failure,
        _ => false,
    }
}

/// Whether what was read of a day is what is wanted.
pub open spec fn reads_day(
    result: Result<Option<Vec<Event>>, Error>,
    wanted: Result<Option<Seq<EventView>>, Failure>,
) -> bool {
    match (result, wanted) {
        (Ok(Some(events)), Ok(Some(others))) => views(events@) == others,
        (Ok(None), Ok(None)) => true,
        (Err(error), Err(failure)) => error@ == failure,
        _ => false,
    }
}

/// Reads the events of the blocks `blocks` of a day.
fn load_blocks(document: &Document, blocks: &[Handle], year: Year, month: Month, day: Day) -> (events:
    Vec<Event>)
    ensures
        views(events@) == block_events(document@, blocks@, year, month, day),
{
    let mut events: Vec<Event> = Vec::new();
    let mut i: usize = 0;
    assert(views(events@) =~= Seq::<EventView>::empty());
    while i < blocks.len()
        invariant
            i <= blocks.len(),
            views(events@) == block_events(
                document@,
                blocks@.subrange(0, i as int),
                year,
                month,
                day,
            ),
        decreases blocks.len() - i,
    {
        assert(blocks@.subrange(0, i + 1).drop_last() =~= blocks@.subrange(0, i as int));
        let ghost before = views(events@);
        if is_of_class(document, blocks[i], "month_block") {
            match process_event(document, blocks[i], year, month, day) {
                Ok(event) => {
                    let ghost view = event@;
                    events.push(event);
                    assert(views(events@) =~= before.push(view));
                },
                Err(_) => {},
            }
        }
        i += 1;
    }
    assert(blocks@.subrange(0, blocks.len() as int) =~= blocks@);
    events
}

/// Reads the blocks of the day cell `cell` and the number of the day.
pub fn read_day(document: &Document, cell: Handle) -> (found: Result<
    Option<(Vec<Handle>, Day)>,
    Error,
>)
    ensures
        reads_blocks(found, day_blocks(document@, cell)),
{
    reveal(day_blocks);
    let parts = document.get_nodes_by_tag_name(cell, "div");
    if parts.len() < 2 {
        return Ok(None);
    }
    let blocks = &parts.as_slice()[1..parts.len()];
    if find_with_class(document, blocks, "month_block").is_none() {
        return Ok(None);
    }
    let number = match document.get_content(parts[0]) {
        Some(number) => number,
        None => {
            return Err(Error::missing(Field::DayNumber));
        },
    };
    let chars = chars_of(number.as_str());
    let day = match parse_u32(chars.as_slice()) {
        Some(day) => day,
        None => {
            return Err(Error::Extraction { field: Field::DayNumber, text: number });
        },
    };
    Ok(Some((slice_to_vec(blocks), day)))
}

/// Reads the events of the day cell `cell_handle` of the given month.
pub fn load_day(document: &Document, cell_handle: Handle, year: Year, month: Month) -> (events:
    Result<Option<Vec<Event>>, Error>)
    ensures
        reads_day(events, day_events(document@, cell_handle, year, month)),
{
    match read_day(document, cell_handle) {
        Err(error) => Err(error),
        Ok(None) => Ok(None),
        Ok(Some((blocks, day))) => Ok(
            Some(load_blocks(document, blocks.as_slice(), year, month, day)),
        ),
    }
}

/// The events of the cells `cells` of a row: of each cell of the class
/// `month_cell` its events, where the day can be read.
pub open spec fn cell_events(
    nodes: Seq<DocumentNode>,
    cells: Seq<Handle>,
    year: Year,
    month: Month,
) -> Seq<EventView>
    decreases cells.len(),
{
    if cells.len() == 0 {
        Seq::empty()
    } else {
        let before = cell_events(nodes, cells.drop_last(), year, month);
        if has_class(nodes, cells.last(), "month_cell"@) {
            match day_events(nodes, cells.last(), year, month) {
                Ok(Some(events)) => before + events,
                _ => before,
            }
        } else {
            before
        }
    }
}

/// The events of the rows `rows` of the table of a month.
pub open spec fn row_events(
    nodes: Seq<DocumentNode>,
    rows: Seq<Handle>,
    year: Year,
    month: Month,
) -> Seq<EventView>
    decreases rows.len(),
{
    if rows.len() == 0 {
        Seq::empty()
    } else {
        row_events(nodes, rows.drop_last(), year, month) + cell_events(
            nodes,
            all_named(nodes, children(nodes, rows.last()), "td"@),
            year,
            month,
        )
    }
}

/// The rows of the table of the month `month_node`: those of the `tbody`
/// of its `table`, none where one of the two is missing.
pub open spec fn month_rows(nodes: Seq<DocumentNode>, month_node: Handle) -> Seq<Handle> {
    match first_named(nodes, children(nodes, month_node), "table"@) {
        None => Seq::empty(),
        Some(table) => match first_named(nodes, children(nodes, table), "tbody"@) {
            None => Seq::empty(),
            Some(body) => all_named(nodes, children(nodes, body), "tr"@),
        },
    }
}

/// The events of the table of the month `month_node`.
pub open spec fn table_events(
    nodes: Seq<DocumentNode>,
    month_node: Handle,
    year: Year,
    month: Month,
) -> Seq<EventView> {
    row_events(nodes, month_rows(nodes, month_node), year, month)
}

/// The month and the year that the heading of the month `month_node`
/// names: the text of its `h2`. There is none where the month has no
/// heading or the heading has no text.
pub open spec fn month_heading(nodes: Seq<DocumentNode>, month_node: Handle) -> Result<
    Option<(Month, Year)>,
    Failure,
> {
    match first_named(nodes, children(nodes, month_node), "h2"@) {
        None => Ok(None),
        Some(heading) => match first_text(nodes, children(nodes, heading)) {
            None => Ok(None),
            Some(text) => match heading_of(text) {
                Err(failure) => Err(failure),
                Ok(found) => Ok(Some(found)),
            },
        },
    }
}

#[verifier::opaque]
/// The events of the month `month_node`, under the period in which the
/// first of them ends. A month without a heading or without events gives
/// nothing; a heading that cannot be read is a failure.
pub open spec fn month_events(nodes: Seq<DocumentNode>, month_node: Handle) -> Result<
    Option<(u32, Seq<EventView>)>,
    Failure,
> {
    match month_heading(nodes, month_node) {
        Err(failure) => Err(failure),
        Ok(None) => Ok(None),
        Ok(Some((month, year))) => {
            let events = table_events(nodes, month_node, year, month);
            if events.len() == 0 {
                Ok(None)
            } else {
                Ok(Some((events[0].end.period() as u32, events)))
            }
        },
    }
}

/// Whether what was read of a month is what is wanted.
pub open spec fn reads_month(
    result: Result<Option<(u32, Vec<Event>)>, Error>,
    wanted: Result<Option<(u32, Seq<EventView>)>, Failure>,
) -> bool {
    match (result, wanted) {
        (Ok(Some(found)), Ok(Some(other))) => found.0 == other.0 && views(found.1@) == other.1,
        (Ok(None), Ok(None)) => true,
        (Err(error), Err(failure)) => error@ == failure,
        _ => false,
    }
}

/// Reads the events of the cells `cells` of a row.
fn load_cells(document: &Document, cells: &Vec<Handle>, year: Year, month: Month) -> (events: Vec<
    Event,
>)
    ensures
        views(events@) == cell_events(document@, cells@, year, month),
{
    let mut events: Vec<Event> = Vec::new();
    let mut i: usize = 0;
    assert(views(events@) =~= Seq::<EventView>::empty());
    while i < cells.len()
        invariant
            i <= cells.len(),
            views(events@) == cell_events(document@, cells@.subrange(0, i as int), year, month),
        decreases cells.len() - i,
    {
        assert(cells@.subrange(0, i + 1).drop_last() =~= cells@.subrange(0, i as int));
        let ghost before = views(events@);
        if is_of_class(document, cells[i], "month_cell") {
            match load_day(document, cells[i], year, month) {
                Ok(Some(mut found)) => {
                    let ghost more = views(found@);
                    events.append(&mut found);
                    assert(views(events@) =~= before + more);
                },
                _ => {},
            }
        }
        i += 1;
    }
    assert(cells@.subrange(0, cells.len() as int) =~= cells@);
    events
}

/// Reads the events of the rows `rows` of the table of a month.
fn load_rows(document: &Document, rows: &Vec<Handle>, year: Year, month: Month) -> (events: Vec<
    Event,
>)
    ensures
        views(events@) == row_events(document@, rows@, year, month),
{
    let mut events: Vec<Event> = Vec::new();
    let mut i: usize = 0;
    assert(views(events@) =~= Seq::<EventView>::empty());
    while i < rows.len()
        invariant
            i <= rows.len(),
            views(events@) == row_events(document@, rows@.subrange(0, i as int), year, month),
        decreases rows.len() - i,
    {
        assert(rows@.subrange(0, i + 1).drop_last() =~= rows@.subrange(0, i as int));
        let ghost before = views(events@);
        let cells = document.get_nodes_by_tag_name(rows[i], "td");
        let mut found = load_cells(document, &cells, year, month);
        let ghost more = views(found@);
        events.append(&mut found);
        assert(views(events@) =~= before + more);
        i += 1;
    }
    assert(rows@.subrange(0, rows.len() as int) =~= rows@);
    events
}

/// Finds the rows of the table of the month `month_handle`.
pub fn find_month_rows(document: &Document, month_handle: Handle) -> (rows: Vec<Handle>)
    ensures
        rows@ == month_rows(document@, month_handle),
{
    let table = match document.get_node_by_tag_name(month_handle, "table") {
        Some(table) => table,
        None => {
            return Vec::new();
        },
    };
    let body = match document.get_node_by_tag_name(table, "tbody") {
        Some(body) => body,
        None => {
            return Vec::new();
        },
    };
    document.get_nodes_by_tag_name(body, "tr")
}

/// Reads the month and the year that the heading of the month
/// `month_handle` names.
pub fn read_month_heading(document: &Document, month_handle: Handle) -> (heading: Result<
    Option<(Month, Year)>,
    Error,
>)
    ensures
        agrees(heading, month_heading(document@, month_handle)),
{
    let heading = match document.get_node_by_tag_name(month_handle, "h2") {
        Some(heading) => heading,
        None => {
            return Ok(None);
        },
    };
    let text = match document.get_content(heading) {
        Some(text) => text,
        None => {
            return Ok(None);
        },
    };
    match read_heading(text.as_str()) {
        Ok(found) => Ok(Some(found)),
        Err(error) => Err(error),
    }
}

/// Reads the events of the month `month_handle`.
pub fn load_month(document: &Document, month_handle: Handle) -> (found: Result<
    Option<(u32, Vec<Event>)>,
    Error,
>)
    ensures
        reads_month(found, month_events(document@, month_handle)),
{
    reveal(month_events);
    let (month, year) = match read_month_heading(document, month_handle) {
        Ok(Some(found)) => found,
        Ok(None) => {
            return Ok(None);
        },
        Err(error) => {
            return Err(error);
        },
    };
    let rows = find_month_rows(document, month_handle);
    let events = load_rows(document, &rows, year, month);
    if events.len() == 0 {
        assert(views(events@).len() == events@.len());
        return Ok(None);
    }
    assert(views(events@)[0] == events@[0]@);
    let period = events[0].end.period();
    Ok(Some((period, events)))
}

/// The events of each period of the months among `parts`: of each `div` of
/// the class `calendar` its events under its period. A later month takes
/// the place of an earlier one of the same period. The first month that
/// fails makes the whole fail.
pub open spec fn calendar_months(nodes: Seq<DocumentNode>, parts: Seq<Handle>) -> Result<
    Map<u32, Seq<EventView>>,
    Failure,
>
    decreases parts.len(),
{
    if parts.len() == 0 {
        Ok(Map::empty())
    } else {
        match calendar_months(nodes, parts.drop_last()) {
            Err(failure) => Err(failure),
            Ok(months) => if has_class(nodes, parts.last(), "calendar"@) {
                match month_events(nodes, parts.last()) {
                    Err(failure) => Err(failure),
                    Ok(None) => Ok(months),
                    Ok(Some((period, events))) => Ok(months.insert(period, events)),
                }
            } else {
                Ok(months)
            },
        }
    }
}

/// The events of each period of a document: those of the months in the
/// `body` of its `html` element. A document without one of the two is a
/// failure of structure.
pub open spec fn document_months(nodes: Seq<DocumentNode>) -> Result<
    Map<u32, Seq<EventView>>,
    Failure,
> {
    match first_named(nodes, children(nodes, 0), "html"@) {
        None => Err(Failure::Structure { field: Field::Html }),
        Some(html) => match first_named(nodes, children(nodes, html), "body"@) {
            None => Err(Failure::Structure { field: Field::Body }),
            Some(body) => calendar_months(nodes, all_named(nodes, children(nodes, body), "div"@)),
        },
    }
}

/// The views of the events of each period.
pub open spec fn month_views(months: Map<u32, Seq<Event>>) -> Map<u32, Seq<EventView>> {
    months.map_values(|events: Seq<Event>| views(events))
}

/// Whether the months that were read are those wanted.
pub open spec fn reads_months(
    result: Result<Months, Error>,
    wanted: Result<Map<u32, Seq<EventView>>, Failure>,
) -> bool {
    match (result, wanted) {
        (Ok(months), Ok(others)) => month_views(months@) == others,
        (Err(error), Err(failure)) => error@ == failure,
        _ => false,
    }
}

/// Reads the events of a document, by period.
pub fn load_events(document: &Document) -> (months: Result<Months, Error>)
    ensures
        reads_months(months, document_months(document@)),
{
    let html = match document.get_node_by_tag_name(0, "html") {
        Some(html) => html,
        None => {
            return Err(Error::Structure { field: Field::Html });
        },
    };
    let body = match document.get_node_by_tag_name(html, "body") {
        Some(body) => body,
        None => {
            return Err(Error::Structure { field: Field::Body });
        },
    };
    let parts = document.get_nodes_by_tag_name(body, "div");
    let mut months = Months::new();
    let mut i: usize = 0;
    assert(month_views(months@) =~= Map::<u32, Seq<EventView>>::empty());
    while i < parts.len()
        invariant
            i <= parts.len(),
            document_months(document@) == calendar_months(document@, parts@),
            calendar_months(document@, parts@.subrange(0, i as int)) == Ok::<
                Map<u32, Seq<EventView>>,
                Failure,
            >(month_views(months@)),
        decreases parts.len() - i,
    {
        assert(parts@.subrange(0, i + 1).drop_last() =~= parts@.subrange(0, i as int));
        if is_of_class(document, parts[i], "calendar") {
            match load_month(document, parts[i]) {
                Err(error) => {
                    proof {
                        assert(calendar_months(document@, parts@.subrange(0, i + 1)) is Err);
                        lemma_first_failure_stays(document@, parts@, i + 1);
                    }
                    return Err(error);
                },
                Ok(None) => {},
                Ok(Some((period, events))) => {
                    let ghost before = months@;
                    months = months.insert(period, events);
                    assert(month_views(months@) =~= month_views(before).insert(
                        period,
                        views(events@),
                    ));
                },
            }
        }
        i += 1;
    }
    assert(parts@.subrange(0, parts.len() as int) =~= parts@);
    Ok(months)
}

/// A failure among the first months is the failure of all.
proof fn lemma_first_failure_stays(nodes: Seq<DocumentNode>, parts: Seq<Handle>, i: int)
    requires
        0 <= i <= parts.len(),
        calendar_months(nodes, parts.subrange(0, i)) is Err,
    ensures
        calendar_months(nodes, parts) == calendar_months(nodes, parts.subrange(0, i)),
    decreases parts.len(),
{
    if i == parts.len() {
        assert(parts.subrange(0, i) =~= parts);
    } else {
        assert(parts.drop_last().subrange(0, i) =~= parts.subrange(0, i));
        lemma_first_failure_stays(nodes, parts.drop_last(), i);
    }
}

} // verus!
