//! What reading the events of a document passes over: the days and events
//! that cannot be read, and the parts of a day that are no events. They are
//! listed in the order of the document, for whoever wants to tell of them.
use crate::error::{fail, failures, Error, Failure, Field};
use crate::extract::{
    block_events, day_blocks, event_of, find_month_rows, has_class, is_of_class, month_heading, month_rows,
    process_event, read_day, read_month_heading, Day, Month, Year,
};
use crate::tree::{
    all_named, children, first_named, first_text, Document, DocumentNode, Handle,
    HandleExtensions,
};
use vstd::prelude::*;

verus! {

/// What is told of a `div` of a day that is not marked as an event: its
/// text, where it has any.
pub open spec fn division_failure(nodes: Seq<DocumentNode>, division: Handle) -> Failure {
    fail(
        Field::Division,
        match first_text(nodes, children(nodes, division)) {
            Some(text) => text,
            None => Seq::empty(),
        },
    )
}

/// What is passed over among the blocks `blocks` of a day: each block that
/// is not of the class `month_block`, and each event that cannot be read.
pub open spec fn block_failures(
    nodes: Seq<DocumentNode>,
    blocks: Seq<Handle>,
    year: Year,
    month: Month,
    day: Day,
) -> Seq<Failure>
    decreases blocks.len(),
{
    if blocks.len() == 0 {
        Seq::empty()
    } else {
        let before = block_failures(nodes, blocks.drop_last(), year, month, day);
        if has_class(nodes, blocks.last(), "month_block"@) {
            match event_of(nodes, blocks.last(), year, month, day) {
                Ok(_) => before,
                Err(failure) => before.push(failure),
            }
        } else {
            before.push(division_failure(nodes, blocks.last()))
        }
    }
}

/// Every block of a day either gives an event or is passed over, never
/// both.
pub proof fn lemma_every_block_is_read_or_passed_over(
    nodes: Seq<DocumentNode>,
    blocks: Seq<Handle>,
    year: Year,
    month: Month,
    day: Day,
)
    ensures
        block_events(nodes, blocks, year, month, day).len() + block_failures(
            nodes,
            blocks,
            year,
            month,
            day,
        ).len() == blocks.len(),
    decreases blocks.len(),
{
    if blocks.len() > 0 {
        lemma_every_block_is_read_or_passed_over(nodes, blocks.drop_last(), year, month, day);
    }
}

/// What is passed over in the day cell `cell`: the day itself where its
/// number cannot be read, else what is passed over among its blocks.
pub open spec fn day_failures(nodes: Seq<DocumentNode>, cell: Handle, year: Year, month: Month) -> Seq<
    Failure,
> {
    match day_blocks(nodes, cell) {
        Err(failure) => seq![failure],
        Ok(None) => Seq::empty(),
        Ok(Some((blocks, day))) => block_failures(nodes, blocks, year, month, day),
    }
}

/// What is passed over in the cells `cells` of a row.
pub open spec fn cell_failures(
    nodes: Seq<DocumentNode>,
    cells: Seq<Handle>,
    year: Year,
    month: Month,
) -> Seq<Failure>
    decreases cells.len(),
{
    if cells.len() == 0 {
        Seq::empty()
    } else {
        let before = cell_failures(nodes, cells.drop_last(), year, month);
        if has_class(nodes, cells.last(), "month_cell"@) {
            before + day_failures(nodes, cells.last(), year, month)
        } else {
            before
        }
    }
}

/// What is passed over in the rows `rows` of the table of a month.
pub open spec fn row_failures(
    nodes: Seq<DocumentNode>,
    rows: Seq<Handle>,
    year: Year,
    month: Month,
) -> Seq<Failure>
    decreases rows.len(),
{
    if rows.len() == 0 {
        Seq::empty()
    } else {
        row_failures(nodes, rows.drop_last(), year, month) + cell_failures(
            nodes,
            all_named(nodes, children(nodes, rows.last()), "td"@),
            year,
            month,
        )
    }
}

/// What is passed over in the month `month_node`. Nothing is passed over
/// in a month whose heading is missing or cannot be read: such a month is
/// not read at all.
pub open spec fn month_failures(nodes: Seq<DocumentNode>, month_node: Handle) -> Seq<Failure> {
    match month_heading(nodes, month_node) {
        Ok(Some((month, year))) => row_failures(
            nodes,
            month_rows(nodes, month_node),
            year,
            month,
        ),
        _ => Seq::empty(),
    }
}

/// What is passed over in the months among `parts`.
pub open spec fn calendar_failures(nodes: Seq<DocumentNode>, parts: Seq<Handle>) -> Seq<Failure>
    decreases parts.len(),
{
    if parts.len() == 0 {
        Seq::empty()
    } else {
        let before = calendar_failures(nodes, parts.drop_last());
        if has_class(nodes, parts.last(), "calendar"@) {
            before + month_failures(nodes, parts.last())
        } else {
            before
        }
    }
}

/// What is passed over in a document.
pub open spec fn document_failures(nodes: Seq<DocumentNode>) -> Seq<Failure> {
    match first_named(nodes, children(nodes, 0), "html"@) {
        None => Seq::empty(),
        Some(html) => match first_named(nodes, children(nodes, html), "body"@) {
            None => Seq::empty(),
            Some(body) => calendar_failures(
                nodes,
                all_named(nodes, children(nodes, body), "div"@),
            ),
        },
    }
}

/// Tells of a `div` of a day that is not marked as an event.
fn tell_of_division(document: &Document, division: Handle) -> (error: Error)
    ensures
        error@ == division_failure(document@, division),
{
    match document.get_content(division) {
        Some(text) => Error::Extraction { field: Field::Division, text },
        None => Error::missing(Field::Division),
    }
}

/// Lists what is passed over among the blocks `blocks` of a day.
pub fn skipped_blocks(
    document: &Document,
    blocks: &[Handle],
    year: Year,
    month: Month,
    day: Day,
) -> (found: Vec<Error>)
    ensures
        failures(found@) == block_failures(document@, blocks@, year, month, day),
{
    let mut found: Vec<Error> = Vec::new();
    let mut i: usize = 0;
    assert(failures(found@) =~= Seq::<Failure>::empty());
    while i < blocks.len()
        invariant
            i <= blocks.len(),
            failures(found@) == block_failures(
                document@,
                blocks@.subrange(0, i as int),
                year,
                month,
                day,
            ),
        decreases blocks.len() - i,
    {
        assert(blocks@.subrange(0, i + 1).drop_last() =~= blocks@.subrange(0, i as int));
        let ghost before = failures(found@);
        if is_of_class(document, blocks[i], "month_block") {
            match process_event(document, blocks[i], year, month, day) {
                Ok(_) => {},
                Err(error) => {
                    let ghost failure = error@;
                    found.push(error);
                    assert(failures(found@) =~= before.push(failure));
                },
            }
        } else {
            let error = tell_of_division(document, blocks[i]);
            let ghost failure = error@;
            found.push(error);
            assert(failures(found@) =~= before.push(failure));
        }
        i += 1;
    }
    assert(blocks@.subrange(0, blocks.len() as int) =~= blocks@);
    found
}

/// Lists what is passed over in the day cell `cell`.
pub fn skipped_in_day(document: &Document, cell: Handle, year: Year, month: Month) -> (found: Vec<
    Error,
>)
    ensures
        failures(found@) == day_failures(document@, cell, year, month),
{
    match read_day(document, cell) {
        Err(error) => {
            let mut found: Vec<Error> = Vec::new();
            let ghost failure = error@;
            found.push(error);
            assert(failures(found@) =~= seq![failure]);
            found
        },
        Ok(None) => {
            let found: Vec<Error> = Vec::new();
            assert(failures(found@) =~= Seq::<Failure>::empty());
            found
        },
        Ok(Some((blocks, day))) => skipped_blocks(document, blocks.as_slice(), year, month, day),
    }
}

/// Lists what is passed over in the cells `cells` of a row.
fn skipped_in_cells(document: &Document, cells: &Vec<Handle>, year: Year, month: Month) -> (found:
    Vec<Error>)
    ensures
        failures(found@) == cell_failures(document@, cells@, year, month),
{
    let mut found: Vec<Error> = Vec::new();
    let mut i: usize = 0;
    assert(failures(found@) =~= Seq::<Failure>::empty());
    while i < cells.len()
        invariant
            i <= cells.len(),
            failures(found@) == cell_failures(document@, cells@.subrange(0, i as int), year, month),
        decreases cells.len() - i,
    {
        assert(cells@.subrange(0, i + 1).drop_last() =~= cells@.subrange(0, i as int));
        let ghost before = failures(found@);
        if is_of_class(document, cells[i], "month_cell") {
            let mut more = skipped_in_day(document, cells[i], year, month);
            let ghost added = failures(more@);
            found.append(&mut more);
            assert(failures(found@) =~= before + added);
        }
        i += 1;
    }
    assert(cells@.subrange(0, cells.len() as int) =~= cells@);
    found
}

/// Lists what is passed over in the rows `rows` of the table of a month.
fn skipped_in_rows(document: &Document, rows: &Vec<Handle>, year: Year, month: Month) -> (found:
    Vec<Error>)
    ensures
        failures(found@) == row_failures(document@, rows@, year, month),
{
    let mut found: Vec<Error> = Vec::new();
    let mut i: usize = 0;
    assert(failures(found@) =~= Seq::<Failure>::empty());
    while i < rows.len()
        invariant
            i <= rows.len(),
            failures(found@) == row_failures(document@, rows@.subrange(0, i as int), year, month),
        decreases rows.len() - i,
    {
        assert(rows@.subrange(0, i + 1).drop_last() =~= rows@.subrange(0, i as int));
        let ghost before = failures(found@);
        let cells = document.get_nodes_by_tag_name(rows[i], "td");
        let mut more = skipped_in_cells(document, &cells, year, month);
        let ghost added = failures(more@);
        found.append(&mut more);
        assert(failures(found@) =~= before + added);
        i += 1;
    }
    assert(rows@.subrange(0, rows.len() as int) =~= rows@);
    found
}

/// Lists what is passed over in the month `month_handle`.
pub fn skipped_in_month(document: &Document, month_handle: Handle) -> (found: Vec<Error>)
    ensures
        failures(found@) == month_failures(document@, month_handle),
{
    match read_month_heading(document, month_handle) {
        Ok(Some((month, year))) => {
            let rows = find_month_rows(document, month_handle);
            skipped_in_rows(document, &rows, year, month)
        },
        _ => {
            let found: Vec<Error> = Vec::new();
            assert(failures(found@) =~= Seq::<Failure>::empty());
            found
        },
    }
}

/// Lists what reading the events of `document` passes over, in the order
/// of the document.
pub fn skipped(document: &Document) -> (found: Vec<Error>)
    ensures
        failures(found@) == document_failures(document@),
{
    let mut found: Vec<Error> = Vec::new();
    assert(failures(found@) =~= Seq::<Failure>::empty());
    let html = match document.get_node_by_tag_name(0, "html") {
        Some(html) => html,
        None => {
            return found;
        },
    };
    let body = match document.get_node_by_tag_name(html, "body") {
        Some(body) => body,
        None => {
            return found;
        },
    };
    let parts = document.get_nodes_by_tag_name(body, "div");
    let mut i: usize = 0;
    while i < parts.len()
        invariant
            i <= parts.len(),
            document_failures(document@) == calendar_failures(document@, parts@),
            failures(found@) == calendar_failures(document@, parts@.subrange(0, i as int)),
        decreases parts.len() - i,
    {
        assert(parts@.subrange(0, i + 1).drop_last() =~= parts@.subrange(0, i as int));
        let ghost before = failures(found@);
        if is_of_class(document, parts[i], "calendar") {
            let mut more = skipped_in_month(document, parts[i]);
            let ghost added = failures(more@);
            found.append(&mut more);
            assert(failures(found@) =~= before + added);
        }
        i += 1;
    }
    assert(parts@.subrange(0, parts.len() as int) =~= parts@);
    found
}

} // verus!
