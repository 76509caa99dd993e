//! The table of an event: rows of a label and a value.
use crate::model::optional_text;
use crate::text::{chars_of, equal, string_of, trim_end, without_trailing, CharClass};
use crate::tree::{all_named, children, first_text, Document, DocumentNode, Handle, HandleExtensions};
use vstd::prelude::*;

verus! {

/// A label and its value.
pub type Pair = (Seq<char>, Seq<char>);

/// The views of labels and values.
pub open spec fn pairs(entries: Seq<(String, String)>) -> Seq<Pair> {
    entries.map_values(|entry: (String, String)| (entry.0@, entry.1@))
}

/// What a row of the table says: the text of its first cell without the
/// colons at its end, and the text of its second cell. A row says nothing
/// where it has fewer than two cells, where one of the two has no text, or
/// where the value is empty.
pub open spec fn row_entry(nodes: Seq<DocumentNode>, row: Handle) -> Option<Pair> {
    let cells = all_named(nodes, children(nodes, row), "td"@);
    if cells.len() < 2 {
        None
    } else {
        match (
            first_text(nodes, children(nodes, cells[0])),
            first_text(nodes, children(nodes, cells[1])),
        ) {
            (Some(label), Some(value)) => if value.len() > 0 {
                Some((without_trailing(label, CharClass::Colon), value))
            } else {
                None
            },
            _ => None,
        }
    }
}

/// What the rows of `rows` say, in order.
pub open spec fn rows_metadata(nodes: Seq<DocumentNode>, rows: Seq<Handle>) -> Seq<Pair>
    decreases rows.len(),
{
    if rows.len() == 0 {
        Seq::empty()
    } else {
        match row_entry(nodes, rows.last()) {
            Some(entry) => rows_metadata(nodes, rows.drop_last()).push(entry),
            None => rows_metadata(nodes, rows.drop_last()),
        }
    }
}

/// The value that `metadata` gives for `label`: that of the last row with
/// this label.
pub open spec fn lookup(metadata: Seq<Pair>, label: Seq<char>) -> Option<Seq<char>>
    decreases metadata.len(),
{
    if metadata.len() == 0 {
        None
    } else if metadata.last().0 == label {
        Some(metadata.last().1)
    } else {
        lookup(metadata.drop_last(), label)
    }
}

/// Reads one row of the table.
pub fn read_row(document: &Document, row: Handle) -> (entry: Option<(String, String)>)
    ensures
        match entry {
            Some(e) => row_entry(document@, row) == Some((e.0@, e.1@)),
            None => row_entry(document@, row) is None,
        },
{
    let cells = document.get_nodes_by_tag_name(row, "td");
    if cells.len() < 2 {
        return None;
    }
    let label = match document.get_content(cells[0]) {
        Some(text) => text,
        None => {
            return None;
        },
    };
    let value = match document.get_content(cells[1]) {
        Some(text) => text,
        None => {
            return None;
        },
    };
    if value.as_str().is_empty() {
        return None;
    }
    let chars = chars_of(label.as_str());
    let key = string_of(trim_end(chars.as_slice(), CharClass::Colon));
    Some((key, value))
}

/// Reads the rows of the table.
pub fn read_rows(document: &Document, rows: &Vec<Handle>) -> (metadata: Vec<(String, String)>)
    ensures
        pairs(metadata@) == rows_metadata(document@, rows@),
{
    let mut metadata: Vec<(String, String)> = Vec::new();
    let mut i: usize = 0;
    assert(pairs(metadata@) =~= Seq::<Pair>::empty());
    while i < rows.len()
        invariant
            i <= rows.len(),
            pairs(metadata@) == rows_metadata(document@, rows@.subrange(0, i as int)),
        decreases rows.len() - i,
    {
        assert(rows@.subrange(0, i + 1).drop_last() =~= rows@.subrange(0, i as int));
        let ghost before = pairs(metadata@);
        match read_row(document, rows[i]) {
            Some(entry) => {
                let ghost pair = (entry.0@, entry.1@);
                metadata.push(entry);
                assert(pairs(metadata@) =~= before.push(pair));
            },
            None => {},
        }
        i += 1;
    }
    assert(rows@.subrange(0, rows.len() as int) =~= rows@);
    metadata
}

/// The value that `metadata` gives for `label`.
pub fn find(metadata: &Vec<(String, String)>, label: &str) -> (value: Option<String>)
    ensures
        optional_text(value) == lookup(pairs(metadata@), label@),
{
    let mut i: usize = metadata.len();
    assert(pairs(metadata@).subrange(0, i as int) =~= pairs(metadata@));
    while i > 0
        invariant
            i <= metadata.len(),
            lookup(pairs(metadata@), label@) == lookup(
                pairs(metadata@).subrange(0, i as int),
                label@,
            ),
        decreases i,
    {
        let ghost seen = pairs(metadata@).subrange(0, i as int);
        assert(seen.drop_last() =~= pairs(metadata@).subrange(0, i - 1));
        assert(seen.last() == (metadata@[i - 1].0@, metadata@[i - 1].1@));
        if equal(metadata[i - 1].0.as_str(), label) {
            let value = metadata[i - 1].1.clone();
            return Some(value);
        }
        i -= 1;
    }
    None
}

} // verus!
