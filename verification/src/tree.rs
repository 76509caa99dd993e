//! A parsed document as a table of nodes, and the queries that read it.
//! A node is named by its place in the table, its handle; the root is
//! node 0. Every query looks at one node or at its children, never deeper.
use crate::error::{agrees, Error, Failure, Field};
use crate::model::optional_text;
use crate::text::{equal, texts};
use vstd::prelude::*;

verus! {

/// The place of a node in the table of its document.
pub type Handle = usize;

/// A named value on an element.
#[derive(Clone, Debug, PartialEq, Eq)]
pub struct Attribute {
    pub name: String,
    pub value: String,
}

/// What a node is.
#[derive(Clone, Debug, PartialEq, Eq)]
pub enum NodeContent {
    /// An element with its tag name and its attributes.
    Element { name: String, attributes: Vec<Attribute> },
    /// A run of text.
    Text { contents: String },
    /// Anything else: the document itself, a comment, a doctype.
    Other,
}

/// What a node is, with texts as character sequences and each attribute
/// as its name and its value.
pub enum ContentView {
    Element { name: Seq<char>, attributes: Seq<(Seq<char>, Seq<char>)> },
    Text { contents: Seq<char> },
    Other,
}

impl View for NodeContent {
    type V = ContentView;

    open spec fn view(&self) -> ContentView {
        match *self {
            NodeContent::Element { name, attributes } => ContentView::Element {
                name: name@,
                attributes: attributes@.map_values(
                    |attribute: Attribute| (attribute.name@, attribute.value@),
                ),
            },
            NodeContent::Text { contents } => ContentView::Text { contents: contents@ },
            NodeContent::Other => ContentView::Other,
        }
    }
}

/// A node and the handles of its children, in document order.
#[derive(Clone, Debug, PartialEq, Eq)]
pub struct DocumentNode {
    pub data: NodeContent,
    pub children: Vec<Handle>,
}

/// Whether every child named in `nodes` is a node of the table that stands
/// after its parent.
pub open spec fn linked(nodes: Seq<DocumentNode>) -> bool {
    forall|n: int, i: int|
        0 <= n < nodes.len() && 0 <= i < nodes[n].children@.len() ==> n
            < #[trigger] nodes[n].children@[i] < nodes.len()
}

/// The children of `node`; none where there is no such node.
pub open spec fn children(nodes: Seq<DocumentNode>, node: Handle) -> Seq<Handle> {
    if node < nodes.len() {
        nodes[node as int].children@
    } else {
        Seq::empty()
    }
}

/// Whether `node` is an element with the tag name `tag`.
pub open spec fn is_named(nodes: Seq<DocumentNode>, node: Handle, tag: Seq<char>) -> bool {
    &&& node < nodes.len()
    &&& nodes[node as int].data matches NodeContent::Element { name, .. }
    &&& name@ == tag
}

/// The first of `among` that is an element named `tag`.
pub open spec fn first_named(nodes: Seq<DocumentNode>, among: Seq<Handle>, tag: Seq<char>) -> Option<
    Handle,
>
    decreases among.len(),
{
    if among.len() == 0 {
        None
    } else if is_named(nodes, among[0], tag) {
        Some(among[0])
    } else {
        first_named(nodes, among.drop_first(), tag)
    }
}

/// Those of `among` that are elements named `tag`, in order.
pub open spec fn all_named(nodes: Seq<DocumentNode>, among: Seq<Handle>, tag: Seq<char>) -> Seq<Handle>
    decreases among.len(),
{
    if among.len() == 0 {
        Seq::empty()
    } else if is_named(nodes, among.last(), tag) {
        all_named(nodes, among.drop_last(), tag).push(among.last())
    } else {
        all_named(nodes, among.drop_last(), tag)
    }
}

/// The value of the first of `attributes` that is named `name`.
pub open spec fn attribute_among(attributes: Seq<Attribute>, name: Seq<char>) -> Option<
    Seq<char>,
>
    decreases attributes.len(),
{
    if attributes.len() == 0 {
        None
    } else if attributes[0].name@ == name {
        Some(attributes[0].value@)
    } else {
        attribute_among(attributes.drop_first(), name)
    }
}

/// The value of the attribute `name` of `node`, where `node` is an element
/// that has one.
pub open spec fn attribute(nodes: Seq<DocumentNode>, node: Handle, name: Seq<char>) -> Option<Seq<char>> {
    if node < nodes.len() {
        match nodes[node as int].data {
            NodeContent::Element { attributes, .. } => attribute_among(attributes@, name),
            _ => None,
        }
    } else {
        None
    }
}

/// The text of `node`, where `node` is a run of text.
pub open spec fn text_of(nodes: Seq<DocumentNode>, node: Handle) -> Option<Seq<char>> {
    if node < nodes.len() {
        match nodes[node as int].data {
            NodeContent::Text { contents } => Some(contents@),
            _ => None,
        }
    } else {
        None
    }
}

/// The text of the first of `among` that is a run of text.
pub open spec fn first_text(nodes: Seq<DocumentNode>, among: Seq<Handle>) -> Option<Seq<char>>
    decreases among.len(),
{
    if among.len() == 0 {
        None
    } else if text_of(nodes, among[0]) is Some {
        text_of(nodes, among[0])
    } else {
        first_text(nodes, among.drop_first())
    }
}

/// The texts of those of `among` that are runs of text, in order.
pub open spec fn all_texts(nodes: Seq<DocumentNode>, among: Seq<Handle>) -> Seq<Seq<char>>
    decreases among.len(),
{
    if among.len() == 0 {
        Seq::empty()
    } else {
        match text_of(nodes, among.last()) {
            Some(text) => all_texts(nodes, among.drop_last()).push(text),
            None => all_texts(nodes, among.drop_last()),
        }
    }
}

/// What checking an attribute gives: the node itself where the attribute
/// has the value, else a failure that names the attribute where it is
/// missing and shows the value found where it is another.
pub open spec fn checked_attribute(
    nodes: Seq<DocumentNode>,
    node: Handle,
    name: Seq<char>,
    value: Seq<char>,
) -> Result<Handle, Failure> {
    match attribute(nodes, node, name) {
        None => Err(Failure::Extraction { field: Field::Attribute, text: name }),
        Some(found) => if found == value {
            Ok(node)
        } else {
            Err(Failure::Extraction { field: Field::Attribute, text: found })
        },
    }
}

/// A document: the table of its nodes. Children stand after their parents.
#[derive(Debug, PartialEq, Eq)]
pub struct Document {
    nodes: Vec<DocumentNode>,
}

impl View for Document {
    type V = Seq<DocumentNode>;

    closed spec fn view(&self) -> Seq<DocumentNode> {
        self.nodes@
    }
}

/// The queries on the handles of a document.
pub trait HandleExtensions: View<V = Seq<DocumentNode>> {
    /// The node itself, where its attribute `attribute_name` has the value
    /// `attribute_value`.
    fn check_attribute(&self, node: Handle, attribute_name: &str, attribute_value: &str) -> (checked:
        Result<Handle, Error>)
        ensures
            agrees(checked, checked_attribute(self@, node, attribute_name@, attribute_value@)),
    ;

    /// The first child of `node` that is an element named `tag_name`.
    fn get_node_by_tag_name(&self, node: Handle, tag_name: &str) -> (found: Option<Handle>)
        ensures
            found == first_named(self@, children(self@, node), tag_name@),
    ;

    /// The children of `node` that are elements named `tag_name`.
    fn get_nodes_by_tag_name(&self, node: Handle, tag_name: &str) -> (found: Vec<Handle>)
        ensures
            found@ == all_named(self@, children(self@, node), tag_name@),
    ;

    /// The value of the attribute `attribute_name` of `node`.
    fn get_attribute_value(&self, node: Handle, attribute_name: &str) -> (value: Option<String>)
        ensures
            optional_text(value) == attribute(self@, node, attribute_name@),
    ;

    /// The text of the first child of `node` that is a run of text.
    fn get_content(&self, node: Handle) -> (content: Option<String>)
        ensures
            optional_text(content) == first_text(self@, children(self@, node)),
    ;

    /// The texts of the children of `node` that are runs of text.
    fn get_text_nodes(&self, node: Handle) -> (found: Vec<String>)
        ensures
            texts(found@) == all_texts(self@, children(self@, node)),
    ;
}

impl Document {
    #[verifier::type_invariant]
    pub closed spec fn well_formed(self) -> bool {
        linked(self.nodes@)
    }

    /// A document of one node, the root, without children.
    pub fn new() -> (document: Document)
        ensures
            document@.len() == 1,
            document@[0].data == NodeContent::Other,
            document@[0].children@ == Seq::<Handle>::empty(),
            document.well_formed(),
    {
        let mut nodes: Vec<DocumentNode> = Vec::new();
        nodes.push(DocumentNode { data: NodeContent::Other, children: Vec::new() });
        Document { nodes }
    }

    /// The number of nodes.
    pub fn len(&self) -> (count: usize)
        ensures
            count == self@.len(),
    {
        self.nodes.len()
    }

    /// Adds a node without children as the last child of `parent` and gives
    /// its handle. Nothing is added where there is no node `parent`.
    pub fn add(self, parent: Handle, data: NodeContent) -> (grown: (Document, Option<Handle>))
        ensures
            grown.0.well_formed(),
            match grown.1 {
                Some(added) => {
                    &&& parent < self@.len()
                    &&& added == self@.len()
                    &&& grown.0@.len() == self@.len() + 1
                    &&& grown.0@[added as int].data == data
                    &&& grown.0@[added as int].children@ == Seq::<Handle>::empty()
                    &&& grown.0@[parent as int].data == self@[parent as int].data
                    &&& grown.0@[parent as int].children@ == self@[parent as int].children@.push(
                        added,
                    )
                    &&& forall|n: int|
                        0 <= n < self@.len() && n != parent ==> grown.0@[n] == self@[n]
                },
                None => parent >= self@.len() && grown.0@ == self@,
            },
    {
        proof {
            use_type_invariant(&self);
        }
        let ghost before = self.nodes@;
        let mut nodes = self.nodes;
        if parent >= nodes.len() {
            return (Document { nodes }, None);
        }
        let added = nodes.len();
        let mut above = nodes.remove(parent);
        above.children.push(added);
        nodes.insert(parent, above);
        nodes.push(DocumentNode { data, children: Vec::new() });
        proof {
            assert forall|n: int, i: int|
                0 <= n < nodes@.len() && 0 <= i < nodes@[n].children@.len() implies n
                < #[trigger] nodes@[n].children@[i] < nodes@.len() by {
                if n == parent {
                    if i < before[n].children@.len() {
                        assert(nodes@[n].children@[i] == before[n].children@[i]);
                    }
                } else if n < before.len() {
                    assert(nodes@[n] == before[n]);
                    assert(nodes@[n].children@[i] == before[n].children@[i]);
                }
            }
        }
        (Document { nodes }, Some(added))
    }

    /// Adds an element without attributes as the last child of `parent`.
    pub fn add_element(self, parent: Handle, name: &str, attributes: Vec<Attribute>) -> (grown: (
        Document,
        Option<Handle>,
    ))
        ensures
            grown.0.well_formed(),
            grown.1 is Some <==> parent < self@.len(),
            grown.1 matches Some(added) ==> {
                &&& added == self@.len()
                &&& grown.0@.len() == self@.len() + 1
                &&& is_named(grown.0@, added, name@)
                &&& grown.0@[added as int].children@ == Seq::<Handle>::empty()
                &&& grown.0@[parent as int].children@ == self@[parent as int].children@.push(added)
            },
    {
        self.add(parent, NodeContent::Element { name: name.to_owned(), attributes })
    }

    /// Adds a run of text as the last child of `parent`.
    pub fn add_text(self, parent: Handle, contents: &str) -> (grown: (Document, Option<Handle>))
        ensures
            grown.0.well_formed(),
            grown.1 is Some <==> parent < self@.len(),
            grown.1 matches Some(added) ==> {
                &&& added == self@.len()
                &&& grown.0@.len() == self@.len() + 1
                &&& text_of(grown.0@, added) == Some(contents@)
                &&& grown.0@[parent as int].children@ == self@[parent as int].children@.push(added)
            },
    {
        self.add(parent, NodeContent::Text { contents: contents.to_owned() })
    }

    /// Makes a document of a table of nodes in which every child stands
    /// after its parent.
    pub(crate) fn from_linked(nodes: Vec<DocumentNode>) -> (document: Document)
        requires
            linked(nodes@),
        ensures
            document@ == nodes@,
            document.well_formed(),
    {
        Document { nodes }
    }

    /// Makes a document of a table of nodes, where every child named in it
    /// is a node of the table that stands after its parent.
    pub fn from_nodes(nodes: Vec<DocumentNode>) -> (document: Option<Document>)
        ensures
            match document {
                Some(d) => linked(nodes@) && d@ == nodes@ && d.well_formed(),
                None => !linked(nodes@),
            },
    {
        let mut n: usize = 0;
        while n < nodes.len()
            invariant
                n <= nodes.len(),
                forall|m: int, i: int|
                    0 <= m < n && 0 <= i < nodes@[m].children@.len() ==> m
                        < #[trigger] nodes@[m].children@[i] < nodes@.len(),
            decreases nodes.len() - n,
        {
            let mut i: usize = 0;
            while i < nodes[n].children.len()
                invariant
                    n < nodes.len(),
                    i <= nodes@[n as int].children@.len(),
                    forall|j: int|
                        0 <= j < i ==> n < #[trigger] nodes@[n as int].children@[j] < nodes@.len(),
                decreases nodes@[n as int].children@.len() - i,
            {
                let child = nodes[n].children[i];
                if child <= n || child >= nodes.len() {
                    return None;
                }
                i += 1;
            }
            n += 1;
        }
        Some(Document { nodes })
    }

    /// The node at `node`, where there is one.
    pub fn node(&self, node: Handle) -> (found: Option<&DocumentNode>)
        ensures
            match found {
                Some(n) => node < self@.len() && *n == self@[node as int],
                None => node >= self@.len(),
            },
    {
        if node < self.nodes.len() {
            Some(&self.nodes[node])
        } else {
            None
        }
    }
}

impl HandleExtensions for Document {
    fn check_attribute(&self, node: Handle, attribute_name: &str, attribute_value: &str) -> (checked:
        Result<Handle, Error>) {
        match self.get_attribute_value(node, attribute_name) {
            None => Err(Error::extraction(Field::Attribute, attribute_name)),
            Some(found) => {
                if equal(found.as_str(), attribute_value) {
                    Ok(node)
                } else {
                    Err(Error::Extraction { field: Field::Attribute, text: found })
                }
            },
        }
    }

    fn get_node_by_tag_name(&self, node: Handle, tag_name: &str) -> (found: Option<Handle>) {
        if node >= self.nodes.len() {
            return None;
        }
        let among = &self.nodes[node].children;
        let mut i: usize = 0;
        assert(among@.subrange(0, among@.len() as int) =~= among@);
        while i < among.len()
            invariant
                i <= among.len(),
                among@ == children(self@, node),
                first_named(self@, among@, tag_name@) == first_named(
                    self@,
                    among@.subrange(i as int, among@.len() as int),
                    tag_name@,
                ),
            decreases among.len() - i,
        {
            let child = among[i];
            assert(among@.subrange(i as int, among@.len() as int).drop_first() =~= among@.subrange(
                i + 1,
                among@.len() as int,
            ));
            if self.named(child, tag_name) {
                return Some(child);
            }
            i += 1;
        }
        None
    }

    fn get_nodes_by_tag_name(&self, node: Handle, tag_name: &str) -> (found: Vec<Handle>) {
        let mut found: Vec<Handle> = Vec::new();
        if node >= self.nodes.len() {
            return found;
        }
        let among = &self.nodes[node].children;
        let mut i: usize = 0;
        while i < among.len()
            invariant
                i <= among.len(),
                among@ == children(self@, node),
                found@ == all_named(self@, among@.subrange(0, i as int), tag_name@),
            decreases among.len() - i,
        {
            let child = among[i];
            assert(among@.subrange(0, i + 1).drop_last() =~= among@.subrange(0, i as int));
            if self.named(child, tag_name) {
                found.push(child);
            }
            i += 1;
        }
        assert(among@.subrange(0, among@.len() as int) =~= among@);
        found
    }

    fn get_attribute_value(&self, node: Handle, attribute_name: &str) -> (value: Option<String>) {
        if node >= self.nodes.len() {
            return None;
        }
        if let NodeContent::Element { attributes, .. } = &self.nodes[node].data {
            let mut i: usize = 0;
            assert(attributes@.subrange(0, attributes@.len() as int) =~= attributes@);
            while i < attributes.len()
                invariant
                    i <= attributes.len(),
                    attribute(self@, node, attribute_name@) == attribute_among(
                        attributes@,
                        attribute_name@,
                    ),
                    attribute_among(attributes@, attribute_name@) == attribute_among(
                        attributes@.subrange(i as int, attributes@.len() as int),
                        attribute_name@,
                    ),
                decreases attributes.len() - i,
            {
                assert(attributes@.subrange(i as int, attributes@.len() as int).drop_first()
                    =~= attributes@.subrange(i + 1, attributes@.len() as int));
                assert(attributes@.subrange(i as int, attributes@.len() as int)[0]
                    == attributes@[i as int]);
                if equal(attributes[i].name.as_str(), attribute_name) {
                    let value = attributes[i].value.clone();
                    assert(value@ == attributes@[i as int].value@);
                    return Some(value);
                }
                i += 1;
            }
        }
        None
    }

    fn get_content(&self, node: Handle) -> (content: Option<String>) {
        if node >= self.nodes.len() {
            return None;
        }
        let among = &self.nodes[node].children;
        let mut i: usize = 0;
        assert(among@.subrange(0, among@.len() as int) =~= among@);
        while i < among.len()
            invariant
                i <= among.len(),
                among@ == children(self@, node),
                first_text(self@, among@) == first_text(
                    self@,
                    among@.subrange(i as int, among@.len() as int),
                ),
            decreases among.len() - i,
        {
            assert(among@.subrange(i as int, among@.len() as int).drop_first() =~= among@.subrange(
                i + 1,
                among@.len() as int,
            ));
            match self.text(among[i]) {
                Some(contents) => {
                    return Some(contents);
                },
                None => {},
            }
            i += 1;
        }
        None
    }

    fn get_text_nodes(&self, node: Handle) -> (found: Vec<String>) {
        let mut found: Vec<String> = Vec::new();
        assert(texts(found@) =~= Seq::<Seq<char>>::empty());
        if node >= self.nodes.len() {
            return found;
        }
        let among = &self.nodes[node].children;
        let mut i: usize = 0;
        while i < among.len()
            invariant
                i <= among.len(),
                among@ == children(self@, node),
                texts(found@) == all_texts(self@, among@.subrange(0, i as int)),
            decreases among.len() - i,
        {
            assert(among@.subrange(0, i + 1).drop_last() =~= among@.subrange(0, i as int));
            let ghost before = texts(found@);
            match self.text(among[i]) {
                Some(contents) => {
                    found.push(contents);
                    assert(texts(found@) =~= before.push(contents@));
                },
                None => {},
            }
            i += 1;
        }
        assert(among@.subrange(0, among@.len() as int) =~= among@);
        found
    }
}

impl Document {
    /// Whether `node` is an element named `tag`.
    pub fn named(&self, node: Handle, tag: &str) -> (yes: bool)
        ensures
            yes == is_named(self@, node, tag@),
    {
        if node >= self.nodes.len() {
            return false;
        }
        match &self.nodes[node].data {
            NodeContent::Element { name, .. } => equal(name.as_str(), tag),
            _ => false,
        }
    }

    /// The text of `node`, where `node` is a run of text.
    pub fn text(&self, node: Handle) -> (contents: Option<String>)
        ensures
            optional_text(contents) == text_of(self@, node),
    {
        if node >= self.nodes.len() {
            return None;
        }
        match &self.nodes[node].data {
            NodeContent::Text { contents } => Some(contents.clone()),
            _ => None,
        }
    }
}

} // verus!
