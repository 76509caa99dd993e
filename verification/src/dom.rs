//! From the bytes of a page to a document: the bytes are decoded as
//! windows-1252, the text is parsed as HTML, and the tree that the parser
//! hands back is copied into a table of nodes.
use crate::error::{Error, Failure, Field};
use crate::tree::{Attribute, ContentView, Document, DocumentNode, Handle, NodeContent};
use std::rc::Rc;
use vstd::prelude::*;
use vstd::utf8::encode_utf8;

verus! {

/// A node of the tree that the HTML parser builds.
#[verifier::external_type_specification]
#[verifier::external_body]
pub struct ExNode(markup5ever_rcdom::Node);

/// The character that a byte stands for in windows-1252. The bytes below
/// 0x80 and from 0xa0 stand for the character with their own number; each
/// of the 32 bytes between has a character of its own.
pub open spec fn windows_1252_char(byte: u8) -> char {
    if byte < 0x80 || byte >= 0xa0 {
        byte as char
    } else if byte == 0x80 {
        '\u{20ac}'
    } else if byte == 0x81 {
        '\u{81}'
    } else if byte == 0x82 {
        '\u{201a}'
    } else if byte == 0x83 {
        '\u{192}'
    } else if byte == 0x84 {
        '\u{201e}'
    } else if byte == 0x85 {
        '\u{2026}'
    } else if byte == 0x86 {
        '\u{2020}'
    } else if byte == 0x87 {
        '\u{2021}'
    } else if byte == 0x88 {
        '\u{2c6}'
    } else if byte == 0x89 {
        '\u{2030}'
    } else if byte == 0x8a {
        '\u{160}'
    } else if byte == 0x8b {
        '\u{2039}'
    } else if byte == 0x8c {
        '\u{152}'
    } else if byte == 0x8d {
        '\u{8d}'
    } else if byte == 0x8e {
        '\u{17d}'
    } else if byte == 0x8f {
        '\u{8f}'
    } else if byte == 0x90 {
        '\u{90}'
    } else if byte == 0x91 {
        '\u{2018}'
    } else if byte == 0x92 {
        '\u{2019}'
    } else if byte == 0x93 {
        '\u{201c}'
    } else if byte == 0x94 {
        '\u{201d}'
    } else if byte == 0x95 {
        '\u{2022}'
    } else if byte == 0x96 {
        '\u{2013}'
    } else if byte == 0x97 {
        '\u{2014}'
    } else if byte == 0x98 {
        '\u{2dc}'
    } else if byte == 0x99 {
        '\u{2122}'
    } else if byte == 0x9a {
        '\u{161}'
    } else if byte == 0x9b {
        '\u{203a}'
    } else if byte == 0x9c {
        '\u{153}'
    } else if byte == 0x9d {
        '\u{9d}'
    } else if byte == 0x9e {
        '\u{17e}'
    } else {
        '\u{178}'
    }
}

/// The text that `bytes` stand for in windows-1252: every byte is one
/// character.
pub open spec fn windows_1252_text(bytes: Seq<u8>) -> Seq<char> {
    bytes.map_values(|byte: u8| windows_1252_char(byte))
}

/// Calls `encoding_rs::WINDOWS_1252.decode_without_bom_handling`, which
/// decodes every byte by the table of the encoding and treats no leading
/// bytes as a mark.
#[verifier::external_body]
fn decode_windows_1252(bytes: &[u8]) -> (text: String)
    ensures
        text@ == windows_1252_text(bytes@),
{
    encoding_rs::WINDOWS_1252.decode_without_bom_handling(bytes).0.into_owned()
}

/// A place in a tree: the numbers of the children to pass through from
/// the root, counted from 0. The empty path is the root itself.
pub type Path = Seq<int>;

/// What the tree under a parser node holds: what each node of it is, under
/// the path that leads to it from that node. An element is held with its
/// local name and, of each attribute, local name and value; a text node
/// with its contents.
pub uninterp spec fn tree_nodes(node: markup5ever_rcdom::Node) -> Map<Path, ContentView>;

/// What the tree holds that the HTML parser builds for `text`.
pub uninterp spec fn html_nodes(text: Seq<char>) -> Map<Path, ContentView>;

/// The part of `tree` below the place `at`: what the tree holds under the
/// paths that begin with `at`, each under what follows `at` in it.
pub open spec fn part(tree: Map<Path, ContentView>, at: Path) -> Map<Path, ContentView> {
    Map::new(|path: Path| tree.dom().contains(at + path), |path: Path| tree[at + path])
}

/// What the tree under the parser node behind `handle` holds.
pub open spec fn tree_under(handle: Rc<markup5ever_rcdom::Node>) -> Map<Path, ContentView> {
    tree_nodes(*handle)
}

/// What `tree` holds for its root.
pub open spec fn root_content(tree: Map<Path, ContentView>) -> Option<ContentView> {
    if tree.dom().contains(Seq::empty()) {
        Some(tree[Seq::empty()])
    } else {
        None
    }
}

/// The most bytes that a text may have to be handed to the parser: 2^28.
/// The parser keeps text in buffers that cannot grow beyond 2^31 bytes,
/// and it may write three bytes for one byte that it reads; a text within
/// the limit leaves it a margin of eight bytes for one.
pub const TEXT_LIMIT: usize = 0x1000_0000;

/// Calls `html5ever::parse_document` with the default options on the whole
/// of `text` and gives the root of the tree. The parser fails where a
/// buffer of text would pass 2^31 bytes, which a text of no more than
/// `TEXT_LIMIT` bytes does not bring about. The tree depends on the text
/// alone.
#[verifier::external_body]
fn parse_tree(text: &str) -> (root: Rc<markup5ever_rcdom::Node>)
    requires
        encode_utf8(text@).len() <= TEXT_LIMIT,
    ensures
        tree_nodes(*root) == html_nodes(text@),
{
    let parser = html5ever::parse_document(
        markup5ever_rcdom::RcDom::default(),
        html5ever::ParseOpts::default(),
    );
    html5ever::tendril::TendrilSink::one(parser, text).document
}

/// Reads the field `children` of a parser node: the children in document
/// order. The tree under the child with the number `i` is the part of the
/// tree under the node that lies below `i`, and the node has no other
/// children. The parser's tree is not changed once it is built.
#[verifier::external_body]
fn child_handles(node: &Rc<markup5ever_rcdom::Node>) -> (found: Vec<Rc<markup5ever_rcdom::Node>>)
    ensures
        forall|i: int|
            0 <= i < found@.len() ==> tree_nodes(*#[trigger] found@[i]) == part(
                tree_nodes(**node),
                seq![i],
            ),
        forall|path: Path|
            #[trigger] tree_nodes(**node).dom().contains(path) && path.len() > 0 ==> 0 <= path[0]
                < found@.len(),
{
    node.children.borrow().clone()
}

/// Reads the field `data` of a parser node: for an element its local name
/// and, of each attribute, local name and value; for a text node its
/// contents. This is what the tree under the node holds for the node
/// itself.
#[verifier::external_body]
fn node_data(node: &Rc<markup5ever_rcdom::Node>) -> (data: NodeContent)
    ensures
        root_content(tree_nodes(**node)) == Some(data@),
{
    match &node.data {
        markup5ever_rcdom::NodeData::Element { name, attrs, .. } => NodeContent::Element {
            name: name.local.to_string(),
            attributes: attrs.borrow().iter().map(
                |a| Attribute { name: a.name.local.to_string(), value: a.value.to_string() },
            ).collect(),
        },
        markup5ever_rcdom::NodeData::Text { contents } => NodeContent::Text {
            contents: contents.borrow().to_string(),
        },
        _ => NodeContent::Other,
    }
}

/// The node of the table `nodes` that the path `path` leads to from the
/// node `from`, where it leads to one.
pub open spec fn descend(nodes: Seq<DocumentNode>, from: Handle, path: Path) -> Option<Handle>
    decreases path.len(),
{
    if from >= nodes.len() {
        None
    } else if path.len() == 0 {
        Some(from)
    } else if 0 <= path[0] < nodes[from as int].children@.len() {
        descend(nodes, nodes[from as int].children@[path[0]], path.drop_first())
    } else {
        None
    }
}

/// Whether a path leads from the root of the table `nodes` to `node`.
pub open spec fn reached(nodes: Seq<DocumentNode>, node: Handle) -> bool {
    exists|path: Path| descend(nodes, 0, path) == Some(node)
}

/// Whether the table `nodes` holds the tree `tree` and nothing else: a
/// path leads from the root of the table to a node just where the tree
/// holds something under it, that node is what the tree holds there, and
/// every node of the table is one that a path leads to.
pub open spec fn holds_tree(nodes: Seq<DocumentNode>, tree: Map<Path, ContentView>) -> bool {
    &&& forall|path: Path|
        {
            &&& tree.dom().contains(path) <==> (#[trigger] descend(nodes, 0, path)) is Some
            &&& descend(nodes, 0, path) matches Some(found) ==> found < nodes.len()
                && nodes[found as int].data@ == tree[path]
        }
    &&& forall|node: Handle| node < nodes.len() ==> reached(nodes, node)
}

/// The handles from `first` up to `first + count`.
fn handles_from(first: usize, count: usize) -> (handles: Vec<Handle>)
    requires
        first + count <= usize::MAX,
    ensures
        handles@.len() == count,
        forall|i: int| 0 <= i < count ==> handles@[i] == first + i,
{
    let mut handles: Vec<Handle> = Vec::new();
    let mut i: usize = 0;
    while i < count
        invariant
            i <= count,
            first + count <= usize::MAX,
            handles@.len() == i,
            forall|j: int| 0 <= j < i ==> handles@[j] == first + j,
        decreases count - i,
    {
        handles.push(first + i);
        i += 1;
    }
    handles
}

/// The text that `bytes` stand for in windows-1252.
pub fn decode(bytes: &[u8]) -> (text: String)
    ensures
        text@ == windows_1252_text(bytes@),
{
    decode_windows_1252(bytes)
}

/// Whether the node `n` of the table `nodes` is a copy of what `tree` holds
/// under the path `paths[n]`: it is what the tree holds there, its
/// children stand in the table under the paths that go on from that path,
/// and the tree holds no other children there.
pub open spec fn copied(
    nodes: Seq<DocumentNode>,
    paths: Seq<Path>,
    tree: Map<Path, ContentView>,
    n: int,
) -> bool {
    &&& tree.dom().contains(paths[n])
    &&& nodes[n].data@ == tree[paths[n]]
    &&& forall|i: int|
        0 <= i < nodes[n].children@.len() ==> n < #[trigger] nodes[n].children@[i] < paths.len()
            && paths[nodes[n].children@[i] as int] == paths[n].push(i)
    &&& forall|path: Path|
        #[trigger] tree.dom().contains(paths[n] + path) && path.len() > 0 ==> 0 <= path[0]
            < nodes[n].children@.len()
}

/// The part below a place of the part below another place is the part
/// below both places, one after the other.
proof fn lemma_part_of_part(tree: Map<Path, ContentView>, first: Path, second: Path)
    ensures
        part(part(tree, first), second) == part(tree, first + second),
{
    assert forall|path: Path| first + (second + path) == (first + second) + path by {
        assert(first + (second + path) =~= (first + second) + path);
    }
    assert(part(part(tree, first), second) =~= part(tree, first + second));
}

/// In a table of copies, a path leads from a node to a node just where
/// the tree holds something under the path of the first followed by it,
/// and the node it leads to is the copy of what the tree holds there.
proof fn lemma_descend_in_copies(
    nodes: Seq<DocumentNode>,
    paths: Seq<Path>,
    tree: Map<Path, ContentView>,
    from: Handle,
    path: Path,
)
    requires
        nodes.len() == paths.len(),
        from < nodes.len(),
        forall|n: int| 0 <= n < nodes.len() ==> copied(nodes, paths, tree, n),
    ensures
        tree.dom().contains(paths[from as int] + path) <==> descend(nodes, from, path) is Some,
        descend(nodes, from, path) matches Some(found) ==> found < nodes.len()
            && paths[found as int] == paths[from as int] + path && nodes[found as int].data@
            == tree[paths[from as int] + path],
    decreases path.len(),
{
    let here = paths[from as int];
    assert(copied(nodes, paths, tree, from as int));
    if path.len() == 0 {
        assert(here + path =~= here);
    } else {
        let i = path[0];
        if 0 <= i < nodes[from as int].children@.len() {
            let child = nodes[from as int].children@[i];
            assert(paths[child as int] == here.push(i));
            lemma_descend_in_copies(nodes, paths, tree, child, path.drop_first());
            assert(here.push(i) + path.drop_first() =~= here + path);
        } else {
            assert(descend(nodes, from, path) is None);
            if tree.dom().contains(here + path) {
                assert(false);
            }
        }
    }
}

/// A table of copies whose root is the copy of the root of the tree holds
/// the tree.
proof fn lemma_copies_hold_tree(
    nodes: Seq<DocumentNode>,
    paths: Seq<Path>,
    tree: Map<Path, ContentView>,
)
    requires
        nodes.len() == paths.len(),
        nodes.len() > 0,
        paths[0] == Seq::<int>::empty(),
        forall|n: int| 0 <= n < nodes.len() ==> copied(nodes, paths, tree, n),
        forall|a: int, b: int| 0 <= a < b < paths.len() ==> paths[a] != paths[b],
    ensures
        holds_tree(nodes, tree),
{
    assert forall|node: Handle| node < nodes.len() implies reached(nodes, node) by {
        let path = paths[node as int];
        assert(copied(nodes, paths, tree, node as int));
        lemma_descend_in_copies(nodes, paths, tree, 0, path);
        assert(paths[0] + path =~= path);
        let found = descend(nodes, 0, path)->Some_0;
        assert(paths[found as int] == path);
        if found < node {
            assert(paths[found as int] != paths[node as int]);
        } else if node < found {
            assert(paths[node as int] != paths[found as int]);
        }
        assert(descend(nodes, 0, path) == Some(node));
    }
    assert forall|path: Path|
        {
            &&& tree.dom().contains(path) <==> (#[trigger] descend(nodes, 0, path)) is Some
            &&& descend(nodes, 0, path) matches Some(found) ==> found < nodes.len()
                && nodes[found as int].data@ == tree[path]
        } by {
        lemma_descend_in_copies(nodes, paths, tree, 0, path);
        assert(paths[0] + path =~= path);
    }
}

/// What parsing `text` gives: the tree that the parser builds for it. A
/// text of more than `TEXT_LIMIT` bytes is not parsed.
pub open spec fn parsed(text: Seq<char>) -> Result<Map<Path, ContentView>, Failure> {
    if encode_utf8(text).len() <= TEXT_LIMIT {
        Ok(html_nodes(text))
    } else {
        Err(Failure::Structure { field: Field::Text })
    }
}

/// Whether what was read as a document is what is wanted: a table that
/// holds the wanted tree, or the wanted failure.
pub open spec fn reads_tree(
    result: Result<Document, Error>,
    wanted: Result<Map<Path, ContentView>, Failure>,
) -> bool {
    match (result, wanted) {
        (Ok(document), Ok(tree)) => document@.len() > 0 && document.well_formed() && holds_tree(
            document@,
            tree,
        ),
        (Err(error), Err(failure)) => error@ == failure,
        _ => false,
    }
}

/// Parses `text` as HTML: the document holds the tree that the parser
/// builds for the text. Its nodes stand level by level: the root first,
/// then its children, then theirs. A text of more than `TEXT_LIMIT` bytes
/// is refused.
pub fn parse(text: &str) -> (document: Result<Document, Error>)
    ensures
        reads_tree(document, parsed(text@)),
{
    if text.as_bytes().len() > TEXT_LIMIT {
        return Err(Error::Structure { field: Field::Text });
    }
    let ghost tree = html_nodes(text@);
    let root = parse_tree(text);
    let mut queue: Vec<Rc<markup5ever_rcdom::Node>> = Vec::new();
    queue.push(root);
    let ghost mut paths: Seq<Path> = seq![Seq::<int>::empty()];
    let ghost mut parents: Seq<int> = seq![0int];
    let mut nodes: Vec<DocumentNode> = Vec::new();
    let mut next: usize = 0;
    proof {
        assert(part(tree, paths[0]) =~= tree) by {
            assert forall|path: Path| paths[0] + path == path by {
                assert(paths[0] + path =~= path);
            }
        }
    }
    while next < queue.len()
        invariant
            next <= queue.len(),
            queue.len() > 0,
            nodes@.len() == next,
            encode_utf8(text@).len() <= TEXT_LIMIT,
            tree == html_nodes(text@),
            paths.len() == queue@.len(),
            parents.len() == queue@.len(),
            paths[0] == Seq::<int>::empty(),
            forall|k: int|
                1 <= k < paths.len() ==> 0 <= #[trigger] parents[k] < next && paths[k].len() > 0
                    && paths[k].drop_last() == paths[parents[k]],
            forall|a: int, b: int| 0 <= a < b < paths.len() ==> paths[a] != paths[b],
            forall|n: int, i: int|
                0 <= n < nodes@.len() && 0 <= i < nodes@[n].children@.len() ==> n
                    < #[trigger] nodes@[n].children@[i] < queue@.len(),
            forall|k: int|
                0 <= k < queue@.len() ==> tree_nodes(*#[trigger] queue@[k]) == part(tree, paths[k]),
            forall|n: int| 0 <= n < nodes@.len() ==> copied(nodes@, paths, tree, n),
        decreases usize::MAX - next,
    {
        let ghost here = paths[next as int];
        let ghost under = tree_under(queue@[next as int]);
        assert(under == part(tree, here));
        let data = node_data(&queue[next]);
        let mut found = child_handles(&queue[next]);
        let ghost children_found = found@;
        let first = queue.len();
        let count = found.len();
        let ghost queue_before = queue@;
        let ghost paths_before = paths;
        let ghost parents_before = parents;
        queue.append(&mut found);
        let length = queue.len();
        assert(first + count == length);
        let children = handles_from(first, count);
        let ghost before = nodes@;
        nodes.push(DocumentNode { data, children });
        proof {
            paths = paths + Seq::new(count as nat, |i: int| here.push(i));
            parents = parents + Seq::new(count as nat, |i: int| next as int);
            assert(here + Seq::<int>::empty() =~= here);
            assert forall|k: int| 1 <= k < paths.len() implies 0 <= #[trigger] parents[k] < next
                + 1 && paths[k].len() > 0 && paths[k].drop_last() == paths[parents[k]] by {
                if k < first {
                    assert(parents[k] == parents_before[k]);
                    assert(paths[k] == paths_before[k]);
                    assert(paths[parents[k]] == paths_before[parents_before[k]]);
                } else {
                    assert(paths[k] == here.push(k - first));
                    assert(here.push(k - first).drop_last() =~= here);
                }
            }
            assert forall|a: int, b: int| 0 <= a < b < paths.len() implies paths[a]
                != paths[b] by {
                if b >= first {
                    assert(paths[b] == here.push(b - first));
                    assert(here.push(b - first).drop_last() =~= here);
                    if a >= first {
                        assert(paths[a] == here.push(a - first));
                        assert(here.push(a - first).last() != here.push(b - first).last());
                    } else if a == 0 {
                        assert(paths[a].len() == 0);
                    } else {
                        assert(paths[a] == paths_before[a]);
                        assert(parents_before[a] < next);
                        assert(paths_before[parents_before[a]] != paths_before[next as int]);
                    }
                } else {
                    assert(paths[a] == paths_before[a]);
                    assert(paths[b] == paths_before[b]);
                }
            }
            assert forall|k: int| 0 <= k < queue@.len() implies tree_nodes(
                *#[trigger] queue@[k],
            ) == part(tree, paths[k]) by {
                if k < first {
                    assert(queue@[k] == queue_before[k]);
                    assert(paths[k] == paths_before[k]);
                } else {
                    let i = k - first;
                    assert(queue@[k] == children_found[i]);
                    assert(paths[k] == here.push(i));
                    lemma_part_of_part(tree, here, seq![i]);
                    assert(here + seq![i] =~= here.push(i));
                }
            }
            assert forall|n: int, i: int|
                0 <= n < nodes@.len() && 0 <= i < nodes@[n].children@.len() implies n
                < #[trigger] nodes@[n].children@[i] < queue@.len() by {
                if n < next {
                    assert(nodes@[n] == before[n]);
                    assert(before[n].children@[i] < first);
                }
            }
            assert forall|n: int| 0 <= n < nodes@.len() implies copied(nodes@, paths, tree, n) by {
                if n < next {
                    assert(nodes@[n] == before[n]);
                    assert(copied(before, paths_before, tree, n));
                    assert(paths[n] == paths_before[n]);
                    assert forall|i: int| 0 <= i < nodes@[n].children@.len() implies n
                        < #[trigger] nodes@[n].children@[i] < paths.len() && paths[nodes@[n].children@[i] as int]
                        == paths[n].push(i) by {
                        let child = before[n].children@[i];
                        assert(child < paths_before.len());
                        assert(paths[child as int] == paths_before[child as int]);
                    }
                } else {
                    assert(paths[n] == here);
                    assert forall|i: int| 0 <= i < nodes@[n].children@.len() implies n
                        < #[trigger] nodes@[n].children@[i] < paths.len() && paths[nodes@[n].children@[i] as int]
                        == paths[n].push(i) by {
                        assert(nodes@[n].children@[i] == first + i);
                        assert(paths[first + i] == here.push(i));
                    }
                    assert forall|path: Path|
                        #[trigger] tree.dom().contains(paths[n] + path) && path.len()
                            > 0 implies 0 <= path[0] < nodes@[n].children@.len() by {
                        assert(under.dom().contains(path));
                    }
                }
            }
        }
        next += 1;
    }
    proof {
        lemma_copies_hold_tree(nodes@, paths, tree);
    }
    Ok(Document::from_linked(nodes))
}

/// Decodes `bytes` as windows-1252 and parses the text as HTML: the
/// document holds the tree that the parser builds for the decoded text.
pub fn read_document(bytes: &[u8]) -> (document: Result<Document, Error>)
    ensures
        reads_tree(document, parsed(windows_1252_text(bytes@))),
{
    let text = decode(bytes);
    parse(text.as_str())
}

} // verus!
