use icalnigma::error::{Error, Field};
use icalnigma::tree::{Attribute, Document, DocumentNode, HandleExtensions, NodeContent};

fn attribute(name: &str, value: &str) -> Attribute {
    Attribute { name: name.to_string(), value: value.to_string() }
}

/// root > [div#a(class=x, id=a) > ["one", span, "two"], "loose", div#b, p]
fn sample() -> (Document, usize, usize, usize) {
    let document = Document::new();
    let (document, a) =
        document.add_element(0, "div", vec![attribute("class", "x"), attribute("id", "a"), attribute("class", "y")]);
    let a = a.unwrap();
    let (document, _) = document.add_text(0, "loose");
    let (document, b) = document.add_element(0, "div", Vec::new());
    let (document, p) = document.add_element(0, "p", Vec::new());
    let (document, _) = document.add_text(a, "one");
    let (document, _) = document.add_element(a, "span", Vec::new());
    let (document, _) = document.add_text(a, "two");
    (document, a, b.unwrap(), p.unwrap())
}

#[test]
fn a_new_document_has_a_root_only() {
    let document = Document::new();
    assert_eq!(document.len(), 1);
    assert_eq!(
        document.node(0),
        Some(&DocumentNode { data: NodeContent::Other, children: Vec::new() })
    );
    assert_eq!(document.node(1), None);
}

#[test]
fn add_appends_to_the_children_of_the_parent() {
    let (document, a, b, p) = sample();
    assert_eq!((a, b, p), (1, 3, 4));
    assert_eq!(document.len(), 8);
    assert_eq!(document.node(0).unwrap().children, vec![1, 2, 3, 4]);
    assert_eq!(document.node(a).unwrap().children, vec![5, 6, 7]);
    assert_eq!(
        document.node(7).unwrap().data,
        NodeContent::Text { contents: "two".to_string() }
    );
}

#[test]
fn add_refuses_a_parent_that_is_not_there() {
    let (document, added) = Document::new().add_text(1, "x");
    assert_eq!(added, None);
    assert_eq!(document, Document::new());
}

#[test]
fn from_nodes_checks_the_children() {
    let node = |children: Vec<usize>| DocumentNode { data: NodeContent::Other, children };
    assert!(Document::from_nodes(vec![node(vec![1, 2]), node(vec![2]), node(vec![])]).is_some());
    assert!(Document::from_nodes(Vec::new()).is_some());
    assert!(Document::from_nodes(vec![node(vec![1])]).is_none());
    assert!(Document::from_nodes(vec![node(vec![0])]).is_none());
    assert!(Document::from_nodes(vec![node(vec![1]), node(vec![0])]).is_none());
}

#[test]
fn first_node_by_tag_name() {
    let (document, a, _, p) = sample();
    assert_eq!(document.get_node_by_tag_name(0, "div"), Some(a));
    assert_eq!(document.get_node_by_tag_name(0, "p"), Some(p));
    assert_eq!(document.get_node_by_tag_name(0, "span"), None);
    assert_eq!(document.get_node_by_tag_name(a, "span"), Some(6));
    assert_eq!(document.get_node_by_tag_name(0, "DIV"), None);
    assert_eq!(document.get_node_by_tag_name(p, "div"), None);
    assert_eq!(document.get_node_by_tag_name(99, "div"), None);
}

#[test]
fn all_nodes_by_tag_name() {
    let (document, a, b, _) = sample();
    assert_eq!(document.get_nodes_by_tag_name(0, "div"), vec![a, b]);
    assert_eq!(document.get_nodes_by_tag_name(0, "table"), Vec::<usize>::new());
    assert_eq!(document.get_nodes_by_tag_name(a, "div"), Vec::<usize>::new());
    assert_eq!(document.get_nodes_by_tag_name(99, "div"), Vec::<usize>::new());
}

#[test]
fn attribute_values() {
    let (document, a, b, _) = sample();
    assert_eq!(document.get_attribute_value(a, "class"), Some("x".to_string()));
    assert_eq!(document.get_attribute_value(a, "id"), Some("a".to_string()));
    assert_eq!(document.get_attribute_value(a, "href"), None);
    assert_eq!(document.get_attribute_value(b, "class"), None);
    assert_eq!(document.get_attribute_value(2, "class"), None);
    assert_eq!(document.get_attribute_value(0, "class"), None);
    assert_eq!(document.get_attribute_value(99, "class"), None);
}

#[test]
fn content_is_the_first_text_child() {
    let (document, a, b, _) = sample();
    assert_eq!(document.get_content(a), Some("one".to_string()));
    assert_eq!(document.get_content(0), Some("loose".to_string()));
    assert_eq!(document.get_content(b), None);
    assert_eq!(document.get_content(5), None);
    assert_eq!(document.get_content(99), None);
}

#[test]
fn text_nodes_are_the_text_children_in_order() {
    let (document, a, b, _) = sample();
    assert_eq!(document.get_text_nodes(a), vec!["one", "two"]);
    assert_eq!(document.get_text_nodes(0), vec!["loose"]);
    assert_eq!(document.get_text_nodes(b), Vec::<String>::new());
    assert_eq!(document.get_text_nodes(99), Vec::<String>::new());
}

#[test]
fn queries_do_not_look_below_the_children() {
    let document = Document::new();
    let (document, outer) = document.add_element(0, "div", Vec::new());
    let (document, inner) = document.add_element(outer.unwrap(), "p", Vec::new());
    let (document, _) = document.add_text(inner.unwrap(), "deep");
    assert_eq!(document.get_node_by_tag_name(0, "p"), None);
    assert_eq!(document.get_content(outer.unwrap()), None);
    assert_eq!(document.get_text_nodes(0), Vec::<String>::new());
}

#[test]
fn check_attribute_gives_the_node_back() {
    let (document, a, _, _) = sample();
    assert_eq!(document.check_attribute(a, "class", "x"), Ok(a));
    assert_eq!(document.check_attribute(a, "id", "a"), Ok(a));
}

#[test]
fn check_attribute_names_a_missing_attribute() {
    let (document, a, b, _) = sample();
    assert_eq!(
        document.check_attribute(a, "href", "x"),
        Err(Error::Extraction { field: Field::Attribute, text: "href".to_string() })
    );
    assert_eq!(
        document.check_attribute(b, "class", "x"),
        Err(Error::Extraction { field: Field::Attribute, text: "class".to_string() })
    );
}

#[test]
fn check_attribute_shows_another_value() {
    let (document, a, _, _) = sample();
    assert_eq!(
        document.check_attribute(a, "class", "y"),
        Err(Error::Extraction { field: Field::Attribute, text: "x".to_string() })
    );
}

#[test]
fn named_and_text_of_single_nodes() {
    let (document, a, _, _) = sample();
    assert!(document.named(a, "div"));
    assert!(!document.named(a, "p"));
    assert!(!document.named(2, "div"));
    assert!(!document.named(99, "div"));
    assert_eq!(document.text(2), Some("loose".to_string()));
    assert_eq!(document.text(a), None);
    assert_eq!(document.text(99), None);
}
