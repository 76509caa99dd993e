use icalnigma::dom::{self, decode, TEXT_LIMIT};
use icalnigma::error::{Error, Field};
use icalnigma::tree::Document;
use icalnigma::tree::{HandleExtensions, NodeContent};

fn parse(text: &str) -> Document {
    dom::parse(text).unwrap()
}

fn read_document(bytes: &[u8]) -> Document {
    dom::read_document(bytes).unwrap()
}

#[test]
fn decode_reads_windows_1252() {
    assert_eq!(decode(&[0x48, 0xf6, 0x72, 0x80]), "Hör€");
    assert_eq!(decode(b"plain"), "plain");
    assert_eq!(decode(&[]), "");
    assert_eq!(decode(&[0x50, 0x72, 0xfc, 0x66, 0x75, 0x6e, 0x67]), "Prüfung");
    assert_eq!(decode(&[0xa0]), "\u{a0}");
}

#[test]
fn decode_takes_no_bytes_for_a_mark() {
    assert_eq!(decode(&[0xef, 0xbb, 0xbf, 0x61]), "ï»¿a");
    assert_eq!(decode(&[0xff, 0xfe, 0x61, 0x00]), "ÿþa\u{0}");
}

#[test]
fn decode_gives_one_character_for_each_byte() {
    let bytes: Vec<u8> = (0..=255).collect();
    let text = decode(&bytes);
    assert_eq!(text.chars().count(), 256);
    let between: Vec<char> =
        "€\u{81}‚ƒ„…†‡ˆ‰Š‹Œ\u{8d}Ž\u{8f}\u{90}‘’“”•–—˜™š›œ\u{9d}žŸ".chars().collect();
    assert_eq!(between.len(), 32);
    for (i, c) in text.chars().enumerate() {
        if i < 0x80 || i >= 0xa0 {
            assert_eq!(c as usize, i);
        } else {
            assert_eq!(c, between[i - 0x80]);
        }
    }
}

#[test]
fn decode_of_the_bytes_between_by_number() {
    let numbers = [
        0x20ac, 0x81, 0x201a, 0x192, 0x201e, 0x2026, 0x2020, 0x2021, 0x2c6, 0x2030, 0x160, 0x2039,
        0x152, 0x8d, 0x17d, 0x8f, 0x90, 0x2018, 0x2019, 0x201c, 0x201d, 0x2022, 0x2013, 0x2014,
        0x2dc, 0x2122, 0x161, 0x203a, 0x153, 0x9d, 0x17e, 0x178,
    ];
    for (i, number) in numbers.iter().enumerate() {
        let text = decode(&[0x80 + i as u8]);
        assert_eq!(text.chars().map(|c| c as u32).collect::<Vec<u32>>(), vec![*number]);
    }
}

#[test]
fn parse_takes_text_that_grows_in_the_parser() {
    let nulls = format!("<plaintext>{}", "\0".repeat(50_000));
    let document = parse(&nulls);
    let element = (0..document.len()).find(|handle| document.named(*handle, "plaintext")).unwrap();
    assert_eq!(document.get_content(element), Some("\u{fffd}".repeat(50_000)));
    let lines = format!("<pre>{}</pre>", "line\n".repeat(50_000));
    let document = parse(&lines);
    let element = (0..document.len()).find(|handle| document.named(*handle, "pre")).unwrap();
    assert_eq!(document.get_content(element), Some("line\n".repeat(50_000)));
}

#[test]
fn parse_builds_html_and_body() {
    let document = parse("<div class=\"calendar\">x</div>");
    let html = document.get_node_by_tag_name(0, "html").unwrap();
    let body = document.get_node_by_tag_name(html, "body").unwrap();
    let divs = document.get_nodes_by_tag_name(body, "div");
    assert_eq!(divs.len(), 1);
    assert_eq!(document.get_attribute_value(divs[0], "class"), Some("calendar".to_string()));
    assert_eq!(document.get_content(divs[0]), Some("x".to_string()));
}

#[test]
fn parse_of_nothing_is_an_empty_page() {
    let document = parse("");
    let html = document.get_node_by_tag_name(0, "html").unwrap();
    assert!(document.get_node_by_tag_name(html, "head").is_some());
    let body = document.get_node_by_tag_name(html, "body").unwrap();
    assert_eq!(document.node(body).unwrap().children, Vec::<usize>::new());
}

#[test]
fn parse_keeps_the_order_of_children() {
    let document = parse("<body><p>a<b>x</b>b<i>y</i>c</p><p>second</p></body>");
    let html = document.get_node_by_tag_name(0, "html").unwrap();
    let body = document.get_node_by_tag_name(html, "body").unwrap();
    let paragraphs = document.get_nodes_by_tag_name(body, "p");
    assert_eq!(paragraphs.len(), 2);
    assert_eq!(document.get_text_nodes(paragraphs[0]), vec!["a", "b", "c"]);
    assert_eq!(document.get_content(paragraphs[1]), Some("second".to_string()));
    let kinds: Vec<String> = document.node(paragraphs[0]).unwrap().children.iter().map(|child| {
        match &document.node(*child).unwrap().data {
            NodeContent::Element { name, .. } => format!("<{}>", name),
            NodeContent::Text { contents } => contents.clone(),
            NodeContent::Other => "?".to_string(),
        }
    }).collect();
    assert_eq!(kinds, vec!["a", "<b>", "b", "<i>", "c"]);
}

#[test]
fn parse_puts_children_after_their_parents() {
    let document = parse("<table><tr><td><div>1</div><div><a href=x>t</a></div></td></tr></table>");
    for handle in 0..document.len() {
        for child in &document.node(handle).unwrap().children {
            assert!(*child > handle && *child < document.len());
        }
    }
}

#[test]
fn parse_reads_attributes_in_order() {
    let document = parse("<p id=\"a\" class=\"b c\" data-x='1'>t</p>");
    let html = document.get_node_by_tag_name(0, "html").unwrap();
    let body = document.get_node_by_tag_name(html, "body").unwrap();
    let p = document.get_node_by_tag_name(body, "p").unwrap();
    match &document.node(p).unwrap().data {
        NodeContent::Element { name, attributes } => {
            assert_eq!(name, "p");
            let pairs: Vec<(String, String)> =
                attributes.iter().map(|a| (a.name.clone(), a.value.clone())).collect();
            assert_eq!(
                pairs,
                vec![
                    ("id".to_string(), "a".to_string()),
                    ("class".to_string(), "b c".to_string()),
                    ("data-x".to_string(), "1".to_string())
                ]
            );
        },
        _ => panic!("no element"),
    }
}

#[test]
fn parse_adds_the_body_of_a_table() {
    let document = parse("<table><tr><td>x</td></tr></table>");
    let html = document.get_node_by_tag_name(0, "html").unwrap();
    let body = document.get_node_by_tag_name(html, "body").unwrap();
    let table = document.get_node_by_tag_name(body, "table").unwrap();
    let tbody = document.get_node_by_tag_name(table, "tbody").unwrap();
    let row = document.get_node_by_tag_name(tbody, "tr").unwrap();
    let cell = document.get_node_by_tag_name(row, "td").unwrap();
    assert_eq!(document.get_content(cell), Some("x".to_string()));
}

#[test]
fn read_document_decodes_before_it_parses() {
    let document = read_document(b"<p>H\xf6rsaal &amp; Pr\xfcfung</p>");
    let html = document.get_node_by_tag_name(0, "html").unwrap();
    let body = document.get_node_by_tag_name(html, "body").unwrap();
    let p = document.get_node_by_tag_name(body, "p").unwrap();
    assert_eq!(document.get_content(p), Some("Hörsaal & Prüfung".to_string()));
}

#[test]
fn parse_holds_every_node_of_the_tree_once() {
    let document = parse(
        "<div class=\"calendar\"><h2>Januar 2024</h2><table><tr><td class=\"month_cell\">\
         <div>15</div><div class=\"month_block\"><a href=\"#\">08:00 - 09:30 A<br>x</a></div>\
         </td></tr></table></div><!-- note --><p>end</p>",
    );
    let mut parents = vec![0usize; document.len()];
    let mut seen = vec![false; document.len()];
    seen[0] = true;
    for handle in 0..document.len() {
        for child in &document.node(handle).unwrap().children {
            assert!(!seen[*child]);
            seen[*child] = true;
            parents[*child] = handle;
        }
    }
    assert!(seen.iter().all(|reached| *reached));
    let cell = (0..document.len()).find(|handle| document.named(*handle, "td")).unwrap();
    let row = parents[cell];
    assert!(document.named(row, "tr"));
    assert!(document.named(parents[row], "tbody"));
    assert!(document.named(parents[parents[row]], "table"));
    let texts: Vec<String> =
        (0..document.len()).filter_map(|handle| document.text(handle)).collect();
    assert_eq!(texts, vec!["end", "Januar 2024", "15", "08:00 - 09:30 A", "x"]);
}

#[test]
fn the_limit_of_a_text_leaves_the_parser_room() {
    assert_eq!(TEXT_LIMIT as u64, 1 << 28);
    assert!((TEXT_LIMIT as u64) * 8 <= 1 << 31);
    assert!(dom::parse(&"a".repeat(100_000)).is_ok());
    assert_eq!(Error::Structure { field: Field::Text }.message(), "document has no text");
}
