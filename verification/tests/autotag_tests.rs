use export_logseq_notes::script::walk_order;
use export_logseq_notes::attr_map::AttrMap;
use export_logseq_notes::autotag::{autotag, AutotagError};
use export_logseq_notes::content::BlockContent;
use export_logseq_notes::graph::{Block, BlockInclude, ListType, ParsedPage, ViewType};
use export_logseq_notes::parse_string::ContentStyle;

fn block(id: usize, text: &str, children: Vec<usize>) -> Block {
    Block {
        id,
        containing_page: 10,
        page_title: None,
        original_title: None,
        uid: String::new(),
        parent: None,
        children,
        order: 0,
        include_type: BlockInclude::AndChildren,
        tags: Vec::new(),
        attrs: AttrMap::new(),
        is_journal: false,
        contents: BlockContent::new_parsed(ContentStyle::Logseq, text.to_string()).unwrap(),
        heading: 0,
        view_type: ViewType::Inherit,
        this_block_list_type: ListType::Default,
        edit_time: 0,
        create_time: 0,
        extra_classes: Vec::new(),
        content_element: None,
        wrapper_element: None,
    }
}

fn page() -> ParsedPage {
    ParsedPage {
        root_block: 10,
        blocks: vec![
            block(10, "Rust is great", vec![11, 12]),
            block(11, "I like rusty things and Go", vec![]),
            block(12, "more RUST and c++", vec![]),
        ],
        path: "pages/p.md".to_string(),
    }
}

fn searches() -> Vec<(String, String)> {
    vec![
        ("rust".to_string(), "lang/rust".to_string()),
        ("go".to_string(), "lang/go".to_string()),
        ("python".to_string(), "lang/py".to_string()),
        ("c++".to_string(), "lang/cpp".to_string()),
    ]
}

#[test]
fn whole_words_in_any_case_each_tag_once() {
    assert_eq!(
        autotag(&page(), &searches(), 10).unwrap(),
        vec!["lang/rust", "lang/go", "lang/cpp"]
    );
}

#[test]
fn search_starts_at_the_given_block() {
    assert_eq!(autotag(&page(), &searches(), 11).unwrap(), vec!["lang/go"]);
}

#[test]
fn missing_block_is_an_error() {
    assert_eq!(autotag(&page(), &searches(), 99), Err(AutotagError::MissingBlock));
}

#[test]
fn walk_order_is_depth_first_with_depth_limit() {
    let mut p = page();
    p.blocks[1].children = vec![12];
    assert_eq!(walk_order(&p, 5), Some(vec![(10, 0), (11, 1), (12, 2), (12, 1)]));
    assert_eq!(walk_order(&p, 1), Some(vec![(10, 0), (11, 1), (12, 1)]));
    assert_eq!(walk_order(&p, 0), Some(vec![(10, 0)]));
    assert_eq!(walk_order(&p, -3), Some(vec![(10, 0)]));
    p.blocks[2].children = vec![99];
    assert_eq!(walk_order(&p, 5), None);
}

#[test]
fn walk_order_of_a_tree_visits_each_block_once_parents_first() {
    let mut p = page();
    p.blocks.push(block(13, "leaf", vec![]));
    p.blocks[1].children = vec![13];
    p.blocks[1].parent = Some(10);
    p.blocks[2].parent = Some(10);
    p.blocks[3].parent = Some(11);
    assert_eq!(walk_order(&p, 5), Some(vec![(10, 0), (11, 1), (13, 2), (12, 1)]));
}
