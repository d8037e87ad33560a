use export_logseq_notes::attr_map::AttrMap;
use export_logseq_notes::content::BlockContent;
use export_logseq_notes::graph::{Block, BlockInclude, ListType, ViewType};
use export_logseq_notes::parse_string::ContentStyle;
use export_logseq_notes::script::{allows_embedding, AllowEmbed, BlockConfig, PageConfig};

fn block(text: &str) -> Block {
    let mut attrs = AttrMap::new();
    attrs.insert("color".to_string(), vec!["red".to_string(), "blue".to_string()]);
    Block {
        id: 3,
        containing_page: 0,
        page_title: Some("Page".to_string()),
        original_title: None,
        uid: "u".to_string(),
        parent: None,
        children: Vec::new(),
        order: 0,
        include_type: BlockInclude::AndChildren,
        tags: vec!["t1".to_string()],
        attrs,
        is_journal: true,
        contents: BlockContent::new_parsed(ContentStyle::Logseq, text.to_string()).unwrap(),
        heading: 0,
        view_type: ViewType::Inherit,
        this_block_list_type: ListType::Default,
        edit_time: 0,
        create_time: 0,
        extra_classes: Vec::new(),
        content_element: None,
        wrapper_element: None,
    }
}

#[test]
fn page_config_starts_from_the_page_block() {
    let b = block("");
    let c = PageConfig::for_page("Title".to_string(), "title".to_string(), &b, 2, 3);
    assert_eq!(c.url_name, "title");
    assert!(!c.included);
    assert!(c.is_journal);
    assert_eq!(c.tags, vec!["t1"]);
    assert_eq!(c.get_attr_first("color"), "red");
    assert_eq!(c.get_attr_first("size"), "");
    assert!(!c.is_kept());
}

#[test]
fn tags_added_once_and_removed_everywhere() {
    let b = block("");
    let mut c = PageConfig::for_page("T".to_string(), "t".to_string(), &b, 1, 3);
    c.add_tag("x".to_string());
    c.add_tag("x".to_string());
    assert_eq!(c.tags, vec!["t1", "x"]);
    c.add_tags(vec!["y".to_string(), "t1".to_string(), "y".to_string()]);
    assert_eq!(c.tags, vec!["t1", "x", "y"]);
    c.tags.push("x".to_string());
    c.remove_tag(&"x".to_string());
    assert_eq!(c.tags, vec!["t1", "y"]);
}

#[test]
fn set_attr_then_read_it_back() {
    let b = block("");
    let mut c = PageConfig::for_page("T".to_string(), "t".to_string(), &b, 1, 3);
    c.set_attr("color".to_string(), "green".to_string());
    assert_eq!(c.get_attr_first("color"), "green");
    c.set_attr_values("size".to_string(), vec!["L".to_string(), "M".to_string()]);
    assert_eq!(c.get_attr_first("size"), "L");
    c.set_top_header_level(3);
    assert_eq!(c.top_header_level, 3);
}

#[test]
fn embedding_rules() {
    assert!(allows_embedding(true, AllowEmbed::Default));
    assert!(allows_embedding(true, AllowEmbed::Yes));
    assert!(!allows_embedding(true, AllowEmbed::No));
    assert!(allows_embedding(false, AllowEmbed::Yes));
    assert!(!allows_embedding(false, AllowEmbed::Default));
    assert!(!allows_embedding(false, AllowEmbed::No));
}

#[test]
fn block_config_round_trip() {
    let mut b = block("**old**");
    let mut c = BlockConfig::from_block(&b);
    assert_eq!(c.string, "**old**");
    c.set_string("new text".to_string());
    c.set_heading(2);
    c.set_view_type(ViewType::Document);
    c.set_class(vec!["wide".to_string()]);
    c.remove_attr("color");
    c.apply_to_block(&mut b).unwrap();
    assert_eq!(b.contents.string, "new text");
    assert_eq!(b.heading, 2);
    assert_eq!(b.view_type, ViewType::Document);
    assert_eq!(b.extra_classes, vec!["wide"]);
    assert!(b.attrs.get("color").is_none());
}
