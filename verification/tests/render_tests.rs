use export_logseq_notes::attr_map::AttrMap;
use export_logseq_notes::config::{Config, PkmProduct};
use export_logseq_notes::content::BlockContent;
use export_logseq_notes::graph::{Block, BlockInclude, ListType, ViewType};
use export_logseq_notes::parse_string::ContentStyle;
use export_logseq_notes::highlight::Highlighter;
use export_logseq_notes::render::{
    render_closing_tag, render_opening_tag, write_depth, Externals, Graph, IdSlugUid, Page,
    PageTables, RenderError, TitleSlugUid,
};

fn config() -> Config {
    Config {
        path: String::new(),
        track_logseq_timestamps: false,
        output: String::new(),
        script: String::new(),
        safe_write: false,
        product: PkmProduct::Logseq,
        base_url: None,
        omit_attributes: Vec::new(),
        highlight_class_prefix: None,
        template: None,
        extension: String::new(),
        tags_attr: None,
        filter_link_only_blocks: false,
        class_bold: String::new(),
        class_italic: String::new(),
        class_strikethrough: String::new(),
        class_highlight: String::new(),
        class_blockquote: String::new(),
        class_hr: String::new(),
        class_block_embed: String::new(),
        class_page_embed_container: String::new(),
        class_page_embed_title: String::new(),
        class_page_embed_content: String::new(),
        class_attr_name: String::new(),
        class_attr_value: String::new(),
        class_heading1: String::new(),
        class_heading2: String::new(),
        class_heading3: String::new(),
        class_heading4: String::new(),
        convert_emdash: false,
        promote_headers: false,
        top_header_level: 2,
        pic_store: None,
    }
}

fn block(id: usize, uid: &str, text: &str, children: Vec<usize>) -> Block {
    Block {
        id,
        containing_page: 0,
        page_title: None,
        original_title: None,
        uid: uid.to_string(),
        parent: None,
        children,
        order: id,
        include_type: BlockInclude::AndChildren,
        tags: Vec::new(),
        attrs: AttrMap::new(),
        is_journal: false,
        contents: BlockContent::new_parsed(ContentStyle::Logseq, text.to_string()).unwrap(),
        heading: 0,
        view_type: ViewType::Inherit,
        this_block_list_type: ListType::Default,
        edit_time: 0,
        create_time: 0,
        extra_classes: Vec::new(),
        content_element: None,
        wrapper_element: None,
    }
}

fn tables(pages: Vec<(&str, &str, bool)>) -> PageTables {
    PageTables {
        pages_by_title: pages
            .iter()
            .enumerate()
            .map(|(i, (title, slug, included))| {
                (
                    title.to_string(),
                    IdSlugUid {
                        id: 100 + i,
                        output_title: title.to_string(),
                        slug: slug.to_string(),
                        uid: String::new(),
                        included: *included,
                        allow_embed: false,
                    },
                )
            })
            .collect(),
        pages_by_filename_title: Vec::new(),
        pages_by_id: vec![(
            0,
            TitleSlugUid {
                title: "Main".to_string(),
                slug: "main".to_string(),
                uid: String::new(),
                included: true,
                allow_embed: false,
            },
        )],
        omitted_attributes: Vec::new(),
    }
}

fn no_externals() -> Externals {
    Externals { pictures: Vec::new() }
}

fn graph(blocks: Vec<Block>) -> Graph {
    Graph { blocks, content_style: ContentStyle::Logseq, block_explicit_ordering: false }
}

fn render_with(g: &Graph, config: &Config, t: &PageTables) -> Result<(String, u64), RenderError> {
    let externals = no_externals();
    let highlighter = Highlighter::new(None);
    let page = Page {
        id: 0,
        title: "Main".to_string(),
        graph: g,
        config,
        heading_delta: 0,
        tables: t,
        externals: &externals,
        highlighter: &highlighter,
    };
    page.render()
}

#[test]
fn renders_children_as_a_bulleted_list() {
    let g = graph(vec![
        block(0, "", "", vec![1, 2]),
        block(1, "b1", "Hello **world**", vec![]),
        block(2, "b2", "[[Other]]", vec![]),
    ]);
    let out = render_with(&g, &config(), &tables(vec![("Other", "other", true)])).unwrap();
    assert_eq!(
        out.0,
        "\n  <ul class=\"list-bullet\">\n    <li id=\"b1\">Hello <strong>world</strong></li>\n    <li id=\"b2\"><a href=\"other\">Other</a></li>\n  </ul>\n"
    );
}

#[test]
fn omit_blocks_with_only_unexported_links() {
    let g = graph(vec![
        block(0, "", "", vec![1, 2]),
        block(1, "b1", "[[Hidden]] #hidden", vec![]),
        block(2, "b2", "kept [[Hidden]]", vec![]),
    ]);
    let mut c = config();
    c.filter_link_only_blocks = true;
    let t = tables(vec![("Hidden", "hidden", false)]);
    let out = render_with(&g, &c, &t).unwrap();
    assert_eq!(
        out.0,
        "\n  <ul class=\"list-bullet\">\n    <li id=\"b2\">kept Hidden</li>\n  </ul>\n"
    );

    // Without the filter, unexported links stay as their text.
    let out = render_with(&g, &config(), &t).unwrap();
    assert_eq!(
        out.0,
        "\n  <ul class=\"list-bullet\">\n    <li id=\"b1\">Hidden hidden</li>\n    <li id=\"b2\">kept Hidden</li>\n  </ul>\n"
    );
}

const TABLE: &str = "\n<div class=\"roam-table\"><table><tbody>\n  <tr>\n    <td>a</td>\n    <td>1</td>\n  </tr>\n  <tr>\n    <td>b</td>\n    <td>2</td>\n  </tr>\n</tbody></table></div>\n";

fn table_graph() -> Graph {
    graph(vec![
        block(0, "", "", vec![1]),
        block(1, "t", "{{table}}", vec![2, 3]),
        block(2, "ra", "a", vec![4]),
        block(3, "rb", "b", vec![5]),
        block(4, "c1", "1", vec![]),
        block(5, "c2", "2", vec![]),
    ])
}

#[test]
fn render_table() {
    let g = table_graph();
    let t = tables(vec![]);
    let c = config();
    let externals = no_externals();
    let highlighter = Highlighter::new(None);
    let page = Page {
        id: 0,
        title: "Main".to_string(),
        graph: &g,
        config: &c,
        heading_delta: 0,
        tables: &t,
        externals: &externals,
        highlighter: &highlighter,
    };
    let mut latest: u64 = 0;
    let table = page.render_table(&g.blocks[1], 100, &mut latest).unwrap();
    assert_eq!(table.build(), TABLE);
}

#[test]
fn table_omits_children() {
    let g = table_graph();
    let out = render_with(&g, &config(), &tables(vec![])).unwrap();
    assert_eq!(
        out.0,
        format!("\n  <ul class=\"list-bullet\">\n    <li id=\"t\">{TABLE}</li>\n  </ul>\n")
    );
}

#[test]
fn headings_and_document_view() {
    let mut root = block(0, "", "", vec![1, 2]);
    root.view_type = ViewType::Document;
    let mut h = block(1, "h", "Title", vec![]);
    h.heading = 2;
    let p = block(2, "", "A paragraph", vec![]);
    let g = graph(vec![root, h, p]);
    let out = render_with(&g, &config(), &tables(vec![])).unwrap();
    assert_eq!(out.0, "\n    <h2>Title</h2>\n    <p>A paragraph</p>\n\n");
}

#[test]
fn latest_edit_time_of_rendered_blocks() {
    let mut root = block(0, "", "", vec![1, 2]);
    root.edit_time = 5;
    let mut a = block(1, "a", "a", vec![]);
    a.edit_time = 30;
    let mut b = block(2, "b", "b", vec![]);
    b.edit_time = 20;
    b.include_type = BlockInclude::Exclude;
    let g = graph(vec![root, a, b]);
    let out = render_with(&g, &config(), &tables(vec![])).unwrap();
    assert_eq!(out.1, 30);
    assert_eq!(out.0, "\n  <ul class=\"list-bullet\">\n    <li id=\"a\">a</li>\n  </ul>\n");
}

#[test]
fn numbered_children_use_an_ordered_list() {
    let mut one = block(1, "one", "first", vec![]);
    one.this_block_list_type = ListType::Number;
    let g = graph(vec![block(0, "", "", vec![1]), one]);
    let out = render_with(&g, &config(), &tables(vec![])).unwrap();
    assert_eq!(
        out.0,
        "\n  <ol class=\"list-numbered\">\n    <li id=\"one\">first</li>\n  </ol>\n"
    );
}

#[test]
fn explicit_ordering_sorts_children() {
    let mut a = block(1, "a", "a", vec![]);
    a.order = 2;
    let mut b = block(2, "b", "b", vec![]);
    b.order = 1;
    let mut g = graph(vec![block(0, "", "", vec![1, 2]), a, b]);
    g.block_explicit_ordering = true;
    let out = render_with(&g, &config(), &tables(vec![])).unwrap();
    assert_eq!(
        out.0,
        "\n  <ul class=\"list-bullet\">\n    <li id=\"b\">b</li>\n    <li id=\"a\">a</li>\n  </ul>\n"
    );
}

#[test]
fn block_reference_links_to_exported_page() {
    let g = graph(vec![
        block(0, "", "", vec![1, 2]),
        block(1, "target", "Target text", vec![]),
        block(2, "r", "see ((target))", vec![]),
    ]);
    let out = render_with(&g, &config(), &tables(vec![])).unwrap();
    assert_eq!(
        out.0,
        "\n  <ul class=\"list-bullet\">\n    <li id=\"target\">Target text</li>\n    <li id=\"r\">see <a class=\"block-ref\" href=\"main#target\">Target text</a></li>\n  </ul>\n"
    );
}

#[test]
fn self_embedding_block_is_too_deep() {
    let g = graph(vec![block(0, "", "", vec![1]), block(1, "loop", "{{embed ((loop))}}", vec![])]);
    assert_eq!(render_with(&g, &config(), &tables(vec![])), Err(RenderError::TooDeep));
}

#[test]
fn code_block_is_highlighted() {
    let g = graph(vec![block(0, "", "", vec![1]), block(1, "c", "```rust\nlet x = 1;\n```", vec![])]);
    let out = render_with(&g, &config(), &tables(vec![])).unwrap().0;
    assert!(out.contains("<pre><code><span class=\"source rust\">"), "{out}");
    assert!(out.contains("</code></pre>"), "{out}");
    assert!(out.contains("1"), "{out}");
}

#[test]
fn highlight_language_and_body() {
    let plain = Highlighter::new(None).highlight("\nlet x = 1;\n").unwrap();
    assert!(plain.contains("let x = 1;"), "{plain}");
    assert!(plain.contains("<span class=\"text plain\">"), "{plain}");
    let prefixed = Highlighter::new(Some("hl-")).highlight("  rust \nfn main() {}\n").unwrap();
    assert!(prefixed.contains("<span class=\"hl-source hl-rust\">"), "{prefixed}");
    assert!(!prefixed.contains("rust \n"), "{prefixed}");
    assert_eq!(Highlighter::new(None).highlight("rust").unwrap(), "");
}

#[test]
fn tag_helpers() {
    assert_eq!(render_opening_tag("div", ""), "<div>");
    assert_eq!(render_opening_tag("div", "x y"), "<div class=\"x y\">");
    assert_eq!(render_closing_tag("em"), "</em>");
    assert_eq!(write_depth(3), "      ");
}

#[test]
fn graph_lookups() {
    let mut g = Graph::new(ContentStyle::Logseq, false);
    let mut p = block(0, "p", "", vec![1]);
    p.page_title = Some("P".to_string());
    g.add_block(p);
    let mut b = block(1, "u1", "text", vec![]);
    b.tags = vec!["x".to_string(), "y".to_string()];
    g.add_block(b);
    g.add_block(block(2, "u2", "more", vec![]));
    assert_eq!(g.block_from_uid("u1").map(|b| b.id), Some(1));
    assert!(g.block_from_uid("missing").is_none());
    assert!(g.block_from_uid("").is_none());
    assert_eq!(g.pages(), vec![0]);
    assert_eq!(g.blocks_with_references(&vec!["y".to_string()]), vec![1]);
    assert_eq!(g.blocks_with_references(&vec!["z".to_string()]), Vec::<usize>::new());
}

fn render_block_at(g: &Graph, budget: u64) -> Result<String, RenderError> {
    let b = &g.blocks[1];
    let externals = no_externals();
    let highlighter = Highlighter::new(None);
    let config = config();
    let t = tables(vec![]);
    let page = Page {
        id: 0,
        title: "Main".to_string(),
        graph: g,
        config: &config,
        heading_delta: 0,
        tables: &t,
        externals: &externals,
        highlighter: &highlighter,
    };
    let mut latest = 0;
    page.render_block_and_children(b, ViewType::Bullet, 3, budget, &mut latest)
        .map(|sb| sb.build())
}

#[test]
fn excluded_block_renders_nothing_with_no_budget_left() {
    let mut b = block(1, "x", "text", vec![2]);
    b.include_type = BlockInclude::Exclude;
    let g = graph(vec![block(0, "", "", vec![1]), b, block(2, "c", "child", vec![])]);
    assert_eq!(render_block_at(&g, 0), Ok(String::new()));
}

#[test]
fn checkbox_renders_with_no_budget_left() {
    let b = block(1, "t", "TODO buy milk", vec![]);
    let g = graph(vec![block(0, "", "", vec![1]), b]);
    let out = render_block_at(&g, 0).unwrap();
    assert!(out.contains("<input type=\"checkbox\" disabled  />"), "{out}");
}

#[test]
fn childless_block_shown_only_with_children_renders_nothing_with_no_budget_left() {
    let mut b = block(1, "p", "parent", vec![]);
    b.include_type = BlockInclude::IfChildrenPresent;
    let g = graph(vec![block(0, "", "", vec![1]), b]);
    assert_eq!(render_block_at(&g, 0), Ok(String::new()));
}

#[test]
fn block_with_children_needs_budget_to_render_them() {
    let b = block(1, "p", "parent", vec![2]);
    let g = graph(vec![block(0, "", "", vec![1]), b, block(2, "c", "child", vec![])]);
    assert_eq!(render_block_at(&g, 0), Err(RenderError::TooDeep));
    assert!(render_block_at(&g, 1).unwrap().contains("child"));
}

#[test]
fn deeply_nested_blocks_render() {
    let levels = 300;
    let mut blocks = vec![block(0, "", "", vec![1])];
    for i in 1..=levels {
        let children = if i < levels { vec![i + 1] } else { vec![] };
        blocks.push(block(i, &format!("b{i}"), &format!("**level {i}**"), children));
    }
    let g = graph(blocks);
    let out = render_with(&g, &config(), &tables(vec![])).unwrap().0;
    assert!(out.contains("<strong>level 300</strong>"));
}
