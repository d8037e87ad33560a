use export_logseq_notes::make_pages::{
    create_path, examine_expressions, page_filename, page_tags, template_available, title_to_slug,
    write_counts, ExpressionContents,
};
use export_logseq_notes::script::TemplateSelection;
use export_logseq_notes::parse_string::Expression;

#[test]
fn slug_splits_on_separators_and_drops_punctuation() {
    assert_eq!(title_to_slug("Hello World/Test-a:b"), "hello_world_test_a_b");
    assert_eq!(title_to_slug("  What's new?  2023 "), "whats_new_2023");
    assert_eq!(title_to_slug("--//::"), "");
}

#[test]
fn paths_use_the_page_base_or_the_default() {
    assert_eq!(create_path("", "/out", "x.html"), "/out/x.html");
    assert_eq!(create_path("base", "/out", "x"), "base/x");
}

#[test]
fn file_name_from_path_name_or_url_name() {
    assert_eq!(page_filename("", "slug", "html"), "slug.html");
    assert_eq!(page_filename("p.htm", "slug", "html"), "p.htm");
}

#[test]
fn tags_sorted_case_insensitively_and_deduplicated() {
    let tags = vec!["b", "A", "a", "B", "a"].into_iter().map(String::from).collect();
    assert_eq!(page_tags(&tags), vec!["A", "a", "b", "B"]);
    assert_eq!(page_tags(&Vec::new()), Vec::<String>::new());
}

#[test]
fn examine_finds_images_and_embeds_in_nested_expressions() {
    let exprs = vec![
        Expression::Image { alt: "alt".to_string(), url: "img.png".to_string() },
        Expression::Bold(vec![
            Expression::PageEmbed("P".to_string()),
            Expression::Italic(vec![Expression::Image {
                alt: String::new(),
                url: "deep.jpg".to_string(),
            }]),
        ]),
        Expression::Text("plain".to_string()),
    ];
    let mut contents = ExpressionContents { image_urls: Vec::new(), page_embeds: Vec::new() };
    examine_expressions(&mut contents, &exprs);
    assert_eq!(contents.image_urls, vec!["img.png", "deep.jpg"]);
    assert_eq!(contents.page_embeds, vec!["P"]);
}

#[test]
fn slug_of_title_with_punctuation() {
    assert_eq!(title_to_slug("Hello World/Foo-bar: 2nd!"), "hello_world_foo_bar_2nd");
    assert_eq!(title_to_slug("Ünïcode Tïtle"), "ünïcode_tïtle");
}

#[test]
fn default_template_needs_configuration() {
    assert!(!template_available(&TemplateSelection::Default, false));
    assert!(template_available(&TemplateSelection::Default, true));
    assert!(template_available(&TemplateSelection::File("t.hbs".to_string()), false));
    assert!(template_available(&TemplateSelection::Value("{{body}}".to_string()), false));
}

#[test]
fn written_and_unchanged_counts() {
    assert_eq!(write_counts(&vec![true, false, false, true, false]), (3, 2));
    assert_eq!(write_counts(&Vec::new()), (0, 0));
}
