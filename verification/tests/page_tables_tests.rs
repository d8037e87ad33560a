use export_logseq_notes::page_tables::{page_tables, PageListing};
use export_logseq_notes::parse_string::{parse, ContentStyle};
use export_logseq_notes::render::IdSlugUid;
use export_logseq_notes::sources::{collect_externals, ExternalSources};

fn listing(id: usize, title: Option<&str>, original: Option<&str>, slug: &str) -> PageListing {
    PageListing {
        page_title: title.map(|t| t.to_string()),
        original_title: original.map(|t| t.to_string()),
        entry: IdSlugUid {
            id,
            output_title: format!("Output {id}"),
            slug: slug.to_string(),
            uid: format!("uid-{id}"),
            included: id != 3,
            allow_embed: true,
        },
    }
}

#[test]
fn tables_of_pages() {
    let tables = page_tables(
        vec![
            listing(1, Some("one"), Some("One"), "one"),
            listing(2, Some("two"), None, "two"),
            listing(3, Some("one"), None, "one-again"),
            listing(4, None, Some("Four"), "four"),
        ],
        vec!["id".to_string()],
    );
    let titles: Vec<(&str, usize)> =
        tables.pages_by_title.iter().map(|(t, e)| (t.as_str(), e.id)).collect();
    assert_eq!(titles, vec![("one", 1), ("two", 2), ("one", 3), ("", 4)]);
    // The first page named "one" is hidden by the later one, so no id leads to it.
    let ids: Vec<(usize, &str, &str, bool)> = tables
        .pages_by_id
        .iter()
        .map(|(id, t)| (*id, t.title.as_str(), t.slug.as_str(), t.included))
        .collect();
    assert_eq!(ids, vec![(2, "two", "two", true), (3, "one", "one-again", false), (4, "", "four", true)]);
    assert_eq!(tables.pages_by_filename_title, vec![("One".to_string(), "one".to_string())]);
    assert_eq!(tables.omitted_attributes, vec!["id".to_string()]);
}

#[test]
fn images_in_order() {
    let exprs = parse(
        ContentStyle::Logseq,
        "**bold ![alt](a.png)** then ![other](b.png) and `code`",
    )
    .unwrap();
    let mut sources = ExternalSources { images: Vec::new() };
    collect_externals(&mut sources, &exprs);
    assert_eq!(
        sources.images,
        vec![
            ("a.png".to_string(), "alt".to_string()),
            ("b.png".to_string(), "other".to_string())
        ]
    );

    let fenced = parse(ContentStyle::Logseq, "```\n![x](c.png)\n```").unwrap();
    collect_externals(&mut sources, &fenced);
    assert_eq!(sources.images.len(), 2);
}
