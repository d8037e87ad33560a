use export_logseq_notes::content::BlockContent;
use export_logseq_notes::graph::ViewType;
use export_logseq_notes::logseq::blocks::{Lines, LogseqRawBlock};
use export_logseq_notes::logseq::file::{parse_logseq_file, read_logseq_page};
use export_logseq_notes::parse_string::ContentStyle;

fn new_content(s: &str) -> BlockContent {
    BlockContent::new_parsed(ContentStyle::Logseq, s.to_string()).unwrap()
}

fn lines_of(s: &str) -> Lines {
    Lines::new(s.lines().map(String::from).collect())
}

#[test]
fn full_page() {
    let source = r##"title:: Circa
Tags:: Project

- # Some tools
- Based on
  view-mode:: document
	- a book
	- another book
- ## Data Model Graph
	- A mostly-DAG
	- because of some exceptions
	  id:: 93804e07-d826-44bc-94f4-18b07b0052b6
	  view-mode:: numbered
		- Exception 1
			- maybe not
		- Exception 2
		  id:: b4eb8b3b-9d09-4358-8e05-0d29e4301ecb
- Closing notes
"##;

    let mut reader = lines_of(source);
    let parsed = parse_logseq_file("abc/the filename.md", &mut reader, false).expect("parsing");

    let expected_blocks = vec![
        LogseqRawBlock { contents: new_content("Tags:: Project"), ..LogseqRawBlock::default() },
        LogseqRawBlock {
            header_level: 1,
            contents: new_content("Some tools"),
            ..LogseqRawBlock::default()
        },
        LogseqRawBlock {
            contents: new_content("Based on"),
            view_type: ViewType::Document,
            ..LogseqRawBlock::default()
        },
        LogseqRawBlock {
            contents: new_content("a book"),
            indent: 1,
            parent_idx: Some(2),
            ..LogseqRawBlock::default()
        },
        LogseqRawBlock {
            contents: new_content("another book"),
            indent: 1,
            parent_idx: Some(2),
            ..LogseqRawBlock::default()
        },
        LogseqRawBlock {
            contents: new_content("Data Model Graph"),
            header_level: 2,
            ..LogseqRawBlock::default()
        },
        LogseqRawBlock {
            contents: new_content("A mostly-DAG"),
            indent: 1,
            parent_idx: Some(5),
            ..LogseqRawBlock::default()
        },
        LogseqRawBlock {
            contents: new_content("because of some exceptions"),
            id: String::from("93804e07-d826-44bc-94f4-18b07b0052b6"),
            indent: 1,
            parent_idx: Some(5),
            view_type: ViewType::Numbered,
            ..LogseqRawBlock::default()
        },
        LogseqRawBlock {
            contents: new_content("Exception 1"),
            indent: 2,
            parent_idx: Some(7),
            ..LogseqRawBlock::default()
        },
        LogseqRawBlock {
            contents: new_content("maybe not"),
            indent: 3,
            parent_idx: Some(8),
            ..LogseqRawBlock::default()
        },
        LogseqRawBlock {
            id: String::from("b4eb8b3b-9d09-4358-8e05-0d29e4301ecb"),
            contents: new_content("Exception 2"),
            indent: 2,
            parent_idx: Some(7),
            ..LogseqRawBlock::default()
        },
        LogseqRawBlock { contents: new_content("Closing notes"), ..LogseqRawBlock::default() },
    ];

    let attrs = &parsed.0;
    assert_eq!(attrs.get("title"), Some(&vec![String::from("Circa")]), "page attributes");
    assert_eq!(attrs.get("tags"), Some(&vec![String::from("Project")]), "page attributes");
    assert_eq!(attrs.entries.len(), 2, "page attributes");

    assert_eq!(parsed.1.len(), expected_blocks.len());
    for (i, (parsed, expected)) in parsed.1.iter().zip(expected_blocks.iter()).enumerate() {
        assert_eq!(parsed, expected, "item {}", i);
    }
}

#[test]
fn title_comes_from_the_file_name() {
    let mut reader = lines_of("- a block\n");
    let (attrs, blocks) = parse_logseq_file("pages/My%20Page.md", &mut reader, false).unwrap();
    assert_eq!(attrs.get("title"), Some(&vec![String::from("My Page")]));
    assert_eq!(blocks.len(), 1);

    let mut reader = lines_of("- a block\n");
    let (attrs, _) = parse_logseq_file("journals/2022_09_20.md", &mut reader, true).unwrap();
    assert_eq!(attrs.get("title"), Some(&vec![String::from("2022-09-20")]));
}

#[test]
fn indented_first_block_cannot_be_read() {
    let mut reader = lines_of("\t- orphan\n");
    assert!(read_logseq_page("x.md", &mut reader, false).is_none());
    assert_eq!(reader.pos, 0);
    let mut reader = lines_of("- fine\n\t- child\n");
    let r = read_logseq_page("x.md", &mut reader, false).unwrap().unwrap();
    assert_eq!(r.1[1].parent_idx, Some(0));
}

#[test]
fn logbook_is_skipped_and_settings_are_kept_apart() {
    let source = "- task\n  collapsed:: true\n  color:: red\n  :LOGBOOK:\n  CLOCK: [2022-01-01]\n  :END:\n  more\n- next\n";
    let mut reader = lines_of(source);
    let (_, blocks) = parse_logseq_file("p.md", &mut reader, false).unwrap();
    assert_eq!(blocks.len(), 2);
    assert!(blocks[0].collapsed);
    assert_eq!(blocks[0].contents.string, "task\ncolor:: red");
    assert_eq!(blocks[0].attrs.get("color"), Some(&vec![String::from("red")]));
    assert_eq!(blocks[1].contents.string, "next");
}
