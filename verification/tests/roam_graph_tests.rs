use export_logseq_notes::roam_edn::{AttrValue, RoamError, ViewType};
use export_logseq_notes::roam_graph::Graph;

const EXPORT: &str = r#"#datascript/DB {:schema {:block/uid {:db/unique :db.unique/identity}}
 :datoms [[1 :node/title "Page one" 536870913]
          [1 :block/uid "p1" 536870913]
          [1 :block/children 2 536870913]
          [1 :children/view-type :numbered 536870913]
          [1 :create/email "a@example.com" 536870913]
          [2 :block/string "hello [[Page one]]" 536870913]
          [2 :block/uid "b2" 536870913]
          [2 :block/page 1 536870913]
          [2 :block/refs 1 536870913]
          [2 :block/heading 2 536870913]
          [2 :block/open false 536870913]
          [2 :create/time 50 536870913]
          [2 :create/email "b@example.com" 536870913]
          [2 :edit/email "a@example.com" 536870913]
          [2 :edit/time 70 536870913]
          [3 :node/title "Other" 536870913]
          [3 :block/uid "p3" 536870913]
          [3 :create/time 30 536870913]
          [3 :entity/attrs #{[{:source [:block/uid "p3"], :value [:block/uid "p3"]}
                              {:source [:block/uid "b2"], :value [:block/uid "attr"]}
                              {:source [:block/uid "b2"], :value " some value "}]}
           536870913]]}"#;

#[test]
fn roam_export_blocks() {
    let g = Graph::from_edn(EXPORT).unwrap();
    let ids: Vec<u64> = g.blocks.iter().map(|b| b.id).collect();
    assert_eq!(ids, vec![0, 1, 2, 3]);

    let page = &g.blocks[1];
    assert_eq!(page.title.as_deref(), Some("Page one"));
    assert_eq!(page.uid, "p1");
    assert_eq!(page.children, vec![2]);
    assert_eq!(page.view_type, ViewType::Numbered);
    assert_eq!(page.page, 1);
    // The page has no creation time of its own: it takes its child's.
    assert_eq!(page.create_time, 50);
    assert_eq!(page.create_email, 0);

    let block = &g.blocks[2];
    assert_eq!(block.string, "hello [[Page one]]");
    assert_eq!(block.page, 1);
    assert_eq!(block.refs, vec![1]);
    assert_eq!(block.heading, 2);
    assert!(!block.open);
    assert_eq!(block.create_time, 50);
    assert_eq!(block.edit_time, 70);
    assert_eq!(block.create_email, 1);
    assert_eq!(block.edit_email, 0);
    assert_eq!(g.emails, vec!["a@example.com".to_string(), "b@example.com".to_string()]);

    // The empty block that reading starts from has no time and no children.
    assert_eq!(g.blocks[0].create_time, u64::MAX);
}

#[test]
fn roam_export_entity_attrs() {
    let g = Graph::from_edn(EXPORT).unwrap();
    let other = &g.blocks[3];
    assert_eq!(other.page, 3);
    assert_eq!(other.create_time, 30);
    assert_eq!(other.referenced_attrs.len(), 1);
    let (uid, values) = &other.referenced_attrs[0];
    assert_eq!(uid, "attr");
    assert_eq!(values.len(), 1);
    assert!(matches!(&values[0], AttrValue::Str(s) if s == "some value"));
}

#[test]
fn roam_export_lookups() {
    let g = Graph::from_edn(EXPORT).unwrap();
    let titles: Vec<&str> = g.pages().iter().map(|b| b.title.as_deref().unwrap()).collect();
    assert_eq!(titles, vec!["Page one", "Other"]);
    let referring: Vec<u64> = g.blocks_with_references(&[1]).iter().map(|b| b.id).collect();
    assert_eq!(referring, vec![2]);
    assert!(g.blocks_with_references(&[7]).is_empty());
    assert_eq!(g.block_from_uid("b2").map(|b| b.id), Some(2));
    assert!(g.block_from_uid("nope").is_none());
}

#[test]
fn roam_export_nan_is_zero() {
    let g = Graph::from_edn("{:datoms [[1 :block/order ##NaN 1] [1 :create/time 5 1]]}").unwrap();
    assert_eq!(g.blocks[1].order, 0);
    assert_eq!(g.blocks[1].create_time, 5);
}

#[test]
fn roam_export_errors() {
    assert_eq!(Graph::from_edn("no map here").err(), Some(RoamError::NoMap));
    assert!(matches!(Graph::from_edn("{:datoms [").err(), Some(RoamError::Parse(_))));
    assert_eq!(Graph::from_edn("{:other 1}").err(), Some(RoamError::NoDatoms));
    assert_eq!(Graph::from_edn("{:datoms 5}").err(), Some(RoamError::DatomsNotVector));
    assert_eq!(Graph::from_edn("{:datoms [5]}").err(), Some(RoamError::DatomNotVector));
    assert_eq!(Graph::from_edn("{:datoms [[1 :a]]}").err(), Some(RoamError::ShortDatom));
    assert_eq!(Graph::from_edn("{:datoms [[:x :a 1]]}").err(), Some(RoamError::BadEntity));
    assert_eq!(Graph::from_edn("{:datoms [[1 \"a\" 1]]}").err(), Some(RoamError::AttrNotKey));
    assert_eq!(
        Graph::from_edn("{:datoms [[1 :block/heading \"x\" 1]]}").err(),
        Some(RoamError::BadNumber(":block/heading".to_string()))
    );
    assert_eq!(
        Graph::from_edn("{:datoms [[1 :children/view-type :grid 1]]}").err(),
        Some(RoamError::UnknownViewType(":grid".to_string()))
    );
    assert_eq!(
        Graph::from_edn("{:datoms [[1 :block/children 2 1]]}").err(),
        Some(RoamError::CreateTimeUnresolved)
    );
    assert_eq!(
        Graph::from_edn("{:datoms [[1 :block/children 2 1] [2 :block/children 1 1]]}").err(),
        Some(RoamError::CreateTimeUnresolved)
    );
}

#[test]
fn roam_graph_building() {
    let mut g = Graph::new();
    assert_eq!(g.get_email_index("a".to_string()), 0);
    assert_eq!(g.get_email_index("b".to_string()), 1);
    assert_eq!(g.get_email_index("a".to_string()), 0);
    assert_eq!(g.emails.len(), 2);

    let mut b = export_logseq_notes::roam_graph::Block::empty();
    b.id = 5;
    b.uid = "five".to_string();
    g.add_block(b);
    let mut b = export_logseq_notes::roam_graph::Block::empty();
    b.id = 2;
    b.uid = "two".to_string();
    g.add_block(b);
    let mut b = export_logseq_notes::roam_graph::Block::empty();
    b.id = 5;
    b.uid = "five again".to_string();
    g.add_block(b);
    let ids: Vec<u64> = g.blocks.iter().map(|b| b.id).collect();
    assert_eq!(ids, vec![2, 5]);
    assert_eq!(g.blocks[1].uid, "five again");
    assert_eq!(g.block_from_uid("five").map(|b| b.uid.clone()), Some("five again".to_string()));
}

#[test]
fn roam_export_unsafe_numbers_are_refused() {
    assert_eq!(
        Graph::from_edn("{:datoms [[1 :block/order 1İİr 1]]}").err(),
        Some(RoamError::Unreadable)
    );
    let deep = format!("{{:datoms {}{}}}", "[".repeat(600), "]".repeat(600));
    assert_eq!(Graph::from_edn(&deep).err(), Some(RoamError::Unreadable));
    // The same characters inside a string are read as they are.
    let g = Graph::from_edn(
        "{:datoms [[1 :block/string \"2ème 1İİr\" 1] [1 :create/time 5 1]]}",
    )
    .unwrap();
    assert_eq!(g.blocks[1].string, "2ème 1İİr");
}

#[test]
fn roam_export_deep_nesting_within_the_bound_is_read() {
    let deep = format!("{{:datoms {}{}}}", "[".repeat(500), "]".repeat(500));
    assert_ne!(Graph::from_edn(&deep).err(), Some(RoamError::Unreadable));
}

#[test]
fn roam_export_long_separator_runs_are_read() {
    let spaces = " ".repeat(5000);
    let text = format!(
        "{{:datoms{spaces}[[1 :node/title \"Page\" 1],,,,{spaces}; a comment\n{spaces}[1 :create/time 5 1]]}}"
    );
    let g = Graph::from_edn(&text).unwrap();
    assert_eq!(g.blocks[1].title.as_deref(), Some("Page"));
    assert_eq!(g.blocks[1].create_time, 5);
}
