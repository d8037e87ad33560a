use export_logseq_notes::attr_map::AttrMap;
use export_logseq_notes::graph::ViewType;

#[test]
fn view_type_names() {
    assert_eq!(ViewType::from_name("document"), ViewType::Document);
    assert_eq!(ViewType::from_name("numbered"), ViewType::Numbered);
    assert_eq!(ViewType::from_name("bullet"), ViewType::Bullet);
    assert_eq!(ViewType::from_name("other"), ViewType::Inherit);
    assert_eq!(ViewType::default_view_type(), ViewType::Bullet);
}

#[test]
fn view_type_inherits_only_when_unset() {
    assert_eq!(ViewType::Inherit.resolve_with_parent(ViewType::Document), ViewType::Document);
    assert_eq!(ViewType::Numbered.resolve_with_parent(ViewType::Document), ViewType::Numbered);
    // Resolving twice against the same parent changes nothing more.
    let once = ViewType::Inherit.resolve_with_parent(ViewType::Bullet);
    assert_eq!(once.resolve_with_parent(ViewType::Bullet), once);
}

#[test]
fn attribute_map_reads_back_what_was_written() {
    let mut m = AttrMap::new();
    m.insert("a".to_string(), vec!["1".to_string()]);
    m.insert("b".to_string(), vec!["2".to_string()]);
    m.insert("a".to_string(), vec!["3".to_string()]);
    assert_eq!(m.get("a"), Some(&vec!["3".to_string()]));
    assert_eq!(m.get("b"), Some(&vec!["2".to_string()]));
    assert!(m.contains_key("a"));
    assert_eq!(m.remove("a"), Some(vec!["3".to_string()]));
    assert!(!m.contains_key("a"));
    assert!(m.get("a").is_none());
}
