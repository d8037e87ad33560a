use export_logseq_notes::template::TemplateKeys;

#[test]
fn a_template_text_keeps_its_first_key() {
    let mut keys = TemplateKeys::new();
    assert_eq!(keys.key_for("<p>{{body}}</p>"), None);
    keys.record("<p>{{body}}</p>".to_string(), "value:0".to_string());
    keys.record("<div>{{body}}</div>".to_string(), "file:page.tmpl".to_string());
    keys.record("<p>{{body}}</p>".to_string(), "value:2".to_string());
    assert_eq!(keys.len(), 2);
    assert_eq!(keys.key_for("<p>{{body}}</p>"), Some("value:0".to_string()));
    assert_eq!(keys.key_for("<div>{{body}}</div>"), Some("file:page.tmpl".to_string()));
    assert_eq!(keys.key_for("<span/>"), None);
}
