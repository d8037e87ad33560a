use export_logseq_notes::edn_scan::collapse_separators;
use export_logseq_notes::roam_edn::{
    parse_attr_value, view_type_from_key, AttrValue, EdnValue, EntityAttr, RoamError, ViewType,
};

fn s(v: &str) -> EdnValue {
    EdnValue::Str(v.to_string())
}

fn key(v: &str) -> EdnValue {
    EdnValue::Key(v.to_string())
}

fn value_map(v: EdnValue) -> EdnValue {
    EdnValue::Entries(vec![(":source".to_string(), s("src")), (":value".to_string(), v)])
}

#[test]
fn view_type_keys() {
    assert_eq!(view_type_from_key(":bullet"), Ok(ViewType::Bullet));
    assert_eq!(view_type_from_key(":numbered"), Ok(ViewType::Numbered));
    assert_eq!(view_type_from_key(":document"), Ok(ViewType::Document));
    assert_eq!(
        view_type_from_key(":grid"),
        Err(RoamError::UnknownViewType(":grid".to_string()))
    );
    assert_eq!(ViewType::default(), ViewType::Bullet);
}

#[test]
fn attribute_values() {
    assert!(matches!(parse_attr_value(EdnValue::Nil), Ok(AttrValue::Nil)));
    assert!(matches!(parse_attr_value(s("  text ")), Ok(AttrValue::Str(t)) if t == "text"));
    assert!(matches!(
        parse_attr_value(EdnValue::Vector(vec![key(":block/uid"), s(" abc ")])),
        Ok(AttrValue::Uid(u)) if u == "abc"
    ));
    assert_eq!(
        parse_attr_value(EdnValue::Vector(vec![key(":other"), s("x")])).err(),
        Some(RoamError::UnknownValueType(":other".to_string()))
    );
    assert_eq!(
        parse_attr_value(EdnValue::Vector(vec![s("x")])).err(),
        Some(RoamError::UnexpectedFormat)
    );
    assert_eq!(parse_attr_value(key(":k")).err(), Some(RoamError::UnexpectedFormat));
}

#[test]
fn entity_attributes() {
    let attr = EntityAttr::try_from_edn(EdnValue::Vector(vec![
        value_map(EdnValue::Vector(vec![key(":block/uid"), s("page")])),
        value_map(EdnValue::Vector(vec![key(":block/uid"), s("attr-block")])),
        value_map(s(" value ")),
    ]))
    .unwrap();
    assert_eq!(attr.uid, "attr-block");
    assert!(matches!(attr.value, AttrValue::Str(v) if v == "value"));

    let nil_uid = EntityAttr::try_from_edn(EdnValue::Vector(vec![
        value_map(EdnValue::Nil),
        value_map(s("v")),
    ]))
    .unwrap();
    assert_eq!(nil_uid.uid, "");

    assert_eq!(
        EntityAttr::try_from_edn(EdnValue::Vector(vec![value_map(s("a")), value_map(s("b"))])).err(),
        Some(RoamError::UnexpectedReference)
    );
    assert_eq!(
        EntityAttr::try_from_edn(EdnValue::Vector(vec![])).err(),
        Some(RoamError::MissingValue)
    );
    assert_eq!(
        EntityAttr::try_from_edn(EdnValue::Vector(vec![value_map(s("a"))])).err(),
        Some(RoamError::MissingUid)
    );
    assert_eq!(
        EntityAttr::try_from_edn(EdnValue::Vector(vec![
            EdnValue::Entries(vec![]),
            value_map(s("b"))
        ]))
        .err(),
        Some(RoamError::NoUidValue)
    );
    assert_eq!(
        EntityAttr::try_from_edn(EdnValue::Vector(vec![s("a"), s("b")])).err(),
        Some(RoamError::UnexpectedValues)
    );
    assert_eq!(EntityAttr::try_from_edn(s("a")).err(), Some(RoamError::NotAVector));
}

#[test]
fn separator_runs_collapse_to_one_space() {
    assert_eq!(collapse_separators("[1 ,, ; note\n  2]"), "[1 2]");
    assert_eq!(collapse_separators("{:a \"x  , y\"  :b \\  }"), "{:a \"x  , y\" :b \\  }");
    assert_eq!(collapse_separators("#tag   [1]"), "#tag  [1]");
}
