use export_logseq_notes::logseq::attrs::{
    parse_attr_line, parse_tag_value, parse_tag_values, tag_value_separator,
};

fn pair(r: (String, String)) -> (String, String) {
    r
}

#[test]
fn attrs_separator() {
    tag_value_separator(" ").expect("parsing space");
    tag_value_separator(",").expect("parsing comma");
    tag_value_separator(", ").expect("parsing comma with trailing space");
    tag_value_separator(" ,").expect("parsing comma with leading space");
    tag_value_separator(" , ").expect("parsing comman with spaces on both sides");
}

#[test]
fn attrs_single_tag_values() {
    assert_eq!(
        pair(parse_tag_value("#abc").expect("hashtag")),
        (String::new(), "abc".to_string())
    );
    assert_eq!(
        pair(parse_tag_value("abc").expect("raw value")),
        (String::new(), "abc".to_string())
    );
    assert_eq!(
        pair(parse_tag_value("[[abc def]]").expect("link")),
        (String::new(), "abc def".to_string())
    );
}

#[test]
fn attrs_one_hashtag() {
    assert_eq!(parse_tag_values("#abc").expect("parsing"), vec!["abc"])
}

#[test]
fn attrs_two_hashtags() {
    assert_eq!(parse_tag_values("#abc #def").expect("parsing"), vec!["abc", "def"])
}

#[test]
fn attrs_two_raw_values() {
    assert_eq!(parse_tag_values("abc def").expect("parsing"), vec!["abc", "def"])
}

#[test]
fn attrs_hashtags_with_commas() {
    assert_eq!(parse_tag_values("#abc, #def").expect("parsing"), vec!["abc", "def"])
}

#[test]
fn attrs_values_with_commas() {
    assert_eq!(parse_tag_values("abc, def").expect("parsing"), vec!["abc", "def"])
}

#[test]
fn separator_needs_at_least_one_char() {
    assert!(tag_value_separator("abc").is_err());
    assert_eq!(
        tag_value_separator(" ,x").unwrap(),
        ("x".to_string(), " ,".to_string())
    );
}

#[test]
fn attr_line_forms() {
    assert_eq!(
        parse_attr_line("::", "title:: It's a title  ").unwrap(),
        Some(("title".to_string(), vec!["It's a title".to_string()]))
    );
    assert_eq!(
        parse_attr_line("::", "tags:: a, [[b c]], #d").unwrap(),
        Some(("tags".to_string(), vec!["a".to_string(), "b c".to_string(), "d".to_string()]))
    );
    assert_eq!(parse_attr_line("::", "no separator here").unwrap(), None);
    assert_eq!(parse_attr_line("::", "two words:: value").unwrap(), None);
    assert_eq!(
        parse_attr_line(":", "a: b: c").unwrap(),
        Some(("a".to_string(), vec!["b: c".to_string()]))
    );
}

#[test]
fn attr_line_found_only_for_a_name_without_whitespace() {
    assert_eq!(parse_attr_line("::", "no separator here"), Ok(None));
    assert_eq!(parse_attr_line("::", "two words:: value"), Ok(None));
    assert_eq!(
        parse_attr_line("::", "name::  some value "),
        Ok(Some(("name".to_string(), vec!["some value".to_string()])))
    );
}
