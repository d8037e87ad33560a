use export_logseq_notes::string_builder::StringBuilder;

#[test]
fn empty() {
    assert_eq!(StringBuilder::Empty.build(), "");
}

#[test]
fn simple_string() {
    assert_eq!(StringBuilder::from_text("abcdef").build(), "abcdef");
}

#[test]
fn vec_of_strings() {
    assert_eq!(
        StringBuilder::from_texts(vec!["abcdef", "  ghi", "-klm"]).build(),
        "abcdef  ghi-klm"
    );
}

#[test]
fn nested() {
    let sb = StringBuilder::Vec(vec![
        StringBuilder::from_text("<h1>"),
        StringBuilder::from_texts(vec!["Some", " text"]),
        StringBuilder::from_text("</h1>"),
    ]);

    assert_eq!(sb.build(), "<h1>Some text</h1>");
}

#[test]
fn push_then_build() {
    let mut sb = StringBuilder::new();
    sb.push(StringBuilder::from_text("a"));
    sb.push(StringBuilder::Empty);
    sb.push(StringBuilder::from_texts(vec!["b", "c"]));
    assert_eq!(sb.build(), "abc");
}

#[test]
fn emptiness_and_blankness() {
    let sb = StringBuilder::Vec(vec![StringBuilder::Empty, StringBuilder::from_text("")]);
    assert!(sb.is_empty());
    assert!(sb.is_blank());
    let sb = StringBuilder::from_texts(vec!["  ", "\t\n"]);
    assert!(!sb.is_empty());
    assert!(sb.is_blank());
    let sb = StringBuilder::from_texts(vec!["  ", "x"]);
    assert!(!sb.is_blank());
    assert!(StringBuilder::with_capacity(4).is_empty());
}

#[test]
fn starts_with_looks_at_first_piece() {
    let sb = StringBuilder::from_texts(vec!["<pre>", "x"]);
    assert!(sb.starts_with("<pre"));
    let sb = StringBuilder::from_texts(vec!["<p", "re>"]);
    assert!(!sb.starts_with("<pre"));
    assert!(!StringBuilder::Empty.starts_with(""));
    assert!(!StringBuilder::new().starts_with(""));
}

#[test]
fn starts_with_looks_at_the_first_piece_only() {
    let sb = StringBuilder::from_texts(vec!["ab", "c"]);
    assert!(sb.starts_with("a"));
    assert!(sb.build().starts_with("a"));
    let nested = StringBuilder::from_texts(vec!["", "ab"]);
    assert!(!nested.starts_with("a"));
    assert!(!StringBuilder::Empty.starts_with(""));
}
