use export_logseq_notes::html::{escape, escape_char};

#[test]
fn needs_escape() {
    assert_eq!(
        escape("A <string> 'that' \"needs\" &escaping"),
        "A &lt;string&gt; &#39;that&#39; &quot;needs&quot; &amp;escaping".to_string()
    );
}

#[test]
fn no_escape() {
    assert_eq!(
        escape("A simple string that needs no escaping"),
        "A simple string that needs no escaping"
    );
}

#[test]
fn escape_each_reserved_char() {
    assert_eq!(escape_char('<'), Some("&lt;"));
    assert_eq!(escape_char('>'), Some("&gt;"));
    assert_eq!(escape_char('&'), Some("&amp;"));
    assert_eq!(escape_char('\''), Some("&#39;"));
    assert_eq!(escape_char('"'), Some("&quot;"));
    assert_eq!(escape_char('a'), None);
}

#[test]
fn escape_empty_and_unicode() {
    assert_eq!(escape(""), "");
    assert_eq!(escape("é<ü>"), "é&lt;ü&gt;");
}

#[test]
fn escape_concatenation_law() {
    let a = "x<y";
    let b = "&z'";
    assert_eq!(escape(&format!("{a}{b}")), format!("{}{}", escape(a), escape(b)));
}
