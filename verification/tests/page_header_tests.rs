use export_logseq_notes::logseq::blocks::Lines;
use export_logseq_notes::logseq::page_header::parse_page_header;

fn run_test(input: &str) -> (String, Vec<(String, Vec<String>)>) {
    let mut reader = Lines::new(input.lines().map(String::from).collect());
    let attrs = parse_page_header(&mut reader);
    let next_line = reader.next_line().unwrap_or_default();
    (next_line, attrs)
}

fn attr(name: &str, values: &[&str]) -> (String, Vec<String>) {
    (name.to_string(), values.iter().map(|v| v.to_string()).collect())
}

#[test]
fn page_header_no_frontmatter() {
    let input = r##"- the first block
                - another block
                "##;

    assert_eq!(run_test(input), (String::from("- the first block"), Vec::new()));
}

#[test]
fn page_header_empty_yaml_frontmatter() {
    let input = "---\n---\n- the first block\n- another block\n";

    assert_eq!(run_test(input), (String::from("- the first block"), Vec::new()));
}

#[test]
fn page_header_yaml_frontmatter() {
    let input = "---\ntitle: It's a title\ntags: a, b, c\n---\n- some text\n";

    assert_eq!(
        run_test(input),
        (
            String::from("- some text"),
            vec![attr("title", &["It's a title"]), attr("tags", &["a", "b", "c"])]
        )
    );
}

#[test]
fn page_header_attr_frontmatter() {
    let input = "title:: It's a title\ntags:: a, b, c\n- some text\n";

    assert_eq!(
        run_test(input),
        (
            String::from("- some text"),
            vec![attr("title", &["It's a title"]), attr("tags", &["a", "b", "c"])]
        )
    );
}

#[test]
fn header_of_empty_page() {
    assert_eq!(run_test(""), (String::new(), Vec::new()));
}

#[test]
fn header_stops_at_a_line_that_is_not_an_attribute() {
    let input = "title:: T\njust text\n- block\n";
    assert_eq!(run_test(input), (String::from("just text"), vec![attr("title", &["T"])]));
}

#[test]
fn plain_first_line_is_left_for_the_blocks() {
    let input = "some words\n- block\n";
    assert_eq!(run_test(input), (String::from("some words"), Vec::new()));
}
