use export_logseq_notes::logseq::blocks::{evaluate_line, Line};

#[test]
fn empty_line() {
    let input = "";
    let result = evaluate_line(input, false).unwrap();
    assert!(result.is_none(), "Should be none: {result:?}");
}

#[test]
fn no_indent_same_block() {
    let input = "  abc";
    assert_eq!(
        evaluate_line(input, false).unwrap().unwrap(),
        Line {
            contents: String::from("abc"),
            indent: 0,
            header: 0,
            new_block: false,
            attr_name: String::from(""),
            attr_values: Vec::new(),
        }
    );
}

#[test]
fn extra_spaces_same_block() {
    let input = "    abc";
    assert_eq!(
        evaluate_line(input, false).unwrap().unwrap(),
        Line {
            contents: String::from("  abc"),
            indent: 0,
            header: 0,
            new_block: false,
            attr_name: String::from(""),
            attr_values: Vec::new(),
        }
    );
}

#[test]
fn empty_block() {
    let input = "-";
    assert_eq!(
        evaluate_line(input, false).unwrap().unwrap(),
        Line {
            contents: String::from(""),
            indent: 0,
            header: 0,
            new_block: true,
            attr_name: String::from(""),
            attr_values: Vec::new(),
        }
    );
}

#[test]
fn indent_same_block() {
    let input = "\t\t  abc";
    assert_eq!(
        evaluate_line(input, false).unwrap().unwrap(),
        Line {
            contents: String::from("abc"),
            indent: 2,
            header: 0,
            new_block: false,
            attr_name: String::from(""),
            attr_values: Vec::new(),
        }
    );
}

#[test]
fn no_indent_new_block() {
    let input = "- abc";
    assert_eq!(
        evaluate_line(input, false).unwrap().unwrap(),
        Line {
            contents: String::from("abc"),
            indent: 0,
            header: 0,
            new_block: true,
            attr_name: String::from(""),
            attr_values: Vec::new(),
        }
    );
}

#[test]
fn indent_new_block() {
    let input = "\t\t- abc";
    assert_eq!(
        evaluate_line(input, false).unwrap().unwrap(),
        Line {
            contents: String::from("abc"),
            indent: 2,
            header: 0,
            new_block: true,
            attr_name: String::from(""),
            attr_values: Vec::new(),
        }
    );
}

#[test]
fn extra_space_before_dash() {
    let input = "\t\t - abc";
    assert_eq!(
        evaluate_line(input, false).unwrap().unwrap(),
        Line {
            contents: String::from("abc"),
            indent: 2,
            header: 0,
            new_block: true,
            attr_name: String::from(""),
            attr_values: Vec::new(),
        }
    );
}

#[test]
fn header1() {
    let input = "\t\t- # abc";
    assert_eq!(
        evaluate_line(input, false).unwrap().unwrap(),
        Line {
            contents: String::from("abc"),
            indent: 2,
            header: 1,
            new_block: true,
            attr_name: String::from(""),
            attr_values: Vec::new(),
        }
    );
}

#[test]
fn header3() {
    let input = "\t\t- ### abc";
    assert_eq!(
        evaluate_line(input, false).unwrap().unwrap(),
        Line {
            contents: String::from("abc"),
            indent: 2,
            header: 3,
            new_block: true,
            attr_name: String::from(""),
            attr_values: Vec::new(),
        }
    );
}

#[test]
fn hashes_on_second_line() {
    let input = "\t\t  ### abc";
    assert_eq!(
        evaluate_line(input, false).unwrap().unwrap(),
        Line {
            contents: String::from("### abc"),
            indent: 2,
            header: 0,
            new_block: false,
            attr_name: String::from(""),
            attr_values: Vec::new(),
        }
    );
}

#[test]
fn new_block_attr_line() {
    let input = "\t\t- abc:: def";
    assert_eq!(
        evaluate_line(input, false).unwrap().unwrap(),
        Line {
            contents: String::from("abc:: def"),
            indent: 2,
            header: 0,
            new_block: true,
            attr_name: String::from("abc"),
            attr_values: vec![String::from("def")],
        }
    );
}

#[test]
fn same_block_attr_line() {
    let input = "\t\t  abc:: def";
    assert_eq!(
        evaluate_line(input, false).unwrap().unwrap(),
        Line {
            contents: String::from("abc:: def"),
            indent: 2,
            header: 0,
            new_block: false,
            attr_name: String::from("abc"),
            attr_values: vec![String::from("def")],
        }
    );
}

#[test]
fn code_block_lines_keep_their_text() {
    let l = evaluate_line("\t\t  let x = 1;", true).unwrap().unwrap();
    assert_eq!(l.contents, "let x = 1;");
    assert!(!l.new_block);
    let l = evaluate_line("\tlet x = 1;", true).unwrap().unwrap();
    assert_eq!(l.contents, "\tlet x = 1;");
    let l = evaluate_line("", true).unwrap().unwrap();
    assert_eq!(l.contents, "");
}

#[test]
fn header_hashes_need_a_space() {
    let l = evaluate_line("- #tag", false).unwrap().unwrap();
    assert_eq!(l.header, 0);
    assert_eq!(l.contents, "#tag");
    let l = evaluate_line("-  two spaces", false).unwrap().unwrap();
    assert_eq!(l.header, 0);
    assert_eq!(l.contents, "two spaces");
}
