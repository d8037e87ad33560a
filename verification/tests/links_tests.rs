use export_logseq_notes::links::{join_pieces, link_path, split_pieces};

#[test]
fn no_dir() {
    assert_eq!(link_path("a", "b", None), "b");
}

#[test]
fn same_file() {
    assert_eq!(link_path("d/a", "d/a", None), "a");
}

#[test]
fn same_dir() {
    assert_eq!(link_path("d/a", "d/b", None), "b");
}

#[test]
fn same_dir2() {
    assert_eq!(link_path("d/c/a", "d/c/b", None), "b");
}

#[test]
fn prev_dir() {
    assert_eq!(link_path("d/c/a", "d/b", None), "../b".to_string());
}

#[test]
fn src_in_root() {
    assert_eq!(link_path("a", "d/g/h", None), "d/g/h".to_string());
}

#[test]
fn dest_in_root() {
    assert_eq!(link_path("d/c/a", "b", None), "../../b".to_string());
}

#[test]
fn next_dir() {
    assert_eq!(link_path("d/a", "d/c/b", None), "c/b".to_string());
}

#[test]
fn next_dir2() {
    assert_eq!(link_path("d/a", "d/f/c/b", None), "f/c/b".to_string());
}

#[test]
fn sibling_dir() {
    assert_eq!(link_path("d/a", "c/b", None), "../c/b".to_string());
}

#[test]
fn sibling_dir2() {
    assert_eq!(link_path("f/d/a", "g/c/b", None), "../../g/c/b".to_string());
}

#[test]
fn sibling_dir3() {
    assert_eq!(link_path("g/d/a", "g/c/b", None), "../c/b".to_string());
}

#[test]
fn with_base_is_base_then_dest() {
    assert_eq!(link_path("x/y/z", "d/b", Some("/notes/")), "/notes/d/b");
}

#[test]
fn split_and_join_round_trip() {
    let parts = split_pieces("a//b/", '/');
    assert_eq!(parts, vec!["a".to_string(), String::new(), "b".to_string(), String::new()]);
    assert_eq!(join_pieces(&parts, '/'), "a//b/");
}

#[test]
fn dest_named_like_a_source_directory() {
    assert_eq!(link_path("d/a", "d", None), "../d".to_string());
}

#[test]
fn dest_under_a_directory_named_like_the_source() {
    assert_eq!(link_path("d/x", "d/x/y", None), "x/y".to_string());
}

#[test]
fn dest_under_the_source_directory_of_the_same_name() {
    assert_eq!(link_path("x", "x/y", None), "x/y".to_string());
}
