use export_logseq_notes::attr_map::AttrMap;
use export_logseq_notes::logseq::blocks::LogseqRawBlock;
use export_logseq_notes::logseq::metadata::LogseqRawPage;
use export_logseq_notes::logseq::page_blocks::assign_base_ids;

fn page(path: &str, blocks: usize) -> LogseqRawPage {
    LogseqRawPage {
        path: path.to_string(),
        base_id: 0,
        attrs: AttrMap::new(),
        blocks: (0..blocks).map(|_| LogseqRawBlock::default()).collect(),
        created_time: None,
        updated_time: None,
        metadata_entry: None,
        hash: Vec::new(),
    }
}

#[test]
fn pages_take_ids_one_after_another() {
    let mut pages = vec![page("a", 2), page("b", 0), page("c", 3)];
    assert_eq!(assign_base_ids(&mut pages, 10), Some(10 + 3 + 1 + 4));
    let bases: Vec<usize> = pages.iter().map(|p| p.base_id).collect();
    assert_eq!(bases, vec![10, 13, 14]);
    let paths: Vec<&str> = pages.iter().map(|p| p.path.as_str()).collect();
    assert_eq!(paths, vec!["a", "b", "c"]);
}

#[test]
fn page_ids_that_do_not_fit_are_refused() {
    let mut pages = vec![page("a", 2), page("b", 1)];
    assert_eq!(assign_base_ids(&mut pages, usize::MAX - 3), None);
    assert_eq!(pages[0].base_id, 0);
    assert_eq!(pages[1].base_id, 0);
}
