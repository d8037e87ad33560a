use export_logseq_notes::logseq::metadata::{LegacyMetadata, LegacyMetadataError, PageMetadata};

#[test]
fn legacy_metadata_entries() {
    let m = LegacyMetadata::from_edn(
        r#"[{:block/name " page one ", :block/created-at 1600000000000, :block/updated-at 1600000005000}
            {:block/name "page two", :block/created-at "123"}
            {:block/name "page one", :block/updated-at 7}]"#,
    )
    .unwrap();
    assert_eq!(m.entries.len(), 3);
    assert_eq!(m.entries[0].0, "page one");
    assert_eq!(
        m.get("page two"),
        Some(PageMetadata { created_time: 123, edited_time: 0 })
    );
    // A later entry for a name replaces an earlier one.
    assert_eq!(
        m.get("page one"),
        Some(PageMetadata { created_time: 0, edited_time: 7 })
    );
    assert_eq!(m.get("page three"), None);
}

#[test]
fn legacy_metadata_errors() {
    assert_eq!(LegacyMetadata::from_edn("{:a 1}").err(), Some(LegacyMetadataError::NotAList));
    assert_eq!(
        LegacyMetadata::from_edn("[{:block/created-at 5}]").err(),
        Some(LegacyMetadataError::NoBlockName)
    );
    assert!(matches!(
        LegacyMetadata::from_edn("[{:block/name").err(),
        Some(LegacyMetadataError::Parse(_))
    ));
    assert_eq!(LegacyMetadata::from_edn("[]").unwrap().entries.len(), 0);
}

#[test]
fn legacy_metadata_unsafe_number() {
    assert_eq!(
        LegacyMetadata::from_edn("[{:block/name \"x\" :block/created-at 1İr}]").err(),
        Some(LegacyMetadataError::Unreadable)
    );
}

#[test]
fn legacy_metadata_pretty_printed() {
    let pad = " ".repeat(3000);
    let text = format!(
        "[{pad}{{:block/name \"x\",{pad}:block/created-at 3 ; made then\n{pad}:block/updated-at 4}}\n{pad}]"
    );
    let m = LegacyMetadata::from_edn(&text).unwrap();
    assert_eq!(m.get("x"), Some(PageMetadata { created_time: 3, edited_time: 4 }));
}

#[test]
fn legacy_metadata_many_tags_in_a_row() {
    let tags = "#t ".repeat(500);
    let text = format!("[{{:block/name \"x\" :block/created-at 3 :extra {tags}1}}]");
    let m = LegacyMetadata::from_edn(&text).unwrap();
    assert_eq!(m.get("x"), Some(PageMetadata { created_time: 3, edited_time: 0 }));
}

#[test]
fn legacy_metadata_numbers_in_text() {
    let m = LegacyMetadata::from_edn(
        r#"[{:block/name "a" :block/created-at "+5" :block/updated-at "18446744073709551616"}
            {:block/name "b" :block/created-at "18446744073709551615" :block/updated-at "-1"}]"#,
    )
    .unwrap();
    assert_eq!(m.get("a"), Some(PageMetadata { created_time: 5, edited_time: 0 }));
    assert_eq!(m.get("b"), Some(PageMetadata { created_time: u64::MAX, edited_time: 0 }));
}
