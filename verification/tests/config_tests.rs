use export_logseq_notes::config::{
    merge_default, merge_required, normalize_base_url, CmdlineConfig, Config, ConfigError,
    FileConfig, PicStoreConfig, PkmProduct,
};

fn file_with(data: Option<&str>, output: Option<&str>) -> FileConfig {
    FileConfig {
        data: data.map(String::from),
        output: output.map(String::from),
        script: "script.rhai".to_string(),
        ..FileConfig::default()
    }
}

#[test]
fn command_line_wins_over_file() {
    assert_eq!(merge_required("data", Some(1), Some(2)).unwrap(), 1);
    assert_eq!(merge_required("data", None, Some(2)).unwrap(), 2);
    assert_eq!(
        merge_required::<i32>("data", None, None),
        Err(ConfigError::Required("data".to_string()))
    );
    assert_eq!(merge_default::<u32>(None, None), 0);
    assert_eq!(merge_default(None, Some(7u32)), 7);
}

#[test]
fn required_option_message() {
    assert_eq!(
        ConfigError::Required("output".to_string()).message(),
        "The output option is required"
    );
}

#[test]
fn product_names() {
    assert_eq!(PkmProduct::parse("roam"), Ok(PkmProduct::Roam));
    assert_eq!(PkmProduct::parse("logseq"), Ok(PkmProduct::Logseq));
    assert_eq!(PkmProduct::parse("obsidian"), Err(ConfigError::UnknownProduct));
    assert_eq!("logseq".parse::<PkmProduct>(), Ok(PkmProduct::Logseq));
}

#[test]
fn base_url_gets_slashes() {
    assert_eq!(normalize_base_url("notes"), "/notes/");
    assert_eq!(normalize_base_url("/notes/"), "/notes/");
    assert_eq!(normalize_base_url("/a/b"), "/a/b/");
}

#[test]
fn resolve_merges_and_defaults() {
    let cmd = CmdlineConfig {
        data: Some("graph".to_string()),
        safe_write: true,
        ..CmdlineConfig::default()
    };
    let mut file = file_with(Some("other"), Some("out"));
    file.base_url = Some("blog".to_string());
    file.top_header_level = None;
    let c = Config::resolve(cmd, file, None).unwrap();
    assert_eq!(c.path, "graph");
    assert_eq!(c.output, "out");
    assert!(c.safe_write);
    assert!(c.track_logseq_timestamps);
    assert_eq!(c.product, PkmProduct::Logseq);
    assert_eq!(c.base_url.as_deref(), Some("/blog/"));
    assert_eq!(c.top_header_level, 1);
    assert_eq!(c.extension, "");
}

#[test]
fn resolve_requires_data_and_output() {
    let r = Config::resolve(CmdlineConfig::default(), file_with(None, Some("out")), None);
    assert!(matches!(r, Err(ConfigError::Required(n)) if n == "data"));
    let r = Config::resolve(CmdlineConfig::default(), file_with(Some("g"), None), None);
    assert!(matches!(r, Err(ConfigError::Required(n)) if n == "output"));
}

#[test]
fn pic_store_key_from_environment() {
    let mut file = file_with(Some("g"), Some("out"));
    file.pic_store = Some(PicStoreConfig {
        url: "https://pics".to_string(),
        api_key: None,
        location_prefix: None,
        upload_profile: None,
        template: None,
    });
    let missing = Config::resolve(CmdlineConfig::default(), file, None);
    assert!(matches!(missing, Err(ConfigError::MissingPicStoreKey)));

    let mut file = file_with(Some("g"), Some("out"));
    file.pic_store = Some(PicStoreConfig {
        url: "https://pics".to_string(),
        api_key: None,
        location_prefix: None,
        upload_profile: None,
        template: None,
    });
    let c = Config::resolve(CmdlineConfig::default(), file, Some("KEY".to_string())).unwrap();
    assert_eq!(c.pic_store.unwrap().api_key.as_deref(), Some("KEY"));
}
