use uni_server::dict::Dict;
use uni_server::mfs::FileNode;
use uni_server::saves::{
    check_save_access, list_save_names, save_file_name, to_save_path, SaveAccessError, SaveCode,
};
use uni_server::sc::{create_sc_info, InstanceRecord, SugarCubeInstanceConfig};
use uni_server::serve::{content_type_for, file_size_allowed, MAX_FILE_SIZE};

fn info_with_flags(use_mods: bool, use_save_sync_mod: bool) -> uni_server::sc::SugarCubeInfo {
    let mut indexes = Dict::new();
    indexes.insert("index".to_string(), "/idx/index.html".to_string());
    let layers = Dict::new();
    let records = vec![InstanceRecord::Parsed(SugarCubeInstanceConfig {
        id: "inst".to_string(),
        name: None,
        index: "index".to_string(),
        layers: vec![],
        mods: vec![],
    })];
    create_sc_info(
        None,
        use_mods,
        use_save_sync_mod,
        &indexes,
        &layers,
        Dict::new(),
        &records,
    )
    .unwrap()
}

#[test]
fn save_access_gating() {
    let full = info_with_flags(true, true);
    assert!(check_save_access(&full, "inst").is_ok());
    assert!(matches!(
        check_save_access(&full, "ghost"),
        Err(SaveAccessError::UnknownInstance)
    ));
    let no_sync = info_with_flags(true, false);
    assert!(matches!(
        check_save_access(&no_sync, "inst"),
        Err(SaveAccessError::Disabled)
    ));
    let no_mods = info_with_flags(false, true);
    assert!(matches!(
        check_save_access(&no_mods, "inst"),
        Err(SaveAccessError::Disabled)
    ));
}

#[test]
fn save_paths_and_names() {
    assert_eq!(
        to_save_path("/data", "game", "inst"),
        "/data/game/inst/save"
    );
    assert_eq!(
        save_file_name("alice", "2024-01-02+03-04-05"),
        "alice@2024-01-02+03-04-05.save"
    );
}

#[test]
fn empty_alias_becomes_anonymous() {
    let anonymous = SaveCode::new("code".to_string(), "".to_string());
    assert_eq!(anonymous.alias(), "anonymous");
    assert_eq!(anonymous.code(), "code");
    let named = SaveCode::new("code".to_string(), "bob".to_string());
    assert_eq!(named.alias(), "bob");
}

#[test]
fn save_listing_strips_suffix_and_blanks() {
    let files = vec![
        "slot1.save".to_string(),
        "notes.txt".to_string(),
        " .save".to_string(),
        "\u{00A0}\u{3000}.save".to_string(),
        "UPPER.SAVE".to_string(),
        "two words.save".to_string(),
    ];
    let names = list_save_names(&files);
    assert_eq!(
        names,
        vec!["slot1".to_string(), "two words".to_string()]
    );
}

#[test]
fn content_types_follow_the_file_name() {
    let css = FileNode::File("/data/layer/theme/index.css".to_string());
    assert_eq!(content_type_for(&css), "text/css");
    let html = FileNode::File("/idx/main.html".to_string());
    assert_eq!(content_type_for(&html), "text/html");
    let opaque = FileNode::File("/data/blob.unknownext".to_string());
    assert_eq!(content_type_for(&opaque), "application/octet-stream");
}

#[test]
fn file_size_cap() {
    assert!(file_size_allowed(0));
    assert!(file_size_allowed(MAX_FILE_SIZE));
    assert!(!file_size_allowed(MAX_FILE_SIZE + 1));
    assert_eq!(MAX_FILE_SIZE, 64 * 1024 * 1024);
}
