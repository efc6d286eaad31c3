use uni_server::config::{default_enter_path, Config, ManageInfo, ManageType, ReadConfig};
use uni_server::dict::Dict;
use uni_server::registry::{AppState, LoadedMapping, LoadedType};
use uni_server::sc::{record_format, RecordFormat};

#[test]
fn default_config_values() {
    let config = Config::default();
    assert_eq!(config.port(), 3500);
    assert_eq!(config.data_dir(), "data");
    assert!(config.manage_empty());
    assert_eq!(config.manage_size(), 0);
}

#[test]
fn config_accessors_follow_contents() {
    let mut manage = Dict::new();
    manage.insert(
        "game".to_string(),
        ManageInfo {
            name: Some("A Game".to_string()),
            mode: ManageType::SugarCube { use_mods: true, use_save_sync: false },
        },
    );
    manage.insert(
        "site".to_string(),
        ManageInfo {
            name: None,
            mode: ManageType::Plain { enter_path: default_enter_path() },
        },
    );
    let config = Config::new(8080, "content".to_string(), manage);
    assert_eq!(config.port(), 8080);
    assert_eq!(config.data_dir(), "content");
    assert!(!config.manage_empty());
    assert_eq!(config.manage_size(), 2);
    let entries = config.manage_iter();
    assert_eq!(entries.len(), 2);
    let site = entries.iter().find(|(id, _)| id == "site").unwrap();
    match &site.1.mode {
        ManageType::Plain { enter_path } => assert_eq!(enter_path, "index.html"),
        ManageType::SugarCube { .. } => panic!("wrong mode for site"),
    }
}

#[test]
fn registry_get_insert_iter() {
    let mut mapping = LoadedMapping::default();
    mapping.insert(
        "site".to_string(),
        LoadedType::Plain {
            name: Some("A Site".to_string()),
            root_path: "/data/site".to_string(),
            enter_path: "/data/site/index.html".to_string(),
        },
    );
    assert!(mapping.get("site").is_some());
    assert!(mapping.get("ghost").is_none());
    assert_eq!(mapping.iter().len(), 1);

    let state = AppState::new(mapping);
    match state.get("site").unwrap() {
        LoadedType::Plain { name, enter_path, .. } => {
            assert_eq!(name.as_deref(), Some("A Site"));
            assert_eq!(enter_path, "/data/site/index.html");
        }
        LoadedType::SugarCube { .. } => panic!("wrong entry type"),
    }
    assert_eq!(state.iter().len(), 1);
}

#[test]
fn record_formats_by_extension() {
    assert_eq!(record_format("inst.json"), RecordFormat::Json);
    assert_eq!(record_format("inst.TOML"), RecordFormat::Toml);
    assert_eq!(record_format("inst.yaml"), RecordFormat::Yaml);
    assert_eq!(record_format("inst.yml"), RecordFormat::Yaml);
    assert_eq!(record_format("_example.yaml"), RecordFormat::Ignored);
    assert_eq!(record_format("inst.ini"), RecordFormat::Unsupported);
    assert_eq!(record_format("noext"), RecordFormat::Unsupported);
}
