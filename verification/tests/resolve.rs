use uni_server::dict::Dict;
use uni_server::mfs::{MapFileSystem, ScanEntry};
use uni_server::sc::{
    create_instances, create_sc_info, InstanceRecord, ModListError, SetupError,
    SugarCubeInstanceConfig,
};

fn entry(components: &[&str], location: &str) -> ScanEntry {
    ScanEntry {
        components: components.iter().map(|c| c.to_string()).collect(),
        location: location.to_string(),
    }
}

fn layer(files: &[(&[&str], &str)]) -> MapFileSystem {
    let entries: Vec<ScanEntry> = files.iter().map(|(c, l)| entry(c, l)).collect();
    MapFileSystem::from_entries(&entries)
}

fn indexes_with(id: &str, location: &str) -> Dict<String, String> {
    let mut d = Dict::new();
    d.insert(id.to_string(), location.to_string());
    d
}

fn cfg(
    id: &str,
    index: &str,
    layers: &[&str],
    mods: &[(&str, &str)],
) -> SugarCubeInstanceConfig {
    SugarCubeInstanceConfig {
        id: id.to_string(),
        name: None,
        index: index.to_string(),
        layers: layers.iter().map(|l| l.to_string()).collect(),
        mods: mods.iter().map(|(a, b)| (a.to_string(), b.to_string())).collect(),
    }
}

fn two_layers() -> Dict<String, MapFileSystem> {
    let mut layers = Dict::new();
    layers.insert(
        "L1".to_string(),
        layer(&[(&["a", "b.png"], "/data/L1/a/b.png")]),
    );
    layers.insert(
        "L2".to_string(),
        layer(&[(&["a", "b.png"], "/data/L2/a/b.png")]),
    );
    layers
}

fn merged_location(order: &[&str]) -> String {
    let indexes = indexes_with("index", "/data/index/index.html");
    let layers = two_layers();
    let mods = Dict::new();
    let records = vec![InstanceRecord::Parsed(cfg("inst", "index", order, &[]))];
    let result = create_instances(&records, &indexes, &layers, &mods).unwrap();
    let inst = result.get(&"inst".to_string()).unwrap();
    let node = inst.layer_merged.get("a/b.png").unwrap();
    node.location().clone()
}

#[test]
fn merge_order_later_layer_wins() {
    assert_eq!(merged_location(&["L1", "L2"]), "/data/L2/a/b.png");
    assert_eq!(merged_location(&["L2", "L1"]), "/data/L1/a/b.png");
}

#[test]
fn unknown_layer_still_resolves() {
    let indexes = indexes_with("index", "/data/index/index.html");
    let layers = two_layers();
    let mods = Dict::new();
    let records = vec![InstanceRecord::Parsed(cfg(
        "inst",
        "index",
        &["L1", "ghost-layer"],
        &[],
    ))];
    let result = create_instances(&records, &indexes, &layers, &mods).unwrap();
    let inst = result.get(&"inst".to_string()).unwrap();
    let node = inst.layer_merged.get("a/b.png").unwrap();
    assert_eq!(node.location(), "/data/L1/a/b.png");
}

#[test]
fn unknown_index_discards_instance() {
    let indexes = indexes_with("index", "/data/index/index.html");
    let layers = two_layers();
    let mods = Dict::new();
    let records = vec![
        InstanceRecord::Parsed(cfg("gone", "missing-index", &["L1"], &[])),
        InstanceRecord::Parsed(cfg("kept", "index", &["L1"], &[])),
    ];
    let result = create_instances(&records, &indexes, &layers, &mods).unwrap();
    assert!(result.get(&"gone".to_string()).is_none());
    assert!(result.get(&"kept".to_string()).is_some());
    assert_eq!(result.len(), 1);
}

#[test]
fn duplicate_instance_ids_keep_one() {
    let indexes = indexes_with("index", "/data/index/index.html");
    let layers = two_layers();
    let mods = Dict::new();
    let records = vec![
        InstanceRecord::Parsed(cfg("x", "index", &["L1"], &[])),
        InstanceRecord::Parsed(cfg("x", "index", &["L2"], &[])),
    ];
    let result = create_instances(&records, &indexes, &layers, &mods).unwrap();
    assert_eq!(result.len(), 1);
    let inst = result.get(&"x".to_string()).unwrap();
    assert_eq!(inst.id, "x");
    // the later record's layer list is the one kept
    let node = inst.layer_merged.get("a/b.png").unwrap();
    assert_eq!(node.location(), "/data/L2/a/b.png");
}

#[test]
fn malformed_record_aborts_pass() {
    let indexes = indexes_with("index", "/data/index/index.html");
    let layers = two_layers();
    let mods = Dict::new();
    let records = vec![
        InstanceRecord::Parsed(cfg("ok", "index", &["L1"], &[])),
        InstanceRecord::Malformed("broken.yaml".to_string()),
        InstanceRecord::Malformed("later.json".to_string()),
    ];
    let result = create_instances(&records, &indexes, &layers, &mods);
    match result {
        Err(SetupError::MalformedRecord(f)) => assert_eq!(f, "broken.yaml"),
        Ok(_) => panic!("malformed record did not abort the pass"),
    }
}

#[test]
fn end_to_end_overlay_lookup() {
    let indexes = indexes_with("index", "/data/index/index.html");
    let mut layers = Dict::new();
    layers.insert(
        "base".to_string(),
        layer(&[(&["index.css"], "/data/layer/base/index.css")]),
    );
    layers.insert(
        "theme".to_string(),
        layer(&[(&["index.css"], "/data/layer/theme/index.css")]),
    );
    let mods = Dict::new();
    let records = vec![InstanceRecord::Parsed(cfg(
        "play",
        "index",
        &["base", "theme"],
        &[],
    ))];
    let result = create_instances(&records, &indexes, &layers, &mods).unwrap();
    let inst = result.get(&"play".to_string()).unwrap();
    let node = inst.layer_merged.get("index.css").unwrap();
    assert_eq!(node.location(), "/data/layer/theme/index.css");
    assert_eq!(inst.index_path, "/data/index/index.html");
    // the declared references are retained for listings
    assert_eq!(inst.index, "index");
    assert_eq!(inst.layers, vec!["base".to_string(), "theme".to_string()]);
}

#[test]
fn mod_references_resolved_and_gaps_dropped() {
    let indexes = indexes_with("index", "/data/index/index.html");
    let layers = Dict::new();
    let mut subs = Dict::new();
    subs.insert("1.0".to_string(), "/data/mod/mod1/1.0.zip".to_string());
    let mut mods = Dict::new();
    mods.insert("mod1".to_string(), subs);
    let records = vec![InstanceRecord::Parsed(cfg(
        "inst",
        "index",
        &[],
        &[("mod1", "1.0"), ("mod1", "2.0"), ("ghost", "1.0")],
    ))];
    let result = create_instances(&records, &indexes, &layers, &mods).unwrap();
    let inst = result.get(&"inst".to_string()).unwrap();
    assert_eq!(inst.mods_ref.len(), 1);
    let key = ("mod1".to_string(), "1.0".to_string());
    assert_eq!(inst.mods_ref.get(&key).unwrap(), "/data/mod/mod1/1.0.zip");
}

#[test]
fn sc_info_without_mods_drops_mod_store() {
    let indexes = indexes_with("index", "/data/index/index.html");
    let layers = Dict::new();
    let mut subs = Dict::new();
    subs.insert("1.0".to_string(), "/data/mod/mod1/1.0.zip".to_string());
    let mut mods = Dict::new();
    mods.insert("mod1".to_string(), subs);
    let records = vec![InstanceRecord::Parsed(cfg(
        "inst",
        "index",
        &[],
        &[("mod1", "1.0")],
    ))];
    let info = create_sc_info(
        Some("Title".to_string()),
        false,
        false,
        &indexes,
        &layers,
        mods,
        &records,
    )
    .unwrap();
    assert!(!info.use_mods);
    assert_eq!(info.mods.len(), 0);
    let inst = info.get_instance("inst").unwrap();
    assert_eq!(inst.mods_ref.len(), 0);
}

#[test]
fn mod_list_urls_and_save_sync_entry() {
    let indexes = indexes_with("index", "/data/index/index.html");
    let layers = Dict::new();
    let mut subs = Dict::new();
    subs.insert("1.0".to_string(), "/data/mod/mod1/1.0.zip".to_string());
    let mut mods = Dict::new();
    mods.insert("mod1".to_string(), subs);
    let records = vec![InstanceRecord::Parsed(cfg(
        "inst",
        "index",
        &[],
        &[("mod1", "1.0")],
    ))];
    let info = create_sc_info(None, true, true, &indexes, &layers, mods, &records).unwrap();
    let urls = info.generate_mod_list("inst", "game").unwrap();
    assert_eq!(
        urls,
        vec![
            "/repo/sc/mod/game/mod1/1.0".to_string(),
            "/sc/mod/game/save-sync-integration/0".to_string(),
        ]
    );
}

#[test]
fn mod_list_refusals() {
    let indexes = indexes_with("index", "/data/index/index.html");
    let layers = Dict::new();
    let records = vec![InstanceRecord::Parsed(cfg("inst", "index", &[], &[]))];
    let disabled =
        create_sc_info(None, false, false, &indexes, &layers, Dict::new(), &records).unwrap();
    assert!(matches!(
        disabled.generate_mod_list("inst", "game"),
        Err(ModListError::Disabled)
    ));
    let enabled =
        create_sc_info(None, true, false, &indexes, &layers, Dict::new(), &records).unwrap();
    assert!(matches!(
        enabled.generate_mod_list("ghost", "game"),
        Err(ModListError::UnknownInstance)
    ));
    let urls = enabled.generate_mod_list("inst", "game").unwrap();
    assert_eq!(urls.len(), 0);
}
