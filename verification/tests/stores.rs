use uni_server::dict::Dict;
use uni_server::mfs::ScanEntry;
use uni_server::stores::{
    build_indexes, build_layer_map, build_mods, cache_is_fresh, latest_modified, LayerCache,
    LayerScanOutcome,
};

fn entry(components: &[&str], location: &str) -> ScanEntry {
    ScanEntry {
        components: components.iter().map(|c| c.to_string()).collect(),
        location: location.to_string(),
    }
}

#[test]
fn indexes_keep_documents_by_stem() {
    let entries = vec![
        entry(&["main.html"], "/idx/main.html"),
        entry(&["notes.txt"], "/idx/notes.txt"),
        entry(&["deep", "Other.HTML"], "/idx/deep/Other.HTML"),
    ];
    let indexes = build_indexes(&entries);
    assert_eq!(indexes.len(), 2);
    assert_eq!(indexes.get(&"main".to_string()).unwrap(), "/idx/main.html");
    assert_eq!(
        indexes.get(&"Other".to_string()).unwrap(),
        "/idx/deep/Other.HTML"
    );
    assert!(indexes.get(&"notes".to_string()).is_none());
}

#[test]
fn duplicate_index_stems_resolve_to_later_entry() {
    let entries = vec![
        entry(&["a", "main.html"], "/idx/a/main.html"),
        entry(&["b", "main.html"], "/idx/b/main.html"),
    ];
    let indexes = build_indexes(&entries);
    assert_eq!(indexes.len(), 1);
    assert_eq!(
        indexes.get(&"main".to_string()).unwrap(),
        "/idx/b/main.html"
    );
}

#[test]
fn mods_keyed_by_file_name_minus_extension() {
    let dirs = vec![(
        "mod1".to_string(),
        vec![
            entry(&["pack.zip"], "/mod/mod1/pack.zip"),
            entry(&["LOUD.ZIP"], "/mod/mod1/LOUD.ZIP"),
            entry(&["nested", "extra.1.2.zip"], "/mod/mod1/nested/extra.1.2.zip"),
            entry(&["readme.md"], "/mod/mod1/readme.md"),
        ],
    )];
    let repo = build_mods(&dirs);
    assert_eq!(repo.len(), 1);
    let subs = repo.get(&"mod1".to_string()).unwrap();
    assert_eq!(subs.len(), 3);
    assert_eq!(subs.get(&"pack".to_string()).unwrap(), "/mod/mod1/pack.zip");
    // archives are recognized case-insensitively, and the sub id is
    // the file name minus its extension either way
    assert_eq!(subs.get(&"LOUD".to_string()).unwrap(), "/mod/mod1/LOUD.ZIP");
    assert_eq!(
        subs.get(&"extra.1.2".to_string()).unwrap(),
        "/mod/mod1/nested/extra.1.2.zip"
    );
}

#[test]
fn empty_mod_dir_still_registered() {
    let dirs = vec![("empty-mod".to_string(), vec![])];
    let repo = build_mods(&dirs);
    assert_eq!(repo.len(), 1);
    assert_eq!(repo.get(&"empty-mod".to_string()).unwrap().len(), 0);
}

#[test]
fn latest_modified_skips_only_the_root_cache_artifact() {
    let entries = vec![
        ("a.png".to_string(), 100u64),
        ("cache.bin".to_string(), 900u64),
        ("b.png".to_string(), 300u64),
    ];
    assert_eq!(latest_modified(&entries, 50), 300);
    assert_eq!(latest_modified(&entries, 400), 400);
    assert_eq!(latest_modified(&vec![], 7), 7);

    // entries carry paths relative to the layer root: a deeper file
    // that happens to be called cache.bin still counts
    let nested = vec![
        ("cache.bin".to_string(), 900u64),
        ("base/cache.bin".to_string(), 350u64),
    ];
    assert_eq!(latest_modified(&nested, 50), 350);
}

#[test]
fn snapshot_fresh_until_a_file_is_touched() {
    let t = 500u64;
    let entries = vec![
        ("a.png".to_string(), 120u64),
        ("b.png".to_string(), 500u64),
    ];
    let current = latest_modified(&entries, 10);
    let cache = Some(LayerCache { last_modified: t, layers: Dict::new() });
    assert!(cache_is_fresh(&cache, current));

    let touched = vec![
        ("a.png".to_string(), 120u64),
        ("b.png".to_string(), 501u64),
    ];
    let current_after = latest_modified(&touched, 10);
    assert!(!cache_is_fresh(&cache, current_after));
    assert!(!cache_is_fresh(&None, current));
}

#[test]
fn failed_layer_scan_is_skipped() {
    let scans = vec![
        (
            "good".to_string(),
            LayerScanOutcome::Scanned(vec![entry(&["x.txt"], "/layer/good/x.txt")]),
        ),
        ("bad".to_string(), LayerScanOutcome::Failed),
    ];
    let layers = build_layer_map(&scans);
    assert_eq!(layers.len(), 1);
    let good = layers.get(&"good".to_string()).unwrap();
    assert_eq!(
        good.get("x.txt").unwrap().location(),
        "/layer/good/x.txt"
    );
    assert!(layers.get(&"bad".to_string()).is_none());
}
