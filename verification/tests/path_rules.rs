use uni_server::mfs::{MapFileSystem, ScanEntry};
use uni_server::paths::{
    eq_ignore_ascii_case, file_name, file_stem, resolve_plain_path, split_request, PathHelper,
};

#[test]
fn traversal_is_rejected_before_any_access() {
    assert!(resolve_plain_path("/root", "../../etc/passwd").is_none());
    assert!(resolve_plain_path("/root", "a/../b").is_none());
    assert!(split_request("..").is_none());
}

#[test]
fn dot_components_resolve_identically() {
    let plain = resolve_plain_path("/root", "a/b").unwrap();
    let dotted = resolve_plain_path("/root", "a/./b").unwrap();
    assert_eq!(plain, dotted);
    assert_eq!(plain, "/root/a/b");
}

#[test]
fn empty_components_are_dropped() {
    assert_eq!(
        resolve_plain_path("/root", "//a///b/").unwrap(),
        "/root/a/b"
    );
    let comps = split_request("a//./b").unwrap();
    assert_eq!(comps, vec!["a".to_string(), "b".to_string()]);
}

#[test]
fn extension_checks_ignore_ascii_case() {
    assert!("page.HTML".extension_eq("html"));
    assert!("dir/page.html".extension_eq("HTML"));
    assert!(!"page.html.bak".extension_eq("html"));
    assert!(!"notes.txt".extension_eq("html"));
    assert!(!".gitignore".extension_eq("gitignore"));
    assert!(!"noext".extension_eq("html"));
    assert!("conf.yml".extension_eqs(&["yaml", "yml"]));
    assert!(!"conf.ini".extension_eqs(&["yaml", "yml"]));
}

#[test]
fn file_names_and_stems() {
    assert_eq!(file_name("a/b/c.txt"), "c.txt");
    assert_eq!(file_name("plain"), "plain");
    assert_eq!(file_name("dir/"), "");
    assert_eq!(file_stem("a/b/c.txt"), "c");
    assert_eq!(file_stem("archive.tar.gz"), "archive.tar");
    assert_eq!(file_stem(".gitignore"), ".gitignore");
    assert_eq!(file_stem("noext"), "noext");
}

#[test]
fn overlay_lookup_normalizes_the_request() {
    let entries = vec![ScanEntry {
        components: vec!["a".to_string(), "b".to_string()],
        location: "/layer/x/a/b".to_string(),
    }];
    let overlay = MapFileSystem::from_entries(&entries);
    assert_eq!(
        overlay.lookup("a/./b").unwrap().location(),
        "/layer/x/a/b"
    );
    assert_eq!(
        overlay.lookup("//a/b/").unwrap().location(),
        "/layer/x/a/b"
    );
    assert!(overlay.lookup("a/c").is_none());
}

#[test]
fn ascii_case_comparison() {
    assert!(eq_ignore_ascii_case("HtMl", "html"));
    assert!(!eq_ignore_ascii_case("html", "htm"));
    assert!(!eq_ignore_ascii_case("html", "xml "));
}
