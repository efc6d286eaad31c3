//! The index, mod and layer stores, built from directory scans, and the
//! layer store's advisory scan cache.
//!
//! The collaborator walks each store's root and hands over plain scan
//! entries; everything decided from them — which files count, under
//! which id they are stored, whether a cached layer map is still fresh —
//! is verified here.

use vstd::prelude::*;

use crate::dict::Dict;
use crate::mfs::{scan_map, MapFileSystem, ScanEntry};
use crate::paths::{ext_matches, file_name_of, stem_of, PathHelper};

verus! {

/// The file name of a scan entry: its last path component.
pub open spec fn entry_name(e: ScanEntry) -> Seq<char> {
    if e.components@.len() == 0 {
        Seq::empty()
    } else {
        e.components@.last()@
    }
}

/// The index store described by a scan: every file with a recognized
/// document extension, keyed by its file stem; on duplicate stems the
/// later entry of the scan wins.
pub open spec fn index_map(entries: Seq<ScanEntry>) -> Map<Seq<char>, Seq<char>>
    decreases entries.len(),
{
    if entries.len() == 0 {
        Map::empty()
    } else {
        let m = index_map(entries.drop_last());
        let nm = entry_name(entries.last());
        if ext_matches(nm, "html"@) {
            m.insert(stem_of(file_name_of(nm)), entries.last().location@)
        } else {
            m
        }
    }
}

/// Builds the index store from the scan of the index root.
#[verifier::loop_isolation(false)]
pub fn build_indexes(entries: &Vec<ScanEntry>) -> (r: Dict<String, String>)
    ensures
        r@ == index_map(entries@),
{
    let mut map: Dict<String, String> = Dict::new();
    let mut i: usize = 0;
    while i < entries.len()
        invariant
            i <= entries@.len(),
            map@ == index_map(entries@.take(i as int)),
        decreases entries@.len() - i,
    {
        proof {
            assert(entries@.take(i + 1).drop_last() =~= entries@.take(i as int));
            assert(entries@.take(i + 1).last() == entries@[i as int]);
        }
        let e = &entries[i];
        if e.components.len() > 0 {
            let name = &e.components[e.components.len() - 1];
            if name.as_str().extension_eq("html") {
                let stem = crate::paths::file_stem(name.as_str());
                map.insert(stem, e.location.clone());
            }
        }
        i += 1;
    }
    proof {
        assert(entries@.take(entries@.len() as int) =~= entries@);
    }
    map
}

/// One mod directory's sub-id -> archive map: every archive file under
/// it, keyed by its file name minus the extension, as the index store
/// keys documents.
pub open spec fn mod_submap(entries: Seq<ScanEntry>) -> Map<Seq<char>, Seq<char>>
    decreases entries.len(),
{
    if entries.len() == 0 {
        Map::empty()
    } else {
        let m = mod_submap(entries.drop_last());
        let nm = entry_name(entries.last());
        if ext_matches(nm, "zip"@) {
            m.insert(stem_of(file_name_of(nm)), entries.last().location@)
        } else {
            m
        }
    }
}

/// The whole mod store: one sub-map per immediate subdirectory of the
/// mod root, keyed by the directory's name.
pub open spec fn mods_map(dirs: Seq<(String, Vec<ScanEntry>)>) -> Map<
    Seq<char>,
    Map<Seq<char>, Seq<char>>,
>
    decreases dirs.len(),
{
    if dirs.len() == 0 {
        Map::empty()
    } else {
        mods_map(dirs.drop_last()).insert(dirs.last().0@, mod_submap(dirs.last().1@))
    }
}

#[verifier::loop_isolation(false)]
fn build_mod_submap(entries: &Vec<ScanEntry>) -> (r: Dict<String, String>)
    ensures
        r@ == mod_submap(entries@),
{
    let mut map: Dict<String, String> = Dict::new();
    let mut i: usize = 0;
    while i < entries.len()
        invariant
            i <= entries@.len(),
            map@ == mod_submap(entries@.take(i as int)),
        decreases entries@.len() - i,
    {
        proof {
            assert(entries@.take(i + 1).drop_last() =~= entries@.take(i as int));
            assert(entries@.take(i + 1).last() == entries@[i as int]);
        }
        let e = &entries[i];
        if e.components.len() > 0 {
            let name = &e.components[e.components.len() - 1];
            if name.as_str().extension_eq("zip") {
                let sub_id = crate::paths::file_stem(name.as_str());
                map.insert(sub_id, e.location.clone());
            }
        }
        i += 1;
    }
    proof {
        assert(entries@.take(entries@.len() as int) =~= entries@);
    }
    map
}

/// Builds the mod store from the scans of the mod root's
/// subdirectories, one per mod id.
#[verifier::loop_isolation(false)]
pub fn build_mods(dirs: &Vec<(String, Vec<ScanEntry>)>) -> (r: Dict<String, Dict<String, String>>)
    ensures
        r@ == mods_map(dirs@),
{
    let mut repo: Dict<String, Dict<String, String>> = Dict::new();
    let mut i: usize = 0;
    while i < dirs.len()
        invariant
            i <= dirs@.len(),
            repo@ == mods_map(dirs@.take(i as int)),
        decreases dirs@.len() - i,
    {
        proof {
            assert(dirs@.take(i + 1).drop_last() =~= dirs@.take(i as int));
            assert(dirs@.take(i + 1).last() == dirs@[i as int]);
        }
        let sub = build_mod_submap(&dirs[i].1);
        repo.insert(dirs[i].0.clone(), sub);
        i += 1;
    }
    proof {
        assert(dirs@.take(dirs@.len() as int) =~= dirs@);
    }
    repo
}

/// The newest modification stamp over a walked tree, the scanned root's
/// own stamp included as `base`.  Entries carry their path relative to
/// the root, so the exclusion of `cache.bin` hits exactly the cache
/// artifact beside the root, never a deeper file of that name.
pub open spec fn latest(entries: Seq<(String, u64)>, base: u64) -> u64
    decreases entries.len(),
{
    if entries.len() == 0 {
        base
    } else {
        let p = latest(entries.drop_last(), base);
        let e = entries.last();
        if e.0@ == "cache.bin"@ {
            p
        } else if e.1 > p {
            e.1
        } else {
            p
        }
    }
}

/// Computes the newest modification stamp over the layer root's tree,
/// skipping the root's cache artifact, from `(relative path, stamp)`
/// pairs.
#[verifier::loop_isolation(false)]
pub fn latest_modified(entries: &Vec<(String, u64)>, base: u64) -> (r: u64)
    ensures
        r == latest(entries@, base),
{
    let cache_name = "cache.bin".to_owned();
    let mut acc: u64 = base;
    let mut i: usize = 0;
    while i < entries.len()
        invariant
            i <= entries@.len(),
            acc == latest(entries@.take(i as int), base),
        decreases entries@.len() - i,
    {
        proof {
            assert(entries@.take(i + 1).drop_last() =~= entries@.take(i as int));
            assert(entries@.take(i + 1).last() == entries@[i as int]);
        }
        if !<String as PartialEq>::eq(&entries[i].0, &cache_name) {
            if entries[i].1 > acc {
                acc = entries[i].1;
            }
        }
        i += 1;
    }
    proof {
        assert(entries@.take(entries@.len() as int) =~= entries@);
    }
    acc
}

/// A snapshot with `last_modified` at least every stamp under the tree
/// is fresh: no rescan happens.
pub proof fn lemma_snapshot_fresh(entries: Seq<(String, u64)>, base: u64, t: u64)
    requires
        base <= t,
        forall|i: int| 0 <= i < entries.len() ==> (#[trigger] entries[i]).1 <= t,
    ensures
        latest(entries, base) <= t,
    decreases entries.len(),
{
    if entries.len() > 0 {
        assert(forall|i: int|
            0 <= i < entries.drop_last().len() ==> #[trigger] entries.drop_last()[i]
                == entries[i]);
        lemma_snapshot_fresh(entries.drop_last(), base, t);
    }
}

/// Touching any file of the tree past the snapshot's stamp forces a
/// rescan on the next build; only the root's cache artifact is exempt.
pub proof fn lemma_touched_file_stale(entries: Seq<(String, u64)>, base: u64, t: u64, i: int)
    requires
        0 <= i < entries.len(),
        entries[i].0@ != "cache.bin"@,
        entries[i].1 > t,
    ensures
        latest(entries, base) > t,
    decreases entries.len(),
{
    if i < entries.len() - 1 {
        assert(entries.drop_last()[i] == entries[i]);
        lemma_touched_file_stale(entries.drop_last(), base, t, i);
    }
}

/// The persisted result of one layer scan, read optimistically on the
/// next startup.
pub struct LayerCache {
    pub last_modified: u64,
    pub layers: Dict<String, MapFileSystem>,
}

/// Whether a decoded snapshot may replace a rescan: it must carry a
/// stamp at least as new as everything currently under the layer root.
pub fn cache_is_fresh(cache: &Option<LayerCache>, current_modified: u64) -> (r: bool)
    ensures
        r == match cache {
            Some(c) => current_modified <= c.last_modified,
            None => false,
        },
{
    match cache {
        Some(c) => current_modified <= c.last_modified,
        None => false,
    }
}

/// The outcome of scanning one layer directory; a failed scan skips
/// that layer and the build continues.
pub enum LayerScanOutcome {
    Scanned(Vec<ScanEntry>),
    Failed,
}

/// The layer store described by per-directory scans: one layer per
/// scanned subdirectory, named after it; failed scans are left out.
pub open spec fn layers_map(scans: Seq<(String, LayerScanOutcome)>) -> Map<
    Seq<char>,
    Map<Seq<char>, Seq<char>>,
>
    decreases scans.len(),
{
    if scans.len() == 0 {
        Map::empty()
    } else {
        let m = layers_map(scans.drop_last());
        match scans.last().1 {
            LayerScanOutcome::Scanned(es) => m.insert(scans.last().0@, scan_map(es@)),
            LayerScanOutcome::Failed => m,
        }
    }
}

/// Builds the layer store from the scans of the layer root's immediate
/// subdirectories.  A layer whose scan failed is skipped; the rest of
/// the store is still built.
#[verifier::loop_isolation(false)]
pub fn build_layer_map(scans: &Vec<(String, LayerScanOutcome)>) -> (r: Dict<String, MapFileSystem>)
    ensures
        r@ == layers_map(scans@),
{
    let mut map: Dict<String, MapFileSystem> = Dict::new();
    let mut i: usize = 0;
    while i < scans.len()
        invariant
            i <= scans@.len(),
            map@ == layers_map(scans@.take(i as int)),
        decreases scans@.len() - i,
    {
        proof {
            assert(scans@.take(i + 1).drop_last() =~= scans@.take(i as int));
            assert(scans@.take(i + 1).last() == scans@[i as int]);
        }
        match &scans[i].1 {
            LayerScanOutcome::Scanned(es) => {
                let mfs = MapFileSystem::from_entries(es);
                map.insert(scans[i].0.clone(), mfs);
            },
            LayerScanOutcome::Failed => {},
        }
        i += 1;
    }
    proof {
        assert(scans@.take(scans@.len() as int) =~= scans@);
    }
    map
}

} // verus!
