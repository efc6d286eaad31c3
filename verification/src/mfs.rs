//! The map filesystem: one layer's relative-path -> file mapping.
//!
//! A layer is a directory subtree; scanning it yields, for every file,
//! its path components relative to the layer root and its absolute
//! location.  The engine keeps only that mapping and re-reads file bytes
//! on every lookup, so nothing here caches content.

use vstd::prelude::*;

use crate::dict::{map_of, Dict};
use crate::paths::{file_name_of, normalized_key};

verus! {

/// A reference to an on-disk file; content is never copied into memory.
pub enum FileNode {
    File(String),
}

impl View for FileNode {
    type V = Seq<char>;

    closed spec fn view(&self) -> Seq<char> {
        match self {
            FileNode::File(p) => p@,
        }
    }
}

impl FileNode {
    /// The location the node points at, for the caller that reads bytes.
    pub fn location(&self) -> (r: &String)
        ensures
            r@ == self@,
    {
        match self {
            FileNode::File(p) => p,
        }
    }

    pub fn duplicate(&self) -> (r: FileNode)
        ensures
            r@ == self@,
    {
        match self {
            FileNode::File(p) => FileNode::File(p.clone()),
        }
    }

    /// The display name of the backing file: the last `/`-separated
    /// component of its location.
    pub fn file_name(&self) -> (r: String)
        ensures
            r@ == file_name_of(self@),
    {
        match self {
            FileNode::File(p) => crate::paths::file_name(p.as_str()),
        }
    }
}

/// One file found while scanning a directory tree: its path components
/// relative to the scanned root, in order, and its absolute location.
pub struct ScanEntry {
    pub components: Vec<String>,
    pub location: String,
}

/// Components joined with `/` into one relative key.
pub open spec fn joined(components: Seq<String>) -> Seq<char>
    decreases components.len(),
{
    if components.len() == 0 {
        Seq::empty()
    } else if components.len() == 1 {
        components[0]@
    } else {
        joined(components.drop_last()) + seq!['/'] + components.last()@
    }
}

/// The mapping described by a scan: each entry's joined relative path
/// points at its location; a later entry wins a key collision.
pub open spec fn scan_map(entries: Seq<ScanEntry>) -> Map<Seq<char>, Seq<char>>
    decreases entries.len(),
{
    if entries.len() == 0 {
        Map::empty()
    } else {
        scan_map(entries.drop_last()).insert(
            joined(entries.last().components@),
            entries.last().location@,
        )
    }
}

/// A layer's path -> file map.
pub struct MapFileSystem {
    map: Dict<String, FileNode>,
}

impl View for MapFileSystem {
    type V = Map<Seq<char>, Seq<char>>;

    closed spec fn view(&self) -> Map<Seq<char>, Seq<char>> {
        self.map@
    }
}

impl MapFileSystem {
    pub fn new(map: Dict<String, FileNode>) -> (r: Self)
        ensures
            r@ == map@,
    {
        MapFileSystem { map }
    }

    pub fn get(&self, path: &str) -> (r: Option<&FileNode>)
        ensures
            match r {
                Some(node) => self@.contains_key(path@) && node@ == self@[path@],
                None => !self@.contains_key(path@),
            },
    {
        self.map.get(&path.to_owned())
    }

    /// Looks a request path up in the overlay after normalizing it
    /// into the overlay's slash-joined key space: empty and `.`
    /// components are dropped first.
    pub fn lookup(&self, request_path: &str) -> (r: Option<&FileNode>)
        ensures
            match r {
                Some(node) => self@.contains_key(normalized_key(request_path@)) && node@
                    == self@[normalized_key(request_path@)],
                None => !self@.contains_key(normalized_key(request_path@)),
            },
    {
        let key = crate::paths::normalize_request_key(request_path);
        self.map.get(&key)
    }

    /// The raw pairs of the mapping; keys are distinct and together they
    /// describe exactly the layer's map view.
    pub fn iter(&self) -> (r: &Vec<(String, FileNode)>)
        ensures
            crate::dict::distinct_keys(r@),
            map_of(r@) == self@,
            r@.len() == self@.dom().len(),
    {
        self.map.iter()
    }

    /// Builds a layer map from the files of one scanned directory tree.
    #[verifier::loop_isolation(false)]
    pub fn from_entries(entries: &Vec<ScanEntry>) -> (r: Self)
        ensures
            r@ == scan_map(entries@),
    {
        let mut map: Dict<String, FileNode> = Dict::new();
        let mut i: usize = 0;
        while i < entries.len()
            invariant
                i <= entries@.len(),
                map@ == scan_map(entries@.take(i as int)),
            decreases entries@.len() - i,
        {
            proof {
                assert(entries@.take(i + 1).drop_last() =~= entries@.take(i as int));
                assert(entries@.take(i + 1).last() == entries@[i as int]);
            }
            let key = join_components(&entries[i].components);
            map.insert(key, FileNode::File(entries[i].location.clone()));
            i += 1;
        }
        proof {
            assert(entries@.take(entries@.len() as int) =~= entries@);
        }
        MapFileSystem { map }
    }
}

/// Joins path components with `/` into the key space of the overlay.
#[verifier::loop_isolation(false)]
pub fn join_components(components: &Vec<String>) -> (r: String)
    ensures
        r@ == joined(components@),
{
    let mut key = String::new();
    proof {
        reveal_strlit("/");
        assert("/"@ =~= seq!['/']);
    }
    let mut i: usize = 0;
    while i < components.len()
        invariant
            i <= components@.len(),
            key@ == joined(components@.take(i as int)),
        decreases components@.len() - i,
    {
        proof {
            assert(components@.take(i + 1).drop_last() =~= components@.take(i as int));
            assert(components@.take(i + 1).last() == components@[i as int]);
            if i == 0 {
                assert(components@.take(1)[0] == components@[0]);
            }
        }
        if i > 0 {
            key.append("/");
        }
        key.append(components[i].as_str());
        i += 1;
    }
    proof {
        assert(components@.take(components@.len() as int) =~= components@);
    }
    key
}

} // verus!
