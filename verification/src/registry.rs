//! The process-wide registry of loaded manage entries.
//!
//! Built once at startup and never mutated afterwards; request handlers
//! share it read-only.

use vstd::prelude::*;

use crate::dict::{distinct_keys, map_of, Dict};
use crate::sc::{SugarCubeInfo, SugarCubeInfoV};

verus! {

/// One manage entry, loaded and ready to serve: either a plain
/// directory with an entry file, or resolved overlay content.  A plain
/// entry keeps its configured display name for listings.
pub enum LoadedType {
    Plain { name: Option<String>, root_path: String, enter_path: String },
    SugarCube { info: SugarCubeInfo },
}

pub enum LoadedTypeV {
    Plain { name: Option<Seq<char>>, root_path: Seq<char>, enter_path: Seq<char> },
    SugarCube { info: SugarCubeInfoV },
}

impl View for LoadedType {
    type V = LoadedTypeV;

    open spec fn view(&self) -> LoadedTypeV {
        match self {
            LoadedType::Plain { name, root_path, enter_path } => LoadedTypeV::Plain {
                name: name.deep_view(),
                root_path: root_path@,
                enter_path: enter_path@,
            },
            LoadedType::SugarCube { info } => LoadedTypeV::SugarCube { info: info@ },
        }
    }
}

/// Manage id -> loaded entry.
pub struct LoadedMapping {
    map: Dict<String, LoadedType>,
}

impl View for LoadedMapping {
    type V = Map<Seq<char>, LoadedTypeV>;

    closed spec fn view(&self) -> Map<Seq<char>, LoadedTypeV> {
        self.map@
    }
}

impl Default for LoadedMapping {
    fn default() -> (r: Self)
        ensures
            r@ == Map::<Seq<char>, LoadedTypeV>::empty(),
    {
        LoadedMapping { map: Dict::new() }
    }
}

impl LoadedMapping {
    pub fn get(&self, id: &str) -> (r: Option<&LoadedType>)
        ensures
            match r {
                Some(lt) => self@.contains_key(id@) && lt@ == self@[id@],
                None => !self@.contains_key(id@),
            },
    {
        self.map.get(&id.to_owned())
    }

    pub fn insert(&mut self, id: String, loaded_type: LoadedType)
        ensures
            final(self)@ == old(self)@.insert(id@, loaded_type@),
    {
        self.map.insert(id, loaded_type);
    }

    /// The raw pairs of the registry; keys are distinct and together
    /// they describe exactly its map view.
    pub fn iter(&self) -> (r: &Vec<(String, LoadedType)>)
        ensures
            distinct_keys(r@),
            map_of(r@) == self@,
            r@.len() == self@.dom().len(),
    {
        self.map.iter()
    }
}

/// The immutable state handed to every request handler.
pub struct AppState(LoadedMapping);

impl View for AppState {
    type V = Map<Seq<char>, LoadedTypeV>;

    closed spec fn view(&self) -> Map<Seq<char>, LoadedTypeV> {
        self.0@
    }
}

impl AppState {
    pub fn new(mapping: LoadedMapping) -> (r: Self)
        ensures
            r@ == mapping@,
    {
        AppState(mapping)
    }

    pub fn get(&self, id: &str) -> (r: Option<&LoadedType>)
        ensures
            match r {
                Some(lt) => self@.contains_key(id@) && lt@ == self@[id@],
                None => !self@.contains_key(id@),
            },
    {
        self.0.get(id)
    }

    /// The raw pairs of the registry; keys are distinct and together
    /// they describe exactly its map view.
    pub fn iter(&self) -> (r: &Vec<(String, LoadedType)>)
        ensures
            distinct_keys(r@),
            map_of(r@) == self@,
            r@.len() == self@.dom().len(),
    {
        self.0.iter()
    }
}

} // verus!
