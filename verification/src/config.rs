//! Configuration records, already parsed by the surrounding binary.
//!
//! A manage entry is one independently configured content title.  The
//! engine consumes these records as plain values; reading and decoding
//! the configuration file is the collaborator's job.

use vstd::prelude::*;

use crate::dict::{distinct_keys, map_of, Dict};

verus! {

/// How a manage entry serves content: directly from disk, or through
/// resolved overlay instances.
pub enum ManageType {
    Plain { enter_path: String },
    SugarCube { use_mods: bool, use_save_sync: bool },
}

pub enum ManageTypeV {
    Plain { enter_path: Seq<char> },
    SugarCube { use_mods: bool, use_save_sync: bool },
}

impl View for ManageType {
    type V = ManageTypeV;

    open spec fn view(&self) -> ManageTypeV {
        match self {
            ManageType::Plain { enter_path } => ManageTypeV::Plain { enter_path: enter_path@ },
            ManageType::SugarCube { use_mods, use_save_sync } => ManageTypeV::SugarCube {
                use_mods: *use_mods,
                use_save_sync: *use_save_sync,
            },
        }
    }
}

/// One manage entry: an optional display name and its mode.
pub struct ManageInfo {
    pub name: Option<String>,
    pub mode: ManageType,
}

pub struct ManageInfoV {
    pub name: Option<Seq<char>>,
    pub mode: ManageTypeV,
}

impl View for ManageInfo {
    type V = ManageInfoV;

    open spec fn view(&self) -> ManageInfoV {
        ManageInfoV { name: self.name.deep_view(), mode: self.mode@ }
    }
}

/// The entry path a plain-mode entry serves when none is configured.
pub fn default_enter_path() -> (r: String)
    ensures
        r@ == "index.html"@,
{
    "index.html".to_owned()
}

/// Read access to the server configuration.
pub trait ReadConfig {
    spec fn spec_port(&self) -> u16;

    spec fn spec_root(&self) -> Seq<char>;

    spec fn spec_manage(&self) -> Map<Seq<char>, ManageInfoV>;

    fn port(&self) -> (r: u16)
        ensures
            r == self.spec_port(),
    ;

    /// The content root, relative to the process working directory; the
    /// surrounding binary resolves it against the filesystem.
    fn data_dir(&self) -> (r: &String)
        ensures
            r@ == self.spec_root(),
    ;

    fn manage_iter(&self) -> (r: &Vec<(String, ManageInfo)>)
        ensures
            distinct_keys(r@),
            map_of(r@) == self.spec_manage(),
            r@.len() == self.spec_manage().dom().len(),
    ;

    fn manage_size(&self) -> (r: usize)
        ensures
            r == self.spec_manage().dom().len(),
    ;

    fn manage_empty(&self) -> (r: bool)
        ensures
            r == (self.spec_manage().dom().len() == 0),
    ;
}

/// The server configuration: listen port, content root, manage entries.
pub struct Config {
    port: u16,
    root: String,
    manage: Dict<String, ManageInfo>,
}

impl Config {
    pub fn new(port: u16, root: String, manage: Dict<String, ManageInfo>) -> (r: Self)
        ensures
            r.spec_port() == port,
            r.spec_root() == root@,
            r.spec_manage() == manage@,
    {
        Config { port, root, manage }
    }
}

impl Default for Config {
    /// The configuration written on first run: port 3500, content under
    /// `data`, no manage entries.
    fn default() -> (r: Self)
        ensures
            r.spec_port() == 3500,
            r.spec_root() == "data"@,
            r.spec_manage() == Map::<Seq<char>, ManageInfoV>::empty(),
    {
        Config { port: 3500, root: "data".to_owned(), manage: Dict::new() }
    }
}

impl ReadConfig for Config {
    closed spec fn spec_port(&self) -> u16 {
        self.port
    }

    closed spec fn spec_root(&self) -> Seq<char> {
        self.root@
    }

    closed spec fn spec_manage(&self) -> Map<Seq<char>, ManageInfoV> {
        self.manage@
    }

    fn port(&self) -> u16 {
        self.port
    }

    fn data_dir(&self) -> &String {
        &self.root
    }

    fn manage_iter(&self) -> &Vec<(String, ManageInfo)> {
        self.manage.iter()
    }

    fn manage_size(&self) -> usize {
        self.manage.len()
    }

    fn manage_empty(&self) -> bool {
        self.manage.is_empty()
    }
}

} // verus!
