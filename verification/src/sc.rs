//! Instance resolution: turning parsed instance records and the three
//! stores into resolved instances.
//!
//! Each record names an index, an ordered list of layers and a list of
//! mod references.  An unknown index discards the whole record; unknown
//! layer and mod references are dropped individually; a record that
//! failed to parse aborts the whole resolution pass.  Layer merging is
//! last-writer-wins in list order.

use vstd::prelude::*;

use crate::dict::{
    lemma_map_of_contains, lemma_map_of_index_of, lemma_map_of_take_step, map_of, Dict,
};
use crate::mfs::{FileNode, MapFileSystem};
use crate::paths::{ext_matches, PathHelper};

verus! {

/// One instance record as its source file declares it.
#[derive(Debug)]
pub struct SugarCubeInstanceConfig {
    pub id: String,
    pub name: Option<String>,
    pub index: String,
    pub layers: Vec<String>,
    pub mods: Vec<(String, String)>,
}

/// What became of one discovered record file: a parsed record, or a
/// parse failure carrying the file's name.
#[derive(Debug)]
pub enum InstanceRecord {
    Parsed(SugarCubeInstanceConfig),
    Malformed(String),
}

/// A fatal startup failure: a record file that does not parse under its
/// declared format aborts the resolution pass.
#[derive(Debug)]
pub enum SetupError {
    MalformedRecord(String),
}

/// The serialization format a record file's name selects.
#[derive(Debug, PartialEq, Eq, Structural)]
pub enum RecordFormat {
    Json,
    Toml,
    Yaml,
    Ignored,
    Unsupported,
}

pub open spec fn spec_record_format(name: Seq<char>) -> RecordFormat {
    if name == "_example.yaml"@ {
        RecordFormat::Ignored
    } else if ext_matches(name, "json"@) {
        RecordFormat::Json
    } else if ext_matches(name, "toml"@) {
        RecordFormat::Toml
    } else if ext_matches(name, "yaml"@) || ext_matches(name, "yml"@) {
        RecordFormat::Yaml
    } else {
        RecordFormat::Unsupported
    }
}

/// Which format a record file is read under, by its name: the reserved
/// example file is always ignored, unrecognized extensions are skipped.
pub fn record_format(file_name: &str) -> (r: RecordFormat)
    ensures
        r == spec_record_format(file_name@),
{
    if <String as PartialEq>::eq(&file_name.to_owned(), &"_example.yaml".to_owned()) {
        RecordFormat::Ignored
    } else if file_name.extension_eq("json") {
        RecordFormat::Json
    } else if file_name.extension_eq("toml") {
        RecordFormat::Toml
    } else if file_name.extension_eq("yaml") || file_name.extension_eq("yml") {
        RecordFormat::Yaml
    } else {
        RecordFormat::Unsupported
    }
}

/// One resolved instance: the merged overlay of its layers, its
/// resolved mod references and index file, and, for listings, the
/// index id and layer list its record declared.
pub struct SugarCubeInstance {
    pub id: String,
    pub name: Option<String>,
    pub index: String,
    pub layers: Vec<String>,
    pub index_path: String,
    pub layer_merged: MapFileSystem,
    pub mods_ref: Dict<(String, String), String>,
}

pub struct SugarCubeInstanceV {
    pub id: Seq<char>,
    pub name: Option<Seq<char>>,
    pub index: Seq<char>,
    pub layers: Seq<Seq<char>>,
    pub index_path: Seq<char>,
    pub layer_merged: Map<Seq<char>, Seq<char>>,
    pub mods_ref: Map<(Seq<char>, Seq<char>), Seq<char>>,
}

impl View for SugarCubeInstance {
    type V = SugarCubeInstanceV;

    open spec fn view(&self) -> SugarCubeInstanceV {
        SugarCubeInstanceV {
            id: self.id@,
            name: self.name.deep_view(),
            index: self.index@,
            layers: self.layers.deep_view(),
            index_path: self.index_path@,
            layer_merged: self.layer_merged@,
            mods_ref: self.mods_ref@,
        }
    }
}

/// The overlay of an ordered layer list: layers folded left to right,
/// a later layer overwriting an earlier one on key collision; a layer
/// id absent from the store contributes nothing.
pub open spec fn merge_overlay(
    ly: Map<Seq<char>, Map<Seq<char>, Seq<char>>>,
    ids: Seq<String>,
) -> Map<Seq<char>, Seq<char>>
    decreases ids.len(),
{
    if ids.len() == 0 {
        Map::empty()
    } else {
        let m = merge_overlay(ly, ids.drop_last());
        if ly.contains_key(ids.last()@) {
            m.union_prefer_right(ly[ids.last()@])
        } else {
            m
        }
    }
}

/// The resolved mod references of a record: each (mod id, sub id) pair
/// that the store knows, mapped to its archive; unknown pairs dropped.
pub open spec fn resolve_mod_refs(
    md: Map<Seq<char>, Map<Seq<char>, Seq<char>>>,
    pairs: Seq<(String, String)>,
) -> Map<(Seq<char>, Seq<char>), Seq<char>>
    decreases pairs.len(),
{
    if pairs.len() == 0 {
        Map::empty()
    } else {
        let m = resolve_mod_refs(md, pairs.drop_last());
        let p = pairs.last();
        if md.contains_key(p.0@) && md[p.0@].contains_key(p.1@) {
            m.insert((p.0@, p.1@), md[p.0@][p.1@])
        } else {
            m
        }
    }
}

/// The instance a parseable record resolves to, given the stores.
pub open spec fn config_view(
    c: SugarCubeInstanceConfig,
    ix: Map<Seq<char>, Seq<char>>,
    ly: Map<Seq<char>, Map<Seq<char>, Seq<char>>>,
    md: Map<Seq<char>, Map<Seq<char>, Seq<char>>>,
) -> SugarCubeInstanceV {
    SugarCubeInstanceV {
        id: c.id@,
        name: c.name.deep_view(),
        index: c.index@,
        layers: c.layers.deep_view(),
        index_path: ix[c.index@],
        layer_merged: merge_overlay(ly, c.layers@),
        mods_ref: resolve_mod_refs(md, c.mods@),
    }
}

/// The instance table a record list resolves to: records in order, a
/// later record overwriting an earlier one with the same id; a record
/// whose index the store does not know is left out entirely.
pub open spec fn resolved_map(
    records: Seq<InstanceRecord>,
    ix: Map<Seq<char>, Seq<char>>,
    ly: Map<Seq<char>, Map<Seq<char>, Seq<char>>>,
    md: Map<Seq<char>, Map<Seq<char>, Seq<char>>>,
) -> Map<Seq<char>, SugarCubeInstanceV>
    decreases records.len(),
{
    if records.len() == 0 {
        Map::empty()
    } else {
        let m = resolved_map(records.drop_last(), ix, ly, md);
        match records.last() {
            InstanceRecord::Malformed(_) => m,
            InstanceRecord::Parsed(c) => if ix.contains_key(c.index@) {
                m.insert(c.id@, config_view(c, ix, ly, md))
            } else {
                m
            },
        }
    }
}

/// The name of the first record file that failed to parse, if any.
pub open spec fn first_malformed(records: Seq<InstanceRecord>) -> Option<Seq<char>>
    decreases records.len(),
{
    if records.len() == 0 {
        None
    } else {
        match records.first() {
            InstanceRecord::Malformed(f) => Some(f@),
            InstanceRecord::Parsed(_) => first_malformed(records.drop_first()),
        }
    }
}

proof fn lemma_first_malformed_at(records: Seq<InstanceRecord>, i: int)
    requires
        0 <= i < records.len(),
        forall|j: int| 0 <= j < i ==> (#[trigger] records[j]) is Parsed,
        records[i] is Malformed,
    ensures
        first_malformed(records) == Some(records[i]->Malformed_0@),
    decreases i,
{
    if i > 0 {
        let rest = records.drop_first();
        assert(forall|j: int| 0 <= j < rest.len() ==> #[trigger] rest[j] == records[j + 1]);
        lemma_first_malformed_at(rest, i - 1);
    }
}

proof fn lemma_first_malformed_none(records: Seq<InstanceRecord>)
    requires
        forall|j: int| 0 <= j < records.len() ==> (#[trigger] records[j]) is Parsed,
    ensures
        first_malformed(records) is None,
    decreases records.len(),
{
    if records.len() > 0 {
        let rest = records.drop_first();
        assert(forall|j: int| 0 <= j < rest.len() ==> #[trigger] rest[j] == records[j + 1]);
        lemma_first_malformed_none(rest);
    }
}

proof fn lemma_union_insert<A, B>(m1: Map<A, B>, m2: Map<A, B>, k: A, v: B)
    ensures
        m1.union_prefer_right(m2.insert(k, v)) == m1.union_prefer_right(m2).insert(k, v),
{
    assert(m1.union_prefer_right(m2.insert(k, v)) =~= m1.union_prefer_right(m2).insert(k, v));
}

fn clone_opt_string(o: &Option<String>) -> (r: Option<String>)
    ensures
        r.deep_view() == o.deep_view(),
{
    match o {
        Some(s) => Some(s.clone()),
        None => None,
    }
}

#[verifier::loop_isolation(false)]
fn clone_strings(v: &Vec<String>) -> (r: Vec<String>)
    ensures
        r.deep_view() == v.deep_view(),
{
    let mut out: Vec<String> = Vec::new();
    let mut i: usize = 0;
    while i < v.len()
        invariant
            i <= v@.len(),
            out@.len() == i,
            forall|j: int| 0 <= j < i ==> (#[trigger] out@[j])@ == v@[j]@,
        decreases v@.len() - i,
    {
        out.push(v[i].clone());
        i += 1;
    }
    proof {
        assert(out.deep_view() =~= v.deep_view());
    }
    out
}

/// Resolves every discovered record against the stores.
///
/// A record file that failed to parse aborts the whole pass with the
/// first such file's name.  Otherwise every record whose index exists
/// becomes one instance, keyed by its declared id; a later record with
/// a duplicate id overwrites an earlier one.
#[verifier::loop_isolation(false)]
pub fn create_instances(
    records: &Vec<InstanceRecord>,
    indexes: &Dict<String, String>,
    layers: &Dict<String, MapFileSystem>,
    mods: &Dict<String, Dict<String, String>>,
) -> (r: Result<Dict<String, SugarCubeInstance>, SetupError>)
    ensures
        match r {
            Ok(m) => first_malformed(records@) is None && m@ == resolved_map(
                records@,
                indexes@,
                layers@,
                mods@,
            ),
            Err(e) => e matches SetupError::MalformedRecord(f) && Some(f@) == first_malformed(
                records@,
            ),
        },
{
    let mut m: Dict<String, SugarCubeInstance> = Dict::new();
    let mut i: usize = 0;
    while i < records.len()
        invariant
            i <= records@.len(),
            forall|j: int| 0 <= j < i ==> (#[trigger] records@[j]) is Parsed,
            m@ == resolved_map(records@.take(i as int), indexes@, layers@, mods@),
        decreases records@.len() - i,
    {
        proof {
            assert(records@.take(i + 1).drop_last() =~= records@.take(i as int));
            assert(records@.take(i + 1).last() == records@[i as int]);
        }
        match &records[i] {
            InstanceRecord::Malformed(f) => {
                proof {
                    lemma_first_malformed_at(records@, i as int);
                }
                return Err(SetupError::MalformedRecord(f.clone()));
            },
            InstanceRecord::Parsed(cfg) => {
                match indexes.get(&cfg.index) {
                    None => {},
                    Some(index_ref) => {
                        let merged = merge_layers(layers, &cfg.layers);
                        let mods_ref = resolve_mods(mods, &cfg.mods);
                        let inst = SugarCubeInstance {
                            id: cfg.id.clone(),
                            name: clone_opt_string(&cfg.name),
                            index: cfg.index.clone(),
                            layers: clone_strings(&cfg.layers),
                            index_path: index_ref.clone(),
                            layer_merged: MapFileSystem::new(merged),
                            mods_ref,
                        };
                        proof {
                            assert(inst@ == config_view(*cfg, indexes@, layers@, mods@));
                        }
                        m.insert(cfg.id.clone(), inst);
                    },
                }
            },
        }
        i += 1;
    }
    proof {
        assert(records@.take(records@.len() as int) =~= records@);
        lemma_first_malformed_none(records@);
    }
    Ok(m)
}

/// Folds the named layers into one overlay, in order, later layer wins;
/// layer ids the store does not know are skipped.
#[verifier::loop_isolation(false)]
fn merge_layers(layers: &Dict<String, MapFileSystem>, ids: &Vec<String>) -> (r: Dict<
    String,
    FileNode,
>)
    ensures
        r@ == merge_overlay(layers@, ids@),
{
    let mut merged: Dict<String, FileNode> = Dict::new();
    let mut j: usize = 0;
    while j < ids.len()
        invariant
            j <= ids@.len(),
            merged@ == merge_overlay(layers@, ids@.take(j as int)),
        decreases ids@.len() - j,
    {
        proof {
            assert(ids@.take(j + 1).drop_last() =~= ids@.take(j as int));
            assert(ids@.take(j + 1).last() == ids@[j as int]);
        }
        match layers.get(&ids[j]) {
            None => {},
            Some(mfs) => {
                let es = mfs.iter();
                let ghost before = merged@;
                let mut t: usize = 0;
                proof {
                    assert(before.union_prefer_right(map_of(es@.take(0))) =~= before);
                }
                while t < es.len()
                    invariant
                        t <= es@.len(),
                        merged@ == before.union_prefer_right(map_of(es@.take(t as int))),
                    decreases es@.len() - t,
                {
                    proof {
                        lemma_map_of_take_step(es@, t as int);
                        lemma_union_insert(
                            before,
                            map_of(es@.take(t as int)),
                            es@[t as int].0@,
                            es@[t as int].1@,
                        );
                    }
                    merged.insert(es[t].0.clone(), es[t].1.duplicate());
                    t += 1;
                }
                proof {
                    assert(es@.take(es@.len() as int) =~= es@);
                }
            },
        }
        j += 1;
    }
    proof {
        assert(ids@.take(ids@.len() as int) =~= ids@);
    }
    merged
}

/// Resolves each (mod id, sub id) pair against the mod store; pairs the
/// store cannot resolve are dropped.
#[verifier::loop_isolation(false)]
fn resolve_mods(mods: &Dict<String, Dict<String, String>>, pairs: &Vec<(String, String)>) -> (r:
    Dict<(String, String), String>)
    ensures
        r@ == resolve_mod_refs(mods@, pairs@),
{
    let mut refs: Dict<(String, String), String> = Dict::new();
    let mut t: usize = 0;
    while t < pairs.len()
        invariant
            t <= pairs@.len(),
            refs@ == resolve_mod_refs(mods@, pairs@.take(t as int)),
        decreases pairs@.len() - t,
    {
        proof {
            assert(pairs@.take(t + 1).drop_last() =~= pairs@.take(t as int));
            assert(pairs@.take(t + 1).last() == pairs@[t as int]);
        }
        match mods.get(&pairs[t].0) {
            None => {},
            Some(subs) => {
                match subs.get(&pairs[t].1) {
                    None => {},
                    Some(location) => {
                        refs.insert(
                            (pairs[t].0.clone(), pairs[t].1.clone()),
                            location.clone(),
                        );
                    },
                }
            },
        }
        t += 1;
    }
    proof {
        assert(pairs@.take(pairs@.len() as int) =~= pairs@);
    }
    refs
}

/// Merge order: when layer `ids[i]` defines `key` and no later layer of
/// the list does, the merged overlay serves `key` from `ids[i]`.  In
/// particular, of two layers that both define a key, the one listed
/// later wins.
pub proof fn lemma_merge_later_layer_wins(
    ly: Map<Seq<char>, Map<Seq<char>, Seq<char>>>,
    ids: Seq<String>,
    i: int,
    key: Seq<char>,
)
    requires
        0 <= i < ids.len(),
        ly.contains_key(ids[i]@),
        ly[ids[i]@].contains_key(key),
        forall|j: int|
            i < j < ids.len() ==> !(ly.contains_key((#[trigger] ids[j])@) && ly[
                ids[j]@
            ].contains_key(key)),
    ensures
        merge_overlay(ly, ids).contains_key(key),
        merge_overlay(ly, ids)[key] == ly[ids[i]@][key],
    decreases ids.len(),
{
    if i < ids.len() - 1 {
        assert(forall|j: int| 0 <= j < ids.len() - 1 ==> #[trigger] ids.drop_last()[j] == ids[j]);
        lemma_merge_later_layer_wins(ly, ids.drop_last(), i, key);
    }
}

/// Reference gaps, layer side: a layer id the store does not know
/// contributes nothing; the overlay equals the one of the list with
/// that id removed.
pub proof fn lemma_unknown_layer_ignored(
    ly: Map<Seq<char>, Map<Seq<char>, Seq<char>>>,
    ids: Seq<String>,
    i: int,
)
    requires
        0 <= i < ids.len(),
        !ly.contains_key(ids[i]@),
    ensures
        merge_overlay(ly, ids) == merge_overlay(ly, ids.remove(i)),
    decreases ids.len(),
{
    if i == ids.len() - 1 {
        assert(ids.remove(i) =~= ids.drop_last());
    } else {
        assert(forall|j: int| 0 <= j < ids.len() - 1 ==> #[trigger] ids.drop_last()[j] == ids[j]);
        lemma_unknown_layer_ignored(ly, ids.drop_last(), i);
        assert(ids.remove(i).drop_last() =~= ids.drop_last().remove(i));
        assert(ids.remove(i).last() == ids.last());
    }
}

/// Reference gaps, index side: when every record declaring `id` names
/// an index the store does not know, `id` is entirely absent from the
/// resolved table.
pub proof fn lemma_unknown_index_excluded(
    records: Seq<InstanceRecord>,
    ix: Map<Seq<char>, Seq<char>>,
    ly: Map<Seq<char>, Map<Seq<char>, Seq<char>>>,
    md: Map<Seq<char>, Map<Seq<char>, Seq<char>>>,
    id: Seq<char>,
)
    requires
        forall|i: int|
            0 <= i < records.len() ==> ((#[trigger] records[i]) is Parsed
                && records[i]->Parsed_0.id@ == id ==> !ix.contains_key(
                records[i]->Parsed_0.index@,
            )),
    ensures
        !resolved_map(records, ix, ly, md).contains_key(id),
    decreases records.len(),
{
    if records.len() > 0 {
        assert(forall|i: int|
            0 <= i < records.len() - 1 ==> #[trigger] records.drop_last()[i] == records[i]);
        lemma_unknown_index_excluded(records.drop_last(), ix, ly, md, id);
    }
}

/// Duplicate ids: the table holds one instance per id, and when record
/// `i` resolves and no later record re-declares its id, the table's
/// entry for that id is exactly record `i`'s resolution.
pub proof fn lemma_duplicate_id_last_wins(
    records: Seq<InstanceRecord>,
    ix: Map<Seq<char>, Seq<char>>,
    ly: Map<Seq<char>, Map<Seq<char>, Seq<char>>>,
    md: Map<Seq<char>, Map<Seq<char>, Seq<char>>>,
    i: int,
)
    requires
        0 <= i < records.len(),
        records[i] is Parsed,
        ix.contains_key(records[i]->Parsed_0.index@),
        forall|j: int|
            i < j < records.len() ==> ((#[trigger] records[j]) is Parsed
                ==> records[j]->Parsed_0.id@ != records[i]->Parsed_0.id@),
    ensures
        resolved_map(records, ix, ly, md).contains_key(records[i]->Parsed_0.id@),
        resolved_map(records, ix, ly, md)[records[i]->Parsed_0.id@] == config_view(
            records[i]->Parsed_0,
            ix,
            ly,
            md,
        ),
    decreases records.len(),
{
    if i < records.len() - 1 {
        assert(forall|j: int|
            0 <= j < records.len() - 1 ==> #[trigger] records.drop_last()[j] == records[j]);
        lemma_duplicate_id_last_wins(records.drop_last(), ix, ly, md, i);
    }
}

/// One manage entry's resolved content: its instances, its mod store,
/// and its feature flags.
pub struct SugarCubeInfo {
    pub name: Option<String>,
    pub instances: Dict<String, SugarCubeInstance>,
    pub mods: Dict<String, Dict<String, String>>,
    pub use_mods: bool,
    pub use_save_sync_mod: bool,
}

pub struct SugarCubeInfoV {
    pub name: Option<Seq<char>>,
    pub instances: Map<Seq<char>, SugarCubeInstanceV>,
    pub mods: Map<Seq<char>, Map<Seq<char>, Seq<char>>>,
    pub use_mods: bool,
    pub use_save_sync_mod: bool,
}

impl View for SugarCubeInfo {
    type V = SugarCubeInfoV;

    open spec fn view(&self) -> SugarCubeInfoV {
        SugarCubeInfoV {
            name: self.name.deep_view(),
            instances: self.instances@,
            mods: self.mods@,
            use_mods: self.use_mods,
            use_save_sync_mod: self.use_save_sync_mod,
        }
    }
}

/// Why no mod list could be produced.
#[derive(Debug)]
pub enum ModListError {
    Disabled,
    UnknownInstance,
}

/// The address a resolved mod reference is served under.
pub open spec fn mod_url(manage_id: Seq<char>, mod_id: Seq<char>, sub_id: Seq<char>) -> Seq<char> {
    "/repo/sc/mod/"@ + manage_id + seq!['/'] + mod_id + seq!['/'] + sub_id
}

/// The well-known address of the bundled save-sync integration payload.
pub open spec fn save_sync_url(manage_id: Seq<char>) -> Seq<char> {
    "/sc/mod/"@ + manage_id + "/save-sync-integration/0"@
}

/// Whether `u` is the address of one of the entry's resolved mod
/// references.
pub open spec fn lists_mod_of(
    refs: Map<(Seq<char>, Seq<char>), Seq<char>>,
    manage_id: Seq<char>,
    u: Seq<char>,
) -> bool {
    exists|k: (Seq<char>, Seq<char>)|
        #[trigger] refs.contains_key(k) && u == mod_url(manage_id, k.0, k.1)
}

impl SugarCubeInfo {
    pub fn get_instance(&self, id: &str) -> (r: Option<&SugarCubeInstance>)
        ensures
            match r {
                Some(inst) => self@.instances.contains_key(id@) && inst@ == self@.instances[id@],
                None => !self@.instances.contains_key(id@),
            },
    {
        self.instances.get(&id.to_owned())
    }

    pub fn get_mod(&self, mod_id: &str, mod_sub_id: &str) -> (r: Option<&String>)
        ensures
            match r {
                Some(location) => self@.mods.contains_key(mod_id@) && self@.mods[
                    mod_id@
                ].contains_key(mod_sub_id@) && location@ == self@.mods[mod_id@][mod_sub_id@],
                None => !(self@.mods.contains_key(mod_id@) && self@.mods[mod_id@].contains_key(
                    mod_sub_id@,
                )),
            },
    {
        match self.mods.get(&mod_id.to_owned()) {
            None => None,
            Some(subs) => subs.get(&mod_sub_id.to_owned()),
        }
    }

    /// The mod list an instance's client fetches: one address per
    /// resolved mod reference, and, when the save-sync integration flag
    /// is set, the bundled integration payload's address at the end.
    #[verifier::loop_isolation(false)]
    pub fn generate_mod_list(&self, instance_id: &str, manage_id: &str) -> (r: Result<
        Vec<String>,
        ModListError,
    >)
        ensures
            match r {
                Ok(urls) => {
                    let refs = self@.instances[instance_id@].mods_ref;
                    let extra: int = if self.use_save_sync_mod {
                        1int
                    } else {
                        0int
                    };
                    &&& self.use_mods
                    &&& self@.instances.contains_key(instance_id@)
                    &&& urls@.len() == refs.dom().len() + extra
                    &&& forall|t: int|
                        0 <= t < refs.dom().len() ==> lists_mod_of(
                            refs,
                            manage_id@,
                            (#[trigger] urls@[t])@,
                        )
                    &&& forall|k: (Seq<char>, Seq<char>)|
                        #[trigger] refs.contains_key(k) ==> exists|t: int|
                            0 <= t < refs.dom().len() && (#[trigger] urls@[t])@ == mod_url(
                                manage_id@,
                                k.0,
                                k.1,
                            )
                    &&& self.use_save_sync_mod ==> urls@.last()@ == save_sync_url(manage_id@)
                },
                Err(ModListError::Disabled) => !self.use_mods,
                Err(ModListError::UnknownInstance) => self.use_mods
                    && !self@.instances.contains_key(instance_id@),
            },
    {
        if !self.use_mods {
            return Err(ModListError::Disabled);
        }
        let instance = match self.get_instance(instance_id) {
            Some(instance) => instance,
            None => {
                return Err(ModListError::UnknownInstance);
            },
        };
        let es = instance.mods_ref.iter();
        let ghost refs = self@.instances[instance_id@].mods_ref;
        proof {
            reveal_strlit("/");
            assert("/"@ =~= seq!['/']);
        }
        let mut urls: Vec<String> = Vec::new();
        let mut t: usize = 0;
        while t < es.len()
            invariant
                t <= es@.len(),
                urls@.len() == t,
                forall|s: int|
                    0 <= s < t ==> (#[trigger] urls@[s])@ == mod_url(
                        manage_id@,
                        es@[s].0.0@,
                        es@[s].0.1@,
                    ),
            decreases es@.len() - t,
        {
            let mut url = "/repo/sc/mod/".to_owned();
            url.append(manage_id);
            url.append("/");
            url.append(es[t].0.0.as_str());
            url.append("/");
            url.append(es[t].0.1.as_str());
            proof {
                assert(url@ =~= mod_url(manage_id@, es@[t as int].0.0@, es@[t as int].0.1@));
            }
            urls.push(url);
            t += 1;
        }
        let ghost base = urls@;
        if self.use_save_sync_mod {
            let mut url = "/sc/mod/".to_owned();
            url.append(manage_id);
            url.append("/save-sync-integration/0");
            proof {
                assert(url@ =~= save_sync_url(manage_id@));
            }
            urls.push(url);
        }
        proof {
            assert(forall|s: int| 0 <= s < base.len() ==> urls@[s] == base[s]);
        }
        assert forall|s: int| 0 <= s < refs.dom().len() implies lists_mod_of(
            refs,
            manage_id@,
            (#[trigger] urls@[s])@,
        ) by {
            lemma_map_of_contains(es@, s);
            let k = es@[s].0@;
            assert(refs.contains_key(k) && urls@[s]@ == mod_url(manage_id@, k.0, k.1));
        }
        assert forall|k: (Seq<char>, Seq<char>)| #[trigger] refs.contains_key(k) implies exists|
            s: int,
        |
            0 <= s < refs.dom().len() && (#[trigger] urls@[s])@ == mod_url(
                manage_id@,
                k.0,
                k.1,
            ) by {
            lemma_map_of_index_of(es@, k);
            let s = choose|s: int| 0 <= s < es@.len() && (#[trigger] es@[s]).0@ == k;
            assert(urls@[s]@ == mod_url(manage_id@, k.0, k.1));
        }
        Ok(urls)
    }
}

/// Builds one manage entry's resolved content from its stores and its
/// discovered records.  When the entry does not use mods, the mod store
/// is discarded and every mod reference goes unresolved.
pub fn create_sc_info(
    name: Option<String>,
    use_mods: bool,
    use_save_sync_mod: bool,
    indexes: &Dict<String, String>,
    layers: &Dict<String, MapFileSystem>,
    mods: Dict<String, Dict<String, String>>,
    records: &Vec<InstanceRecord>,
) -> (r: Result<SugarCubeInfo, SetupError>)
    ensures
        match r {
            Ok(info) => {
                &&& first_malformed(records@) is None
                &&& info@.name == name.deep_view()
                &&& info.use_mods == use_mods
                &&& info.use_save_sync_mod == use_save_sync_mod
                &&& info.mods@ == if use_mods {
                    mods@
                } else {
                    Map::<Seq<char>, Map<Seq<char>, Seq<char>>>::empty()
                }
                &&& info.instances@ == resolved_map(records@, indexes@, layers@, info.mods@)
            },
            Err(e) => e matches SetupError::MalformedRecord(f) && Some(f@) == first_malformed(
                records@,
            ),
        },
{
    let mods_used: Dict<String, Dict<String, String>> = if use_mods {
        mods
    } else {
        Dict::new()
    };
    match create_instances(records, indexes, layers, &mods_used) {
        Ok(instances) => Ok(
            SugarCubeInfo { name, instances, mods: mods_used, use_mods, use_save_sync_mod },
        ),
        Err(e) => Err(e),
    }
}

} // verus!
