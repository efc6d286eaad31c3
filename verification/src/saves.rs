//! Save-sync bookkeeping: access checks, save file names, and the
//! listing of stored saves.
//!
//! Save contents themselves are opaque blobs; reading, writing and
//! deleting them is the transport layer's job.

use vstd::prelude::*;

use crate::paths::{ext_matches, PathHelper};
use crate::sc::SugarCubeInfo;

verus! {

/// An uploaded save: its payload and the alias it is filed under.
pub struct SaveCode {
    code: String,
    alias: String,
}

impl SaveCode {
    pub closed spec fn spec_code(&self) -> Seq<char> {
        self.code@
    }

    pub closed spec fn spec_alias(&self) -> Seq<char> {
        self.alias@
    }

    pub fn new(code: String, alias: String) -> (r: Self)
        ensures
            r.spec_code() == code@,
            r.spec_alias() == alias@,
    {
        SaveCode { code, alias }
    }

    pub fn code(&self) -> (r: &str)
        ensures
            r@ == self.spec_code(),
    {
        self.code.as_str()
    }

    /// The alias a save is filed under; an empty one becomes
    /// `anonymous`.
    pub fn alias(&self) -> (r: String)
        ensures
            r@ == if self.spec_alias().len() == 0 {
                "anonymous"@
            } else {
                self.spec_alias()
            },
    {
        if self.alias.as_str().is_empty() {
            "anonymous".to_owned()
        } else {
            self.alias.clone()
        }
    }
}

/// Why a save-sync request is refused.
#[derive(Debug)]
pub enum SaveAccessError {
    Disabled,
    UnknownInstance,
}

/// Gates every save-sync request: the entry must have both the mod
/// and the save-sync features on, and the instance must exist.
pub fn check_save_access(info: &SugarCubeInfo, instance_id: &str) -> (r: Result<
    (),
    SaveAccessError,
>)
    ensures
        match r {
            Ok(_) => info.use_save_sync_mod && info.use_mods && info@.instances.contains_key(
                instance_id@,
            ),
            Err(SaveAccessError::Disabled) => !(info.use_save_sync_mod && info.use_mods),
            Err(SaveAccessError::UnknownInstance) => info.use_save_sync_mod && info.use_mods
                && !info@.instances.contains_key(instance_id@),
        },
{
    if !info.use_save_sync_mod || !info.use_mods {
        return Err(SaveAccessError::Disabled);
    }
    match info.get_instance(instance_id) {
        Some(_) => Ok(()),
        None => Err(SaveAccessError::UnknownInstance),
    }
}

/// Where an instance's save files live under the content root.
pub fn to_save_path(data_dir: &str, manage_id: &str, instance_id: &str) -> (r: String)
    ensures
        r@ == data_dir@ + seq!['/'] + manage_id@ + seq!['/'] + instance_id@ + seq!['/']
            + "save"@,
{
    proof {
        reveal_strlit("/");
        assert("/"@ =~= seq!['/']);
    }
    let mut p = data_dir.to_owned();
    p.append("/");
    p.append(manage_id);
    p.append("/");
    p.append(instance_id);
    p.append("/");
    p.append("save");
    proof {
        assert(p@ =~= data_dir@ + seq!['/'] + manage_id@ + seq!['/'] + instance_id@ + seq!['/']
            + "save"@);
    }
    p
}

/// The file an uploaded save is stored in: the alias, the upload
/// timestamp, and the save suffix.
pub fn save_file_name(alias: &str, timestamp: &str) -> (r: String)
    ensures
        r@ == alias@ + seq!['@'] + timestamp@ + seq!['.', 's', 'a', 'v', 'e'],
{
    proof {
        reveal_strlit("@");
        reveal_strlit(".save");
        assert("@"@ =~= seq!['@']);
        assert(".save"@ =~= seq!['.', 's', 'a', 'v', 'e']);
    }
    let mut n = alias.to_owned();
    n.append("@");
    n.append(timestamp);
    n.append(".save");
    proof {
        assert(n@ =~= alias@ + seq!['@'] + timestamp@ + seq!['.', 's', 'a', 'v', 'e']);
    }
    n
}

/// Characters the listing treats as blank: the `White_Space` set that
/// `str::trim` removes.
pub open spec fn is_space(c: char) -> bool {
    let x = c as u32;
    (9 <= x && x <= 13) || x == 32 || x == 0x85 || x == 0xA0 || x == 0x1680 || (0x2000 <= x && x
        <= 0x200A) || x == 0x2028 || x == 0x2029 || x == 0x202F || x == 0x205F || x == 0x3000
}

pub open spec fn is_blank(s: Seq<char>) -> bool {
    forall|i: int| 0 <= i < s.len() ==> is_space(#[trigger] s[i])
}

/// Whether a file name ends in the save suffix, exactly.
pub open spec fn has_save_suffix(name: Seq<char>) -> bool {
    name.len() >= 5 && name.subrange(name.len() - 5, name.len() as int) =~= seq![
        '.',
        's',
        'a',
        'v',
        'e',
    ]
}

/// The id a stored save is listed under: its file name without the
/// exact save suffix, empty (and so never listed) otherwise.
pub open spec fn save_stem(name: Seq<char>) -> Seq<char> {
    if has_save_suffix(name) {
        name.take(name.len() - 5)
    } else {
        Seq::empty()
    }
}

/// The ids listed for a save directory: every save file's stem, in
/// directory order, blank stems dropped.
pub open spec fn save_names(files: Seq<String>) -> Seq<Seq<char>>
    decreases files.len(),
{
    if files.len() == 0 {
        Seq::empty()
    } else {
        let r = save_names(files.drop_last());
        let f = files.last()@;
        if ext_matches(f, "save"@) && !is_blank(save_stem(f)) {
            r.push(save_stem(f))
        } else {
            r
        }
    }
}

fn is_blank_str(s: &str) -> (r: bool)
    ensures
        r == is_blank(s@),
{
    let n = s.unicode_len();
    let mut i: usize = 0;
    while i < n
        invariant
            n == s@.len(),
            i <= n,
            forall|j: int| 0 <= j < i ==> is_space(#[trigger] s@[j]),
        decreases n - i,
    {
        let c = s.get_char(i);
        let x = c as u32;
        let blank = (9 <= x && x <= 13) || x == 32 || x == 0x85 || x == 0xA0 || x == 0x1680 || (
        0x2000 <= x && x <= 0x200A) || x == 0x2028 || x == 0x2029 || x == 0x202F || x == 0x205F
            || x == 0x3000;
        if !blank {
            return false;
        }
        i += 1;
    }
    true
}

/// Lists the save ids of a directory from its file names.
#[verifier::loop_isolation(false)]
pub fn list_save_names(files: &Vec<String>) -> (r: Vec<String>)
    ensures
        r@.len() == save_names(files@).len(),
        forall|i: int| 0 <= i < r@.len() ==> (#[trigger] r@[i])@ =~= save_names(files@)[i],
{
    let mut out: Vec<String> = Vec::new();
    let mut i: usize = 0;
    while i < files.len()
        invariant
            i <= files@.len(),
            out@.len() == save_names(files@.take(i as int)).len(),
            forall|j: int|
                0 <= j < out@.len() ==> (#[trigger] out@[j])@ =~= save_names(
                    files@.take(i as int),
                )[j],
        decreases files@.len() - i,
    {
        proof {
            assert(files@.take(i + 1).drop_last() =~= files@.take(i as int));
            assert(files@.take(i + 1).last() == files@[i as int]);
        }
        let fs = files[i].as_str();
        if fs.extension_eq("save") {
            let n = fs.unicode_len();
            if n >= 5 && fs.get_char(n - 5) == '.' && fs.get_char(n - 4) == 's' && fs.get_char(
                n - 3,
            ) == 'a' && fs.get_char(n - 2) == 'v' && fs.get_char(n - 1) == 'e' {
                proof {
                    assert(fs@.subrange(n - 5, n as int) =~= seq!['.', 's', 'a', 'v', 'e']);
                    assert(fs@.subrange(0, n - 5) =~= fs@.take(n - 5));
                }
                let stem = fs.substring_char(0, n - 5);
                if !is_blank_str(stem) {
                    out.push(stem.to_owned());
                }
            } else {
                proof {
                    if has_save_suffix(fs@) {
                        assert(fs@.subrange(n - 5, n as int)[0] == fs@[n - 5]);
                        assert(fs@.subrange(n - 5, n as int)[1] == fs@[n - 4]);
                        assert(fs@.subrange(n - 5, n as int)[2] == fs@[n - 3]);
                        assert(fs@.subrange(n - 5, n as int)[3] == fs@[n - 2]);
                        assert(fs@.subrange(n - 5, n as int)[4] == fs@[n - 1]);
                    }
                }
            }
        }
        i += 1;
    }
    proof {
        assert(files@.take(files@.len() as int) =~= files@);
    }
    out
}

} // verus!
