//! Path strings: file names, extensions, stems, and request-path
//! normalization.
//!
//! All keys of the engine are forward-slash-joined relative paths, so the
//! only path algebra needed is over `/`-separated character sequences.
//! The rules are documented beside each spec function; they follow the
//! usual conventions (the extension is what follows the last `.` of the
//! file name, a leading `.` does not count).

use vstd::prelude::*;

verus! {

/// ASCII lower-casing of a single character's code point.
pub open spec fn lower_code(c: char) -> u32 {
    let x = c as u32;
    if 65 <= x && x <= 90 {
        (x + 32) as u32
    } else {
        x
    }
}

/// Character sequences equal up to ASCII case.
pub open spec fn seq_lower_eq(a: Seq<char>, b: Seq<char>) -> bool {
    a.len() == b.len() && forall|i: int|
        0 <= i < a.len() ==> lower_code(#[trigger] a[i]) == lower_code(b[i])
}

pub fn eq_ignore_ascii_case(a: &str, b: &str) -> (r: bool)
    ensures
        r == seq_lower_eq(a@, b@),
{
    let an = a.unicode_len();
    let bn = b.unicode_len();
    if an != bn {
        return false;
    }
    let mut i: usize = 0;
    while i < an
        invariant
            an == a@.len(),
            bn == b@.len(),
            an == bn,
            i <= an,
            forall|j: int| 0 <= j < i ==> lower_code(#[trigger] a@[j]) == lower_code(b@[j]),
        decreases an - i,
    {
        let ca = a.get_char(i);
        let cb = b.get_char(i);
        let xa = ca as u32;
        let xb = cb as u32;
        let la = if 65 <= xa && xa <= 90 {
            xa + 32
        } else {
            xa
        };
        let lb = if 65 <= xb && xb <= 90 {
            xb + 32
        } else {
            xb
        };
        if la != lb {
            return false;
        }
        i += 1;
    }
    true
}

/// The portion of a path after its last `/`; the whole path when it holds
/// no `/`, empty when it ends with `/`.
pub open spec fn file_name_of(p: Seq<char>) -> Seq<char>
    decreases p.len(),
{
    if p.len() == 0 {
        p
    } else if p.last() == '/' {
        Seq::empty()
    } else {
        file_name_of(p.drop_last()).push(p.last())
    }
}

proof fn lemma_file_name_suffix(p: Seq<char>, cut: int)
    requires
        0 <= cut <= p.len(),
        forall|i: int| cut <= i < p.len() ==> p[i] != '/',
        cut > 0 ==> p[cut - 1] == '/',
    ensures
        file_name_of(p) =~= p.subrange(cut, p.len() as int),
    decreases p.len(),
{
    if p.len() == 0 {
    } else if p.last() == '/' {
        assert(cut == p.len());
    } else {
        assert(cut < p.len());
        lemma_file_name_suffix(p.drop_last(), cut);
        assert(p.drop_last().subrange(cut, p.len() - 1) =~= p.subrange(cut, p.len() - 1));
        assert(p.subrange(cut, p.len() - 1).push(p.last()) =~= p.subrange(cut, p.len() as int));
    }
}

pub fn file_name(s: &str) -> (r: String)
    ensures
        r@ == file_name_of(s@),
{
    let n = s.unicode_len();
    let mut cut: usize = 0;
    let mut i: usize = 0;
    while i < n
        invariant
            n == s@.len(),
            i <= n,
            cut <= i,
            forall|k: int| cut <= k < i ==> s@[k] != '/',
            cut > 0 ==> s@[cut - 1] == '/',
        decreases n - i,
    {
        if s.get_char(i) == '/' {
            cut = i + 1;
        }
        i += 1;
    }
    proof {
        lemma_file_name_suffix(s@, cut as int);
    }
    let tail = s.substring_char(cut, n);
    tail.to_owned()
}

/// The characters after the last `.` of a name, or `None` when the name
/// holds no `.`.
pub open spec fn after_last_dot(f: Seq<char>) -> Option<Seq<char>>
    decreases f.len(),
{
    if f.len() == 0 {
        None
    } else if f.last() == '.' {
        Some(Seq::empty())
    } else {
        match after_last_dot(f.drop_last()) {
            None => None,
            Some(s) => Some(s.push(f.last())),
        }
    }
}

/// The extension of a path: what follows the last `.` of its file name,
/// where a `.` as the file name's first character does not count.
pub open spec fn extension_of(p: Seq<char>) -> Option<Seq<char>> {
    let f = file_name_of(p);
    if f.len() == 0 {
        None
    } else {
        after_last_dot(f.drop_first())
    }
}

/// Whether the path's extension equals `e`, ASCII-case-insensitively;
/// a path without an extension matches nothing.
pub open spec fn ext_matches(p: Seq<char>, e: Seq<char>) -> bool {
    match extension_of(p) {
        None => false,
        Some(x) => seq_lower_eq(x, e),
    }
}

/// The file name with its extension (and the separating `.`) removed.
pub open spec fn stem_of(f: Seq<char>) -> Seq<char> {
    if f.len() == 0 {
        f
    } else {
        match after_last_dot(f.drop_first()) {
            None => f,
            Some(e) => f.take(f.len() - e.len() - 1),
        }
    }
}

proof fn lemma_after_last_dot_none(f: Seq<char>)
    requires
        forall|i: int| 0 <= i < f.len() ==> f[i] != '.',
    ensures
        after_last_dot(f) is None,
    decreases f.len(),
{
    if f.len() > 0 {
        assert(forall|i: int|
            0 <= i < f.drop_last().len() ==> #[trigger] f.drop_last()[i] == f[i]);
        lemma_after_last_dot_none(f.drop_last());
    }
}

proof fn lemma_after_last_dot_at(f: Seq<char>, d: int)
    requires
        0 <= d < f.len(),
        f[d] == '.',
        forall|i: int| d < i < f.len() ==> f[i] != '.',
    ensures
        after_last_dot(f) matches Some(x) && x =~= f.subrange(d + 1, f.len() as int),
    decreases f.len(),
{
    if d == f.len() - 1 {
        assert(f.last() == '.');
    } else {
        assert(forall|i: int|
            0 <= i < f.drop_last().len() ==> #[trigger] f.drop_last()[i] == f[i]);
        lemma_after_last_dot_at(f.drop_last(), d);
        assert(f.drop_last().subrange(d + 1, f.len() - 1) =~= f.subrange(d + 1, f.len() - 1));
        assert(f.subrange(d + 1, f.len() - 1).push(f.last()) =~= f.subrange(
            d + 1,
            f.len() as int,
        ));
    }
}

/// The index of the last `.` of `fs` at position 1 or later, if any.
/// A found index comes with what `after_last_dot` yields past it.
fn last_dot_after_first(fs: &str) -> (r: Option<usize>)
    requires
        fs@.len() >= 1,
    ensures
        match r {
            None => after_last_dot(fs@.drop_first()) is None,
            Some(d) => {
                &&& 1 <= d < fs@.len()
                &&& fs@[d as int] == '.'
                &&& (after_last_dot(fs@.drop_first()) matches Some(x) && x =~= fs@.subrange(
                    d + 1,
                    fs@.len() as int,
                ))
            },
        },
{
    let n = fs.unicode_len();
    let mut d: usize = 0;
    let mut found = false;
    let mut i: usize = 1;
    while i < n
        invariant
            n == fs@.len(),
            n >= 1,
            1 <= i <= n,
            found ==> 1 <= d < i && fs@[d as int] == '.',
            found ==> forall|k: int| d < k < i ==> fs@[k] != '.',
            !found ==> forall|k: int| 1 <= k < i ==> fs@[k] != '.',
        decreases n - i,
    {
        if fs.get_char(i) == '.' {
            d = i;
            found = true;
        }
        i += 1;
    }
    let ghost g = fs@.drop_first();
    proof {
        assert(g =~= fs@.subrange(1, fs@.len() as int));
        assert(forall|k: int| 0 <= k < g.len() ==> #[trigger] g[k] == fs@[k + 1]);
    }
    if found {
        proof {
            lemma_after_last_dot_at(g, d - 1);
            assert(g.subrange(d as int, g.len() as int) =~= fs@.subrange(
                d + 1,
                fs@.len() as int,
            ));
        }
        Some(d)
    } else {
        proof {
            lemma_after_last_dot_none(g);
        }
        None
    }
}

/// The id under which a scanned document file is stored: its file name
/// without the extension.
pub fn file_stem(s: &str) -> (r: String)
    ensures
        r@ == stem_of(file_name_of(s@)),
{
    let f = file_name(s);
    let fs = f.as_str();
    let n = fs.unicode_len();
    if n == 0 {
        return f;
    }
    match last_dot_after_first(fs) {
        None => f,
        Some(d) => {
            proof {
                assert(fs@.subrange(0, d as int) =~= fs@.take(d as int));
            }
            let stem = fs.substring_char(0, d);
            stem.to_owned()
        },
    }
}

/// Path helpers shared by every store scanner: extension tests against
/// one or several candidates, ASCII-case-insensitive.
pub trait PathHelper: View<V = Seq<char>> {
    fn extension_eq(&self, ext: &str) -> (r: bool)
        ensures
            r == ext_matches(self@, ext@),
    ;

    fn extension_eqs(&self, exts: &[&str]) -> (r: bool)
        ensures
            r == exists|k: int| 0 <= k < exts@.len() && ext_matches(self@, #[trigger] exts@[k]@),
    ;
}

impl PathHelper for str {
    fn extension_eq(&self, ext: &str) -> (r: bool) {
        let f = file_name(self);
        let fs = f.as_str();
        let n = fs.unicode_len();
        if n == 0 {
            return false;
        }
        match last_dot_after_first(fs) {
            None => false,
            Some(d) => {
                let found_ext = fs.substring_char(d + 1, n);
                eq_ignore_ascii_case(found_ext, ext)
            },
        }
    }

    fn extension_eqs(&self, exts: &[&str]) -> (r: bool) {
        let mut k: usize = 0;
        while k < exts.len()
            invariant
                k <= exts@.len(),
                forall|j: int| 0 <= j < k ==> !ext_matches(self@, #[trigger] exts@[j]@),
            decreases exts@.len() - k,
        {
            if self.extension_eq(exts[k]) {
                return true;
            }
            k += 1;
        }
        false
    }
}

/// The pieces of `s` between `/` separators, empty pieces included, as
/// `str::split('/')` yields them.
pub open spec fn split_slash(s: Seq<char>) -> Seq<Seq<char>>
    decreases s.len(),
{
    if s.len() == 0 {
        seq![Seq::<char>::empty()]
    } else if s.last() == '/' {
        split_slash(s.drop_last()).push(Seq::empty())
    } else {
        let r = split_slash(s.drop_last());
        r.update(r.len() - 1, r.last().push(s.last()))
    }
}

pub proof fn lemma_split_slash_nonempty(s: Seq<char>)
    ensures
        split_slash(s).len() >= 1,
    decreases s.len(),
{
    if s.len() > 0 {
        lemma_split_slash_nonempty(s.drop_last());
    }
}

/// Components skipped during request normalization: empty ones and `.`.
pub open spec fn dropped_component(c: Seq<char>) -> bool {
    c.len() == 0 || c =~= seq!['.']
}

/// A parent-directory component, which rejects the whole request.
pub open spec fn is_traversal(c: Seq<char>) -> bool {
    c =~= seq!['.', '.']
}

/// Whether any component of the request path walks upward.
pub open spec fn has_traversal(s: Seq<char>) -> bool {
    exists|i: int| 0 <= i < split_slash(s).len() && is_traversal(#[trigger] split_slash(s)[i])
}

/// The components of a request path after dropping empty and `.` ones.
pub open spec fn kept_components(raw: Seq<Seq<char>>) -> Seq<Seq<char>>
    decreases raw.len(),
{
    if raw.len() == 0 {
        Seq::empty()
    } else if dropped_component(raw.last()) {
        kept_components(raw.drop_last())
    } else {
        kept_components(raw.drop_last()).push(raw.last())
    }
}

pub open spec fn request_components(s: Seq<char>) -> Seq<Seq<char>> {
    kept_components(split_slash(s))
}

/// Inserting a `.` or empty component anywhere in a request leaves its
/// normalized components unchanged: `a/./b` resolves as `a/b` does.
pub proof fn lemma_dropped_component_ignored(raw: Seq<Seq<char>>, i: int, c: Seq<char>)
    requires
        0 <= i <= raw.len(),
        dropped_component(c),
    ensures
        kept_components(raw.insert(i, c)) == kept_components(raw),
    decreases raw.len(),
{
    let grown = raw.insert(i, c);
    if i == raw.len() {
        assert(grown.drop_last() =~= raw);
        assert(grown.last() == c);
    } else {
        assert(grown.last() == raw.last());
        assert(grown.drop_last() =~= raw.drop_last().insert(i, c));
        lemma_dropped_component_ignored(raw.drop_last(), i, c);
    }
}

/// All pieces of `s` split on `/`, empties included.
#[verifier::loop_isolation(false)]
fn split_all(s: &str) -> (r: Vec<String>)
    ensures
        r@.len() == split_slash(s@).len(),
        forall|j: int| 0 <= j < r@.len() ==> (#[trigger] r@[j])@ =~= split_slash(s@)[j],
{
    let n = s.unicode_len();
    let mut comps: Vec<String> = Vec::new();
    let mut start: usize = 0;
    let mut i: usize = 0;
    while i < n
        invariant
            n == s@.len(),
            start <= i <= n,
            split_slash(s@.take(i as int)).len() == comps@.len() + 1,
            forall|j: int|
                0 <= j < comps@.len() ==> (#[trigger] comps@[j])@ =~= split_slash(
                    s@.take(i as int),
                )[j],
            split_slash(s@.take(i as int)).last() =~= s@.subrange(start as int, i as int),
        decreases n - i,
    {
        proof {
            assert(s@.take(i + 1).drop_last() =~= s@.take(i as int));
            lemma_split_slash_nonempty(s@.take(i as int));
        }
        if s.get_char(i) == '/' {
            let piece = s.substring_char(start, i);
            comps.push(piece.to_owned());
            start = i + 1;
        } else {
            proof {
                assert(s@.subrange(start as int, i as int).push(s@[i as int]) =~= s@.subrange(
                    start as int,
                    i + 1,
                ));
            }
        }
        i += 1;
    }
    proof {
        assert(s@.take(n as int) =~= s@);
        lemma_split_slash_nonempty(s@);
    }
    let last_piece = s.substring_char(start, n);
    comps.push(last_piece.to_owned());
    comps
}

/// Normalizes a request path for plain-mode serving: splits on `/`,
/// drops empty and `.` components, and rejects the whole request as soon
/// as a `..` component appears, before anything touches a filesystem.
#[verifier::loop_isolation(false)]
pub fn split_request(path: &str) -> (r: Option<Vec<String>>)
    ensures
        match r {
            None => has_traversal(path@),
            Some(v) => {
                &&& !has_traversal(path@)
                &&& v@.len() == request_components(path@).len()
                &&& forall|j: int|
                    0 <= j < v@.len() ==> (#[trigger] v@[j])@ =~= request_components(path@)[j]
            },
        },
{
    let raw = split_all(path);
    let dot = ".".to_owned();
    let dotdot = "..".to_owned();
    proof {
        reveal_strlit(".");
        reveal_strlit("..");
        assert(dot@ =~= seq!['.']);
        assert(dotdot@ =~= seq!['.', '.']);
    }
    let ghost rawv = split_slash(path@);
    let mut out: Vec<String> = Vec::new();
    let mut i: usize = 0;
    while i < raw.len()
        invariant
            i <= raw@.len(),
            forall|j: int| 0 <= j < i ==> !is_traversal(#[trigger] rawv[j]),
            out@.len() == kept_components(rawv.take(i as int)).len(),
            forall|j: int|
                0 <= j < out@.len() ==> (#[trigger] out@[j])@ =~= kept_components(
                    rawv.take(i as int),
                )[j],
        decreases raw@.len() - i,
    {
        proof {
            assert(rawv.take(i + 1).drop_last() =~= rawv.take(i as int));
            assert(rawv.take(i + 1).last() == rawv[i as int]);
        }
        let c = &raw[i];
        if <String as PartialEq>::eq(c, &dotdot) {
            proof {
                assert(is_traversal(rawv[i as int]));
            }
            return None;
        }
        if c.as_str().is_empty() || <String as PartialEq>::eq(c, &dot) {
            proof {
                assert(dropped_component(rawv[i as int]));
            }
        } else {
            proof {
                assert(!dropped_component(rawv[i as int]));
            }
            out.push(c.clone());
        }
        i += 1;
    }
    proof {
        assert(rawv.take(rawv.len() as int) =~= rawv);
    }
    Some(out)
}

/// Components joined with `/` into one overlay key.
pub open spec fn joined_components(comps: Seq<Seq<char>>) -> Seq<char>
    decreases comps.len(),
{
    if comps.len() == 0 {
        Seq::empty()
    } else if comps.len() == 1 {
        comps[0]
    } else {
        joined_components(comps.drop_last()) + seq!['/'] + comps.last()
    }
}

/// The overlay key a request path addresses: its components after
/// normalization, slash-joined.
pub open spec fn normalized_key(s: Seq<char>) -> Seq<char> {
    joined_components(request_components(s))
}

/// Normalizes a request path into the overlay's key space: split on
/// `/`, drop empty and `.` components, join with `/`.
#[verifier::loop_isolation(false)]
pub fn normalize_request_key(path: &str) -> (r: String)
    ensures
        r@ == normalized_key(path@),
{
    let raw = split_all(path);
    let dot = ".".to_owned();
    proof {
        reveal_strlit(".");
        assert(dot@ =~= seq!['.']);
        reveal_strlit("/");
        assert("/"@ =~= seq!['/']);
    }
    let ghost rawv = split_slash(path@);
    let mut key = String::new();
    let mut kept: usize = 0;
    let mut i: usize = 0;
    while i < raw.len()
        invariant
            i <= raw@.len(),
            kept <= i,
            kept == kept_components(rawv.take(i as int)).len(),
            key@ == joined_components(kept_components(rawv.take(i as int))),
        decreases raw@.len() - i,
    {
        proof {
            assert(rawv.take(i + 1).drop_last() =~= rawv.take(i as int));
            assert(rawv.take(i + 1).last() == rawv[i as int]);
        }
        let c = &raw[i];
        if c.as_str().is_empty() || <String as PartialEq>::eq(c, &dot) {
            proof {
                assert(dropped_component(rawv[i as int]));
            }
        } else {
            proof {
                assert(!dropped_component(rawv[i as int]));
                let grown = kept_components(rawv.take(i + 1));
                assert(grown.drop_last() =~= kept_components(rawv.take(i as int)));
                if kept == 0 {
                    assert(grown[0] == rawv[i as int]);
                }
            }
            if kept > 0 {
                key.append("/");
            }
            key.append(c.as_str());
            kept += 1;
        }
        i += 1;
    }
    proof {
        assert(rawv.take(rawv.len() as int) =~= rawv);
    }
    key
}

/// The location addressed by a plain-mode request: the root with each
/// kept component appended behind a `/`.
pub open spec fn joined_under(root: Seq<char>, comps: Seq<Seq<char>>) -> Seq<char>
    decreases comps.len(),
{
    if comps.len() == 0 {
        root
    } else {
        joined_under(root, comps.drop_last()) + seq!['/'] + comps.last()
    }
}

/// Resolves a plain-mode request against a root directory.  A `..`
/// component rejects the request with no partial resolution; `.` and
/// empty components are dropped.
#[verifier::loop_isolation(false)]
pub fn resolve_plain_path(root_path: &str, request: &str) -> (r: Option<String>)
    ensures
        match r {
            None => has_traversal(request@),
            Some(p) => !has_traversal(request@) && p@ == joined_under(
                root_path@,
                request_components(request@),
            ),
        },
{
    match split_request(request) {
        None => None,
        Some(comps) => {
            let ghost rc = request_components(request@);
            let mut actual = root_path.to_owned();
            proof {
                reveal_strlit("/");
                assert("/"@ =~= seq!['/']);
            }
            let mut i: usize = 0;
            while i < comps.len()
                invariant
                    i <= comps@.len(),
                    comps@.len() == rc.len(),
                    forall|j: int| 0 <= j < comps@.len() ==> (#[trigger] comps@[j])@ =~= rc[j],
                    actual@ == joined_under(root_path@, rc.take(i as int)),
                decreases comps@.len() - i,
            {
                proof {
                    assert(rc.take(i + 1).drop_last() =~= rc.take(i as int));
                    assert(rc.take(i + 1).last() == rc[i as int]);
                }
                actual.append("/");
                actual.append(comps[i].as_str());
                i += 1;
            }
            proof {
                assert(rc.take(rc.len() as int) =~= rc);
            }
            Some(actual)
        },
    }
}

} // verus!
