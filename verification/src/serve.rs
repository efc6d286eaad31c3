//! Request-side helpers: the served content type and the file size
//! cap.
//!
//! Reading the backing bytes and assembling responses is the transport
//! layer's job; these helpers decide everything about a lookup that is
//! not I/O.

use vstd::prelude::*;

use crate::mfs::FileNode;
use crate::paths::file_name_of;

verus! {

/// What the content-type table yields for a file name.
pub uninterp spec fn mime_of(name: Seq<char>) -> Seq<char>;

/// Relies on `mime_guess::from_path` and
/// `MimeGuess::first_or_octet_stream`: the content type is computed
/// from the name's extension alone, against a fixed case-insensitive
/// table, with `application/octet-stream` when the table knows
/// nothing.  The extension is taken as the build target's `Path`
/// semantics define it, so the name is a function of its argument
/// within any one build.
#[verifier::external_body]
fn guess_mime(name: &str) -> (r: String)
    ensures
        r@ == mime_of(name@),
{
    mime_guess::from_path(name).first_or_octet_stream().as_ref().to_owned()
}

/// The content type under which a resolved file is served, derived
/// from the backing file's display name.
pub fn content_type_for(node: &FileNode) -> (r: String)
    ensures
        r@ == mime_of(file_name_of(node@)),
{
    let name = node.file_name();
    guess_mime(name.as_str())
}

/// The largest backing file the server hands out whole.
pub const MAX_FILE_SIZE: u64 = 64 * 1024 * 1024;

/// Whether a backing file of `len` bytes may be served; larger files
/// are answered with a size error instead.
pub fn file_size_allowed(len: u64) -> (r: bool)
    ensures
        r == (len <= MAX_FILE_SIZE),
{
    len <= MAX_FILE_SIZE
}

} // verus!
