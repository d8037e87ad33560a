//! Where the image files that pages refer to are.
use vstd::prelude::*;

use crate::chars::{starts_with_at, to_chars};
use crate::logseq::metadata::{path_under, strip_root_path};

verus! {

/// What `std::path::Path::parent` gives: the path without its last component, if it has one.
pub uninterp spec fn parent_of(path: Seq<char>) -> Option<Seq<char>>;

/// `std::path::Path::parent`, on a path given as text. The contract names the result and
/// claims nothing more of it.
#[verifier::external_body]
fn path_parent(path: &str) -> (r: Option<String>)
    ensures
        match r {
            Some(p) => parent_of(path@) == Some(p@),
            None => parent_of(path@) is None,
        },
{
    match std::path::Path::new(path).parent() {
        Some(p) => Some(p.to_string_lossy().into_owned()),
        None => None,
    }
}

/// What `std::path::Path::join` gives: `rel` resolved against `base`.
pub uninterp spec fn joined_path(base: Seq<char>, rel: Seq<char>) -> Seq<char>;

/// `std::path::Path::join`, on paths given as text. The contract names the result and claims
/// nothing more of it.
#[verifier::external_body]
fn path_join(base: &str, rel: &str) -> (r: String)
    ensures
        r@ == joined_path(base@, rel@),
{
    std::path::Path::new(base).join(rel).to_string_lossy().into_owned()
}

pub open spec fn lit_http() -> Seq<char> {
    seq!['h', 't', 't', 'p']
}

/// The file an image reference in the page at `origin_path` points to, before it is looked up
/// on disk: none for a web address, else the reference taken relative to the page's directory.
pub open spec fn image_source_spec(origin_path: Seq<char>, image_path: Seq<char>) -> Option<Seq<char>> {
    if image_path.len() >= 4 && image_path.subrange(0, 4) == lit_http() {
        None
    } else {
        match parent_of(origin_path) {
            Some(dir) => Some(joined_path(dir, image_path)),
            None => Some(image_path),
        }
    }
}

/// A reference to an image on the web names no file: whatever the page, a reference starting
/// with `http` has no path to look up.
pub proof fn law_web_image_has_no_file(origin_path: Seq<char>, image_path: Seq<char>)
    requires
        image_path.len() >= 4,
        image_path.subrange(0, 4) == lit_http(),
    ensures
        image_source_spec(origin_path, image_path) is None,
{
}

/// The file an image reference points to, relative to the page's directory; none for a web
/// address.
pub fn image_source_path(origin_path: &str, image_path: &str) -> (r: Option<String>)
    ensures
        match image_source_spec(origin_path@, image_path@) {
            Some(p) => r matches Some(q) && q@ == p,
            None => r is None,
        },
{
    let v = to_chars(image_path);
    let http = vec!['h', 't', 't', 'p'];
    assert(http@ =~= lit_http());
    if starts_with_at(&v, 0, v.len(), http.as_slice()) {
        assert forall|k: int| 0 <= k < 4 implies #[trigger] v@.subrange(0, 4)[k] == lit_http()[k] by {
            assert(v@[0 + k] == http@[k]);
        }
        assert(v@.subrange(0, 4) =~= lit_http());
        return None;
    }
    proof {
        if image_path@.len() >= 4 && image_path@.subrange(0, 4) == lit_http() {
            assert(crate::chars::starts_at(v@, 0, v@.len() as int, http@)) by {
                assert forall|k: int| 0 <= k < http@.len() implies #[trigger] v@[0 + k] == http@[k] by {
                    assert(v@[0 + k] == image_path@.subrange(0, 4)[k]);
                }
            }
        }
    }
    match path_parent(origin_path) {
        Some(dir) => Some(path_join(dir.as_str(), image_path)),
        None => Some(image_path.to_owned()),
    }
}

/// An image's path as the image table knows it: relative to the graph's base directory when it
/// lies under it, else as it is.
pub fn image_full_path(base_path: &str, canonical_path: &str) -> (r: String)
    ensures
        r@ == match path_under(canonical_path@, base_path@) {
            Some(p) => p,
            None => canonical_path@,
        },
{
    match strip_root_path(canonical_path, base_path) {
        Some(p) => p,
        None => canonical_path.to_owned(),
    }
}

} // verus!
