//! Paths as strings with `/` separators, and where the development
//! state of a workspace lives.

use vstd::prelude::*;

use crate::text::{chars_of, concat, owned};

verus! {

/// The environment variable that overrides the workspace root.
pub const WORKSPACE_ROOT_ENV: &'static str = "STIM_WORKSPACE_ROOT";

/// The directory under the workspace root that holds development state.
pub const DEV_ROOT_RELATIVE: &'static str = ".tmp/dev";

/// `part` appended to `base` as `Path::join` does with `/` separators:
/// an absolute `part` replaces `base`; otherwise a separator goes between
/// them unless `base` is empty or already ends with one.
pub open spec fn joined(base: Seq<char>, part: Seq<char>) -> Seq<char> {
    if part.len() > 0 && part[0] == '/' {
        part
    } else if base.len() > 0 && base.last() != '/' {
        base + seq!['/'] + part
    } else {
        base + part
    }
}

/// `base` joined with `part`.
pub fn join_path(base: &str, part: &str) -> (r: String)
    ensures
        r@ == joined(base@, part@),
{
    let p = chars_of(part);
    if p.len() > 0 && p[0] == '/' {
        return owned(part);
    }
    let b = chars_of(base);
    if b.len() > 0 && b[b.len() - 1] != '/' {
        let with_sep = concat(base, "/");
        proof {
            reveal_strlit("/");
            assert("/"@ =~= seq!['/']);
        }
        concat(with_sep.as_str(), part)
    } else {
        concat(base, part)
    }
}

/// Where development state lives under `workspace_root`.
pub fn dev_root(workspace_root: &str) -> (r: String)
    ensures
        r@ == joined(workspace_root@, DEV_ROOT_RELATIVE@),
{
    join_path(workspace_root, DEV_ROOT_RELATIVE)
}

/// What `std::path::Path::parent` gives for the path text `path`, as text.
pub uninterp spec fn path_parent(path: Seq<char>) -> Option<Seq<char>>;

/// `std::path::Path::parent`, as text: the path without its final
/// component, which is always a prefix of the path, and nothing for an
/// empty path.
#[verifier::external_body]
pub(crate) fn parent_of(path: &str) -> (r: Option<String>)
    ensures
        match r {
            Some(p) => path_parent(path@) == Some(p@) && p@.len() <= path@.len() && path@.take(
                p@.len() as int,
            ) == p@,
            None => path_parent(path@) is None,
        },
        path@.len() == 0 ==> r is None,
{
    std::path::Path::new(path).parent().map(|p| p.to_string_lossy().into_owned())
}

/// The directory of a file at `path`: its parent, or `.` when it has
/// none.
pub open spec fn parent_or_current(path: Seq<char>) -> Seq<char> {
    match path_parent(path) {
        Some(p) => p,
        None => "."@,
    }
}

/// The first of `candidates` whose answer in `is_root` is `true`: the
/// nearest ancestor that is a workspace root, when the candidates run from
/// the start directory outwards.
pub fn nearest_workspace_root(candidates: &[String], is_root: &[bool]) -> (r: Option<String>)
    requires
        candidates@.len() == is_root@.len(),
    ensures
        match r {
            Some(root) => exists|i: int|
                0 <= i < candidates@.len() && #[trigger] is_root@[i] && candidates@[i] == root
                    && forall|k: int| 0 <= k < i ==> !is_root@[k],
            None => forall|k: int| 0 <= k < is_root@.len() ==> !#[trigger] is_root@[k],
        },
{
    let mut i: usize = 0;
    while i < candidates.len()
        invariant
            candidates@.len() == is_root@.len(),
            i <= candidates@.len(),
            forall|k: int| 0 <= k < i ==> !#[trigger] is_root@[k],
        decreases candidates@.len() - i,
    {
        if is_root[i] {
            return Some(candidates[i].clone());
        }
        i = i + 1;
    }
    None
}

} // verus!
