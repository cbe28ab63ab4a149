//! Where a namespace keeps its logs, locks and bridges.

use vstd::prelude::*;

use crate::identity::{namespace_or_default, namespace_or_default_spec};
use crate::platform::paths::{join_path, joined};
use crate::text::concat;

verus! {

/// The directories of one namespace under a development root.
#[derive(Debug, Clone, PartialEq, Eq)]
pub struct SidecarLayout {
    pub namespace: String,
    pub root: String,
    pub logs_root: String,
    pub locks_root: String,
    pub bridges_root: String,
}

pub open spec fn logs_dir() -> Seq<char> {
    seq!['l', 'o', 'g', 's']
}

pub open spec fn locks_dir() -> Seq<char> {
    seq!['l', 'o', 'c', 'k', 's']
}

pub open spec fn bridges_dir() -> Seq<char> {
    seq!['b', 'r', 'i', 'd', 'g', 'e', 's']
}

pub open spec fn latest_log() -> Seq<char> {
    seq!['l', 'a', 't', 'e', 's', 't', '.', 'l', 'o', 'g']
}

pub open spec fn lock_suffix() -> Seq<char> {
    seq!['.', 'l', 'o', 'c', 'k']
}

/// The layout of `namespace` (or the default one) under `dev_root`.
pub open spec fn layout_spec(dev_root: Seq<char>, namespace: Option<Seq<char>>) -> (
    Seq<char>,
    Seq<char>,
    Seq<char>,
    Seq<char>,
    Seq<char>,
) {
    let ns = namespace_or_default_spec(namespace);
    let root = joined(dev_root, ns);
    (ns, root, joined(root, logs_dir()), joined(root, locks_dir()), joined(root, bridges_dir()))
}

impl SidecarLayout {
    pub open spec fn fields(self) -> (Seq<char>, Seq<char>, Seq<char>, Seq<char>, Seq<char>) {
        (self.namespace@, self.root@, self.logs_root@, self.locks_root@, self.bridges_root@)
    }

    /// The layout of `namespace`, or of the default namespace, under
    /// `dev_root`.
    pub fn new(dev_root: &str, namespace: Option<&str>) -> (r: Self)
        ensures
            r.fields() == layout_spec(
                dev_root@,
                match namespace {
                    Some(n) => Some(n@),
                    None => None,
                },
            ),
    {
        let namespace = namespace_or_default(namespace);
        let root = join_path(dev_root, namespace.as_str());
        proof {
            reveal_strlit("logs");
            reveal_strlit("locks");
            reveal_strlit("bridges");
            assert("logs"@ =~= logs_dir());
            assert("locks"@ =~= locks_dir());
            assert("bridges"@ =~= bridges_dir());
        }
        let logs_root = join_path(root.as_str(), "logs");
        let locks_root = join_path(root.as_str(), "locks");
        let bridges_root = join_path(root.as_str(), "bridges");
        SidecarLayout { namespace, logs_root, locks_root, bridges_root, root }
    }

    /// The latest log of `app`: `<logs>/<app>/latest.log`.
    pub fn app_log_path(&self, app: &str) -> (r: String)
        ensures
            r@ == joined(joined(self.logs_root@, app@), latest_log()),
    {
        let dir = join_path(self.logs_root.as_str(), app);
        proof {
            reveal_strlit("latest.log");
            assert("latest.log"@ =~= latest_log());
        }
        join_path(dir.as_str(), "latest.log")
    }

    /// The lock file of `app`: `<locks>/<app>.lock`.
    pub fn app_lock_path(&self, app: &str) -> (r: String)
        ensures
            r@ == joined(self.locks_root@, app@ + lock_suffix()),
    {
        let name = concat(app, ".lock");
        proof {
            reveal_strlit(".lock");
            assert(".lock"@ =~= lock_suffix());
        }
        join_path(self.locks_root.as_str(), name.as_str())
    }
}

} // verus!
