//! Locating the repository and the VCS that drives it.

use vstd::prelude::*;

use crate::model::BackendKind;

verus! {

/// A directory, and whether it holds the markers of a repository.
#[derive(Debug)]
pub struct Probe {
    pub path: String,
    /// It holds a directory `.jj`.
    pub jj: bool,
    /// It holds `.git`: a directory, or a file in a worktree or a submodule.
    pub git: bool,
}

/// A located repository: its root, and the VCS that drives it.
#[derive(Debug, PartialEq, Eq)]
pub struct RepoLocation {
    pub root: String,
    pub kind: BackendKind,
}

/// The directory is the root of a repository.
pub open spec fn is_root(p: Probe) -> bool {
    p.jj || p.git
}

/// The VCS that drives a root. Where there are both, it is jj.
pub open spec fn kind_at(p: Probe) -> BackendKind {
    if p.jj {
        BackendKind::Jj
    } else {
        BackendKind::Git
    }
}

/// The repository that a directory is in, told from the directory and its ancestors,
/// nearest first: the first that is the root of one. `None` if none is.
pub fn locate(probes: &[Probe]) -> (r: Option<RepoLocation>)
    ensures
        match r {
            Some(found) => exists|i: int|
                0 <= i < probes@.len() && #[trigger] is_root(probes@[i]) && found.root@
                    == probes@[i].path@ && found.kind == kind_at(probes@[i]) && forall|j: int|
                    0 <= j < i ==> !(#[trigger] is_root(probes@[j])),
            None => forall|i: int| 0 <= i < probes@.len() ==> !(#[trigger] is_root(probes@[i])),
        },
{
    let mut i: usize = 0;
    while i < probes.len()
        invariant
            i <= probes@.len(),
            forall|j: int| 0 <= j < i ==> !(#[trigger] is_root(probes@[j])),
        decreases probes@.len() - i,
    {
        let p = &probes[i];
        if p.jj {
            proof {
                assert(is_root(probes@[i as int]));
            }
            return Some(RepoLocation { root: p.path.clone(), kind: BackendKind::Jj });
        }
        if p.git {
            proof {
                assert(is_root(probes@[i as int]));
            }
            return Some(RepoLocation { root: p.path.clone(), kind: BackendKind::Git });
        }
        i = i + 1;
    }
    None
}

/// A directory is a root exactly if it holds one of the two markers; and with that of
/// jj it is driven by jj, whether it holds that of git or not.
pub proof fn jj_drives_where_it_is(p: Probe)
    ensures
        is_root(p) <==> p.jj || p.git,
        p.jj ==> kind_at(p) == BackendKind::Jj,
        !p.jj ==> kind_at(p) == BackendKind::Git,
{
}

} // verus!
