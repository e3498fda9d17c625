//! The directed dependency graph of workspace members, restricted to local
//! (intra-workspace) edges. Edges point from a member to its prerequisites.

use vstd::prelude::*;

verus! {

/// A fatal configuration or planning error of a release run.
#[derive(Clone, Debug, PartialEq, Eq)]
pub enum ReleaseError {
    /// Two workspace members share one name.
    DuplicateMember(String),
    /// A local dependency names no workspace member.
    UnknownLocalDependency(String),
    /// The local-dependency relation is cyclic.
    DependencyCycle,
    /// A member manifest cannot hold a version in its `package` slot.
    MalformedManifest(String),
}

/// One workspace member reduced to what graph building reads: its unique
/// name and the names of its local dependencies.
#[derive(Debug)]
pub struct MemberDeps {
    pub name: String,
    pub local_deps: Vec<String>,
}

/// Mapping from each member (by index into `names`) to the indices of its
/// local prerequisites. Closed over workspace membership by construction:
/// every edge target is a member index.
#[derive(Debug)]
pub struct DependencyGraph {
    pub names: Vec<String>,
    pub deps: Vec<Vec<usize>>,
}

impl DependencyGraph {
    /// Number of members.
    pub open spec fn n(self) -> int {
        self.names@.len() as int
    }

    /// Well-formed: one dependency row per member, every edge target in
    /// range, member names pairwise distinct.
    pub open spec fn wf(self) -> bool {
        &&& self.deps@.len() == self.names@.len()
        &&& forall|i: int, j: int|
            0 <= i < self.deps@.len() && 0 <= j < self.deps@[i]@.len()
                ==> (#[trigger] self.deps@[i]@[j]) < self.names@.len()
        &&& forall|i: int, j: int|
            0 <= i < j < self.names@.len() ==> (#[trigger] self.names@[i]@) != (#[trigger] self.names@[j]@)
    }

    /// Member `d` is a local dependency of member `i`.
    pub open spec fn edge(self, i: int, d: int) -> bool {
        &&& 0 <= i < self.deps@.len()
        &&& 0 <= d
        &&& self.deps@[i]@.contains(d as usize)
    }
}

/// Index of the member called `target`, if any.
fn find_name(names: &Vec<String>, target: &String) -> (r: Option<usize>)
    ensures
        match r {
            Some(k) => k < names@.len() && names@[k as int]@ == target@,
            None => forall|k: int| 0 <= k < names@.len() ==> (#[trigger] names@[k]@) != target@,
        },
{
    let mut i: usize = 0;
    while i < names.len()
        invariant
            i <= names@.len(),
            forall|k: int| 0 <= k < i ==> (#[trigger] names@[k]@) != target@,
        decreases names@.len() - i,
    {
        if names[i] == *target {
            return Some(i);
        }
        i += 1;
    }
    None
}

/// Builds the dependency graph from each member's name and local-dependency
/// names. Fails iff two members share a name, or some local dependency is
/// not itself a workspace member (the graph must be closed over membership).
pub fn build_graph(members: &Vec<MemberDeps>) -> (r: Result<DependencyGraph, ReleaseError>)
    ensures
        match r {
            Ok(g) => {
                &&& g.wf()
                &&& g.names@.len() == members@.len()
                &&& forall|i: int|
                    0 <= i < members@.len() ==> (#[trigger] g.names@[i]@) == members@[i].name@
                &&& forall|i: int, j: int|
                    0 <= i < members@.len() && 0 <= j < members@[i].local_deps@.len()
                        ==> exists|d: int|
                            0 <= d < members@.len()
                            && (#[trigger] members@[i].local_deps@[j]@) == members@[d].name@
                &&& forall|i: int, d: int|
                    0 <= i < members@.len() && 0 <= d < members@.len()
                        ==> (#[trigger] g.edge(i, d) <==> exists|j: int|
                            0 <= j < members@[i].local_deps@.len()
                            && (#[trigger] members@[i].local_deps@[j]@) == members@[d].name@)
            },
            Err(e) => match e {
                ReleaseError::DuplicateMember(nm) => exists|i: int, j: int|
                    0 <= i < j < members@.len()
                    && (#[trigger] members@[i].name@) == (#[trigger] members@[j].name@)
                    && members@[i].name@ == nm@,
                ReleaseError::UnknownLocalDependency(nm) => {
                    &&& exists|i: int, j: int|
                        0 <= i < members@.len() && 0 <= j < members@[i].local_deps@.len()
                        && (#[trigger] members@[i].local_deps@[j]@) == nm@
                    &&& forall|d: int|
                        0 <= d < members@.len() ==> (#[trigger] members@[d].name@) != nm@
                },
                ReleaseError::DependencyCycle => false,
                ReleaseError::MalformedManifest(_) => false,
            },
        },
{
    let n = members.len();

    // Reject duplicate member names: the publish walk identifies members by name.
    let mut i: usize = 0;
    while i < n
        invariant
            n == members@.len(),
            i <= n,
            forall|a: int, b: int|
                0 <= a < b < n && a < i ==> (#[trigger] members@[a].name@) != (#[trigger] members@[b].name@),
        decreases n - i,
    {
        let mut j: usize = i + 1;
        while j < n
            invariant
                n == members@.len(),
                i < j || i + 1 == j,
                i < n,
                i + 1 <= j <= n,
                forall|b: int| i < b < j ==> (#[trigger] members@[b].name@) != members@[i as int].name@,
            decreases n - j,
        {
            if members[i].name == members[j].name {
                return Err(ReleaseError::DuplicateMember(members[i].name.clone()));
            }
            j += 1;
        }
        i += 1;
    }

    let mut names: Vec<String> = Vec::new();
    let mut i: usize = 0;
    while i < n
        invariant
            n == members@.len(),
            i <= n,
            names@.len() == i,
            forall|k: int| 0 <= k < i ==> (#[trigger] names@[k]@) == members@[k].name@,
        decreases n - i,
    {
        names.push(members[i].name.clone());
        i += 1;
    }

    let mut deps: Vec<Vec<usize>> = Vec::new();
    let mut i: usize = 0;
    while i < n
        invariant
            n == members@.len(),
            i <= n,
            names@.len() == n,
            forall|k: int| 0 <= k < n ==> (#[trigger] names@[k]@) == members@[k].name@,
            forall|a: int, b: int|
                0 <= a < b < n ==> (#[trigger] members@[a].name@) != (#[trigger] members@[b].name@),
            deps@.len() == i,
            forall|k: int, j: int|
                0 <= k < i && 0 <= j < deps@[k]@.len()
                    ==> (#[trigger] deps@[k]@[j]) < n,
            forall|k: int, j: int|
                0 <= k < i && 0 <= j < members@[k].local_deps@.len()
                    ==> deps@[k]@.len() == members@[k].local_deps@.len()
                        && (#[trigger] members@[k].local_deps@[j]@) == members@[deps@[k]@[j] as int].name@,
            forall|k: int| 0 <= k < i ==> (#[trigger] deps@[k]@).len() == members@[k].local_deps@.len(),
        decreases n - i,
    {
        let m = members[i].local_deps.len();
        let mut row: Vec<usize> = Vec::new();
        let mut j: usize = 0;
        while j < m
            invariant
                n == members@.len(),
                i < n,
                m == members@[i as int].local_deps@.len(),
                names@.len() == n,
                forall|k: int| 0 <= k < n ==> (#[trigger] names@[k]@) == members@[k].name@,
                j <= m,
                row@.len() == j,
                forall|jj: int|
                    0 <= jj < j ==> (#[trigger] row@[jj]) < n
                        && members@[i as int].local_deps@[jj]@ == members@[row@[jj] as int].name@,
            decreases m - j,
        {
            match find_name(&names, &members[i].local_deps[j]) {
                Some(k) => {
                    row.push(k);
                },
                None => {
                    let nm = members[i].local_deps[j].clone();
                    proof {
                        assert(0 <= (i as int) < members@.len()
                            && 0 <= (j as int) < members@[i as int].local_deps@.len()
                            && members@[i as int].local_deps@[j as int]@ == nm@);
                        assert forall|d: int| 0 <= d < members@.len()
                            implies (#[trigger] members@[d].name@) != nm@
                        by {
                            assert(names@[d]@ == members@[d].name@);
                        }
                    }
                    return Err(ReleaseError::UnknownLocalDependency(nm));
                },
            }
            j += 1;
        }
        deps.push(row);
        i += 1;
    }

    let g = DependencyGraph { names, deps };
    proof {
        assert forall|i: int, d: int|
            0 <= i < members@.len() && 0 <= d < members@.len()
            implies (g.edge(i, d) <==> exists|j: int|
                0 <= j < members@[i].local_deps@.len()
                && (#[trigger] members@[i].local_deps@[j]@) == members@[d].name@)
        by {
            if g.edge(i, d) {
                let j = choose|j: int| 0 <= j < g.deps@[i]@.len() && g.deps@[i]@[j] == d as usize;
                assert(members@[i].local_deps@[j]@ == members@[d].name@);
            }
            if exists|j: int|
                0 <= j < members@[i].local_deps@.len()
                && (#[trigger] members@[i].local_deps@[j]@) == members@[d].name@
            {
                let j = choose|j: int|
                    0 <= j < members@[i].local_deps@.len()
                    && (#[trigger] members@[i].local_deps@[j]@) == members@[d].name@;
                let dd = g.deps@[i]@[j];
                assert(members@[i].local_deps@[j]@ == members@[dd as int].name@);
                // names are distinct, and member dd and member d share a name
                assert(dd as int == d);
                assert(g.deps@[i]@.contains(d as usize));
            }
        }
    }
    Ok(g)
}

} // verus!
