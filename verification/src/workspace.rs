//! One release step over the whole workspace: rewrite every member manifest
//! to the target version, collect the local-dependency edges, and build the
//! dependency graph. Every manifest is rewritten before any publish is
//! attempted.

use vstd::prelude::*;
use crate::graph::{DependencyGraph, MemberDeps, ReleaseError, build_graph};
use crate::manifest::{
    doc_dep_names, doc_dep_version, doc_local_deps, doc_package_ok, doc_self_version,
    rewrite_manifest,
};
use crate::version::{Version, version_chars};

verus! {

/// One workspace member: its unique name and its manifest document.
#[derive(Debug)]
pub struct Member {
    pub name: String,
    pub doc: toml_edit::DocumentMut,
}

/// Rewrites every member manifest for the release — the member's own
/// version and every local (path) dependency pinned to `version`, nothing
/// else touched — and builds the dependency graph of the local edges.
/// Fails iff some manifest cannot hold a version, two members share a name,
/// or a local dependency is not itself a member.
#[verifier::rlimit(100)]
pub fn update_member_deps(members: Vec<Member>, version: &Version) -> (r: Result<
    (Vec<Member>, DependencyGraph),
    ReleaseError,
>)
    ensures
        ({
            let vs = version_chars(
                version.major as nat,
                version.minor as nat,
                version.patch as nat,
            );
            match r {
                Ok((out, g)) => {
                    &&& out@.len() == members@.len()
                    &&& forall|i: int|
                        0 <= i < members@.len() ==> (#[trigger] out@[i].name@) == members@[i].name@
                    &&& forall|i: int|
                        0 <= i < members@.len() ==> doc_self_version(#[trigger] out@[i].doc)
                            == Some(vs)
                    &&& forall|i: int, n: Seq<char>|
                        0 <= i < members@.len() && doc_local_deps(members@[i].doc).contains(n)
                            ==> (#[trigger] doc_dep_version(out@[i].doc, n)) == Some(vs)
                    &&& forall|i: int, n: Seq<char>|
                        0 <= i < members@.len() && !doc_local_deps(members@[i].doc).contains(n)
                            ==> (#[trigger] doc_dep_version(out@[i].doc, n)) == doc_dep_version(
                            members@[i].doc,
                            n,
                        )
                    &&& forall|i: int|
                        0 <= i < members@.len() ==> doc_local_deps(#[trigger] out@[i].doc)
                            == doc_local_deps(members@[i].doc)
                    &&& forall|i: int|
                        0 <= i < members@.len() ==> doc_dep_names(#[trigger] out@[i].doc)
                            == doc_dep_names(members@[i].doc)
                    &&& g.wf()
                    &&& g.names@.len() == members@.len()
                    &&& forall|i: int|
                        0 <= i < members@.len() ==> (#[trigger] g.names@[i]@) == members@[i].name@
                    &&& forall|i: int, d: int|
                        0 <= i < members@.len() && 0 <= d < members@.len() ==> ((#[trigger] g.edge(
                            i,
                            d,
                        )) <==> doc_local_deps(members@[i].doc).contains(members@[d].name@))
                },
                Err(e) => match e {
                    ReleaseError::MalformedManifest(nm) => exists|i: int|
                        0 <= i < members@.len() && (#[trigger] members@[i].name@) == nm@
                            && !doc_package_ok(members@[i].doc),
                    ReleaseError::DuplicateMember(nm) => exists|i: int, j: int|
                        0 <= i < j < members@.len() && (#[trigger] members@[i].name@)
                            == (#[trigger] members@[j].name@) && members@[i].name@ == nm@,
                    ReleaseError::UnknownLocalDependency(nm) => {
                        &&& exists|i: int|
                            0 <= i < members@.len() && doc_local_deps(
                                #[trigger] members@[i].doc,
                            ).contains(nm@)
                        &&& forall|d: int|
                            0 <= d < members@.len() ==> (#[trigger] members@[d].name@) != nm@
                    },
                    ReleaseError::DependencyCycle => false,
                },
            }
        }),
{
    let ghost msv = members@;
    let ghost vs = version_chars(version.major as nat, version.minor as nat, version.patch as nat);
    let mut rest = members;
    let mut out: Vec<Member> = Vec::new();
    let mut deps_list: Vec<MemberDeps> = Vec::new();
    while rest.len() > 0
        invariant
            msv == members@,
            out@.len() + rest@.len() == msv.len(),
            deps_list@.len() == out@.len(),
            rest@ == msv.skip(out@.len() as int),
            vs == version_chars(version.major as nat, version.minor as nat, version.patch as nat),
            forall|i: int|
                0 <= i < out@.len() ==> {
                    &&& (#[trigger] out@[i].name@) == msv[i].name@
                    &&& doc_self_version(out@[i].doc) == Some(vs)
                    &&& forall|n: Seq<char>|
                        doc_local_deps(msv[i].doc).contains(n) ==> doc_dep_version(out@[i].doc, n)
                            == Some(vs)
                    &&& forall|n: Seq<char>|
                        !doc_local_deps(msv[i].doc).contains(n) ==> doc_dep_version(out@[i].doc, n)
                            == doc_dep_version(msv[i].doc, n)
                    &&& doc_local_deps(out@[i].doc) == doc_local_deps(msv[i].doc)
                    &&& doc_dep_names(out@[i].doc) == doc_dep_names(msv[i].doc)
                },
            forall|i: int|
                0 <= i < deps_list@.len() ==> {
                    &&& (#[trigger] deps_list@[i].name@) == msv[i].name@
                    &&& forall|n: Seq<char>|
                        deps_list@[i].local_deps.deep_view().contains(n) <==> doc_local_deps(
                            msv[i].doc,
                        ).contains(n)
                },
        decreases rest@.len(),
    {
        let ghost k = out@.len() as int;
        let mut m = rest.remove(0);
        proof {
            assert(msv.skip(k)[0] == msv[k]);
            assert(rest@ =~= msv.skip(k + 1));
        }
        let nm = m.name.clone();
        match rewrite_manifest(&mut m.doc, version) {
            Some(locals) => {
                deps_list.push(MemberDeps { name: nm, local_deps: locals });
                out.push(m);
            },
            None => {
                proof {
                    assert(msv[k].name@ == nm@ && !doc_package_ok(msv[k].doc));
                    assert(exists|i: int|
                        0 <= i < msv.len() && (#[trigger] msv[i].name@) == nm@
                            && !doc_package_ok(msv[i].doc));
                }
                return Err(ReleaseError::MalformedManifest(nm));
            },
        }
    }
    let g = match build_graph(&deps_list) {
        Ok(g) => g,
        Err(e) => {
            proof {
                let ghost ge = e;
                match ge {
                    ReleaseError::DuplicateMember(nm) => {
                        let (i, j) = choose|i: int, j: int|
                            0 <= i < j < deps_list@.len() && (#[trigger] deps_list@[i].name@)
                                == (#[trigger] deps_list@[j].name@) && deps_list@[i].name@ == nm@;
                        assert(msv[i].name@ == msv[j].name@ && msv[i].name@ == nm@);
                    },
                    ReleaseError::UnknownLocalDependency(nm) => {
                        let (i, j) = choose|i: int, j: int|
                            0 <= i < deps_list@.len() && 0 <= j
                                < deps_list@[i].local_deps@.len() && (
                            #[trigger] deps_list@[i].local_deps@[j]@) == nm@;
                        assert(deps_list@[i].name@ == msv[i].name@);
                        assert(deps_list@[i].local_deps.deep_view()[j] == nm@);
                        assert(deps_list@[i].local_deps.deep_view().contains(nm@));
                        assert(doc_local_deps(msv[i].doc).contains(nm@));
                        assert forall|d: int| 0 <= d < msv.len() implies (
                        #[trigger] msv[d].name@) != nm@ by {
                            assert(deps_list@[d].name@ == msv[d].name@);
                        }
                    },
                    _ => {},
                }
            }
            return Err(e);
        },
    };
    proof {
        assert forall|i: int|
            0 <= i < msv.len() implies {
            &&& doc_self_version(#[trigger] out@[i].doc) == Some(vs)
            &&& doc_local_deps(out@[i].doc) == doc_local_deps(msv[i].doc)
            &&& doc_dep_names(out@[i].doc) == doc_dep_names(msv[i].doc)
            &&& g.names@[i]@ == msv[i].name@
        } by {
            assert(out@[i].name@ == msv[i].name@);
            assert(deps_list@[i].name@ == msv[i].name@);
        }
        assert forall|i: int, n: Seq<char>|
            0 <= i < msv.len() && doc_local_deps(msv[i].doc).contains(n) implies (
        #[trigger] doc_dep_version(out@[i].doc, n)) == Some(vs) by {
            assert(out@[i].name@ == msv[i].name@);
        }
        assert forall|i: int, n: Seq<char>|
            0 <= i < msv.len() && !doc_local_deps(msv[i].doc).contains(n) implies (
        #[trigger] doc_dep_version(out@[i].doc, n)) == doc_dep_version(msv[i].doc, n) by {
            assert(out@[i].name@ == msv[i].name@);
        }
        assert forall|i: int, d: int|
            0 <= i < msv.len() && 0 <= d < msv.len() implies ((#[trigger] g.edge(i, d))
            <==> doc_local_deps(msv[i].doc).contains(msv[d].name@)) by {
            assert(deps_list@[i].name@ == msv[i].name@);
            assert(deps_list@[d].name@ == msv[d].name@);
            if g.edge(i, d) {
                let j = choose|j: int|
                    0 <= j < deps_list@[i].local_deps@.len() && (
                    #[trigger] deps_list@[i].local_deps@[j]@) == deps_list@[d].name@;
                assert(deps_list@[i].local_deps.deep_view()[j] == msv[d].name@);
                assert(deps_list@[i].local_deps.deep_view().contains(msv[d].name@));
            }
            if doc_local_deps(msv[i].doc).contains(msv[d].name@) {
                assert(deps_list@[i].local_deps.deep_view().contains(msv[d].name@));
                let j = choose|j: int|
                    0 <= j < deps_list@[i].local_deps.deep_view().len()
                        && deps_list@[i].local_deps.deep_view()[j] == msv[d].name@;
                assert(deps_list@[i].local_deps@[j]@ == deps_list@[d].name@);
            }
        }
    }
    Ok((out, g))
}

} // verus!
