//! Format-preserving member-manifest rewriting: set the member's own
//! version and pin every local (path) dependency to the target version,
//! leaving everything else in the manifest untouched. The structured edits
//! are carried out by `toml_edit`; what they do to the manifest is stated
//! over names for the document's contents, and the rewrite itself is
//! verified against those statements.

use vstd::prelude::*;
use crate::version::{Version, version_chars};

verus! {

#[verifier::external_type_specification]
#[verifier::external_body]
pub struct ExDocumentMut(toml_edit::DocumentMut);

/// Whether `toml_edit` parses this text as a TOML document.
pub uninterp spec fn spec_toml_parses(text: Seq<char>) -> bool;

/// The serialized text of a document.
pub uninterp spec fn doc_text(d: toml_edit::DocumentMut) -> Seq<char>;

/// The entry names of the document's `[dependencies]` table, in table
/// order; empty if that table is absent.
pub uninterp spec fn doc_dep_names(d: toml_edit::DocumentMut) -> Seq<Seq<char>>;

/// The names of the local dependencies: entries of `[dependencies]` that
/// are table-like and carry a string `path` key.
pub uninterp spec fn doc_local_deps(d: toml_edit::DocumentMut) -> Set<Seq<char>>;

/// The `version` string of the dependency entry called `name`, if any.
pub uninterp spec fn doc_dep_version(d: toml_edit::DocumentMut, name: Seq<char>) -> Option<
    Seq<char>,
>;

/// The `version` string of the document's own `[package]` table, if any.
pub uninterp spec fn doc_self_version(d: toml_edit::DocumentMut) -> Option<Seq<char>>;

/// The `package` slot is absent or table-like, so a version can be set in it.
pub uninterp spec fn doc_package_ok(d: toml_edit::DocumentMut) -> bool;

/// The `workspace.members` array of strings, if present.
pub uninterp spec fn doc_member_list(d: toml_edit::DocumentMut) -> Option<Seq<Seq<char>>>;

/// Relies on `str::parse::<toml_edit::DocumentMut>`: parsing succeeds or
/// fails deterministically on the text alone.
#[verifier::external_body]
fn parse_toml(text: &str) -> (r: Option<toml_edit::DocumentMut>)
    ensures
        r is Some <==> spec_toml_parses(text@),
{
    text.parse::<toml_edit::DocumentMut>().ok()
}

/// Relies on `<toml_edit::DocumentMut as Display>::to_string`: the
/// serialized text is a function of the document alone.
#[verifier::external_body]
fn doc_to_text(d: &toml_edit::DocumentMut) -> (r: String)
    ensures
        r@ == doc_text(*d),
{
    d.to_string()
}

/// Relies on `toml_edit::Table::iter`: hands out the keys of the
/// `[dependencies]` table, which are unique in a TOML table, and every
/// local dependency is such an entry.
#[verifier::external_body]
fn dep_names(d: &toml_edit::DocumentMut) -> (r: Vec<String>)
    ensures
        r.deep_view() == doc_dep_names(*d),
        r.deep_view().no_duplicates(),
        forall|n: Seq<char>| doc_local_deps(*d).contains(n) ==> r.deep_view().contains(n),
{
    match d.get("dependencies").and_then(|i| i.as_table()) {
        Some(t) => t.iter().map(|(k, _)| k.to_string()).collect(),
        None => Vec::new(),
    }
}

/// Relies on `toml_edit::Table::get`, `Item::as_table_like` and
/// `TableLike::get`: whether the dependency entry is table-like with a
/// string `path` key.
#[verifier::external_body]
fn dep_is_local(d: &toml_edit::DocumentMut, name: &str) -> (r: bool)
    ensures
        r == doc_local_deps(*d).contains(name@),
{
    d.get("dependencies")
        .and_then(|i| i.as_table())
        .and_then(|t| t.get(name))
        .and_then(|i| i.as_table_like())
        .and_then(|t| t.get("path"))
        .and_then(|p| p.as_str())
        .is_some()
}

/// Relies on the same accessors: the `version` string of one dependency
/// entry.
#[verifier::external_body]
fn dep_version_of(d: &toml_edit::DocumentMut, name: &str) -> (r: Option<String>)
    ensures
        match r {
            Some(s) => doc_dep_version(*d, name@) == Some(s@),
            None => doc_dep_version(*d, name@) is None,
        },
{
    d.get("dependencies")
        .and_then(|i| i.as_table())
        .and_then(|t| t.get(name))
        .and_then(|i| i.as_table_like())
        .and_then(|t| t.get("version"))
        .and_then(|v| v.as_str())
        .map(|s| s.to_string())
}

/// Relies on `toml_edit::Item::get` and `Item::as_str`: the `version`
/// string of the `[package]` table.
#[verifier::external_body]
fn self_version_of(d: &toml_edit::DocumentMut) -> (r: Option<String>)
    ensures
        match r {
            Some(s) => doc_self_version(*d) == Some(s@),
            None => doc_self_version(*d) is None,
        },
{
    d.get("package").and_then(|p| p.get("version")).and_then(|v| v.as_str()).map(|s| s.to_string())
}

/// Relies on `toml_edit::Table::entry` and `TableLike::insert`: sets
/// `package.version`, creating the `[package]` table if absent; reports
/// failure, with the document unchanged, when the `package` slot is not
/// table-like. Only the `[package]` table is touched.
#[verifier::external_body]
fn set_self_version(d: &mut toml_edit::DocumentMut, v: &str) -> (ok: bool)
    ensures
        ok == doc_package_ok(*old(d)),
        ok ==> {
            &&& doc_self_version(*final(d)) == Some(v@)
            &&& doc_dep_names(*final(d)) == doc_dep_names(*old(d))
            &&& doc_local_deps(*final(d)) == doc_local_deps(*old(d))
            &&& forall|n: Seq<char>| doc_dep_version(*final(d), n) == doc_dep_version(*old(d), n)
        },
        !ok ==> *final(d) == *old(d),
{
    let item = d.entry("package").or_insert(toml_edit::table());
    match item.as_table_like_mut() {
        Some(t) => {
            t.insert("version", toml_edit::value(v));
            true
        },
        None => false,
    }
}

/// Relies on `toml_edit::Table::get_mut`, `Item::as_table_like_mut` and
/// `TableLike::insert`: pins the `version` key of one existing local
/// dependency entry; no other entry, and nothing outside that entry, is
/// touched.
#[verifier::external_body]
fn set_dep_version(d: &mut toml_edit::DocumentMut, name: &str, v: &str)
    requires
        doc_local_deps(*old(d)).contains(name@),
    ensures
        doc_dep_version(*final(d), name@) == Some(v@),
        forall|n: Seq<char>| n != name@ ==> doc_dep_version(*final(d), n) == doc_dep_version(
            *old(d),
            n,
        ),
        doc_self_version(*final(d)) == doc_self_version(*old(d)),
        doc_dep_names(*final(d)) == doc_dep_names(*old(d)),
        doc_local_deps(*final(d)) == doc_local_deps(*old(d)),
{
    if let Some(dt) = d.get_mut("dependencies").and_then(|i| i.as_table_mut()) {
        if let Some(dep) = dt.get_mut(name).and_then(|i| i.as_table_like_mut()) {
            dep.insert("version", toml_edit::value(v));
        }
    }
}

/// Relies on `toml_edit::Item::get`, `Item::as_array` and `Value::as_str`:
/// the `workspace.members` string array of the workspace-root manifest.
#[verifier::external_body]
fn members_of(d: &toml_edit::DocumentMut) -> (r: Option<Vec<String>>)
    ensures
        match r {
            Some(v) => doc_member_list(*d) == Some(v.deep_view()),
            None => doc_member_list(*d) is None,
        },
{
    d.get("workspace")
        .and_then(|w| w.get("members"))
        .and_then(|m| m.as_array())
        .map(|a| a.iter().map(|v| v.as_str().map(|s| s.to_string())).collect::<Option<Vec<String>>>())
        .flatten()
}

/// Parses one manifest; succeeds exactly when the text is TOML.
pub fn parse_manifest(text: &str) -> (r: Option<toml_edit::DocumentMut>)
    ensures
        r is Some <==> spec_toml_parses(text@),
{
    parse_toml(text)
}

/// Serializes a manifest back to text.
pub fn manifest_text(d: &toml_edit::DocumentMut) -> (r: String)
    ensures
        r@ == doc_text(*d),
{
    doc_to_text(d)
}

/// The member's own `package.version` string, if any.
pub fn manifest_self_version(d: &toml_edit::DocumentMut) -> (r: Option<String>)
    ensures
        match r {
            Some(s) => doc_self_version(*d) == Some(s@),
            None => doc_self_version(*d) is None,
        },
{
    self_version_of(d)
}

/// The `version` string of the dependency entry called `name`, if any.
pub fn manifest_dep_version(d: &toml_edit::DocumentMut, name: &str) -> (r: Option<String>)
    ensures
        match r {
            Some(s) => doc_dep_version(*d, name@) == Some(s@),
            None => doc_dep_version(*d, name@) is None,
        },
{
    dep_version_of(d, name)
}

/// Whether the dependency entry called `name` is a local (path) dependency.
pub fn manifest_dep_is_local(d: &toml_edit::DocumentMut, name: &str) -> (r: bool)
    ensures
        r == doc_local_deps(*d).contains(name@),
{
    dep_is_local(d, name)
}

/// The workspace member list of the workspace-root manifest, if present.
pub fn manifest_members(d: &toml_edit::DocumentMut) -> (r: Option<Vec<String>>)
    ensures
        match r {
            Some(v) => doc_member_list(*d) == Some(v.deep_view()),
            None => doc_member_list(*d) is None,
        },
{
    members_of(d)
}

/// Rewrites one member manifest for the release: sets the member's own
/// version to `version` and pins every local dependency entry to it,
/// touching nothing else. Returns the names of the local dependencies, or
/// `None`, with the manifest unchanged, when the manifest's `package` slot
/// cannot hold a version.
pub fn rewrite_manifest(d: &mut toml_edit::DocumentMut, version: &Version) -> (r: Option<
    Vec<String>,
>)
    ensures
        ({
            let vs = version_chars(
                version.major as nat,
                version.minor as nat,
                version.patch as nat,
            );
            match r {
                Some(locals) => {
                    &&& doc_package_ok(*old(d))
                    &&& doc_self_version(*final(d)) == Some(vs)
                    &&& forall|n: Seq<char>|
                        doc_local_deps(*old(d)).contains(n) ==> doc_dep_version(*final(d), n)
                            == Some(vs)
                    &&& forall|n: Seq<char>|
                        !doc_local_deps(*old(d)).contains(n) ==> doc_dep_version(*final(d), n)
                            == doc_dep_version(*old(d), n)
                    &&& doc_local_deps(*final(d)) == doc_local_deps(*old(d))
                    &&& doc_dep_names(*final(d)) == doc_dep_names(*old(d))
                    &&& locals.deep_view().no_duplicates()
                    &&& forall|n: Seq<char>|
                        locals.deep_view().contains(n) <==> doc_local_deps(*old(d)).contains(n)
                },
                None => !doc_package_ok(*old(d)) && *final(d) == *old(d),
            }
        }),
{
    let ghost d0 = *d;
    let ghost vs = version_chars(version.major as nat, version.minor as nat, version.patch as nat);
    let vstring = version.version_string();
    let names = dep_names(d);
    if !set_self_version(d, vstring.as_str()) {
        return None;
    }
    let mut locals: Vec<String> = Vec::new();
    let mut i: usize = 0;
    while i < names.len()
        invariant
            i <= names@.len(),
            names.deep_view() == doc_dep_names(d0),
            names.deep_view().no_duplicates(),
            forall|n: Seq<char>|
                doc_local_deps(d0).contains(n) ==> names.deep_view().contains(n),
            doc_dep_names(*d) == doc_dep_names(d0),
            doc_local_deps(*d) == doc_local_deps(d0),
            doc_self_version(*d) == Some(vs),
            vs == vstring@,
            forall|n: Seq<char>|
                #[trigger] doc_dep_version(*d, n) == (
                if doc_local_deps(d0).contains(n) && (exists|j: int|
                    0 <= j < i && names.deep_view()[j] == n) {
                    Some(vs)
                } else {
                    doc_dep_version(d0, n)
                }),
            forall|n: Seq<char>| #[trigger]
                locals.deep_view().contains(n) <==> (doc_local_deps(d0).contains(n) && exists|j: int|
                    0 <= j < i && names.deep_view()[j] == n),
            locals.deep_view().no_duplicates(),
        decreases names@.len() - i,
    {
        let ghost locals0 = locals.deep_view();
        let ghost dprev = *d;
        let name = &names[i];
        if dep_is_local(d, name.as_str()) {
            set_dep_version(d, name.as_str(), vstring.as_str());
            locals.push(name.clone());
            proof {
                assert(locals.deep_view() =~= locals0.push(name@));
                assert forall|n: Seq<char>| #[trigger] locals.deep_view().contains(n) implies (
                    doc_local_deps(d0).contains(n) && exists|j: int|
                        0 <= j < i + 1 && names.deep_view()[j] == n) by {
                    let k = choose|k: int|
                        0 <= k < locals.deep_view().len() && locals.deep_view()[k] == n;
                    if k < locals0.len() {
                        assert(locals0.contains(n));
                    } else {
                        assert(n == name@);
                        assert(names.deep_view()[i as int] == n);
                    }
                }
                assert forall|n: Seq<char>| (doc_local_deps(d0).contains(n) && exists|j: int|
                    0 <= j < i + 1 && names.deep_view()[j] == n) implies #[trigger] locals.deep_view().contains(
                    n,
                ) by {
                    let j = choose|j: int| 0 <= j < i + 1 && names.deep_view()[j] == n;
                    if j < i {
                        assert(locals0.contains(n));
                        let k = choose|k: int| 0 <= k < locals0.len() && locals0[k] == n;
                        assert(locals.deep_view()[k] == n);
                    } else {
                        assert(locals.deep_view()[locals.deep_view().len() - 1] == n);
                    }
                }
                // the pushed name is new: it sits at position i of a
                // duplicate-free name list, and every earlier pick sits
                // strictly before i
                assert forall|k: int| 0 <= k < locals0.len() implies #[trigger] locals0[k]
                    != name@ by {
                    assert(locals0.contains(locals0[k]));
                    let j = choose|j: int| 0 <= j < i && names.deep_view()[j] == locals0[k];
                    assert(names.deep_view()[i as int] == name@);
                }
                assert forall|n: Seq<char>| #[trigger] doc_dep_version(*d, n) == (
                if doc_local_deps(d0).contains(n) && (exists|j: int|
                    0 <= j < i + 1 && names.deep_view()[j] == n) {
                    Some(vs)
                } else {
                    doc_dep_version(d0, n)
                }) by {
                    if n == name@ {
                        assert(doc_local_deps(d0).contains(n));
                        assert(names.deep_view()[i as int] == n);
                        assert(doc_dep_version(*d, n) == Some(vs));
                    } else {
                        assert(doc_dep_version(*d, n) == doc_dep_version(dprev, n));
                        if doc_local_deps(d0).contains(n) && (exists|j: int|
                            0 <= j < i + 1 && names.deep_view()[j] == n) {
                            let j = choose|j: int| 0 <= j < i + 1 && names.deep_view()[j] == n;
                            assert(j != i);
                        }
                    }
                }

            }
        } else {
            proof {
                assert forall|n: Seq<char>| #[trigger] doc_dep_version(*d, n) == (
                if doc_local_deps(d0).contains(n) && (exists|j: int|
                    0 <= j < i + 1 && names.deep_view()[j] == n) {
                    Some(vs)
                } else {
                    doc_dep_version(d0, n)
                }) by {
                    if doc_local_deps(d0).contains(n) && (exists|j: int|
                        0 <= j < i + 1 && names.deep_view()[j] == n) {
                        let j = choose|j: int| 0 <= j < i + 1 && names.deep_view()[j] == n;
                        if j == i {
                            assert(n == name@);
                            assert(!doc_local_deps(d0).contains(n));
                        }
                    }
                }
            }
        }
        i += 1;
    }
    proof {
        assert forall|n: Seq<char>| doc_local_deps(d0).contains(n) implies doc_dep_version(*d, n)
            == Some(vs) by {
            assert(names.deep_view().contains(n));
            let j = choose|j: int|
                0 <= j < names.deep_view().len() && names.deep_view()[j] == n;
        }
        assert forall|n: Seq<char>| !doc_local_deps(d0).contains(n) implies doc_dep_version(*d, n)
            == doc_dep_version(d0, n) by {}
    }
    Some(locals)
}

} // verus!
