//! The release record at the workspace root: a single TOML file holding the
//! current version, read once at release start and overwritten with the new
//! version before any manifest rewriting begins.

use vstd::prelude::*;
use crate::version::{Version, parse_version, spec_semver_triple, version_chars};

verus! {

/// The workspace-level release record: the one coordinated version.
#[derive(Clone, Copy, Debug, PartialEq, Eq, Structural)]
pub struct ArmoryTOML {
    pub version: Version,
}

/// The `version` string field of the release-record text, if the text
/// parses as TOML and carries one.
pub uninterp spec fn spec_toml_version_field(text: Seq<char>) -> Option<Seq<char>>;

/// Relies on `str::parse::<toml_edit::DocumentMut>`, `toml_edit::Table::get`
/// and `Item::as_str`: reads the one `version` string field; the outcome is
/// a function of the text alone.
#[verifier::external_body]
fn toml_version_field(text: &str) -> (r: Option<String>)
    ensures
        match r {
            Some(s) => spec_toml_version_field(text@) == Some(s@),
            None => spec_toml_version_field(text@) is None,
        },
{
    let doc: toml_edit::DocumentMut = match text.parse() {
        Ok(d) => d,
        Err(_) => return None,
    };
    doc.get("version").and_then(|i| i.as_str()).map(|s| s.to_string())
}

/// Reads the release record from its text: succeeds exactly when the text
/// carries a `version` field that is a semantic version.
pub fn parse_armory_toml(text: &str) -> (r: Result<ArmoryTOML, String>)
    ensures
        match r {
            Ok(a) => exists|s: Seq<char>|
                #[trigger] spec_toml_version_field(text@) == Some(s) && spec_semver_triple(s)
                    == Some((a.version.major, a.version.minor, a.version.patch)),
            Err(_) => spec_toml_version_field(text@) is None || (exists|s: Seq<char>|
                #[trigger] spec_toml_version_field(text@) == Some(s) && spec_semver_triple(s)
                    is None),
        },
{
    match toml_version_field(text) {
        Some(vs) => match parse_version(vs.as_str()) {
            Some(v) => {
                let a = ArmoryTOML { version: v };
                proof {
                    assert(spec_toml_version_field(text@) == Some(vs@));
                }
                Ok(a)
            },
            None => {
                proof {
                    assert(spec_toml_version_field(text@) == Some(vs@));
                }
                Err(String::from_str("Failed to parse armory.toml"))
            },
        },
        None => Err(String::from_str("Failed to parse armory.toml")),
    }
}

/// The canonical text of the release record: one `version` field.
pub open spec fn armory_chars(v: Version) -> Seq<char> {
    seq!['v', 'e', 'r', 's', 'i', 'o', 'n', ' ', '=', ' ', '"'] + version_chars(
        v.major as nat,
        v.minor as nat,
        v.patch as nat,
    ) + seq!['"', '\n']
}

/// Writes the release record back to its canonical text.
pub fn render_armory_toml(a: &ArmoryTOML) -> (r: String)
    ensures
        r@ == armory_chars(a.version),
{
    let mut s = String::from_str("version = \"");
    let vs = a.version.version_string();
    s.append(vs.as_str());
    s.append("\"\n");
    proof {
        reveal_strlit("version = \"");
        reveal_strlit("\"\n");
        assert(s@ =~= armory_chars(a.version));
    }
    s
}

} // verus!
