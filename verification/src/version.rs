//! The workspace-wide semantic version: a `(major, minor, patch)` triple with
//! a total order, the three release-type transforms, and a canonical
//! `major.minor.patch` string form.

use vstd::prelude::*;

verus! {

/// A semantic version triple.
#[derive(Clone, Copy, Debug, PartialEq, Eq, Structural)]
pub struct Version {
    pub major: u64,
    pub minor: u64,
    pub patch: u64,
}

/// The three release types an operator may choose between.
#[derive(Clone, Copy, Debug, PartialEq, Eq, Structural)]
pub enum ReleaseKind {
    Patch,
    Minor,
    Major,
}

/// Lexicographic order on version triples.
pub open spec fn spec_version_lt(a: Version, b: Version) -> bool {
    a.major < b.major
        || (a.major == b.major && a.minor < b.minor)
        || (a.major == b.major && a.minor == b.minor && a.patch < b.patch)
}

impl Version {
    /// The version a release of the given kind moves to.
    pub open spec fn spec_bumped(self, kind: ReleaseKind) -> Version {
        match kind {
            ReleaseKind::Patch => Version {
                major: self.major,
                minor: self.minor,
                patch: (self.patch + 1) as u64,
            },
            ReleaseKind::Minor => Version {
                major: self.major,
                minor: (self.minor + 1) as u64,
                patch: 0,
            },
            ReleaseKind::Major => Version { major: (self.major + 1) as u64, minor: 0, patch: 0 },
        }
    }

    /// Patch release: `major.minor.patch` becomes `major.minor.(patch + 1)`.
    pub fn bump_patch(&self) -> (r: Version)
        requires
            self.patch < u64::MAX,
        ensures
            r == self.spec_bumped(ReleaseKind::Patch),
    {
        Version { major: self.major, minor: self.minor, patch: self.patch + 1 }
    }

    /// Minor release: `major.minor.patch` becomes `major.(minor + 1).0`.
    pub fn bump_minor(&self) -> (r: Version)
        requires
            self.minor < u64::MAX,
        ensures
            r == self.spec_bumped(ReleaseKind::Minor),
    {
        Version { major: self.major, minor: self.minor + 1, patch: 0 }
    }

    /// Major release: `major.minor.patch` becomes `(major + 1).0.0`.
    pub fn bump_major(&self) -> (r: Version)
        requires
            self.major < u64::MAX,
        ensures
            r == self.spec_bumped(ReleaseKind::Major),
    {
        Version { major: self.major + 1, minor: 0, patch: 0 }
    }

    /// The release transform selected by `kind`.
    pub fn bumped(&self, kind: ReleaseKind) -> (r: Version)
        requires
            self.major < u64::MAX,
            self.minor < u64::MAX,
            self.patch < u64::MAX,
        ensures
            r == self.spec_bumped(kind),
    {
        match kind {
            ReleaseKind::Patch => self.bump_patch(),
            ReleaseKind::Minor => self.bump_minor(),
            ReleaseKind::Major => self.bump_major(),
        }
    }

    /// Strict lexicographic comparison of two versions.
    pub fn lt(&self, other: &Version) -> (r: bool)
        ensures
            r == spec_version_lt(*self, *other),
    {
        self.major < other.major
            || (self.major == other.major && self.minor < other.minor)
            || (self.major == other.major && self.minor == other.minor && self.patch < other.patch)
    }
}

/// Law: the version order is strict and total — irreflexive, transitive,
/// and any two distinct versions are comparable.
pub proof fn lemma_version_lt_strict_total(a: Version, b: Version, c: Version)
    ensures
        !spec_version_lt(a, a),
        spec_version_lt(a, b) && spec_version_lt(b, c) ==> spec_version_lt(a, c),
        a != b ==> spec_version_lt(a, b) || spec_version_lt(b, a),
{
}

/// The character for one decimal digit.
pub open spec fn dec_digit(d: nat) -> char {
    if d == 0 { '0' }
    else if d == 1 { '1' }
    else if d == 2 { '2' }
    else if d == 3 { '3' }
    else if d == 4 { '4' }
    else if d == 5 { '5' }
    else if d == 6 { '6' }
    else if d == 7 { '7' }
    else if d == 8 { '8' }
    else { '9' }
}

/// The canonical decimal digit string of a natural number (no leading zeros,
/// a single `'0'` for zero).
pub open spec fn dec_str(n: nat) -> Seq<char>
    decreases n,
{
    if n < 10 {
        seq![dec_digit(n)]
    } else {
        dec_str(n / 10).push(dec_digit(n % 10))
    }
}

/// The canonical string form of a version triple: `major.minor.patch`.
pub open spec fn version_chars(major: nat, minor: nat, patch: nat) -> Seq<char> {
    dec_str(major) + seq!['.'] + dec_str(minor) + seq!['.'] + dec_str(patch)
}

/// The one-character string for a decimal digit.
fn digit_str(d: u64) -> (r: &'static str)
    requires
        d < 10,
    ensures
        r@ == seq![dec_digit(d as nat)],
{
    let r: &'static str = if d == 0 { "0" }
    else if d == 1 { "1" }
    else if d == 2 { "2" }
    else if d == 3 { "3" }
    else if d == 4 { "4" }
    else if d == 5 { "5" }
    else if d == 6 { "6" }
    else if d == 7 { "7" }
    else if d == 8 { "8" }
    else { "9" };
    proof {
        reveal_strlit("0");
        reveal_strlit("1");
        reveal_strlit("2");
        reveal_strlit("3");
        reveal_strlit("4");
        reveal_strlit("5");
        reveal_strlit("6");
        reveal_strlit("7");
        reveal_strlit("8");
        reveal_strlit("9");
        assert(r@ =~= seq![dec_digit(d as nat)]);
    }
    r
}

/// Appends the canonical decimal digits of `n` to `out`.
fn push_dec(n: u64, out: &mut String)
    ensures
        final(out)@ == old(out)@ + dec_str(n as nat),
    decreases n,
{
    if n >= 10 {
        push_dec(n / 10, out);
    }
    out.append(digit_str(n % 10));
    proof {
        if n < 10 {
            assert(n as nat % 10 == n as nat);
            assert(final(out)@ =~= old(out)@ + dec_str(n as nat));
        } else {
            assert(final(out)@ =~= old(out)@ + dec_str(n as nat));
        }
    }
}

impl Version {
    /// The canonical `major.minor.patch` string of this version.
    pub fn version_string(&self) -> (r: String)
        ensures
            r@ == version_chars(self.major as nat, self.minor as nat, self.patch as nat),
    {
        let mut s = String::new();
        push_dec(self.major, &mut s);
        s.append(".");
        push_dec(self.minor, &mut s);
        s.append(".");
        push_dec(self.patch, &mut s);
        proof {
            reveal_strlit(".");
            assert("."@ =~= seq!['.']);
            assert(s@ =~= version_chars(
                self.major as nat,
                self.minor as nat,
                self.patch as nat,
            ));
        }
        s
    }
}

/// What `semver::Version::parse` extracts from a string: the numeric
/// triple, or nothing when the string is no semantic version.
pub uninterp spec fn spec_semver_triple(s: Seq<char>) -> Option<(u64, u64, u64)>;

/// Relies on `semver::Version::parse`: success and the parsed triple are a
/// function of the text alone, and a canonical `major.minor.patch` string
/// parses to exactly its own triple.
#[verifier::external_body]
fn parse_semver(s: &str) -> (r: Option<Version>)
    ensures
        r is Some <==> spec_semver_triple(s@) is Some,
        r matches Some(v) ==> spec_semver_triple(s@) == Some((v.major, v.minor, v.patch)),
        forall|a: u64, b: u64, c: u64|
            s@ == version_chars(a as nat, b as nat, c as nat) ==> r == Some(
                Version { major: a, minor: b, patch: c },
            ),
{
    match semver::Version::parse(s) {
        Ok(v) => Some(Version { major: v.major, minor: v.minor, patch: v.patch }),
        Err(_) => None,
    }
}

/// Parses a semantic version string; a canonical `major.minor.patch`
/// string yields exactly its own triple.
pub fn parse_version(s: &str) -> (r: Option<Version>)
    ensures
        r is Some <==> spec_semver_triple(s@) is Some,
        r matches Some(v) ==> spec_semver_triple(s@) == Some((v.major, v.minor, v.patch)),
        forall|a: u64, b: u64, c: u64|
            s@ == version_chars(a as nat, b as nat, c as nat) ==> r == Some(
                Version { major: a, minor: b, patch: c },
            ),
{
    parse_semver(s)
}

} // verus!
