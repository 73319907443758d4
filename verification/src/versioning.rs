//! Semantic-version parsing and requirement matching, delegated to the
//! `semver` crate.

use vstd::prelude::*;

verus! {

/// `semver::Version`, carried opaquely.
#[verifier::external_type_specification]
#[verifier::external_body]
pub struct ExSemverVersion(semver::Version);

/// `semver::VersionReq`, carried opaquely.
#[verifier::external_type_specification]
#[verifier::external_body]
pub struct ExSemverVersionReq(semver::VersionReq);

/// Whether `semver::Version::parse` accepts `text`.
pub uninterp spec fn semver_version_parses(text: Seq<char>) -> bool;

/// Whether `semver::VersionReq::parse` accepts `text`.
pub uninterp spec fn semver_requirement_parses(text: Seq<char>) -> bool;

/// What `VersionReq::matches` answers for the requirement parsed from
/// `requirement` and the version parsed from `version`.
pub uninterp spec fn semver_requirement_matches(requirement: Seq<char>, version: Seq<char>) -> bool;

/// A version accepted by `semver`, with the text it was parsed from.
pub struct ParsedVersion {
    version: semver::Version,
    text: Ghost<Seq<char>>,
}

/// A version requirement accepted by `semver`, with the text it was parsed from.
pub struct ParsedRequirement {
    requirement: semver::VersionReq,
    text: Ghost<Seq<char>>,
}

impl ParsedVersion {
    /// The text this version was parsed from.
    pub closed spec fn text(&self) -> Seq<char> {
        self.text@
    }
}

impl ParsedRequirement {
    /// The text this requirement was parsed from.
    pub closed spec fn text(&self) -> Seq<char> {
        self.text@
    }
}

/// Parses a semantic version with `semver::Version::parse`.
/// Trusted: the result is `Some` exactly when the crate accepts the text, and
/// then carries that text; the crate is deterministic, so acceptance is a
/// function of the text alone.
#[verifier::external_body]
pub fn parse_version(text: &str) -> (parsed: Option<ParsedVersion>)
    ensures
        parsed is Some <==> semver_version_parses(text@),
        parsed matches Some(p) ==> p.text() == text@,
{
    match semver::Version::parse(text) {
        Ok(version) => Some(ParsedVersion { version, text: Ghost(text@) }),
        Err(_) => None,
    }
}

/// Parses a semantic-version requirement with `semver::VersionReq::parse`.
/// Trusted: the result is `Some` exactly when the crate accepts the text, and
/// then carries that text.
#[verifier::external_body]
pub fn parse_requirement(text: &str) -> (parsed: Option<ParsedRequirement>)
    ensures
        parsed is Some <==> semver_requirement_parses(text@),
        parsed matches Some(p) ==> p.text() == text@,
{
    match semver::VersionReq::parse(text) {
        Ok(requirement) => Some(ParsedRequirement { requirement, text: Ghost(text@) }),
        Err(_) => None,
    }
}

/// Evaluates `VersionReq::matches`.
/// Trusted: the answer is the named result for the two texts the values were
/// parsed from (parsing and matching are pure functions of their inputs).
#[verifier::external_body]
pub fn requirement_matches(requirement: &ParsedRequirement, version: &ParsedVersion) -> (m: bool)
    ensures
        m == semver_requirement_matches(requirement.text(), version.text()),
{
    requirement.requirement.matches(&version.version)
}

/// Whether `version` is a semantic version that `requirement` admits.
pub open spec fn version_satisfies(requirement: Seq<char>, version: Seq<char>) -> bool {
    semver_version_parses(version) && semver_requirement_matches(requirement, version)
}

/// Whether the version text `version` parses and satisfies `requirement`.
pub fn satisfies(requirement: &ParsedRequirement, version: &str) -> (b: bool)
    ensures
        b == version_satisfies(requirement.text(), version@),
{
    match parse_version(version) {
        Some(parsed) => requirement_matches(requirement, &parsed),
        None => false,
    }
}

} // verus!
