//! Update notices: whether a published release is newer than the running version.
use vstd::prelude::*;

use crate::text::concat_str;

verus! {

broadcast use vstd::string::group_string_axioms;

/// The version of this package, as `lilaccaps --version` reports it.
pub const PACKAGE_VERSION: &'static str = "1.0.0";

#[verifier::external_type_specification]
#[verifier::external_body]
pub struct ExVersion(semver::Version);

/// What `semver::Version::parse` reads from a text: nothing when it refuses the text,
/// else the major, minor and patch numbers and whether there is a pre-release part and
/// a build part.
pub uninterp spec fn semver_parse(text: Seq<char>) -> Option<(u64, u64, u64, bool, bool)>;

/// Whether the version written `left` is greater than the version written `right` by
/// semver's `Ord`, both texts being ones that `semver::Version::parse` accepts.
pub uninterp spec fn semver_greater(left: Seq<char>, right: Seq<char>) -> bool;

/// A parsed version with the text it was read from, and its numeric core and suffix
/// flags read off its fields.
pub struct ParsedVersion {
    text: String,
    major: u64,
    minor: u64,
    patch: u64,
    prerelease: bool,
    build: bool,
    version: semver::Version,
}

impl ParsedVersion {
    pub closed spec fn fields(&self) -> (u64, u64, u64, bool, bool) {
        (self.major, self.minor, self.patch, self.prerelease, self.build)
    }

    pub closed spec fn source(&self) -> Seq<char> {
        self.text@
    }
}

/// `semver::Version::parse`: a SemVer 2 version, or the parser's message. The numbers
/// and suffix flags are copied from the parsed version's fields.
#[verifier::external_body]
fn parse_version(text: &str) -> (r: Result<ParsedVersion, String>)
    ensures
        r is Ok <==> semver_parse(text@) is Some,
        r matches Ok(v) ==> semver_parse(text@) == Some(v.fields()) && v.source() == text@,
{
    let version = semver::Version::parse(text).map_err(|error| error.to_string())?;
    Ok(ParsedVersion {
        text: text.to_owned(),
        major: version.major,
        minor: version.minor,
        patch: version.patch,
        prerelease: !version.pre.is_empty(),
        build: !version.build.is_empty(),
        version,
    })
}

/// `(major, minor, patch)` of `a` is greater than that of `b`, compared in that order.
pub open spec fn core_greater(a: (u64, u64, u64, bool, bool), b: (u64, u64, u64, bool, bool)) -> bool {
    a.0 > b.0 || (a.0 == b.0 && (a.1 > b.1 || (a.1 == b.1 && a.2 > b.2)))
}

/// What semver's order says of `a > b` in terms of the parsed fields: when the numeric
/// cores differ, the greater core wins; with equal cores a release is greater than a
/// pre-release; two plain releases with equal cores are equal. Between two
/// pre-releases, or builds, of one core, the order of their identifiers decides, and
/// this says nothing.
pub open spec fn newer_as_far_as_stated(a: (u64, u64, u64, bool, bool), b: (u64, u64, u64, bool, bool), r: bool) -> bool {
    let same_core = a.0 == b.0 && a.1 == b.1 && a.2 == b.2;
    &&& !same_core ==> r == core_greater(a, b)
    &&& same_core && !a.3 && b.3 ==> r
    &&& same_core && a.3 && !b.3 ==> !r
    &&& same_core && !a.3 && !b.3 && !a.4 && !b.4 ==> !r
}

/// `left > right` by semver's `Ord`, which compares major, minor and patch, then the
/// pre-release part (a release above any pre-release of the same core), then the build
/// metadata. What is stated holds because the fields of a `ParsedVersion` are copied
/// from its version when it is parsed and never change.
#[verifier::external_body]
fn greater(left: &ParsedVersion, right: &ParsedVersion) -> (r: bool)
    ensures
        r == semver_greater(left.source(), right.source()),
        newer_as_far_as_stated(left.fields(), right.fields(), r),
{
    left.version > right.version
}

/// Whether `latest` is strictly newer than `current`; an error when either does not
/// parse (`latest` is parsed first).
pub fn update_available(current: &str, latest: &str) -> (r: Result<bool, String>)
    ensures
        r is Ok <==> (semver_parse(latest@) is Some && semver_parse(current@) is Some),
        r matches Ok(b) ==> b == semver_greater(latest@, current@),
        r matches Ok(b) ==> newer_as_far_as_stated(
            semver_parse(latest@)->Some_0,
            semver_parse(current@)->Some_0,
            b,
        ),
{
    let latest_version = parse_version(latest)?;
    let current_version = parse_version(current)?;
    Ok(greater(&latest_version, &current_version))
}

/// The two lines printed about a newer release.
pub fn notice_lines(latest: &str) -> (r: Vec<String>)
    ensures
        r@.len() == 2,
        r@[0]@ == "new_version = "@ + latest@,
        r@[1]@ == "recommendation = run `lilaccaps update`"@,
{
    vec![concat_str("new_version = ", latest), "recommendation = run `lilaccaps update`".to_owned()]
}

/// The notice for `latest` when it is newer than `current`.
pub fn update_notice(current: &str, latest: &str) -> (r: Result<Option<Vec<String>>, String>)
    ensures
        r is Ok <==> (semver_parse(latest@) is Some && semver_parse(current@) is Some),
        r matches Ok(notice) ==> (notice is Some <==> semver_greater(latest@, current@)),
        r matches Ok(notice) ==> newer_as_far_as_stated(
            semver_parse(latest@)->Some_0,
            semver_parse(current@)->Some_0,
            notice is Some,
        ),
        r matches Ok(Some(lines)) ==> lines@.len() == 2 && lines@[0]@ == "new_version = "@ + latest@
            && lines@[1]@ == "recommendation = run `lilaccaps update`"@,
{
    if update_available(current, latest)? {
        Ok(Some(notice_lines(latest)))
    } else {
        Ok(None)
    }
}

} // verus!
