//! Versions and version requirements, as semantic versioning defines them.
//!
//! Both are carried as their canonical text. What they mean is the `semver` crate's to
//! say: it parses them, orders versions and decides which versions a requirement allows.

use crate::text;
use vstd::prelude::*;

verus! {

/// How two versions compare.
#[derive(Clone, Copy, Debug, PartialEq, Eq, Structural)]
pub enum Order {
    Less,
    Equal,
    Greater,
}

impl Order {
    pub open spec fn reversed(self) -> Order {
        match self {
            Order::Less => Order::Greater,
            Order::Equal => Order::Equal,
            Order::Greater => Order::Less,
        }
    }
}

/// What `semver::Version::parse` makes of a text: the canonical text of the version, or
/// the text of the error.
pub uninterp spec fn parsed_version(raw: Seq<char>) -> Result<Seq<char>, Seq<char>>;

/// What `semver::VersionReq::parse` makes of a text: the canonical text of the
/// requirement, or the text of the error.
pub uninterp spec fn parsed_requirement(raw: Seq<char>) -> Result<Seq<char>, Seq<char>>;

/// How `semver::Version::cmp` orders two versions.
pub uninterp spec fn version_order(left: Seq<char>, right: Seq<char>) -> Order;

/// Whether `semver::VersionReq::matches` lets a version through a requirement.
pub uninterp spec fn requirement_allows(requirement: Seq<char>, version: Seq<char>) -> bool;

/// Whether a version is another one, or comes before it.
pub open spec fn not_after(version: Seq<char>, other: Seq<char>) -> bool {
    version == other || (version_order(version, other) == Order::Less && version_order(
        other,
        version,
    ) == Order::Greater)
}

/// Whether a text is a version in its canonical form.
pub open spec fn is_version(s: Seq<char>) -> bool {
    parsed_version(s) == Ok::<Seq<char>, Seq<char>>(s)
}

/// Whether a text is a requirement in its canonical form.
pub open spec fn is_requirement(s: Seq<char>) -> bool {
    parsed_requirement(s) == Ok::<Seq<char>, Seq<char>>(s)
}

/// The view of a result of two strings.
pub open spec fn both(r: Result<String, String>) -> Result<Seq<char>, Seq<char>> {
    match r {
        Ok(value) => Ok(value@),
        Err(error) => Err(error@),
    }
}

/// Calls `semver::Version::parse` and renders what came back. Claimed: the result is a
/// function of the text, and a version that was written out reads back as itself.
#[verifier::external_body]
fn parse_version(raw: &str) -> (r: Result<String, String>)
    ensures
        both(r) == parsed_version(raw@),
        r is Ok ==> is_version(r->Ok_0@),
{
    match semver::Version::parse(raw) {
        Ok(version) => Ok(version.to_string()),
        Err(error) => Err(error.to_string()),
    }
}

/// Calls `semver::Version::new` and renders the version. Claimed: it is the three numbers
/// with dots between them, which reads back as itself.
#[verifier::external_body]
fn version_of(major: u64, minor: u64, patch: u64) -> (r: String)
    ensures
        r@ == three_numbers(major as nat, minor as nat, patch as nat),
        is_version(r@),
{
    semver::Version::new(major, minor, patch).to_string()
}

/// Calls `semver::VersionReq::parse` and renders what came back. Claimed: the result is a
/// function of the text, and a requirement that was written out reads back as itself.
#[verifier::external_body]
fn parse_requirement(raw: &str) -> (r: Result<String, String>)
    ensures
        both(r) == parsed_requirement(raw@),
        r is Ok ==> is_requirement(r->Ok_0@),
{
    match semver::VersionReq::parse(raw) {
        Ok(requirement) => Ok(requirement.to_string()),
        Err(error) => Err(error.to_string()),
    }
}

/// Calls `semver::Version::cmp`. Claimed: the result is a function of the two versions,
/// and a total order, as `Ord` promises: only a version and itself are equal, swapping the
/// versions turns the answer round, and what is not after the first version is not after the
/// second, where the first is not.
#[verifier::external_body]
fn compare_versions(left: &str, right: &str) -> (r: Order)
    requires
        is_version(left@),
        is_version(right@),
    ensures
        r == version_order(left@, right@),
        r == Order::Equal <==> left@ == right@,
        version_order(right@, left@) == r.reversed(),
        r != Order::Greater ==> forall|third: Seq<char>|
            is_version(third) && #[trigger] not_after(third, left@) ==> not_after(third, right@),
{
    let left = semver::Version::parse(left).unwrap();
    let right = semver::Version::parse(right).unwrap();
    match left.cmp(&right) {
        std::cmp::Ordering::Less => Order::Less,
        std::cmp::Ordering::Equal => Order::Equal,
        std::cmp::Ordering::Greater => Order::Greater,
    }
}

/// Calls `semver::VersionReq::matches`. Claimed: the result is a function of the
/// requirement and the version.
#[verifier::external_body]
fn allows(requirement: &str, version: &str) -> (r: bool)
    requires
        is_requirement(requirement@),
        is_version(version@),
    ensures
        r == requirement_allows(requirement@, version@),
{
    let requirement = semver::VersionReq::parse(requirement).unwrap();
    let version = semver::Version::parse(version).unwrap();
    requirement.matches(&version)
}

/// A version. Its view is its canonical text.
#[derive(Debug, PartialEq, Eq)]
pub struct Version {
    text: String,
}

impl View for Version {
    type V = Seq<char>;

    closed spec fn view(&self) -> Seq<char> {
        self.text@
    }
}

/// The text of a version of three numbers.
pub open spec fn three_numbers(major: nat, minor: nat, patch: nat) -> Seq<char> {
    text::decimal(major) + "."@ + text::decimal(minor) + "."@ + text::decimal(patch)
}

impl Clone for Version {
    fn clone(&self) -> (r: Self)
        ensures
            r@ == self@,
    {
        proof {
            use_type_invariant(self);
        }
        Version { text: self.text.clone() }
    }
}

impl Version {
    #[verifier::type_invariant]
    closed spec fn valid(self) -> bool {
        is_version(self.text@)
    }

    /// The version of three numbers, without a prerelease or build part.
    pub fn new(major: u64, minor: u64, patch: u64) -> (r: Version)
        ensures
            r@ == three_numbers(major as nat, minor as nat, patch as nat),
            is_version(r@),
    {
        let out = version_of(major, minor, patch);
        Version { text: out }
    }

    /// Reads a version.
    pub fn parse(raw: &str) -> (r: Result<Version, String>)
        ensures
            match r {
                Ok(version) => parsed_version(raw@) == Ok::<Seq<char>, Seq<char>>(version@)
                    && is_version(version@),
                Err(error) => parsed_version(raw@) == Err::<Seq<char>, Seq<char>>(error@),
            },
    {
        match parse_version(raw) {
            Ok(text) => Ok(Version { text }),
            Err(error) => Err(error),
        }
    }

    /// The version written out.
    pub fn to_string(&self) -> (r: String)
        ensures
            r@ == self@,
    {
        self.text.clone()
    }

    pub fn as_str(&self) -> (r: &str)
        ensures
            r@ == self@,
    {
        self.text.as_str()
    }

    /// Whether two versions are the same, build part included.
    pub fn same(&self, other: &Version) -> (r: bool)
        ensures
            r == (self@ == other@),
    {
        self.text == other.text
    }

    /// How two versions compare.
    pub fn order(&self, other: &Version) -> (r: Order)
        ensures
            is_version(self@),
            is_version(other@),
            r == version_order(self@, other@),
            r == Order::Equal <==> self@ == other@,
            version_order(other@, self@) == r.reversed(),
            r != Order::Greater ==> forall|third: Seq<char>|
                is_version(third) && #[trigger] not_after(third, self@) ==> not_after(
                    third,
                    other@,
                ),
    {
        proof {
            use_type_invariant(self);
            use_type_invariant(other);
        }
        compare_versions(self.text.as_str(), other.text.as_str())
    }
}

/// Whether a version is newer than another.
pub open spec fn newer(version: Seq<char>, than: Seq<char>) -> bool {
    version_order(version, than) == Order::Greater
}

/// The view of an optional version.
pub open spec fn opt_version(v: Option<Version>) -> Option<Seq<char>> {
    match v {
        Some(v) => Some(v@),
        None => None,
    }
}

/// A requirement on versions. Its view is its canonical text.
#[derive(Debug, PartialEq, Eq)]
pub struct VersionReq {
    text: String,
}

impl View for VersionReq {
    type V = Seq<char>;

    closed spec fn view(&self) -> Seq<char> {
        self.text@
    }
}

impl Clone for VersionReq {
    fn clone(&self) -> (r: Self)
        ensures
            r@ == self@,
    {
        proof {
            use_type_invariant(self);
        }
        VersionReq { text: self.text.clone() }
    }
}

impl VersionReq {
    #[verifier::type_invariant]
    closed spec fn valid(self) -> bool {
        is_requirement(self.text@)
    }

    /// Reads a requirement.
    pub fn parse(raw: &str) -> (r: Result<VersionReq, String>)
        ensures
            match r {
                Ok(requirement) => parsed_requirement(raw@) == Ok::<Seq<char>, Seq<char>>(requirement@),
                Err(error) => parsed_requirement(raw@) == Err::<Seq<char>, Seq<char>>(error@),
            },
    {
        match parse_requirement(raw) {
            Ok(text) => Ok(VersionReq { text }),
            Err(error) => Err(error),
        }
    }

    /// The requirement written out.
    pub fn to_string(&self) -> (r: String)
        ensures
            r@ == self@,
    {
        self.text.clone()
    }

    /// Whether two requirements are written the same.
    pub fn same(&self, other: &VersionReq) -> (r: bool)
        ensures
            r == (self@ == other@),
    {
        self.text == other.text
    }

    /// Whether a version satisfies the requirement.
    pub fn matches(&self, version: &Version) -> (r: bool)
        ensures
            r == requirement_allows(self@, version@),
    {
        proof {
            use_type_invariant(self);
            use_type_invariant(version);
        }
        allows(self.text.as_str(), version.text.as_str())
    }
}

} // verus!
