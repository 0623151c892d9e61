//! Semantic versions, requirements on them and the lists of numbers that abbreviate
//! them.

use std::cmp::Ordering;

use itertools::Itertools;
use vstd::prelude::*;

use crate::strings;
use crate::text;
use crate::text::Class;

verus! {

/// An error of `semver`: the text is not a version or not a requirement.
#[verifier::external_type_specification]
#[verifier::external_body]
pub struct ExSemverError(semver::Error);

/// A semantic version: three numbers, the pre-release and the build metadata, of
/// which the last two may be empty.
#[verifier::ext_equal]
pub struct SemVer {
    pub major: u64,
    pub minor: u64,
    pub patch: u64,
    pub pre: Seq<char>,
    pub build: Seq<char>,
}

impl SemVer {
    /// Whether the version is nothing but its three numbers.
    pub open spec fn is_plain(self) -> bool {
        self.pre.len() == 0 && self.build.len() == 0
    }

    /// Whether the three numbers are smaller than those of `other`.
    pub open spec fn numbers_below(self, other: SemVer) -> bool {
        ||| self.major < other.major
        ||| self.major == other.major && self.minor < other.minor
        ||| self.major == other.major && self.minor == other.minor && self.patch < other.patch
    }

    /// Whether the three numbers are those of `other`.
    pub open spec fn same_numbers(self, other: SemVer) -> bool {
        self.major == other.major && self.minor == other.minor && self.patch == other.patch
    }

    /// The version as it is written.
    pub open spec fn text(self) -> Seq<char> {
        text::decimal(self.major as nat) + "."@ + text::decimal(self.minor as nat) + "."@
            + text::decimal(self.patch as nat) + (if self.pre.len() > 0 {
            "-"@ + self.pre
        } else {
            Seq::empty()
        }) + (if self.build.len() > 0 {
            "+"@ + self.build
        } else {
            Seq::empty()
        })
    }
}

/// Whether a character can stand in an identifier: an ASCII letter or digit, or a hyphen.
pub open spec fn is_identifier_char(c: char) -> bool {
    'a' <= c <= 'z' || 'A' <= c <= 'Z' || '0' <= c <= '9' || c == '-'
}

/// Whether a text is an identifier.
pub open spec fn is_identifier(s: Seq<char>) -> bool {
    s.len() > 0 && forall|i: int| 0 <= i < s.len() ==> is_identifier_char(#[trigger] s[i])
}

/// Whether a text can be build metadata: nothing, or identifiers with dots between them.
pub open spec fn is_build(s: Seq<char>) -> bool {
    s.len() == 0 || forall|i: int|
        0 <= i < text::split(s, '.').len() ==> is_identifier(#[trigger] text::split(s, '.')[i])
}

/// Whether a text is a number with a zero before it.
pub open spec fn has_leading_zero(s: Seq<char>) -> bool {
    s.len() > 1 && s[0] == '0' && text::all_digits(s)
}

/// Whether a text can be a pre-release: nothing, or identifiers with dots between them,
/// of which none is a number with a zero before it.
pub open spec fn is_pre(s: Seq<char>) -> bool {
    &&& is_build(s)
    &&& forall|i: int|
        0 <= i < text::split(s, '.').len() ==> !has_leading_zero(#[trigger] text::split(s, '.')[i])
}

/// Whether a text is how a version is written.
pub open spec fn is_text_of(text: Seq<char>, v: SemVer) -> bool {
    is_pre(v.pre) && is_build(v.build) && text == v.text()
}

/// The version that a text is, if it is one.
pub open spec fn parsed_version(text: Seq<char>) -> Option<SemVer> {
    if exists|v: SemVer| is_text_of(text, v) {
        Some(choose|v: SemVer| is_text_of(text, v))
    } else {
        None
    }
}

/// What the `Display` of `semver::Error` says of a text that `semver::Version::parse` does
/// not take for a version.
pub uninterp spec fn version_problem(text: Seq<char>) -> Seq<char>;

/// Whether `semver::VersionReq::parse` takes a text for a requirement.
pub uninterp spec fn is_version_req(text: Seq<char>) -> bool;

/// Whether a version meets the requirement that `semver::VersionReq::parse` reads in
/// a text, as `semver::VersionReq::matches` tells.
pub uninterp spec fn meets(req: Seq<char>, version: SemVer) -> bool;

/// Whether the order of `semver` puts `a` above `b`.
pub uninterp spec fn is_newer(a: SemVer, b: SemVer) -> bool;

/// A semantic version. Its pre-release and its build metadata are such as a written
/// version can have.
#[derive(Debug, PartialEq, Eq)]
pub struct Version {
    pub(crate) major: u64,
    pub(crate) minor: u64,
    pub(crate) patch: u64,
    pub(crate) pre: String,
    pub(crate) build: String,
}

impl View for Version {
    type V = SemVer;

    closed spec fn view(&self) -> SemVer {
        SemVer {
            major: self.major,
            minor: self.minor,
            patch: self.patch,
            pre: self.pre@,
            build: self.build@,
        }
    }
}

/// Reads a version by `semver::Version::parse`: three numbers with dots between them, then
/// a pre-release behind `-` and build metadata behind `+`, where there are any. There is one
/// way to write a version, so it succeeds if and only if the text is how some version is
/// written, and gives that version. Else it gives what the error says, which depends on the
/// text alone and is named by [`version_problem`].
#[verifier::external_body]
fn parse_version(text: &str) -> (r: Result<Version, String>)
    ensures
        match r {
            Ok(v) => is_text_of(text@, v@),
            Err(message) => message@ == version_problem(text@),
        },
        r is Err ==> forall|v: SemVer| !is_text_of(text@, v),
{
    match semver::Version::parse(text) {
        Ok(v) => {
            let (pre, build) = (v.pre.as_str().to_owned(), v.build.as_str().to_owned());
            Ok(Version { major: v.major, minor: v.minor, patch: v.patch, pre, build })
        },
        Err(error) => Err(error.to_string()),
    }
}

/// Writes a version by the `Display` of `semver::Version`: the numbers with dots between
/// them, then the pre-release behind `-` and the build metadata behind `+`, where they
/// are not empty.
#[verifier::external_body]
fn write_version(v: &Version) -> (r: String)
    ensures
        r@ == v@.text(),
{
    semver::Version {
        pre: semver::Prerelease::new(&v.pre).unwrap_or_default(),
        build: semver::BuildMetadata::new(&v.build).unwrap_or_default(),
        ..semver::Version::new(v.major, v.minor, v.patch)
    }.to_string()
}

/// Compares two versions by the order of `semver::Version`. The three numbers decide
/// first. Where they are equal, a release is above its pre-releases. The order is
/// total.
#[verifier::external_body]
fn version_above(a: &Version, b: &Version) -> (r: bool)
    ensures
        r == is_newer(a@, b@),
        b@.numbers_below(a@) ==> r,
        a@.numbers_below(b@) ==> !r,
        a@.same_numbers(b@) && a@.pre.len() == 0 && b@.pre.len() > 0 ==> r,
        a@ == b@ ==> !r,
        r ==> !is_newer(b@, a@),
        !r && a@ != b@ ==> is_newer(b@, a@),
{
    let above = semver::Version {
        pre: semver::Prerelease::new(&a.pre).unwrap_or_default(),
        build: semver::BuildMetadata::new(&a.build).unwrap_or_default(),
        ..semver::Version::new(a.major, a.minor, a.patch)
    };
    let below = semver::Version {
        pre: semver::Prerelease::new(&b.pre).unwrap_or_default(),
        build: semver::BuildMetadata::new(&b.build).unwrap_or_default(),
        ..semver::Version::new(b.major, b.minor, b.patch)
    };
    above > below
}

/// Tells by `semver::VersionReq::parse` whether a text is a requirement.
#[verifier::external_body]
fn check_version_req(text: &str) -> (r: Result<(), semver::Error>)
    ensures
        r is Ok <==> is_version_req(text@),
{
    semver::VersionReq::parse(text)?;
    Ok(())
}

/// Tells by `semver::VersionReq::matches` whether a version meets a requirement.
#[verifier::external_body]
fn version_meets(req: &VersionReq, v: &Version) -> (r: bool)
    ensures
        r == meets(req@, v@),
{
    let version = semver::Version {
        pre: semver::Prerelease::new(&v.pre).unwrap_or_default(),
        build: semver::BuildMetadata::new(&v.build).unwrap_or_default(),
        ..semver::Version::new(v.major, v.minor, v.patch)
    };
    match semver::VersionReq::parse(&req.text) {
        Ok(req) => req.matches(&version),
        Err(_) => false,
    }
}

/// A text is not a version.
#[derive(Debug, PartialEq, Eq)]
pub struct InvalidVersion {
    /// The text.
    pub text: String,
    /// Why it is not a version.
    pub message: String,
}

/// A text is neither a requirement nor a list of numbers.
#[derive(Debug, PartialEq, Eq)]
pub struct ParseVersionError {
    /// The text.
    pub text: String,
}

impl Version {
    /// The pre-release and the build metadata are such as a written version has.
    #[verifier::type_invariant]
    spec fn well_formed(self) -> bool {
        is_pre(self@.pre) && is_build(self@.build)
    }

    /// The version made of three numbers.
    pub fn new(major: u64, minor: u64, patch: u64) -> (r: Version)
        ensures
            r@ == (SemVer { major, minor, patch, pre: Seq::empty(), build: Seq::empty() }),
    {
        proof {
            lemma_nothing_is_valid();
        }
        let r = Version { major, minor, patch, pre: String::new(), build: String::new() };
        proof {
            assert(r@ =~= SemVer { major, minor, patch, pre: Seq::empty(), build: Seq::empty() });
        }
        r
    }

    /// Reads a version.
    pub fn parse(text: &str) -> (r: Result<Version, InvalidVersion>)
        ensures
            match r {
                Ok(v) => parsed_version(text@) == Some(v@) && text@ == v@.text(),
                Err(e) => parsed_version(text@) is None && e.text@ == text@ && e.message@
                    == version_problem(text@),
            },
    {
        match parse_version(text) {
            Ok(v) => {
                proof {
                    lemma_text_is_parsed(text@, v@);
                }
                Ok(v)
            },
            Err(message) => Err(InvalidVersion { text: text.to_owned(), message }),
        }
    }

    /// The major number.
    pub fn major(&self) -> (r: u64)
        ensures
            r == self@.major,
    {
        self.major
    }

    /// The minor number.
    pub fn minor(&self) -> (r: u64)
        ensures
            r == self@.minor,
    {
        self.minor
    }

    /// The patch number.
    pub fn patch(&self) -> (r: u64)
        ensures
            r == self@.patch,
    {
        self.patch
    }

    /// A copy of the version.
    pub fn duplicate(&self) -> (r: Version)
        ensures
            r@ == self@,
    {
        proof {
            use_type_invariant(self);
        }
        Version {
            major: self.major,
            minor: self.minor,
            patch: self.patch,
            pre: self.pre.clone(),
            build: self.build.clone(),
        }
    }

    /// Tells whether two versions are equal.
    pub fn same(&self, other: &Version) -> (r: bool)
        ensures
            r == (self@ == other@),
    {
        self.major == other.major && self.minor == other.minor && self.patch == other.patch
            && self.pre == other.pre && self.build == other.build
    }

    /// The version as it is written, from which it can be read again.
    pub fn to_string(&self) -> (r: String)
        ensures
            r@ == self@.text(),
            parsed_version(r@) == Some(self@),
    {
        let r = write_version(self);
        proof {
            use_type_invariant(self);
            lemma_text_is_parsed(r@, self@);
        }
        r
    }
}

/// A requirement on versions, such as `>=1.70, <1.72`.
#[derive(Debug, PartialEq, Eq)]
pub struct VersionReq {
    pub(crate) text: String,
}

impl View for VersionReq {
    type V = Seq<char>;

    closed spec fn view(&self) -> Seq<char> {
        self.text@
    }
}

impl VersionReq {
    /// The text is a requirement.
    #[verifier::type_invariant]
    spec fn well_formed(self) -> bool {
        is_version_req(self@)
    }

    /// Reads a requirement.
    pub fn parse(text: &str) -> (r: Result<VersionReq, ParseVersionError>)
        ensures
            match r {
                Ok(req) => is_version_req(text@) && req@ == text@,
                Err(e) => !is_version_req(text@) && e.text@ == text@,
            },
    {
        match check_version_req(text) {
            Ok(()) => Ok(VersionReq { text: text.to_owned() }),
            Err(_) => Err(ParseVersionError { text: text.to_owned() }),
        }
    }

    /// A copy of the requirement.
    pub fn duplicate(&self) -> (r: VersionReq)
        ensures
            r@ == self@,
    {
        proof {
            use_type_invariant(self);
        }
        VersionReq { text: self.text.clone() }
    }

    /// Tells whether a version meets the requirement.
    pub fn matches(&self, version: &Version) -> (r: bool)
        ensures
            r == meets(self@, version@),
    {
        version_meets(self, version)
    }
}

/// The versions that a list holds.
pub open spec fn version_views(versions: Seq<Version>) -> Seq<SemVer> {
    versions.map_values(|v: Version| v@)
}

/// Compares two versions so that the newest comes first.
pub fn newest_first(a: &Version, b: &Version) -> (r: Ordering)
    ensures
        r == (if is_newer(a@, b@) {
            Ordering::Less
        } else if is_newer(b@, a@) {
            Ordering::Greater
        } else {
            Ordering::Equal
        }),
        b@.numbers_below(a@) ==> r == Ordering::Less,
        a@.numbers_below(b@) ==> r == Ordering::Greater,
        a@.same_numbers(b@) && a@.pre.len() == 0 && b@.pre.len() > 0 ==> r == Ordering::Less,
        a@.same_numbers(b@) && a@.pre.len() > 0 && b@.pre.len() == 0 ==> r == Ordering::Greater,
        r == Ordering::Equal <==> a@ == b@,
{
    let above = version_above(a, b);
    let below = version_above(b, a);
    if above {
        Ordering::Less
    } else if below {
        Ordering::Greater
    } else {
        Ordering::Equal
    }
}

/// Whether the indices name each of `n` places once, newest version first.
pub open spec fn is_newest_first(versions: Seq<SemVer>, order: Seq<usize>) -> bool {
    &&& order.len() == versions.len()
    &&& forall|k: int| 0 <= k < order.len() ==> #[trigger] order[k] < versions.len()
    &&& forall|i: int|
        #![trigger versions[i]]
        0 <= i < versions.len() ==> exists|k: int| 0 <= k < order.len() && #[trigger] order[k] == i
    &&& forall|j: int, k: int|
        0 <= j <= k < order.len() ==> !is_newer(
            versions[#[trigger] order[k] as int],
            versions[#[trigger] order[j] as int],
        )
}

/// Sorts the indices of versions by `Itertools::sorted_unstable_by`, with
/// [`newest_first`] for the order. Each index occurs once, and no version stands before
/// a newer one. Which of two equal versions comes first is left open.
#[verifier::external_body]
fn sorted_newest_first(versions: &Vec<Version>) -> (r: Vec<usize>)
    ensures
        is_newest_first(version_views(versions@), r@),
{
    (0..versions.len()).sorted_unstable_by(|i, j| newest_first(&versions[*i], &versions[*j]))
        .collect()
}

/// Whether a list of versions is another one with the newest first.
pub open spec fn is_sorted_from(versions: Seq<SemVer>, sorted: Seq<SemVer>) -> bool {
    exists|order: Seq<usize>|
        {
            &&& #[trigger] is_newest_first(versions, order)
            &&& sorted == order.map_values(|i: usize| versions[i as int])
        }
}

/// The versions with the newest first.
pub fn sort_newest_first(versions: &Vec<Version>) -> (r: Vec<Version>)
    ensures
        is_sorted_from(version_views(versions@), version_views(r@)),
{
    let order = sorted_newest_first(versions);
    let ghost views = version_views(versions@);
    let ghost sorted = order@.map_values(|i: usize| views[i as int]);
    let mut out: Vec<Version> = Vec::new();
    let mut k: usize = 0;
    while k < order.len()
        invariant
            k <= order@.len(),
            views == version_views(versions@),
            is_newest_first(views, order@),
            sorted == order@.map_values(|i: usize| views[i as int]),
            version_views(out@) == sorted.take(k as int),
        decreases order@.len() - k,
    {
        let ghost before = version_views(out@);
        let copy = versions[order[k]].duplicate();
        out.push(copy);
        proof {
            assert(version_views(out@) =~= before.push(copy@));
            assert(sorted[k as int] == copy@);
            assert(sorted.take(k + 1) =~= sorted.take(k as int).push(sorted[k as int]));
        }
        k = k + 1;
    }
    proof {
        assert(sorted.take(k as int) =~= sorted);
    }
    out
}

/// The versions that a list holds where it holds any.
pub open spec fn candidate_views(candidates: Seq<Option<Version>>) -> Seq<Option<SemVer>> {
    candidates.map_values(
        |c: Option<Version>|
            match c {
                Some(v) => Some(v@),
                None => None,
            },
    )
}

/// What a choice among candidates can be: one with a version, with none newer among the
/// candidates, or none where there is none.
pub open spec fn is_newest_of(candidates: Seq<Option<SemVer>>, choice: Option<int>) -> bool {
    match choice {
        Some(i) => {
            &&& 0 <= i < candidates.len()
            &&& candidates[i] matches Some(v) && forall|j: int|
                0 <= j < candidates.len() ==> (#[trigger] candidates[j] matches Some(w)
                    ==> !is_newer(w, v))
        },
        None => forall|j: int| 0 <= j < candidates.len() ==> #[trigger] candidates[j] is None,
    }
}

/// The index that may be there, as an integer.
pub open spec fn optional_index(index: Option<usize>) -> Option<int> {
    match index {
        Some(i) => Some(i as int),
        None => None,
    }
}

/// The index of the newest of the candidates.
pub fn newest_of(candidates: &Vec<Option<Version>>) -> (r: Option<usize>)
    ensures
        is_newest_of(candidate_views(candidates@), optional_index(r)),
{
    let ghost views = candidate_views(candidates@);
    let mut versions: Vec<Version> = Vec::new();
    let mut places: Vec<usize> = Vec::new();
    let mut i: usize = 0;
    while i < candidates.len()
        invariant
            i <= candidates@.len(),
            views == candidate_views(candidates@),
            versions@.len() == places@.len(),
            forall|k: int|
                0 <= k < places@.len() ==> (#[trigger] places@[k]) < i && views[places@[k] as int]
                    == Some(version_views(versions@)[k]),
            forall|j: int|
                0 <= j < i && (#[trigger] views[j]) is Some ==> exists|k: int|
                    0 <= k < places@.len() && #[trigger] places@[k] == j,
        decreases candidates@.len() - i,
    {
        let ghost before = places@;
        let ghost kept = version_views(versions@);
        if let Some(version) = &candidates[i] {
            versions.push(version.duplicate());
            places.push(i);
        }
        proof {
            assert forall|k: int| 0 <= k < places@.len() implies (#[trigger] places@[k]) < i + 1
                && views[places@[k] as int] == Some(version_views(versions@)[k]) by {
                if k < before.len() {
                    assert(places@[k] == before[k]);
                    assert(version_views(versions@)[k] == kept[k]);
                }
            }
            assert forall|j: int| 0 <= j < i + 1 && (#[trigger] views[j]) is Some implies exists|
                k: int,
            |
                0 <= k < places@.len() && #[trigger] places@[k] == j by {
                if j < i {
                    let k = choose|k: int| 0 <= k < before.len() && #[trigger] before[k] == j;
                    assert(places@[k] == before[k]);
                } else {
                    assert(places@[before.len() as int] == j);
                }
            }
        }
        i = i + 1;
    }
    let order = sorted_newest_first(&versions);
    let ghost found = version_views(versions@);
    if order.len() == 0 {
        return None;
    }
    let first = order[0];
    let r = places[first];
    proof {
        let v = found[first as int];
        assert(views[r as int] == Some(v));
        assert forall|j: int| 0 <= j < views.len() implies (#[trigger] views[j] matches Some(w)
            ==> !is_newer(w, v)) by {
            if let Some(w) = views[j] {
                let k = choose|k: int| 0 <= k < places@.len() && #[trigger] places@[k] == j;
                assert(found[k] == w);
                let m = choose|m: int| 0 <= m < order@.len() && #[trigger] order@[m] == k;
                assert(order@[0] == first);
                assert(!is_newer(found[order@[m] as int], found[order@[0] as int]));
            }
        }
    }
    Some(r)
}

/// The numbers of a text such as `1.70`: what stands between the dots, if all of it is
/// numbers.
pub open spec fn numbers_of(s: Seq<char>) -> Option<Seq<u64>> {
    let parts = text::split(s, '.');
    if forall|i: int| 0 <= i < parts.len() ==> text::u64_of(#[trigger] parts[i]) is Some {
        Some(parts.map_values(|part: Seq<char>| text::u64_of(part)->0))
    } else {
        None
    }
}

/// Reads the numbers of a text such as `1.70`.
pub fn try_into_u64_slice(version: &str) -> (r: Result<Vec<u64>, ParseVersionError>)
    ensures
        match r {
            Ok(numbers) => numbers_of(version@) == Some(numbers@),
            Err(e) => numbers_of(version@) is None && e.text@ == version@,
        },
{
    let parts = strings::split(version, '.');
    let ghost all = text::split(version@, '.');
    let mut out: Vec<u64> = Vec::new();
    let mut i: usize = 0;
    while i < parts.len()
        invariant
            i <= parts@.len(),
            all == text::split(version@, '.'),
            text::texts(parts@) == all,
            out@.len() == i,
            forall|k: int| 0 <= k < i ==> text::u64_of(#[trigger] all[k]) == Some(out@[k]),
        decreases parts@.len() - i,
    {
        proof {
            assert(all[i as int] == parts@[i as int]@);
        }
        match strings::parse_u64(parts[i].as_str()) {
            Some(n) => {
                out.push(n);
            },
            None => {
                return Err(ParseVersionError { text: version.to_owned() });
            },
        }
        i = i + 1;
    }
    proof {
        assert(all.len() == parts@.len());
        assert(numbers_of(version@)->0 =~= out@);
    }
    Ok(out)
}

/// What can be wrong with a requested version.
#[derive(Debug, PartialEq, Eq)]
pub enum RequestError {
    /// The text is not a request.
    InvalidVersion(String),
}

impl RequestError {
    /// The text that is not a request.
    pub open spec fn request(self) -> Seq<char> {
        match self {
            RequestError::InvalidVersion(text) => text@,
        }
    }
}

/// A text with a dot in it is split at the first dot.
proof fn lemma_split_at_dot(first: Seq<char>, rest: Seq<char>)
    requires
        forall|i: int| 0 <= i < first.len() ==> #[trigger] first[i] != '.',
    ensures
        text::split(first + "."@ + rest, '.') == seq![first] + text::split(rest, '.'),
{
    reveal_strlit(".");
    let s = first + "."@ + rest;
    let n = first.len() as int;
    assert(s[n] == '.');
    assert forall|i: int| 0 <= i < n implies !Class::Only('.').has(#[trigger] s[i]) by {
        assert(s[i] == first[i]);
    }
    strings::lemma_first_of(s, Class::Only('.'), n);
    assert(s.take(n) =~= first);
    assert(s.skip(n + 1) =~= rest);
}

/// A text without a dot is not split.
proof fn lemma_split_without_dot(s: Seq<char>)
    requires
        forall|i: int| 0 <= i < s.len() ==> #[trigger] s[i] != '.',
    ensures
        text::split(s, '.') == seq![s],
{
    assert forall|i: int| 0 <= i < s.len() implies !Class::Only('.').has(#[trigger] s[i]) by {}
    strings::lemma_first_of(s, Class::Only('.'), s.len() as int);
}

/// A number is written without a dot.
proof fn lemma_decimal_has_no_dot(n: nat)
    ensures
        forall|i: int| 0 <= i < text::decimal(n).len() ==> #[trigger] text::decimal(n)[i] != '.',
{
    strings::lemma_decimal_is_read_back(n);
    assert forall|i: int| 0 <= i < text::decimal(n).len() implies #[trigger] text::decimal(n)[i]
        != '.' by {
        assert(text::is_digit(text::decimal(n)[i]));
    }
}

/// No pre-release and no build metadata can be had too.
proof fn lemma_nothing_is_valid()
    ensures
        is_pre(Seq::<char>::empty()),
        is_build(Seq::<char>::empty()),
{
    let nothing = Seq::<char>::empty();
    lemma_split_without_dot(nothing);
}

/// Build metadata consists of the characters of identifiers and of dots.
proof fn lemma_build_chars(s: Seq<char>)
    requires
        is_build(s),
    ensures
        forall|i: int| 0 <= i < s.len() ==> is_identifier_char(#[trigger] s[i]) || s[i] == '.',
    decreases s.len(),
{
    if s.len() > 0 {
        let n = text::first_of(s, Class::Only('.')) as int;
        strings::lemma_first_of_is_first(s, Class::Only('.'));
        let parts = text::split(s, '.');
        if n < s.len() {
            let rest = s.skip(n + 1);
            let more = text::split(rest, '.');
            assert(parts == seq![s.take(n)] + more);
            assert forall|i: int| 0 <= i < more.len() implies is_identifier(#[trigger] more[i]) by {
                assert(parts[i + 1] == more[i]);
            }
            lemma_build_chars(rest);
            assert(is_identifier(parts[0]));
            assert forall|i: int| 0 <= i < s.len() implies is_identifier_char(#[trigger] s[i])
                || s[i] == '.' by {
                if i < n {
                    assert(s[i] == s.take(n)[i]);
                } else if i > n {
                    assert(s[i] == rest[i - n - 1]);
                }
            }
        } else {
            assert(parts == seq![s]);
            assert(is_identifier(parts[0]));
        }
    }
}

/// Two texts are equal only if what they start with, up to the first character of another
/// sort, is equal.
proof fn lemma_same_runs(
    sort: spec_fn(char) -> bool,
    a: Seq<char>,
    r: Seq<char>,
    b: Seq<char>,
    t: Seq<char>,
)
    requires
        a + r == b + t,
        forall|i: int| 0 <= i < a.len() ==> sort(#[trigger] a[i]),
        forall|i: int| 0 <= i < b.len() ==> sort(#[trigger] b[i]),
        r.len() > 0 ==> !sort(r[0]),
        t.len() > 0 ==> !sort(t[0]),
    ensures
        a == b,
        r == t,
{
    let s = a + r;
    if a.len() < b.len() {
        assert(s[a.len() as int] == r[0]);
        assert((b + t)[a.len() as int] == b[a.len() as int]);
    } else if b.len() < a.len() {
        assert((b + t)[b.len() as int] == t[0]);
        assert(s[b.len() as int] == a[b.len() as int]);
    }
    assert(a =~= s.take(a.len() as int));
    assert(b =~= (b + t).take(b.len() as int));
    assert(r =~= s.skip(a.len() as int));
    assert(t =~= (b + t).skip(b.len() as int));
}

/// What follows the numbers of a version.
spec fn tail(v: SemVer) -> Seq<char> {
    (if v.pre.len() > 0 {
        "-"@ + v.pre
    } else {
        Seq::empty()
    }) + build_tail(v)
}

/// What follows the pre-release of a version.
spec fn build_tail(v: SemVer) -> Seq<char> {
    if v.build.len() > 0 {
        "+"@ + v.build
    } else {
        Seq::empty()
    }
}

/// Two versions are equal if what follows their numbers is.
proof fn lemma_same_tails(v: SemVer, w: SemVer)
    requires
        is_pre(v.pre),
        is_pre(w.pre),
        tail(v) == tail(w),
    ensures
        v.pre == w.pre,
        v.build == w.build,
{
    reveal_strlit("-");
    reveal_strlit("+");
    lemma_build_chars(v.pre);
    lemma_build_chars(w.pre);
    let sort = |c: char| c != '+';
    let a = if v.pre.len() > 0 {
        "-"@ + v.pre
    } else {
        Seq::empty()
    };
    let b = if w.pre.len() > 0 {
        "-"@ + w.pre
    } else {
        Seq::empty()
    };
    assert forall|i: int| 0 <= i < a.len() implies sort(#[trigger] a[i]) by {
        if i > 0 {
            assert(a[i] == v.pre[i - 1]);
        }
    }
    assert forall|i: int| 0 <= i < b.len() implies sort(#[trigger] b[i]) by {
        if i > 0 {
            assert(b[i] == w.pre[i - 1]);
        }
    }
    lemma_same_runs(sort, a, build_tail(v), b, build_tail(w));
    assert(v.pre =~= (if a.len() > 0 {
        a.drop_first()
    } else {
        a
    }));
    assert(w.pre =~= (if b.len() > 0 {
        b.drop_first()
    } else {
        b
    }));
    let x = build_tail(v);
    let y = build_tail(w);
    assert(v.build =~= (if x.len() > 0 {
        x.drop_first()
    } else {
        x
    }));
    assert(w.build =~= (if y.len() > 0 {
        y.drop_first()
    } else {
        y
    }));
}

/// Two texts are equal only if their digits before the first dot and their parts behind it
/// are.
proof fn lemma_same_before_dot(a: Seq<char>, r: Seq<char>, b: Seq<char>, t: Seq<char>)
    requires
        a + ("."@ + r) == b + ("."@ + t),
        text::all_digits(a),
        text::all_digits(b),
    ensures
        a == b,
        r == t,
{
    reveal_strlit(".");
    let digit = |c: char| text::is_digit(c);
    lemma_same_runs(digit, a, "."@ + r, b, "."@ + t);
    assert(r =~= ("."@ + r).drop_first());
    assert(t =~= ("."@ + t).drop_first());
}

/// Two texts are equal only if the digits that they start with and what follows the digits
/// are. Digits are followed by the tail of a version.
proof fn lemma_same_before_tail(a: Seq<char>, v: SemVer, b: Seq<char>, w: SemVer)
    requires
        a + tail(v) == b + tail(w),
        text::all_digits(a),
        text::all_digits(b),
    ensures
        a == b,
        tail(v) == tail(w),
{
    reveal_strlit("-");
    reveal_strlit("+");
    let digit = |c: char| text::is_digit(c);
    lemma_same_runs(digit, a, tail(v), b, tail(w));
}

/// The text of a version, by its parts.
proof fn lemma_text_parts(v: SemVer)
    ensures
        v.text() == text::decimal(v.major as nat) + ("."@ + (text::decimal(v.minor as nat) + ("."@ + (
        text::decimal(v.patch as nat) + tail(v))))),
{
    assert(v.text() =~= text::decimal(v.major as nat) + ("."@ + (text::decimal(v.minor as nat) + (
    "."@ + (text::decimal(v.patch as nat) + tail(v))))));
}

/// Two numbers are equal if they are written in the same way.
proof fn lemma_same_decimals(n: u64, m: u64)
    requires
        text::decimal(n as nat) == text::decimal(m as nat),
    ensures
        n == m,
{
    strings::lemma_decimal_is_read_back(n as nat);
    strings::lemma_decimal_is_read_back(m as nat);
}

/// Two versions are equal if they are written in the same way.
proof fn lemma_same_text(v: SemVer, w: SemVer)
    requires
        is_pre(v.pre),
        is_pre(w.pre),
        v.text() == w.text(),
    ensures
        v == w,
{
    let (a, b) = (text::decimal(v.major as nat), text::decimal(w.major as nat));
    let (c, d) = (text::decimal(v.minor as nat), text::decimal(w.minor as nat));
    let (e, f) = (text::decimal(v.patch as nat), text::decimal(w.patch as nat));
    strings::lemma_decimal_is_read_back(v.major as nat);
    strings::lemma_decimal_is_read_back(v.minor as nat);
    strings::lemma_decimal_is_read_back(v.patch as nat);
    strings::lemma_decimal_is_read_back(w.major as nat);
    strings::lemma_decimal_is_read_back(w.minor as nat);
    strings::lemma_decimal_is_read_back(w.patch as nat);
    lemma_text_parts(v);
    lemma_text_parts(w);
    let (v2, w2) = (e + tail(v), f + tail(w));
    let (v1, w1) = (c + ("."@ + v2), d + ("."@ + w2));
    lemma_same_before_dot(a, v1, b, w1);
    lemma_same_before_dot(c, v2, d, w2);
    lemma_same_before_tail(e, v, f, w);
    lemma_same_decimals(v.major, w.major);
    lemma_same_decimals(v.minor, w.minor);
    lemma_same_decimals(v.patch, w.patch);
    lemma_same_tails(v, w);
    assert(v =~= w);
}

/// The version that a text is how it is written is the version that the text is.
pub proof fn lemma_text_is_parsed(text: Seq<char>, v: SemVer)
    requires
        is_text_of(text, v),
    ensures
        parsed_version(text) == Some(v),
{
    let w = choose|w: SemVer| is_text_of(text, w);
    lemma_same_text(v, w);
}

/// A version that was read is written as it was read.
pub proof fn law_parsed_version_is_written_back(text: Seq<char>)
    ensures
        parsed_version(text) matches Some(v) ==> v.text() == text,
{
}

/// Three numbers with dots between them are a version.
pub proof fn law_three_numbers_are_a_version(v: SemVer)
    requires
        v.is_plain(),
    ensures
        parsed_version(v.text()) == Some(v),
{
    assert(v.pre =~= Seq::<char>::empty());
    assert(v.build =~= Seq::<char>::empty());
    lemma_nothing_is_valid();
    lemma_text_is_parsed(v.text(), v);
}

/// The numbers in the text of a version without a pre-release and build metadata are its
/// three numbers, and the text starts with a digit.
pub proof fn law_version_text_has_its_numbers(v: SemVer)
    requires
        v.is_plain(),
    ensures
        numbers_of(v.text()) == Some(seq![v.major, v.minor, v.patch]),
        v.text().len() > 0,
        text::is_digit(v.text()[0]),
{
    let a = text::decimal(v.major as nat);
    let b = text::decimal(v.minor as nat);
    let c = text::decimal(v.patch as nat);
    strings::lemma_decimal_is_read_back(v.major as nat);
    strings::lemma_decimal_is_read_back(v.minor as nat);
    strings::lemma_decimal_is_read_back(v.patch as nat);
    lemma_decimal_has_no_dot(v.major as nat);
    lemma_decimal_has_no_dot(v.minor as nat);
    lemma_decimal_has_no_dot(v.patch as nat);
    assert(v.text() =~= a + "."@ + (b + "."@ + c));
    lemma_split_at_dot(a, b + "."@ + c);
    lemma_split_at_dot(b, c);
    lemma_split_without_dot(c);
    let parts = text::split(v.text(), '.');
    assert(parts =~= seq![a, b, c]);
    assert(numbers_of(v.text())->0 =~= seq![v.major, v.minor, v.patch]);
    assert(v.text()[0] == a[0]);
}

/// The numbers of a list are those between its dots: what stands before the first dot is the
/// first number, and the others are those of what stands behind it. Where one piece is no
/// number, there are none.
pub proof fn law_numbers_stand_between_dots(first: Seq<char>, rest: Seq<char>)
    requires
        !first.contains('.'),
    ensures
        numbers_of(first) == match text::u64_of(first) {
            Some(n) => Some(seq![n]),
            None => None,
        },
        numbers_of(first + seq!['.'] + rest) == match (text::u64_of(first), numbers_of(rest)) {
            (Some(n), Some(more)) => Some(seq![n] + more),
            _ => None,
        },
{
    strings::law_splitting_at_a_separator(first, '.', rest);
    let one = seq![first];
    let parts = seq![first] + text::split(rest, '.');
    let more = text::split(rest, '.');
    assert(one[0] == first);
    assert(parts[0] == first);
    assert forall|i: int| 0 <= i < more.len() implies #[trigger] more[i] == parts[i + 1] by {}
    if text::u64_of(first) is Some {
        assert(numbers_of(first)->0 =~= seq![text::u64_of(first)->0]);
        if numbers_of(rest) is Some {
            assert forall|i: int| 0 <= i < parts.len() implies text::u64_of(
                #[trigger] parts[i],
            ) is Some by {
                if i > 0 {
                    assert(parts[i] == more[i - 1]);
                }
            }
            assert(numbers_of(first + seq!['.'] + rest)->0 =~= seq![text::u64_of(first)->0]
                + numbers_of(rest)->0);
        } else if numbers_of(first + seq!['.'] + rest) is Some {
            assert forall|i: int| 0 <= i < more.len() implies text::u64_of(
                #[trigger] more[i],
            ) is Some by {
                assert(text::u64_of(parts[i + 1]) is Some);
            }
        }
    }
}

/// What is chosen among candidates is none older than any of them, and something is chosen
/// where there is any.
pub proof fn law_newest_is_chosen(candidates: Seq<Option<SemVer>>, choice: Option<int>, j: int)
    requires
        is_newest_of(candidates, choice),
        0 <= j < candidates.len(),
    ensures
        candidates[j] is Some ==> (choice matches Some(i) && 0 <= i < candidates.len()
            && candidates[i] is Some && !is_newer(candidates[j]->0, candidates[i]->0)),
{
    let here = candidates[j];
}

/// A list with the newest first is as long as the list was and holds the same versions, and none
/// stands before a newer one.
pub proof fn law_sorted_list_holds_the_same(versions: Seq<SemVer>, sorted: Seq<SemVer>)
    requires
        is_sorted_from(versions, sorted),
    ensures
        sorted.len() == versions.len(),
        forall|v: SemVer| versions.contains(v) <==> #[trigger] sorted.contains(v),
        forall|j: int, k: int|
            0 <= j <= k < sorted.len() ==> !is_newer(#[trigger] sorted[k], #[trigger] sorted[j]),
{
    let order = choose|order: Seq<usize>|
        {
            &&& #[trigger] is_newest_first(versions, order)
            &&& sorted == order.map_values(|i: usize| versions[i as int])
        };
    assert forall|v: SemVer| versions.contains(v) <==> #[trigger] sorted.contains(v) by {
        if versions.contains(v) {
            let i = choose|i: int| 0 <= i < versions.len() && versions[i] == v;
            let k = choose|k: int| 0 <= k < order.len() && #[trigger] order[k] == i;
            assert(sorted[k] == v);
        }
        if sorted.contains(v) {
            let k = choose|k: int| 0 <= k < sorted.len() && sorted[k] == v;
            assert(versions[order[k] as int] == v);
        }
    }
    assert forall|j: int, k: int| 0 <= j <= k < sorted.len() implies !is_newer(
        #[trigger] sorted[k],
        #[trigger] sorted[j],
    ) by {
        assert(sorted[k] == versions[order[k] as int]);
        assert(sorted[j] == versions[order[j] as int]);
    }
}

} // verus!
