//! Versions of Rust and requests for them.

use vstd::prelude::*;

use crate::hook;
use crate::hook::{InstallInfo, InstallInfoView};
use crate::path::buf;
use crate::path::buf::PathBuf;
use crate::path::model::PathView;
use crate::platform::Platform;
use crate::strings;
use crate::text;
use crate::text::Class;
use crate::version;
use crate::version::{InvalidVersion, RequestError, SemVer, Version, VersionReq};

verus! {

/// A version of Rust.
#[derive(Debug, PartialEq, Eq)]
pub struct RustVersion(pub Version);

impl View for RustVersion {
    type V = SemVer;

    open spec fn view(&self) -> SemVer {
        self.0@
    }
}

impl Default for RustVersion {
    fn default() -> (r: RustVersion)
        ensures
            r@ == (SemVer {
                major: 0,
                minor: 0,
                patch: 0,
                pre: Seq::empty(),
                build: Seq::empty(),
            }),
    {
        RustVersion(Version::new(0, 0, 0))
    }
}

/// The version of Rust that a text names, apart from the space around it.
pub open spec fn rust_version(s: Seq<char>) -> Option<SemVer> {
    version::parsed_version(text::trim(s, Class::Space))
}

impl RustVersion {
    /// Reads a version such as `1.70.0`.
    pub fn from_str(s: &str) -> (r: Result<RustVersion, InvalidVersion>)
        ensures
            match r {
                Ok(v) => rust_version(s@) == Some(v@) && text::trim(s@, Class::Space) == v@.text(),
                Err(e) => {
                    let trimmed = text::trim(s@, Class::Space);
                    &&& rust_version(s@) is None
                    &&& e.text@ == trimmed
                    &&& e.message@ == version::version_problem(trimmed)
                },
            },
    {
        match Version::parse(strings::trim(s, Class::Space).as_str()) {
            Ok(v) => Ok(RustVersion(v)),
            Err(e) => Err(e),
        }
    }

    /// A copy of the version.
    pub fn duplicate(&self) -> (r: RustVersion)
        ensures
            r@ == self@,
    {
        RustVersion(self.0.duplicate())
    }

    /// The version as it is written.
    pub fn to_string(&self) -> (r: String)
        ensures
            r@ == self@.text(),
            version::parsed_version(r@) == Some(self@),
    {
        self.0.to_string()
    }
}

/// The `language_version` of a hook that runs with Rust:
/// - `default`: a Rust of the system, or the stable channel
/// - `system`: a Rust of the system
/// - `stable`, `nightly` or `beta`: this channel
/// - `1.70` or `1.70.0`: the latest of these versions
/// - `>= 1.70, < 1.72`: the latest version in the range
/// - `local/path/to/rust`: the toolchain at this path
#[derive(Debug, PartialEq)]
pub enum RustRequest {
    Any,
    Channel(String),
    Major(u64),
    MajorMinor(u64, u64),
    MajorMinorPatch(u64, u64, u64),
    Path(PathBuf),
    Range(VersionReq, String),
}

/// What a request asks for.
pub enum RustRequestView {
    Any,
    Channel(Seq<char>),
    Major(u64),
    MajorMinor(u64, u64),
    MajorMinorPatch(u64, u64, u64),
    Path(PathView),
    Range(Seq<char>, Seq<char>),
}

impl View for RustRequest {
    type V = RustRequestView;

    open spec fn view(&self) -> RustRequestView {
        match self {
            RustRequest::Any => RustRequestView::Any,
            RustRequest::Channel(channel) => RustRequestView::Channel(channel@),
            RustRequest::Major(a) => RustRequestView::Major(*a),
            RustRequest::MajorMinor(a, b) => RustRequestView::MajorMinor(*a, *b),
            RustRequest::MajorMinorPatch(a, b, c) => RustRequestView::MajorMinorPatch(*a, *b, *c),
            RustRequest::Path(path) => RustRequestView::Path(path@),
            RustRequest::Range(req, text) => RustRequestView::Range(req@, text@),
        }
    }
}

/// The request that one, two or three numbers make.
pub open spec fn numbers_request(numbers: Seq<u64>) -> Option<RustRequestView> {
    if numbers.len() == 1 {
        Some(RustRequestView::Major(numbers[0]))
    } else if numbers.len() == 2 {
        Some(RustRequestView::MajorMinor(numbers[0], numbers[1]))
    } else if numbers.len() == 3 {
        Some(RustRequestView::MajorMinorPatch(numbers[0], numbers[1], numbers[2]))
    } else {
        None
    }
}

/// The request that a text such as `1.70` makes.
pub open spec fn version_numbers(s: Seq<char>) -> Option<RustRequestView> {
    match version::numbers_of(s) {
        Some(numbers) => numbers_request(numbers),
        None => None,
    }
}

/// Whether a text names a channel.
pub open spec fn is_channel(s: Seq<char>) -> bool {
    s == "stable"@ || s == "nightly"@ || s == "beta"@
}

/// The request that a text makes. `exists` says whether there is a file at the path
/// that the text names.
pub open spec fn rust_request(s: Seq<char>, platform: Platform, exists: bool) -> Option<
    RustRequestView,
> {
    if s.len() == 0 {
        Some(RustRequestView::Any)
    } else if is_channel(s) {
        Some(RustRequestView::Channel(s))
    } else if version_numbers(s) is Some {
        version_numbers(s)
    } else if version::is_version_req(s) {
        Some(RustRequestView::Range(s, s))
    } else if exists {
        Some(
            RustRequestView::Path(PathView { platform, bytes: vstd::utf8::encode_utf8(s) }),
        )
    } else {
        None
    }
}

/// Whether a version, in a toolchain at a path, is what was asked for. A channel is not
/// a version.
pub open spec fn rust_matches(
    request: RustRequestView,
    version: SemVer,
    toolchain: Option<PathView>,
) -> bool {
    match request {
        RustRequestView::Any => true,
        RustRequestView::Channel(_) => false,
        RustRequestView::Major(major) => version.major == major,
        RustRequestView::MajorMinor(major, minor) => version.major == major && version.minor
            == minor,
        RustRequestView::MajorMinorPatch(major, minor, patch) => version.major == major
            && version.minor == minor && version.patch == patch,
        RustRequestView::Path(path) => toolchain matches Some(at) && at.same(path),
        RustRequestView::Range(req, _) => version::meets(req, version),
    }
}

/// The channel that an environment was installed from, if it was noted.
pub open spec fn noted_channel(info: InstallInfoView) -> Option<Seq<char>> {
    hook::extra_of(info.extras, "rust_channel"@)
}

/// Whether an environment has what is asked for. For any request the stable channel will
/// do, or a version above 0; for a channel, the channel that was noted has to be it.
pub open spec fn rust_satisfied(request: RustRequestView, info: InstallInfoView) -> bool {
    match request {
        RustRequestView::Any => noted_channel(info) == Some("stable"@)
            || info.language_version.major > 0,
        RustRequestView::Channel(channel) => noted_channel(info) == Some(channel),
        _ => rust_matches(request, info.language_version, Some(info.toolchain)),
    }
}

impl RustRequest {
    /// Reads a request. `exists` says whether there is a file at the path that the text
    /// names.
    pub fn from_str(s: &str, platform: Platform, exists: bool) -> (r: Result<
        RustRequest,
        RequestError,
    >)
        ensures
            match r {
                Ok(request) => rust_request(s@, platform, exists) == Some(request@),
                Err(e) => rust_request(s@, platform, exists) is None && e.request() == s@,
            },
    {
        proof {
            reveal_strlit("");
            if s@.len() == 0 {
                assert(s@ =~= ""@);
            }
        }
        if strings::same(s, "") {
            return Ok(RustRequest::Any);
        }
        if strings::same(s, "stable") || strings::same(s, "nightly") || strings::same(s, "beta") {
            return Ok(RustRequest::Channel(s.to_owned()));
        }
        match RustRequest::parse_version_numbers(s, s) {
            Ok(request) => Ok(request),
            Err(_) => match VersionReq::parse(s) {
                Ok(req) => Ok(RustRequest::Range(req, s.to_owned())),
                Err(_) => if exists {
                    Ok(RustRequest::Path(PathBuf::new(platform, s)))
                } else {
                    Err(RequestError::InvalidVersion(s.to_owned()))
                },
            },
        }
    }

    /// A copy of the request.
    pub fn duplicate(&self) -> (r: RustRequest)
        ensures
            r@ == self@,
    {
        match self {
            RustRequest::Any => RustRequest::Any,
            RustRequest::Channel(channel) => RustRequest::Channel(channel.clone()),
            RustRequest::Major(a) => RustRequest::Major(*a),
            RustRequest::MajorMinor(a, b) => RustRequest::MajorMinor(*a, *b),
            RustRequest::MajorMinorPatch(a, b, c) => RustRequest::MajorMinorPatch(*a, *b, *c),
            RustRequest::Path(path) => RustRequest::Path(path.duplicate()),
            RustRequest::Range(req, text) => RustRequest::Range(req.duplicate(), text.clone()),
        }
    }

    /// Tells whether any version will do.
    pub fn is_any(&self) -> (r: bool)
        ensures
            r == (self@ is Any),
    {
        matches!(self, RustRequest::Any)
    }

    /// Reads one, two or three numbers.
    pub fn parse_version_numbers(version_str: &str, original_request: &str) -> (r: Result<
        RustRequest,
        RequestError,
    >)
        ensures
            match r {
                Ok(request) => version_numbers(version_str@) == Some(request@),
                Err(e) => version_numbers(version_str@) is None && e.request()
                    == original_request@,
            },
    {
        match version::try_into_u64_slice(version_str) {
            Err(_) => Err(RequestError::InvalidVersion(original_request.to_owned())),
            Ok(parts) => if parts.len() == 1 {
                Ok(RustRequest::Major(parts[0]))
            } else if parts.len() == 2 {
                Ok(RustRequest::MajorMinor(parts[0], parts[1]))
            } else if parts.len() == 3 {
                Ok(RustRequest::MajorMinorPatch(parts[0], parts[1], parts[2]))
            } else {
                Err(RequestError::InvalidVersion(original_request.to_owned()))
            },
        }
    }

    /// Tells whether an environment that was installed has what is asked for.
    pub fn satisfied_by(&self, install_info: &InstallInfo) -> (r: bool)
        ensures
            r == rust_satisfied(self@, install_info@),
    {
        match self {
            RustRequest::Any => {
                let stable = match install_info.get_extra("rust_channel") {
                    Some(channel) => strings::same(channel.as_str(), "stable"),
                    None => false,
                };
                stable || install_info.language_version.major() > 0
            },
            RustRequest::Channel(requested) => match install_info.get_extra("rust_channel") {
                Some(channel) => strings::same(channel.as_str(), requested.as_str()),
                None => false,
            },
            _ => self.matches(
                &RustVersion(install_info.language_version.duplicate()),
                Some(&install_info.toolchain),
            ),
        }
    }

    /// Tells whether a version, in a toolchain at a path, is what was asked for. A channel
    /// is not matched against versions.
    pub fn matches(&self, version: &RustVersion, toolchain: Option<&PathBuf>) -> (r: bool)
        ensures
            r == rust_matches(self@, version@, buf::optional_path(toolchain)),
    {
        match self {
            RustRequest::Any => true,
            RustRequest::Channel(_) => false,
            RustRequest::Major(major) => version.0.major() == *major,
            RustRequest::MajorMinor(major, minor) => version.0.major() == *major
                && version.0.minor() == *minor,
            RustRequest::MajorMinorPatch(major, minor, patch) => version.0.major() == *major
                && version.0.minor() == *minor && version.0.patch() == *patch,
            RustRequest::Path(path) => match toolchain {
                Some(at) => at.same(path),
                None => false,
            },
            RustRequest::Range(req, _) => req.matches(&version.0),
        }
    }
}

/// A request with more numbers asks for fewer versions, and any version answers a
/// request for any.
pub proof fn law_more_numbers_ask_for_less(
    major: u64,
    minor: u64,
    patch: u64,
    version: SemVer,
    toolchain: Option<PathView>,
)
    ensures
        rust_matches(RustRequestView::MajorMinorPatch(major, minor, patch), version, toolchain)
            ==> rust_matches(RustRequestView::MajorMinor(major, minor), version, toolchain),
        rust_matches(RustRequestView::MajorMinor(major, minor), version, toolchain)
            ==> rust_matches(RustRequestView::Major(major), version, toolchain),
        rust_matches(RustRequestView::Major(major), version, toolchain) ==> rust_matches(
            RustRequestView::Any,
            version,
            toolchain,
        ),
{
}

/// No version answers a request for a channel.
pub proof fn law_no_version_is_a_channel(
    channel: Seq<char>,
    version: SemVer,
    toolchain: Option<PathView>,
)
    ensures
        !rust_matches(RustRequestView::Channel(channel), version, toolchain),
{
}

/// The text of a version, without a pre-release and build metadata, is a request for the
/// versions with its three numbers.
pub proof fn law_version_text_requests_the_version(v: SemVer, platform: Platform, exists: bool)
    requires
        v.is_plain(),
    ensures
        rust_request(v.text(), platform, exists) == Some(
            RustRequestView::MajorMinorPatch(v.major, v.minor, v.patch),
        ),
{
    version::law_version_text_has_its_numbers(v);
    reveal_strlit("stable");
    reveal_strlit("nightly");
    reveal_strlit("beta");
}

/// What a text asks for. Nothing asks for any version, and three words name channels. One, two
/// or three numbers ask for the versions that start with them, in this order. What is no list of
/// numbers is a requirement if it can be read as one, else the path of a file that is there, and
/// else nothing at all.
pub proof fn law_text_asks_for(s: Seq<char>, platform: Platform, exists: bool)
    ensures
        rust_request(""@, platform, exists) == Some(RustRequestView::Any),
        rust_request("stable"@, platform, exists) == Some(RustRequestView::Channel("stable"@)),
        rust_request("beta"@, platform, exists) == Some(RustRequestView::Channel("beta"@)),
        rust_request("nightly"@, platform, exists) == Some(RustRequestView::Channel("nightly"@)),
        s.len() > 0 && s != "stable"@ && s != "beta"@ && s != "nightly"@ ==> match version::numbers_of(
            s,
        ) {
            Some(n) if 1 <= n.len() <= 3 => rust_request(s, platform, exists) == Some(
                if n.len() == 1 {
                    RustRequestView::Major(n[0])
                } else if n.len() == 2 {
                    RustRequestView::MajorMinor(n[0], n[1])
                } else {
                    RustRequestView::MajorMinorPatch(n[0], n[1], n[2])
                },
            ),
            _ => rust_request(s, platform, exists) == if version::is_version_req(s) {
                Some(RustRequestView::Range(s, s))
            } else if exists {
                Some(
                    RustRequestView::Path(
                        PathView { platform, bytes: vstd::utf8::encode_utf8(s) },
                    ),
                )
            } else {
                None
            },
        },
{
    reveal_strlit("");
    reveal_strlit("stable");
    reveal_strlit("beta");
    reveal_strlit("nightly");
}

/// Which versions answer a request, and where: those with the numbers that it names, those that
/// meet its requirement, and that of the file that it names.
pub proof fn law_version_answers(
    version: SemVer,
    at: Option<PathView>,
    a: u64,
    b: u64,
    c: u64,
    path: PathView,
    req: Seq<char>,
    s: Seq<char>,
)
    ensures
        rust_matches(RustRequestView::Any, version, at),
        rust_matches(RustRequestView::Major(a), version, at) <==> version.major == a,
        rust_matches(RustRequestView::MajorMinor(a, b), version, at) <==> version.major == a
            && version.minor == b,
        rust_matches(RustRequestView::MajorMinorPatch(a, b, c), version, at) <==> version.major
            == a && version.minor == b && version.patch == c,
        rust_matches(RustRequestView::Path(path), version, None) == false,
        rust_matches(RustRequestView::Path(path), version, Some(path)),
        at matches Some(file) ==> (rust_matches(RustRequestView::Path(path), version, at)
            <==> file.same(path)),
        rust_matches(RustRequestView::Range(req, s), version, at) <==> version::meets(req, version),
{
}

/// Which environments satisfy a request. For a channel only the channel counts that was noted,
/// and not the version. Any version is satisfied by the stable channel and by every version from
/// 1 on. For all other requests the version and the compiler have to answer.
pub proof fn law_environment_satisfies(
    request: RustRequestView,
    channel: Seq<char>,
    info: InstallInfoView,
)
    ensures
        ({
            let noted = hook::extra_of(info.extras, "rust_channel"@);
            &&& rust_satisfied(RustRequestView::Channel(channel), info) <==> noted == Some(channel)
            &&& rust_satisfied(RustRequestView::Any, info) <==> noted == Some("stable"@)
                || info.language_version.major >= 1
            &&& !(request is Any || request is Channel) ==> (rust_satisfied(request, info)
                <==> rust_matches(request, info.language_version, Some(info.toolchain)))
        }),
{
}

/// A version is read with or without space around it.
pub proof fn law_space_around_a_version_does_not_matter(
    before: Seq<char>,
    written: Seq<char>,
    after: Seq<char>,
)
    requires
        forall|i: int| 0 <= i < before.len() ==> Class::Space.has(#[trigger] before[i]),
        forall|i: int| 0 <= i < after.len() ==> Class::Space.has(#[trigger] after[i]),
        written.len() > 0,
        !Class::Space.has(written[0]) && !Class::Space.has(written.last()),
    ensures
        rust_version(before + written + after) == version::parsed_version(written),
{
    strings::law_trimming_takes_the_ends(before, written, after, Class::Space);
}

} // verus!
