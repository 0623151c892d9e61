//! Versions of Deno and requests for them.

use vstd::prelude::*;

use crate::hook::InstallInfo;
use crate::path::buf;
use crate::path::buf::PathBuf;
use crate::path::model::PathView;
use crate::platform::Platform;
use crate::strings;
use crate::text;
use crate::text::Class;
use crate::version;
use crate::version::{InvalidVersion, RequestError, SemVer, Version, VersionReq};

verus! {

/// A version of Deno.
#[derive(Debug, PartialEq, Eq)]
pub struct DenoVersion(pub Version);

impl View for DenoVersion {
    type V = SemVer;

    open spec fn view(&self) -> SemVer {
        self.0@
    }
}

impl Default for DenoVersion {
    fn default() -> (r: DenoVersion)
        ensures
            r@ == (SemVer {
                major: 0,
                minor: 0,
                patch: 0,
                pre: Seq::empty(),
                build: Seq::empty(),
            }),
    {
        DenoVersion(Version::new(0, 0, 0))
    }
}

/// The part of a text in which a version of Deno stands: behind a `v`, without the
/// space around it.
pub open spec fn version_part(s: Seq<char>) -> Seq<char> {
    text::trim(
        if text::begins(s, "v"@) {
            s.skip(1)
        } else {
            s
        },
        Class::Space,
    )
}

/// The version of Deno that a text names.
pub open spec fn deno_version(s: Seq<char>) -> Option<SemVer> {
    version::parsed_version(version_part(s))
}

impl DenoVersion {
    /// Reads a version such as `1.40.0` or `v1.40.0`.
    pub fn from_str(string: &str) -> (r: Result<DenoVersion, InvalidVersion>)
        ensures
            match r {
                Ok(v) => deno_version(string@) == Some(v@) && version_part(string@) == v@.text(),
                Err(e) => {
                    &&& deno_version(string@) is None
                    &&& e.text@ == version_part(string@)
                    &&& e.message@ == version::version_problem(version_part(string@))
                },
            },
    {
        proof {
            reveal_strlit("v");
        }
        let rest = match strings::strip_prefix(string, "v") {
            Some(rest) => rest,
            None => string.to_owned(),
        };
        match Version::parse(strings::trim(rest.as_str(), Class::Space).as_str()) {
            Ok(v) => Ok(DenoVersion(v)),
            Err(e) => Err(e),
        }
    }

    /// A copy of the version.
    pub fn duplicate(&self) -> (r: DenoVersion)
        ensures
            r@ == self@,
    {
        DenoVersion(self.0.duplicate())
    }

    /// The version as it is written.
    pub fn to_string(&self) -> (r: String)
        ensures
            r@ == self@.text(),
            version::parsed_version(r@) == Some(self@),
    {
        self.0.to_string()
    }
}

/// The `language_version` of a hook that runs with Deno:
/// - `default`: a Deno of the system, or the latest version
/// - `system`: a Deno of the system
/// - `deno` or `deno@latest`: the same as `default`
/// - `1.40` or `deno@1.40`: the latest 1.40.x
/// - `1.40.0` or `deno@1.40.0`: this version
/// - `>= 1.40, < 1.50`: the latest version in the range
/// - `local/path/to/deno`: the executable file at this path
#[derive(Debug, PartialEq)]
pub enum DenoRequest {
    Any,
    Major(u64),
    MajorMinor(u64, u64),
    MajorMinorPatch(u64, u64, u64),
    Path(PathBuf),
    Range(VersionReq, String),
}

/// What a request asks for.
pub enum DenoRequestView {
    Any,
    Major(u64),
    MajorMinor(u64, u64),
    MajorMinorPatch(u64, u64, u64),
    Path(PathView),
    Range(Seq<char>, Seq<char>),
}

impl View for DenoRequest {
    type V = DenoRequestView;

    open spec fn view(&self) -> DenoRequestView {
        match self {
            DenoRequest::Any => DenoRequestView::Any,
            DenoRequest::Major(a) => DenoRequestView::Major(*a),
            DenoRequest::MajorMinor(a, b) => DenoRequestView::MajorMinor(*a, *b),
            DenoRequest::MajorMinorPatch(a, b, c) => DenoRequestView::MajorMinorPatch(*a, *b, *c),
            DenoRequest::Path(path) => DenoRequestView::Path(path@),
            DenoRequest::Range(req, text) => DenoRequestView::Range(req@, text@),
        }
    }
}

/// The request that one, two or three numbers make.
pub open spec fn numbers_request(numbers: Seq<u64>) -> Option<DenoRequestView> {
    if numbers.len() == 1 {
        Some(DenoRequestView::Major(numbers[0]))
    } else if numbers.len() == 2 {
        Some(DenoRequestView::MajorMinor(numbers[0], numbers[1]))
    } else if numbers.len() == 3 {
        Some(DenoRequestView::MajorMinorPatch(numbers[0], numbers[1], numbers[2]))
    } else {
        None
    }
}

/// The request that a text such as `1.40` makes.
pub open spec fn version_numbers(s: Seq<char>) -> Option<DenoRequestView> {
    match version::numbers_of(s) {
        Some(numbers) => numbers_request(numbers),
        None => None,
    }
}

/// The part of a request that says which version: what stands behind `deno@` or `deno`.
pub open spec fn requested_part(s: Seq<char>) -> Seq<char> {
    if text::begins(s, "deno@"@) {
        s.skip(5)
    } else if text::begins(s, "deno"@) && s.len() > 4 {
        s.skip(4)
    } else {
        s
    }
}

/// The request that a text makes. `exists` says whether there is a file at the path
/// that the text names.
pub open spec fn deno_request(s: Seq<char>, platform: Platform, exists: bool) -> Option<
    DenoRequestView,
> {
    let part = requested_part(s);
    if s.len() == 0 || s == "deno"@ || text::same_ignoring_case(part, "latest"@) {
        Some(DenoRequestView::Any)
    } else if version_numbers(part) is Some {
        version_numbers(part)
    } else if version::is_version_req(part) {
        Some(DenoRequestView::Range(part, s))
    } else if exists {
        Some(
            DenoRequestView::Path(PathView { platform, bytes: vstd::utf8::encode_utf8(s) }),
        )
    } else {
        None
    }
}

/// Whether a version, in a toolchain at a path, is what was asked for.
pub open spec fn deno_matches(
    request: DenoRequestView,
    version: SemVer,
    toolchain: Option<PathView>,
) -> bool {
    match request {
        DenoRequestView::Any => true,
        DenoRequestView::Major(major) => version.major == major,
        DenoRequestView::MajorMinor(major, minor) => version.major == major && version.minor
            == minor,
        DenoRequestView::MajorMinorPatch(major, minor, patch) => version.major == major
            && version.minor == minor && version.patch == patch,
        DenoRequestView::Path(path) => toolchain matches Some(at) && at.same(path),
        DenoRequestView::Range(req, _) => version::meets(req, version),
    }
}

impl DenoRequest {
    /// Reads a request. `exists` says whether there is a file at the path that the text
    /// names.
    pub fn from_str(string: &str, platform: Platform, exists: bool) -> (r: Result<
        DenoRequest,
        RequestError,
    >)
        ensures
            match r {
                Ok(request) => deno_request(string@, platform, exists) == Some(request@),
                Err(e) => deno_request(string@, platform, exists) is None && e.request() == string@,
            },
    {
        proof {
            reveal_strlit("deno@");
            reveal_strlit("deno");
        }
        if strings::same(string, "") {
            proof {
                reveal_strlit("");
            }
            return Ok(DenoRequest::Any);
        }
        proof {
            if string@.len() == 0 {
                reveal_strlit("");
                assert(string@ =~= ""@);
            }
        }
        let part: String = match strings::strip_prefix(string, "deno@") {
            Some(rest) => rest,
            None => match strings::strip_prefix(string, "deno") {
                Some(rest) => if strings::same(rest.as_str(), "") {
                    string.to_owned()
                } else {
                    rest
                },
                None => string.to_owned(),
            },
        };
        proof {
            reveal_strlit("");
            assert(part@ == requested_part(string@)) by {
                if text::begins(string@, "deno"@) && !text::begins(string@, "deno@"@) {
                    let rest = string@.skip(4);
                    if string@.len() == 4 {
                        assert(rest =~= ""@);
                    }
                }
            }
            if text::begins(string@, "deno"@) && part@ == string@ {
                assert(string@.len() == 4);
                assert(string@ =~= string@.take(4));
            }
            if string@ == "deno"@ {
                assert(string@ =~= string@.take(4));
            }
        }
        if strings::starts_with(string, "deno") && strings::same(part.as_str(), string) {
            return Ok(DenoRequest::Any);
        }
        if strings::same_ignoring_case(part.as_str(), "latest") {
            return Ok(DenoRequest::Any);
        }
        match DenoRequest::parse_version_numbers(part.as_str(), string) {
            Ok(request) => Ok(request),
            Err(_) => match VersionReq::parse(part.as_str()) {
                Ok(req) => Ok(DenoRequest::Range(req, string.to_owned())),
                Err(_) => if exists {
                    Ok(DenoRequest::Path(PathBuf::new(platform, string)))
                } else {
                    Err(RequestError::InvalidVersion(string.to_owned()))
                },
            },
        }
    }

    /// A copy of the request.
    pub fn duplicate(&self) -> (r: DenoRequest)
        ensures
            r@ == self@,
    {
        match self {
            DenoRequest::Any => DenoRequest::Any,
            DenoRequest::Major(a) => DenoRequest::Major(*a),
            DenoRequest::MajorMinor(a, b) => DenoRequest::MajorMinor(*a, *b),
            DenoRequest::MajorMinorPatch(a, b, c) => DenoRequest::MajorMinorPatch(*a, *b, *c),
            DenoRequest::Path(path) => DenoRequest::Path(path.duplicate()),
            DenoRequest::Range(req, text) => DenoRequest::Range(req.duplicate(), text.clone()),
        }
    }

    /// Tells whether any version will do.
    pub fn is_any(&self) -> (r: bool)
        ensures
            r == (self@ is Any),
    {
        matches!(self, DenoRequest::Any)
    }

    /// Reads one, two or three numbers.
    pub fn parse_version_numbers(version_str: &str, original_request: &str) -> (r: Result<
        DenoRequest,
        RequestError,
    >)
        ensures
            match r {
                Ok(request) => version_numbers(version_str@) == Some(request@),
                Err(e) => version_numbers(version_str@) is None && e.request()
                    == original_request@,
            },
    {
        match version::try_into_u64_slice(version_str) {
            Err(_) => Err(RequestError::InvalidVersion(original_request.to_owned())),
            Ok(parts) => if parts.len() == 1 {
                Ok(DenoRequest::Major(parts[0]))
            } else if parts.len() == 2 {
                Ok(DenoRequest::MajorMinor(parts[0], parts[1]))
            } else if parts.len() == 3 {
                Ok(DenoRequest::MajorMinorPatch(parts[0], parts[1], parts[2]))
            } else {
                Err(RequestError::InvalidVersion(original_request.to_owned()))
            },
        }
    }

    /// Tells whether an environment that was installed has what is asked for.
    pub fn satisfied_by(&self, install_info: &InstallInfo) -> (r: bool)
        ensures
            r == deno_matches(
                self@,
                install_info.language_version@,
                Some(install_info.toolchain@),
            ),
    {
        self.matches(
            &DenoVersion(install_info.language_version.duplicate()),
            Some(&install_info.toolchain),
        )
    }

    /// Tells whether a version, in a toolchain at a path, is what was asked for.
    pub fn matches(&self, version: &DenoVersion, toolchain: Option<&PathBuf>) -> (r: bool)
        ensures
            r == deno_matches(self@, version@, buf::optional_path(toolchain)),
    {
        match self {
            DenoRequest::Any => true,
            DenoRequest::Major(major) => version.0.major() == *major,
            DenoRequest::MajorMinor(major, minor) => version.0.major() == *major
                && version.0.minor() == *minor,
            DenoRequest::MajorMinorPatch(major, minor, patch) => version.0.major() == *major
                && version.0.minor() == *minor && version.0.patch() == *patch,
            DenoRequest::Path(path) => match toolchain {
                Some(at) => at.same(path),
                None => false,
            },
            DenoRequest::Range(req, _) => req.matches(&version.0),
        }
    }
}

/// A request with more numbers asks for fewer versions, and any version answers a
/// request for any.
pub proof fn law_more_numbers_ask_for_less(
    major: u64,
    minor: u64,
    patch: u64,
    version: SemVer,
    toolchain: Option<PathView>,
)
    ensures
        deno_matches(DenoRequestView::MajorMinorPatch(major, minor, patch), version, toolchain)
            ==> deno_matches(DenoRequestView::MajorMinor(major, minor), version, toolchain),
        deno_matches(DenoRequestView::MajorMinor(major, minor), version, toolchain)
            ==> deno_matches(DenoRequestView::Major(major), version, toolchain),
        deno_matches(DenoRequestView::Major(major), version, toolchain) ==> deno_matches(
            DenoRequestView::Any,
            version,
            toolchain,
        ),
{
}

/// The text of a version, without a pre-release and build metadata, is a request for the
/// versions with its three numbers.
pub proof fn law_version_text_requests_the_version(v: SemVer, platform: Platform, exists: bool)
    requires
        v.is_plain(),
    ensures
        deno_request(v.text(), platform, exists) == Some(
            DenoRequestView::MajorMinorPatch(v.major, v.minor, v.patch),
        ),
{
    let s = v.text();
    version::law_version_text_has_its_numbers(v);
    reveal_strlit("deno@");
    reveal_strlit("deno");
    reveal_strlit("latest");
    if text::begins(s, "deno@"@) {
        assert(s.take(5)[0] == s[0]);
    }
    if text::begins(s, "deno"@) {
        assert(s.take(4)[0] == s[0]);
    }
    if text::same_ignoring_case(s, "latest"@) {
        let low = s.map_values(|c: char| text::ascii_lower(c));
        let want = "latest"@.map_values(|c: char| text::ascii_lower(c));
        assert(low[0] == text::ascii_lower(s[0]));
        assert(want[0] == text::ascii_lower('l'));
    }
}

/// What a text asks for. Nothing, `deno` and `latest`, in whatever case, ask for any version.
/// One, two or three numbers ask for the versions that start with them, in this order. What is
/// no list of numbers is a requirement if it can be read as one, else the path of a file that
/// is there, and else nothing at all. `deno@` or `deno` before any of these says nothing more,
/// but belongs to the path.
pub proof fn law_text_asks_for(
    prefix: Seq<char>,
    part: Seq<char>,
    platform: Platform,
    exists: bool,
)
    requires
        prefix == ""@ || prefix == "deno@"@ || prefix == "deno"@,
        part.len() > 0,
        prefix == ""@ ==> !text::begins(part, "deno"@),
        prefix == "deno"@ ==> part[0] != '@',
    ensures
        deno_request(""@, platform, exists) == Some(DenoRequestView::Any),
        deno_request("deno"@, platform, exists) == Some(DenoRequestView::Any),
        text::same_ignoring_case(part, "latest"@) ==> deno_request(prefix + part, platform, exists)
            == Some(DenoRequestView::Any),
        !text::same_ignoring_case(part, "latest"@) ==> match version::numbers_of(part) {
            Some(n) if 1 <= n.len() <= 3 => deno_request(prefix + part, platform, exists) == Some(
                if n.len() == 1 {
                    DenoRequestView::Major(n[0])
                } else if n.len() == 2 {
                    DenoRequestView::MajorMinor(n[0], n[1])
                } else {
                    DenoRequestView::MajorMinorPatch(n[0], n[1], n[2])
                },
            ),
            _ => deno_request(prefix + part, platform, exists) == if version::is_version_req(part) {
                Some(DenoRequestView::Range(part, prefix + part))
            } else if exists {
                Some(
                    DenoRequestView::Path(
                        PathView { platform, bytes: vstd::utf8::encode_utf8(prefix + part) },
                    ),
                )
            } else {
                None
            },
        },
{
    reveal_strlit("");
    reveal_strlit("deno");
    reveal_strlit("deno@");
    let s = prefix + part;
    if prefix == ""@ {
        assert(s =~= part);
        if text::begins(s, "deno@"@) {
            assert(s.take(4) =~= s.take(5).take(4));
            assert("deno@"@.take(4) =~= "deno"@);
        }
        if s == "deno"@ {
            assert(s.take(4) =~= "deno"@);
        }
    } else if prefix == "deno@"@ {
        assert(s.take(5) =~= "deno@"@);
        assert(s.skip(5) =~= part);
    } else {
        assert(s.take(4) =~= "deno"@);
        assert(s.skip(4) =~= part);
        assert(s[4] == part[0]);
        if text::begins(s, "deno@"@) {
            assert(s.take(5)[4] == "deno@"@[4]);
        }
    }
    assert(requested_part(s) == part);
}

/// Which versions answer a request, and where: those with the numbers that it names, those that
/// meet its requirement, and that of the file that it names.
pub proof fn law_version_answers(
    version: SemVer,
    at: Option<PathView>,
    a: u64,
    b: u64,
    c: u64,
    path: PathView,
    req: Seq<char>,
    s: Seq<char>,
)
    ensures
        deno_matches(DenoRequestView::Any, version, at),
        deno_matches(DenoRequestView::Major(a), version, at) <==> version.major == a,
        deno_matches(DenoRequestView::MajorMinor(a, b), version, at) <==> version.major == a
            && version.minor == b,
        deno_matches(DenoRequestView::MajorMinorPatch(a, b, c), version, at) <==> version.major
            == a && version.minor == b && version.patch == c,
        deno_matches(DenoRequestView::Path(path), version, None) == false,
        deno_matches(DenoRequestView::Path(path), version, Some(path)),
        at matches Some(file) ==> (deno_matches(DenoRequestView::Path(path), version, at)
            <==> file.same(path)),
        deno_matches(DenoRequestView::Range(req, s), version, at) <==> version::meets(req, version),
{
}

/// A version is read with or without a `v` before it, and with or without space around it.
pub proof fn law_tag_names_its_version(
    before: Seq<char>,
    written: Seq<char>,
    after: Seq<char>,
)
    requires
        forall|i: int| 0 <= i < before.len() ==> Class::Space.has(#[trigger] before[i]),
        forall|i: int| 0 <= i < after.len() ==> Class::Space.has(#[trigger] after[i]),
        written.len() > 0,
        !Class::Space.has(written[0]) && !Class::Space.has(written.last()),
        written[0] != 'v',
    ensures
        deno_version(before + written + after) == version::parsed_version(written),
        deno_version("v"@ + (before + written + after)) == version::parsed_version(written),
{
    reveal_strlit("v");
    let all = before + written + after;
    strings::law_trimming_takes_the_ends(before, written, after, Class::Space);
    let tag = "v"@ + all;
    assert(tag.take(1) =~= "v"@);
    assert(tag.skip(1) =~= all);
    if text::begins(all, "v"@) {
        assert(all.take(1)[0] == all[0]);
        if before.len() > 0 {
            assert(all[0] == before[0]);
        } else {
            assert(all[0] == written[0]);
        }
    }
}

} // verus!
