//! Finding or downloading a Deno that answers a request.

use vstd::prelude::*;

use crate::action;
use crate::action::{
    Action, ActionView, Command, CommandView, Entry, EntryKind, EntryView, Failure, Outcome,
    OutcomeView, Step, StepView, Word, WordView,
};
use crate::deno::version as deno_version;
use crate::deno::version::{DenoRequest, DenoRequestView, DenoVersion};
use crate::path::buf;
use crate::path::buf::PathBuf;
use crate::path::model::PathView;
use crate::path::ops;
use crate::platform::{Architecture, OperatingSystem, Platform};
use crate::strings;
use crate::text;
use crate::text::Class;
use crate::version;
use crate::version::{SemVer, Version};

verus! {

/// The directory of the executable files below a prefix: on Windows the prefix itself.
pub open spec fn bin_of(prefix: PathView) -> PathView {
    match prefix.platform {
        Platform::Windows => prefix,
        Platform::Unix => prefix.child("bin"@),
    }
}

/// The directory of the executable files below a prefix.
pub fn bin_dir(prefix: &PathBuf) -> (r: PathBuf)
    ensures
        r@ == bin_of(prefix@),
{
    match prefix.platform {
        Platform::Windows => prefix.duplicate(),
        Platform::Unix => prefix.join("bin"),
    }
}

/// A Deno that was found.
#[derive(Debug, PartialEq)]
pub struct DenoResult {
    pub(crate) deno: PathBuf,
    pub(crate) version: DenoVersion,
}

/// What is known of a Deno.
pub struct DenoResultView {
    pub deno: PathView,
    pub version: SemVer,
}

impl View for DenoResult {
    type V = DenoResultView;

    closed spec fn view(&self) -> DenoResultView {
        DenoResultView { deno: self.deno@, version: self.version@ }
    }
}

/// The Deno that may be there.
pub open spec fn optional_view(deno: Option<DenoResult>) -> Option<DenoResultView> {
    match deno {
        Some(deno) => Some(deno@),
        None => None,
    }
}

/// The Deno at a path, of a version that is not known yet.
pub open spec fn deno_at(deno: PathView) -> DenoResultView {
    DenoResultView {
        deno,
        version: SemVer { major: 0, minor: 0, patch: 0, pre: Seq::empty(), build: Seq::empty() },
    }
}

/// The path of the Deno that is installed in a directory.
pub open spec fn deno_in(dir: PathView) -> PathView {
    bin_of(dir).program("deno"@)
}

/// The command that asks a Deno for its version.
pub open spec fn ask_version(deno: PathView) -> CommandView {
    CommandView::new(WordView::Path(deno), "deno --version"@).text("--version"@)
}

/// The version in what `deno --version` wrote, such as
/// `deno 1.40.0 (release, x86_64-unknown-linux-gnu)`: its second word.
pub open spec fn version_in_output(output: Seq<u8>) -> Result<SemVer, Seq<Seq<char>>> {
    let words = text::words(ops::lossy_text(output), Class::Space);
    if words.len() < 2 {
        Err(seq!["Failed to get Deno version"@])
    } else {
        match deno_version::deno_version(words[1]) {
            Some(v) => Ok(v),
            None => Err(
                seq![
                    "Failed to parse Deno version"@,
                    version::version_problem(deno_version::version_part(words[1])),
                ],
            ),
        }
    }
}

/// Reads the version in what `deno --version` wrote.
pub fn read_version(output: &Vec<u8>) -> (r: Result<DenoVersion, Failure>)
    ensures
        match r {
            Ok(v) => version_in_output(output@) == Ok::<SemVer, Seq<Seq<char>>>(v@),
            Err(e) => version_in_output(output@) == Err::<SemVer, Seq<Seq<char>>>(e@),
        },
{
    let text = ops::decode_lossy(output);
    let words = strings::words(text.as_str(), Class::Space);
    proof {
        assert(text::texts(words@).len() == words@.len());
    }
    if words.len() < 2 {
        return Err(Failure::of("Failed to get Deno version"));
    }
    proof {
        assert(text::texts(words@)[1] == words@[1]@);
    }
    match DenoVersion::from_str(words[1].as_str()) {
        Ok(v) => Ok(v),
        Err(e) => {
            let failure = Failure::new(e.message).within(
                "Failed to parse Deno version".to_owned(),
            );
            proof {
                assert(failure@ =~= seq!["Failed to parse Deno version"@, e.message@]);
            }
            Err(failure)
        },
    }
}

impl DenoResult {
    /// The Deno at a path, of a version that is not known yet.
    pub fn from_executable(deno: PathBuf) -> (r: DenoResult)
        ensures
            r@ == deno_at(deno@),
    {
        DenoResult { deno, version: DenoVersion::default() }
    }

    /// The Deno that is installed in a directory, of a version that is not known yet.
    pub fn from_dir(dir: &PathBuf) -> (r: DenoResult)
        ensures
            r@ == deno_at(deno_in(dir@)),
    {
        DenoResult::from_executable(bin_dir(dir).program("deno"))
    }

    /// The Deno with its version.
    pub fn with_version(self, version: DenoVersion) -> (r: DenoResult)
        ensures
            r@ == (DenoResultView { version: version@, ..self@ }),
    {
        DenoResult { deno: self.deno, version }
    }

    /// The executable file.
    pub fn deno(&self) -> (r: &PathBuf)
        ensures
            r@ == self@.deno,
    {
        &self.deno
    }

    /// The version.
    pub fn version(&self) -> (r: &DenoVersion)
        ensures
            r@ == self@.version,
    {
        &self.version
    }

    /// The path and the version, as they are shown to users.
    pub fn to_string(&self) -> (r: String)
        ensures
            r@ == action::shown(self@.deno) + "@"@ + self@.version.text(),
    {
        let mut out = self.deno.to_string_lossy();
        out.append("@");
        out.append(self.version.to_string().as_str());
        out
    }

    /// The command that asks for the version.
    pub fn version_command(&self) -> (r: Command)
        ensures
            r@ == ask_version(self@.deno),
    {
        Command::new(Word::path(&self.deno), "deno --version").text("--version")
    }

    /// The Deno with the version that it told, or why it cannot be read.
    pub fn fill_version(self, output: &Vec<u8>) -> (r: Result<DenoResult, Failure>)
        ensures
            match r {
                Ok(deno) => version_in_output(output@) matches Ok(v) && deno@ == (DenoResultView {
                    version: v,
                    ..self@
                }),
                Err(e) => version_in_output(output@) == Err::<SemVer, Seq<Seq<char>>>(e@),
            },
    {
        match read_version(output) {
            Ok(v) => Ok(self.with_version(v)),
            Err(e) => Err(e),
        }
    }
}

/// The version of an installed Deno that answers the request: the name of its directory.
pub open spec fn installed_version(request: DenoRequestView, entry: EntryView) -> Option<SemVer> {
    if entry.kind is Dir {
        match deno_version::deno_version(ops::lossy_text(entry.name.bytes)) {
            Some(v) => if deno_version::deno_matches(request, v, Some(entry.path)) {
                Some(v)
            } else {
                None
            },
            None => None,
        }
    } else {
        None
    }
}

/// The versions of the installed Denos that answer the request.
pub open spec fn installed_versions(request: DenoRequestView, entries: Seq<EntryView>) -> Seq<
    Option<SemVer>,
> {
    entries.map_values(|e: EntryView| installed_version(request, e))
}

/// Which of the installed Denos a request can be given: the newest that answers it.
pub open spec fn is_installed_choice(
    request: DenoRequestView,
    entries: Seq<EntryView>,
    found: Option<DenoResultView>,
) -> bool {
    let candidates = installed_versions(request, entries);
    exists|choice: Option<int>| #[trigger]
        version::is_newest_of(candidates, choice) && found == match choice {
            Some(i) => Some(
                DenoResultView { deno: deno_in(entries[i].path), version: candidates[i]->0 },
            ),
            None => None,
        }
}

/// The version of an installed Deno that answers the request.
fn candidate(request: &DenoRequest, entry: &Entry) -> (r: Option<Version>)
    ensures
        match r {
            Some(v) => installed_version(request@, entry@) == Some(v@),
            None => installed_version(request@, entry@) is None,
        },
{
    if entry.kind != EntryKind::Dir {
        return None;
    }
    match DenoVersion::from_str(entry.name.to_string_lossy().as_str()) {
        Ok(v) => if request.matches(&v, Some(&entry.path)) {
            Some(v.0)
        } else {
            None
        },
        Err(_) => None,
    }
}

/// The versions that the tags name, in order, without the tags that name none.
pub open spec fn tag_versions(tags: Seq<Seq<char>>) -> Seq<SemVer>
    decreases tags.len(),
{
    if tags.len() == 0 {
        Seq::empty()
    } else {
        let before = tag_versions(tags.drop_last());
        match deno_version::deno_version(tags.last()) {
            Some(v) => before.push(v),
            None => before,
        }
    }
}

/// The versions of Deno that the tags of its releases name, newest first. It fails where
/// there are none.
pub fn list_remote_versions(tags: &Vec<String>) -> (r: Result<Vec<Version>, Failure>)
    ensures
        match r {
            Ok(versions) => tag_versions(text::texts(tags@)).len() > 0
                && version::is_sorted_from(
                tag_versions(text::texts(tags@)),
                version::version_views(versions@),
            ),
            Err(e) => tag_versions(text::texts(tags@)).len() == 0 && e@
                == seq!["No Deno versions found on GitHub"@],
        },
{
    let ghost all = text::texts(tags@);
    let mut versions: Vec<Version> = Vec::new();
    let mut i: usize = 0;
    proof {
        assert(all.take(0) =~= Seq::<Seq<char>>::empty());
        assert(version::version_views(versions@) =~= Seq::<SemVer>::empty());
    }
    while i < tags.len()
        invariant
            i <= tags@.len(),
            all == text::texts(tags@),
            version::version_views(versions@) == tag_versions(all.take(i as int)),
        decreases tags@.len() - i,
    {
        let ghost before = versions@;
        proof {
            assert(all[i as int] == tags@[i as int]@);
            assert(all.take(i + 1).drop_last() =~= all.take(i as int));
            assert(all.take(i + 1).last() == all[i as int]);
        }
        if let Ok(v) = DenoVersion::from_str(tags[i].as_str()) {
            versions.push(v.0);
            proof {
                assert(version::version_views(versions@) =~= version::version_views(before).push(
                    v@,
                ));
            }
        }
        i = i + 1;
    }
    proof {
        assert(all.take(i as int) =~= all);
        assert(version::version_views(versions@).len() == versions@.len());
    }
    if versions.len() == 0 {
        return Err(Failure::of("No Deno versions found on GitHub"));
    }
    Ok(version::sort_newest_first(&versions))
}

/// The first of the versions that answers the request.
pub open spec fn first_matching(request: DenoRequestView, versions: Seq<SemVer>) -> Option<SemVer>
    decreases versions.len(),
{
    if versions.len() == 0 {
        None
    } else if deno_version::deno_matches(request, versions[0], None) {
        Some(versions[0])
    } else {
        first_matching(request, versions.drop_first())
    }
}

/// Which version the tags of the releases can give a request: the first that answers it
/// when the newest come first.
pub open spec fn is_remote_choice(
    request: DenoRequestView,
    tags: Seq<Seq<char>>,
    r: Result<SemVer, Seq<Seq<char>>>,
) -> bool {
    if tag_versions(tags).len() == 0 {
        r == Err::<SemVer, Seq<Seq<char>>>(
            seq!["Failed to list remote versions"@, "No Deno versions found on GitHub"@],
        )
    } else {
        exists|sorted: Seq<SemVer>| #[trigger]
            version::is_sorted_from(tag_versions(tags), sorted) && r == match first_matching(
                request,
                sorted,
            ) {
                Some(v) => Ok::<SemVer, Seq<Seq<char>>>(v),
                None => Err(seq!["Version not found on remote"@]),
            }
    }
}

/// Versions that do not answer the request are passed over.
proof fn lemma_first_matching_from(request: DenoRequestView, versions: Seq<SemVer>, i: int)
    requires
        0 <= i <= versions.len(),
        forall|k: int|
            0 <= k < i ==> !deno_version::deno_matches(request, #[trigger] versions[k], None),
    ensures
        first_matching(request, versions) == first_matching(request, versions.skip(i)),
    decreases i,
{
    if i == 0 {
        assert(versions.skip(0) =~= versions);
    } else {
        let rest = versions.drop_first();
        assert forall|k: int| 0 <= k < i - 1 implies !deno_version::deno_matches(
            request,
            #[trigger] rest[k],
            None,
        ) by {
            assert(rest[k] == versions[k + 1]);
        }
        assert(!deno_version::deno_matches(request, versions[0], None));
        lemma_first_matching_from(request, rest, i - 1);
        assert(rest.skip(i - 1) =~= versions.skip(i));
    }
}

/// The version that the tags of the releases give a request.
pub fn resolve_version(request: &DenoRequest, tags: &Vec<String>) -> (r: Result<
    DenoVersion,
    Failure,
>)
    ensures
        is_remote_choice(
            request@,
            text::texts(tags@),
            match r {
                Ok(v) => Ok(v@),
                Err(e) => Err(e@),
            },
        ),
{
    match list_remote_versions(tags) {
        Err(failure) => {
            let failure = failure.within("Failed to list remote versions".to_owned());
            proof {
                assert(failure@ =~= seq![
                    "Failed to list remote versions"@,
                    "No Deno versions found on GitHub"@,
                ]);
            }
            Err(failure)
        },
        Ok(versions) => {
            let ghost sorted = version::version_views(versions@);
            let mut i: usize = 0;
            while i < versions.len()
                invariant
                    i <= versions@.len(),
                    sorted == version::version_views(versions@),
                    tag_versions(text::texts(tags@)).len() > 0,
                    version::is_sorted_from(tag_versions(text::texts(tags@)), sorted),
                    forall|k: int|
                        0 <= k < i ==> !deno_version::deno_matches(
                            request@,
                            #[trigger] sorted[k],
                            None,
                        ),
                decreases versions@.len() - i,
            {
                let version = DenoVersion(versions[i].duplicate());
                proof {
                    assert(sorted[i as int] == version@);
                }
                if request.matches(&version, None) {
                    proof {
                        lemma_first_matching_from(request@, sorted, i as int);
                        assert(sorted.skip(i as int)[0] == sorted[i as int]);
                    }
                    return Ok(version);
                }
                i = i + 1;
            }
            proof {
                lemma_first_matching_from(request@, sorted, i as int);
                assert(sorted.skip(i as int) =~= Seq::<SemVer>::empty());
            }
            Err(Failure::of("Version not found on remote"))
        },
    }
}

/// The name of an architecture in release files.
pub open spec fn arch_name(architecture: Architecture) -> Option<Seq<char>> {
    match architecture {
        Architecture::X86_64 => Some("x86_64"@),
        Architecture::Aarch64 => Some("aarch64"@),
        Architecture::Other => None,
    }
}

/// The name of an operating system in release files.
pub open spec fn os_name(os: OperatingSystem) -> Option<Seq<char>> {
    match os {
        OperatingSystem::Darwin => Some("apple-darwin"@),
        OperatingSystem::Linux => Some("unknown-linux-gnu"@),
        OperatingSystem::Windows => Some("pc-windows-msvc"@),
        OperatingSystem::Other => None,
    }
}

/// The name of a release file.
pub open spec fn release_file(arch: Seq<char>, os: Seq<char>) -> Seq<char> {
    "deno-"@ + arch + "-"@ + os + ".zip"@
}

/// Where a release file is.
pub open spec fn release_url(version: SemVer, file: Seq<char>) -> Seq<char> {
    "https://github.com/denoland/deno/releases/download/v"@ + version.text() + "/"@ + file
}

/// Where the release of a version for a machine is and what it is called, or why there is
/// none.
pub open spec fn release(version: SemVer, architecture: Architecture, os: OperatingSystem) -> Result<
    (Seq<char>, Seq<char>),
    Seq<Seq<char>>,
> {
    match (arch_name(architecture), os_name(os)) {
        (None, _) => Err(seq!["Unsupported architecture for Deno"@]),
        (Some(_), None) => Err(seq!["Unsupported OS for Deno"@]),
        (Some(arch), Some(os)) => Ok(
            (release_url(version, release_file(arch, os)), release_file(arch, os)),
        ),
    }
}

/// Where the release of a version for a machine is and what it is called.
pub fn find_release(version: &DenoVersion, architecture: Architecture, os: OperatingSystem) -> (r:
    Result<(String, String), Failure>)
    ensures
        match r {
            Ok((url, file)) => release(version@, architecture, os) == Ok::<
                (Seq<char>, Seq<char>),
                Seq<Seq<char>>,
            >((url@, file@)),
            Err(e) => release(version@, architecture, os) == Err::<
                (Seq<char>, Seq<char>),
                Seq<Seq<char>>,
            >(e@),
        },
{
    let arch = match architecture {
        Architecture::X86_64 => "x86_64",
        Architecture::Aarch64 => "aarch64",
        Architecture::Other => {
            return Err(Failure::of("Unsupported architecture for Deno"));
        },
    };
    let os = match os {
        OperatingSystem::Darwin => "apple-darwin",
        OperatingSystem::Linux => "unknown-linux-gnu",
        OperatingSystem::Windows => "pc-windows-msvc",
        OperatingSystem::Other => {
            return Err(Failure::of("Unsupported OS for Deno"));
        },
    };
    let mut file = "deno-".to_owned();
    file.append(arch);
    file.append("-");
    file.append(os);
    file.append(".zip");
    let mut url = "https://github.com/denoland/deno/releases/download/v".to_owned();
    url.append(version.to_string().as_str());
    url.append("/");
    url.append(file.as_str());
    Ok((url, file))
}

/// A directory that holds one Deno per subdirectory.
#[derive(Debug, PartialEq)]
pub struct DenoInstaller {
    pub(crate) root: PathBuf,
}

impl View for DenoInstaller {
    type V = PathView;

    closed spec fn view(&self) -> PathView {
        self.root@
    }
}

/// What is asked of an installer.
#[derive(Debug, PartialEq)]
pub struct DenoOrder {
    /// The version that is asked for.
    pub request: DenoRequest,
    /// Whether a Deno may be downloaded.
    pub allows_download: bool,
    /// The name under which Denos of the system are looked for.
    pub binary_name: String,
    /// The machine that it is for.
    pub architecture: Architecture,
    pub os: OperatingSystem,
}

/// What is asked of an installer.
pub struct DenoOrderView {
    pub request: DenoRequestView,
    pub allows_download: bool,
    pub binary_name: Seq<char>,
    pub architecture: Architecture,
    pub os: OperatingSystem,
}

impl View for DenoOrder {
    type V = DenoOrderView;

    open spec fn view(&self) -> DenoOrderView {
        DenoOrderView {
            request: self.request@,
            allows_download: self.allows_download,
            binary_name: self.binary_name@,
            architecture: self.architecture,
            os: self.os,
        }
    }
}

/// Where [`DenoInstaller::install`] is.
#[derive(Debug, PartialEq)]
pub enum InstallPhase {
    Start,
    MakeRoot,
    Lock,
    List,
    FindSystem,
    /// The first of these Denos of the system is asked for its version.
    AskSystem(Vec<PathBuf>),
    /// A page of the releases is listed. The tags are those of the pages before it.
    FetchTags(u64, Vec<String>),
    /// This version is downloaded.
    Download(DenoVersion),
    /// What was extracted is looked at.
    CheckExtracted(DenoVersion, PathBuf),
    /// The executable file is looked for.
    CheckBinary(DenoVersion, PathBuf),
    CheckTarget(DenoVersion, PathBuf),
    RemoveTarget(DenoVersion, PathBuf),
    MakeBin(DenoVersion, PathBuf),
    CopyBinary(DenoVersion),
    SetMode(DenoVersion),
    Over,
}

/// Where [`DenoInstaller::install`] is.
pub enum InstallPhaseView {
    Start,
    MakeRoot,
    Lock,
    List,
    FindSystem,
    AskSystem(Seq<PathView>),
    FetchTags(u64, Seq<Seq<char>>),
    Download(SemVer),
    CheckExtracted(SemVer, PathView),
    CheckBinary(SemVer, PathView),
    CheckTarget(SemVer, PathView),
    RemoveTarget(SemVer, PathView),
    MakeBin(SemVer, PathView),
    CopyBinary(SemVer),
    SetMode(SemVer),
    Over,
}

impl View for InstallPhase {
    type V = InstallPhaseView;

    open spec fn view(&self) -> InstallPhaseView {
        match self {
            InstallPhase::Start => InstallPhaseView::Start,
            InstallPhase::MakeRoot => InstallPhaseView::MakeRoot,
            InstallPhase::Lock => InstallPhaseView::Lock,
            InstallPhase::List => InstallPhaseView::List,
            InstallPhase::FindSystem => InstallPhaseView::FindSystem,
            InstallPhase::AskSystem(paths) => InstallPhaseView::AskSystem(buf::path_views(paths@)),
            InstallPhase::FetchTags(page, tags) => InstallPhaseView::FetchTags(
                *page,
                text::texts(tags@),
            ),
            InstallPhase::Download(v) => InstallPhaseView::Download(v@),
            InstallPhase::CheckExtracted(v, path) => InstallPhaseView::CheckExtracted(v@, path@),
            InstallPhase::CheckBinary(v, path) => InstallPhaseView::CheckBinary(v@, path@),
            InstallPhase::CheckTarget(v, path) => InstallPhaseView::CheckTarget(v@, path@),
            InstallPhase::RemoveTarget(v, path) => InstallPhaseView::RemoveTarget(v@, path@),
            InstallPhase::MakeBin(v, path) => InstallPhaseView::MakeBin(v@, path@),
            InstallPhase::CopyBinary(v) => InstallPhaseView::CopyBinary(v@),
            InstallPhase::SetMode(v) => InstallPhaseView::SetMode(v@),
            InstallPhase::Over => InstallPhaseView::Over,
        }
    }
}

/// What the installation does next.
pub type InstallNext = (InstallPhaseView, StepView<DenoResultView>);

/// The installation ends with a failure.
pub open spec fn install_failure(messages: Seq<Seq<char>>) -> InstallNext {
    (InstallPhaseView::Over, StepView::Fail(messages))
}

/// The installation ends with a failure of the download.
pub open spec fn download_failure(messages: Seq<Seq<char>>) -> InstallNext {
    install_failure(seq!["Failed to download and extract deno"@] + messages)
}

/// What can follow when the installed Denos are listed.
pub open spec fn after_listing(
    order: DenoOrderView,
    entries: Seq<EntryView>,
    next: InstallNext,
) -> bool {
    exists|found: Option<DenoResultView>| #[trigger]
        is_installed_choice(order.request, entries, found) && next == match found {
            Some(deno) => (InstallPhaseView::Over, StepView::Done(deno)),
            None => find_system(order),
        }
}

/// The Denos of the system are looked for.
pub open spec fn find_system(order: DenoOrderView) -> InstallNext {
    (InstallPhaseView::FindSystem, StepView::Do(ActionView::FindAll(order.binary_name)))
}

/// Where a page of the releases is.
pub open spec fn page_url(page: u64) -> Seq<char> {
    let first = "https://api.github.com/repos/denoland/deno/releases?per_page=100"@;
    if page <= 1 {
        first
    } else {
        first + "&page="@ + text::decimal(page as nat)
    }
}

/// A page of the releases is listed.
pub open spec fn fetch_page(page: u64, tags: Seq<Seq<char>>) -> InstallNext {
    (
        InstallPhaseView::FetchTags(page, tags),
        StepView::Do(ActionView::FetchTags(page_url(page))),
    )
}

/// What follows when nothing that is there will do.
pub open spec fn resolve(order: DenoOrderView) -> InstallNext {
    if !order.allows_download {
        install_failure(seq!["No suitable system Deno version found and downloads are disabled"@])
    } else {
        fetch_page(1, Seq::empty())
    }
}

/// The next Deno of the system is asked for its version.
pub open spec fn ask_system(order: DenoOrderView, paths: Seq<PathView>) -> InstallNext {
    if paths.len() > 0 {
        (
            InstallPhaseView::AskSystem(paths),
            StepView::Do(ActionView::Run(ask_version(paths[0]))),
        )
    } else {
        resolve(order)
    }
}

/// A version is downloaded.
pub open spec fn download(order: DenoOrderView, version: SemVer) -> InstallNext {
    match release(version, order.architecture, order.os) {
        Ok((url, file)) => (
            InstallPhaseView::Download(version),
            StepView::Do(ActionView::DownloadAndExtract(url, file)),
        ),
        Err(messages) => install_failure(messages),
    }
}

/// What can follow when a page of the releases is listed: the page behind it is asked for,
/// until one is empty. Then all the tags are known.
pub open spec fn after_page(
    order: DenoOrderView,
    page: u64,
    before: Seq<Seq<char>>,
    tags: Seq<Seq<char>>,
    next: InstallNext,
) -> bool {
    if tags.len() > 0 && page < u64::MAX {
        next == fetch_page((page + 1) as u64, before + tags)
    } else {
        after_tags(order, before + tags, next)
    }
}

/// What can follow when the tags of the releases are listed.
pub open spec fn after_tags(
    order: DenoOrderView,
    tags: Seq<Seq<char>>,
    next: InstallNext,
) -> bool {
    exists|choice: Result<SemVer, Seq<Seq<char>>>| #[trigger]
        is_remote_choice(order.request, tags, choice) && next == match choice {
            Ok(version) => download(order, version),
            Err(messages) => install_failure(messages),
        }
}

/// The directory that a version is installed in.
pub open spec fn target_of(root: PathView, version: SemVer) -> PathView {
    root.child(version.text())
}

/// The executable file is looked for.
pub open spec fn check_binary(version: SemVer, binary: PathView) -> InstallNext {
    (
        InstallPhaseView::CheckBinary(version, binary),
        StepView::Do(ActionView::Exists(binary)),
    )
}

/// The directory of the executable file is made.
pub open spec fn make_bin(root: PathView, version: SemVer, binary: PathView) -> InstallNext {
    (
        InstallPhaseView::MakeBin(version, binary),
        StepView::Do(ActionView::CreateDirAll(bin_of(target_of(root, version)))),
    )
}

/// The version is installed.
pub open spec fn installed(root: PathView, version: SemVer) -> InstallNext {
    (
        InstallPhaseView::Over,
        StepView::Done(DenoResultView { deno: deno_in(target_of(root, version)), version }),
    )
}

/// Whether the phase belongs to a download.
pub open spec fn downloads(phase: InstallPhaseView) -> bool {
    ||| phase is Download
    ||| phase is CheckExtracted
    ||| phase is CheckBinary
    ||| phase is CheckTarget
    ||| phase is RemoveTarget
    ||| phase is MakeBin
    ||| phase is CopyBinary
    ||| phase is SetMode
}

/// How a version is installed once it is chosen: it is downloaded, what was in its
/// directory before is removed once the downloaded file is there, and the file is copied
/// to its place.
pub open spec fn download_next(
    root: PathView,
    phase: InstallPhaseView,
    outcome: OutcomeView,
) -> InstallNext {
    match (phase, outcome) {
        (InstallPhaseView::Download(version), OutcomeView::Path(extracted)) => (
            InstallPhaseView::CheckExtracted(version, extracted),
            StepView::Do(ActionView::IsFile(extracted)),
        ),
        (
            InstallPhaseView::CheckExtracted(version, extracted),
            OutcomeView::Answer(is_file),
        ) => check_binary(
            version,
            if is_file {
                extracted
            } else {
                extracted.program("deno"@)
            },
        ),
        (InstallPhaseView::CheckBinary(version, binary), OutcomeView::Answer(there)) => if there {
            (
                InstallPhaseView::CheckTarget(version, binary),
                StepView::Do(ActionView::Exists(target_of(root, version))),
            )
        } else {
            download_failure(
                seq!["Deno binary not found. Expected at "@ + action::shown(binary)],
            )
        },
        (InstallPhaseView::CheckTarget(version, binary), OutcomeView::Answer(there)) => if there {
            (
                InstallPhaseView::RemoveTarget(version, binary),
                StepView::Do(ActionView::RemoveDirAll(target_of(root, version))),
            )
        } else {
            make_bin(root, version, binary)
        },
        (InstallPhaseView::RemoveTarget(version, binary), OutcomeView::Done) => make_bin(
            root,
            version,
            binary,
        ),
        (InstallPhaseView::MakeBin(version, binary), OutcomeView::Done) => (
            InstallPhaseView::CopyBinary(version),
            StepView::Do(ActionView::Copy(binary, deno_in(target_of(root, version)))),
        ),
        (InstallPhaseView::CopyBinary(version), OutcomeView::Done) => match root.platform {
            Platform::Unix => (
                InstallPhaseView::SetMode(version),
                StepView::Do(ActionView::SetMode(deno_in(target_of(root, version)), 0o755)),
            ),
            Platform::Windows => installed(root, version),
        },
        (InstallPhaseView::SetMode(version), OutcomeView::Done) => installed(root, version),
        _ => download_failure(action::failure_of(outcome)),
    }
}

/// How a Deno is found or installed: one that is installed comes first, then one of the
/// system, and one is downloaded only where neither answers the request.
pub open spec fn install_next(
    root: PathView,
    order: DenoOrderView,
    phase: InstallPhaseView,
    outcome: OutcomeView,
    next: InstallNext,
) -> bool {
    match (phase, outcome) {
        _ if downloads(phase) => next == download_next(root, phase, outcome),
        (InstallPhaseView::Start, OutcomeView::Begin) => next == (
            InstallPhaseView::MakeRoot,
            StepView::<DenoResultView>::Do(ActionView::CreateDirAll(root)),
        ),
        (InstallPhaseView::MakeRoot, OutcomeView::Done) => next == (
            InstallPhaseView::Lock,
            StepView::<DenoResultView>::Do(ActionView::Lock(root.child(".lock"@), "deno"@)),
        ),
        (InstallPhaseView::Lock, OutcomeView::Done) => next == (
            InstallPhaseView::List,
            StepView::<DenoResultView>::Do(ActionView::ListDir(root)),
        ),
        (InstallPhaseView::List, OutcomeView::Entries(entries)) => after_listing(
            order,
            entries,
            next,
        ),
        (InstallPhaseView::List, OutcomeView::Failed(_)) => next == find_system(order),
        (InstallPhaseView::FindSystem, OutcomeView::Paths(paths)) => next == ask_system(
            order,
            paths,
        ),
        (InstallPhaseView::FindSystem, OutcomeView::Failed(_)) => next == resolve(order),
        (InstallPhaseView::AskSystem(paths), OutcomeView::Output(output)) if paths.len() > 0 =>
        next == match version_in_output(output) {
            Ok(version) if deno_version::deno_matches(order.request, version, Some(paths[0])) => (
                InstallPhaseView::Over,
                StepView::Done(DenoResultView { deno: paths[0], version }),
            ),
            _ => ask_system(order, paths.drop_first()),
        },
        (InstallPhaseView::AskSystem(paths), OutcomeView::Failed(_)) if paths.len() > 0 => next
            == ask_system(order, paths.drop_first()),
        (InstallPhaseView::FetchTags(page, before), OutcomeView::Tags(tags)) => after_page(
            order,
            page,
            before,
            tags,
            next,
        ),
        (InstallPhaseView::FetchTags(_, _), OutcomeView::Failed(cause)) => next == install_failure(
            seq!["Failed to list remote versions"@] + cause,
        ),
        _ => next == install_failure(action::failure_of(outcome)),
    }
}

/// A step of the installation.
pub type InstallStep = (InstallPhase, Step<DenoResult>);

/// The executable file is looked for.
fn look_for_binary(version: DenoVersion, binary: PathBuf) -> (r: InstallStep)
    ensures
        (r.0@, r.1@) == check_binary(version@, binary@),
{
    let path = binary.duplicate();
    (InstallPhase::CheckBinary(version, binary), Step::Do(Action::Exists(path)))
}

/// A page of the releases is listed.
fn list_page(page: u64, tags: Vec<String>) -> (r: InstallStep)
    ensures
        (r.0@, r.1@) == fetch_page(page, text::texts(tags@)),
{
    let mut url = "https://api.github.com/repos/denoland/deno/releases?per_page=100".to_owned();
    if page > 1 {
        url.append("&page=");
        url.append(strings::decimal(page).as_str());
    }
    (InstallPhase::FetchTags(page, tags), Step::Do(Action::FetchTags(url)))
}

impl InstallPhase {
    /// Tells whether the phase belongs to a download.
    fn is_download(&self) -> (r: bool)
        ensures
            r == downloads(self@),
    {
        match self {
            InstallPhase::Download(_) => true,
            InstallPhase::CheckExtracted(_, _) => true,
            InstallPhase::CheckBinary(_, _) => true,
            InstallPhase::CheckTarget(_, _) => true,
            InstallPhase::RemoveTarget(_, _) => true,
            InstallPhase::MakeBin(_, _) => true,
            InstallPhase::CopyBinary(_) => true,
            InstallPhase::SetMode(_) => true,
            _ => false,
        }
    }
}

impl DenoInstaller {
    /// The installer of the Denos below a directory.
    pub fn new(root: PathBuf) -> (r: DenoInstaller)
        ensures
            r@ == root@,
    {
        DenoInstaller { root }
    }

    /// The installed Deno that answers a request, if there is one.
    pub fn find_installed(&self, request: &DenoRequest, entries: &Vec<Entry>) -> (r: Option<
        DenoResult,
    >)
        ensures
            is_installed_choice(request@, action::entry_views(entries@), optional_view(r)),
    {
        let ghost views = action::entry_views(entries@);
        let ghost all = installed_versions(request@, views);
        let mut candidates: Vec<Option<Version>> = Vec::new();
        let mut i: usize = 0;
        while i < entries.len()
            invariant
                i <= entries@.len(),
                views == action::entry_views(entries@),
                all == installed_versions(request@, views),
                version::candidate_views(candidates@) == all.take(i as int),
            decreases entries@.len() - i,
        {
            let ghost before = version::candidate_views(candidates@);
            let found = candidate(request, &entries[i]);
            candidates.push(found);
            proof {
                assert(views[i as int] == entries@[i as int]@);
                assert(version::candidate_views(candidates@) =~= before.push(all[i as int]));
                assert(all.take(i + 1) =~= all.take(i as int).push(all[i as int]));
            }
            i = i + 1;
        }
        proof {
            assert(all.take(i as int) =~= all);
        }
        let choice = version::newest_of(&candidates);
        proof {
            assert(version::is_newest_of(all, version::optional_index(choice)));
        }
        match choice {
            Some(i) => match &candidates[i] {
                Some(v) => {
                    proof {
                        assert(version::candidate_views(candidates@)[i as int] == Some(v@));
                        assert(views[i as int] == entries@[i as int]@);
                    }
                    let version = DenoVersion(v.duplicate());
                    Some(DenoResult::from_dir(&entries[i].path).with_version(version))
                },
                None => {
                    proof {
                        assert(version::candidate_views(candidates@)[i as int] is None);
                    }
                    None
                },
            },
            None => None,
        }
    }

    /// What follows when nothing that is there will do.
    fn look_at_remote(&self, order: &DenoOrder) -> (r: InstallStep)
        ensures
            (r.0@, r.1@) == resolve(order@),
    {
        if !order.allows_download {
            return (
                InstallPhase::Over,
                Step::Fail(
                    Failure::of(
                        "No suitable system Deno version found and downloads are disabled",
                    ),
                ),
            );
        }
        let tags: Vec<String> = Vec::new();
        proof {
            assert(text::texts(tags@) =~= Seq::<Seq<char>>::empty());
        }
        list_page(1, tags)
    }

    /// The next Deno of the system is asked for its version.
    fn find_system_deno(&self, order: &DenoOrder, paths: Vec<PathBuf>) -> (r: InstallStep)
        ensures
            (r.0@, r.1@) == ask_system(order@, buf::path_views(paths@)),
    {
        if paths.len() > 0 {
            let command = DenoResult::from_executable(paths[0].duplicate()).version_command();
            (InstallPhase::AskSystem(paths), Step::Do(Action::Run(command)))
        } else {
            self.look_at_remote(order)
        }
    }

    /// Asks the Denos of the system behind the first.
    fn skip_system_deno(&self, order: &DenoOrder, paths: Vec<PathBuf>) -> (r: InstallStep)
        requires
            paths@.len() > 0,
        ensures
            (r.0@, r.1@) == ask_system(order@, buf::path_views(paths@).drop_first()),
    {
        let mut left = paths;
        let _ = left.remove(0);
        proof {
            assert(buf::path_views(left@) =~= buf::path_views(paths@).drop_first());
        }
        self.find_system_deno(order, left)
    }

    /// What follows when the installed Denos are listed.
    fn after_list(&self, order: &DenoOrder, entries: &Vec<Entry>) -> (r: InstallStep)
        ensures
            after_listing(order@, action::entry_views(entries@), (r.0@, r.1@)),
    {
        let found = self.find_installed(&order.request, entries);
        proof {
            assert(is_installed_choice(
                order@.request,
                action::entry_views(entries@),
                optional_view(found),
            ));
        }
        match found {
            Some(deno) => (InstallPhase::Over, Step::Done(deno)),
            None => (
                InstallPhase::FindSystem,
                Step::Do(Action::FindAll(order.binary_name.clone())),
            ),
        }
    }

    /// A version is downloaded.
    fn start_download(&self, order: &DenoOrder, version: DenoVersion) -> (r: InstallStep)
        ensures
            (r.0@, r.1@) == download(order@, version@),
    {
        match find_release(&version, order.architecture, order.os) {
            Ok((url, file)) => (
                InstallPhase::Download(version),
                Step::Do(Action::DownloadAndExtract(url, file)),
            ),
            Err(failure) => (InstallPhase::Over, Step::Fail(failure)),
        }
    }

    /// What follows when the tags of the releases are listed.
    fn after_fetch_tags(&self, order: &DenoOrder, tags: &Vec<String>) -> (r: InstallStep)
        ensures
            after_tags(order@, text::texts(tags@), (r.0@, r.1@)),
    {
        match resolve_version(&order.request, tags) {
            Ok(version) => {
                proof {
                    assert(is_remote_choice(
                        order@.request,
                        text::texts(tags@),
                        Ok::<SemVer, Seq<Seq<char>>>(version@),
                    ));
                }
                self.start_download(order, version)
            },
            Err(failure) => {
                proof {
                    assert(is_remote_choice(
                        order@.request,
                        text::texts(tags@),
                        Err::<SemVer, Seq<Seq<char>>>(failure@),
                    ));
                }
                (InstallPhase::Over, Step::Fail(failure))
            },
        }
    }

    /// What follows when a page of the releases is listed.
    fn after_fetch_page(
        &self,
        order: &DenoOrder,
        page: u64,
        before: Vec<String>,
        tags: Vec<String>,
    ) -> (r: InstallStep)
        ensures
            after_page(order@, page, text::texts(before@), text::texts(tags@), (r.0@, r.1@)),
    {
        let more = tags.len() > 0;
        let mut listed = before;
        let mut found = tags;
        listed.append(&mut found);
        proof {
            assert(text::texts(listed@) =~= text::texts(before@) + text::texts(tags@));
        }
        if more && page < u64::MAX {
            list_page(page + 1, listed)
        } else {
            self.after_fetch_tags(order, &listed)
        }
    }

    /// The directory that a version is installed in.
    fn target(&self, version: &DenoVersion) -> (r: PathBuf)
        ensures
            r@ == target_of(self@, version@),
    {
        self.root.join(version.to_string().as_str())
    }

    /// The directory of the executable file is made.
    fn make_bin_dir(&self, version: DenoVersion, binary: PathBuf) -> (r: InstallStep)
        ensures
            (r.0@, r.1@) == make_bin(self@, version@, binary@),
    {
        let dir = bin_dir(&self.target(&version));
        (InstallPhase::MakeBin(version, binary), Step::Do(Action::CreateDirAll(dir)))
    }

    /// The version is installed.
    fn finish(&self, version: DenoVersion) -> (r: InstallStep)
        ensures
            (r.0@, r.1@) == installed(self@, version@),
    {
        let target = self.target(&version);
        (InstallPhase::Over, Step::Done(DenoResult::from_dir(&target).with_version(version)))
    }

    /// What follows when it is known whether the executable file is there.
    fn after_check_binary(&self, version: DenoVersion, binary: PathBuf, there: bool) -> (r:
        InstallStep)
        ensures
            (r.0@, r.1@) == (if there {
                (
                    InstallPhaseView::CheckTarget(version@, binary@),
                    StepView::Do(ActionView::Exists(target_of(self@, version@))),
                )
            } else {
                download_failure(
                    seq!["Deno binary not found. Expected at "@ + action::shown(binary@)],
                )
            }),
    {
        if there {
            let target = self.target(&version);
            (InstallPhase::CheckTarget(version, binary), Step::Do(Action::Exists(target)))
        } else {
            let mut message = "Deno binary not found. Expected at ".to_owned();
            message.append(binary.to_string_lossy().as_str());
            let failure = Failure::new(message);
            (
                InstallPhase::Over,
                Step::Fail(failure.within("Failed to download and extract deno".to_owned())),
            )
        }
    }

    /// What follows when a Deno of the system told its version.
    fn after_ask_system(&self, order: &DenoOrder, paths: Vec<PathBuf>, output: &Vec<u8>) -> (r:
        InstallStep)
        requires
            paths@.len() > 0,
        ensures
            (r.0@, r.1@) == match version_in_output(output@) {
                Ok(version) if deno_version::deno_matches(
                    order@.request,
                    version,
                    Some(buf::path_views(paths@)[0]),
                ) => (
                    InstallPhaseView::Over,
                    StepView::Done(DenoResultView { deno: buf::path_views(paths@)[0], version }),
                ),
                _ => ask_system(order@, buf::path_views(paths@).drop_first()),
            },
    {
        proof {
            assert(buf::path_views(paths@)[0] == paths@[0]@);
        }
        match DenoResult::from_executable(paths[0].duplicate()).fill_version(output) {
            Ok(deno) => if order.request.matches(deno.version(), Some(&paths[0])) {
                (InstallPhase::Over, Step::Done(deno))
            } else {
                self.skip_system_deno(order, paths)
            },
            Err(_) => self.skip_system_deno(order, paths),
        }
    }

    /// What follows in a download.
    fn continue_download(&self, phase: InstallPhase, outcome: Outcome) -> (r: InstallStep)
        ensures
            (r.0@, r.1@) == download_next(self@, phase@, outcome@),
    {
        match (phase, outcome) {
            (InstallPhase::Download(version), Outcome::Path(extracted)) => {
                let path = extracted.duplicate();
                (
                    InstallPhase::CheckExtracted(version, extracted),
                    Step::Do(Action::IsFile(path)),
                )
            },
            (InstallPhase::CheckExtracted(version, extracted), Outcome::Answer(is_file)) => {
                let binary = if is_file {
                    extracted
                } else {
                    extracted.program("deno")
                };
                look_for_binary(version, binary)
            },
            (InstallPhase::CheckBinary(version, binary), Outcome::Answer(there)) =>
            self.after_check_binary(version, binary, there),
            (InstallPhase::CheckTarget(version, binary), Outcome::Answer(there)) => if there {
                let target = self.target(&version);
                (
                    InstallPhase::RemoveTarget(version, binary),
                    Step::Do(Action::RemoveDirAll(target)),
                )
            } else {
                self.make_bin_dir(version, binary)
            },
            (InstallPhase::RemoveTarget(version, binary), Outcome::Done) => self.make_bin_dir(
                version,
                binary,
            ),
            (InstallPhase::MakeBin(version, binary), Outcome::Done) => {
                let to = bin_dir(&self.target(&version)).program("deno");
                (InstallPhase::CopyBinary(version), Step::Do(Action::Copy(binary, to)))
            },
            (InstallPhase::CopyBinary(version), Outcome::Done) => match self.root.platform {
                Platform::Unix => {
                    let file = bin_dir(&self.target(&version)).program("deno");
                    (InstallPhase::SetMode(version), Step::Do(Action::SetMode(file, 0o755)))
                },
                Platform::Windows => self.finish(version),
            },
            (InstallPhase::SetMode(version), Outcome::Done) => self.finish(version),
            (_, other) => {
                let failure = other.into_failure();
                (
                    InstallPhase::Over,
                    Step::Fail(failure.within("Failed to download and extract deno".to_owned())),
                )
            },
        }
    }

    /// Finds or downloads a Deno that answers a request.
    pub fn install(&self, order: &DenoOrder, phase: InstallPhase, outcome: Outcome) -> (r:
        InstallStep)
        ensures
            install_next(self@, order@, phase@, outcome@, (r.0@, r.1@)),
    {
        if phase.is_download() {
            return self.continue_download(phase, outcome);
        }
        match (phase, outcome) {
            (InstallPhase::Start, Outcome::Begin) => (
                InstallPhase::MakeRoot,
                Step::Do(Action::CreateDirAll(self.root.duplicate())),
            ),
            (InstallPhase::MakeRoot, Outcome::Done) => (
                InstallPhase::Lock,
                Step::Do(Action::Lock(self.root.join(".lock"), "deno".to_owned())),
            ),
            (InstallPhase::Lock, Outcome::Done) => (
                InstallPhase::List,
                Step::Do(Action::ListDir(self.root.duplicate())),
            ),
            (InstallPhase::List, Outcome::Entries(entries)) => self.after_list(order, &entries),
            (InstallPhase::List, Outcome::Failed(_)) => (
                InstallPhase::FindSystem,
                Step::Do(Action::FindAll(order.binary_name.clone())),
            ),
            (InstallPhase::FindSystem, Outcome::Paths(paths)) => self.find_system_deno(
                order,
                paths,
            ),
            (InstallPhase::FindSystem, Outcome::Failed(_)) => self.look_at_remote(order),
            (InstallPhase::AskSystem(paths), Outcome::Output(output)) if paths.len() > 0 =>
            self.after_ask_system(order, paths, &output),
            (InstallPhase::AskSystem(paths), Outcome::Failed(_)) if paths.len() > 0 =>
            self.skip_system_deno(order, paths),
            (InstallPhase::FetchTags(page, before), Outcome::Tags(tags)) => self.after_fetch_page(
                order,
                page,
                before,
                tags,
            ),
            (InstallPhase::FetchTags(_, _), Outcome::Failed(failure)) => (
                InstallPhase::Over,
                Step::Fail(failure.within("Failed to list remote versions".to_owned())),
            ),
            (_, other) => (InstallPhase::Over, Step::Fail(other.into_failure())),
        }
    }
}

/// Where downloads are not allowed, nothing is downloaded and no remote is asked.
pub proof fn law_nothing_is_downloaded_where_downloads_are_off(
    root: PathView,
    order: DenoOrderView,
    phase: InstallPhaseView,
    outcome: OutcomeView,
    next: InstallNext,
)
    requires
        install_next(root, order, phase, outcome, next),
        !order.allows_download,
        !(phase is FetchTags || downloads(phase)),
    ensures
        !(next.0 is FetchTags || downloads(next.0)),
        next.1 matches StepView::Do(action) ==> !(action is FetchTags || action is Fetch
            || action is DownloadAndExtract),
{
}

/// The system is searched only where no installed Deno answers the request, or the
/// installed ones cannot be listed.
pub proof fn law_installed_comes_before_system(
    root: PathView,
    order: DenoOrderView,
    phase: InstallPhaseView,
    outcome: OutcomeView,
    next: InstallNext,
)
    requires
        install_next(root, order, phase, outcome, next),
        next.0 is FindSystem,
    ensures
        phase is List,
        match outcome {
            OutcomeView::Entries(entries) => is_installed_choice(order.request, entries, None),
            _ => outcome is Failed,
        },
{
}

/// The remote is first asked only after the Denos of the system were: there was none, or the
/// last of them did not answer the request.
pub proof fn law_system_comes_before_download(
    root: PathView,
    order: DenoOrderView,
    phase: InstallPhaseView,
    outcome: OutcomeView,
    next: InstallNext,
)
    requires
        install_next(root, order, phase, outcome, next),
        next.0 is FetchTags,
        phase !is FetchTags,
    ensures
        order.allows_download,
        next == fetch_page(1, Seq::empty()),
        match phase {
            InstallPhaseView::FindSystem => outcome is Failed || outcome == OutcomeView::Paths(
                Seq::empty(),
            ),
            InstallPhaseView::AskSystem(paths) => {
                &&& paths.len() == 1
                &&& outcome is Failed || (outcome matches OutcomeView::Output(output) && !(
                version_in_output(output) matches Ok(version) && deno_version::deno_matches(
                    order.request,
                    version,
                    Some(paths[0]),
                )))
            },
            _ => false,
        },
{
    if let OutcomeView::Paths(paths) = outcome {
        if paths.len() == 0 {
            assert(paths =~= Seq::empty());
        }
    }
    if let InstallPhaseView::AskSystem(paths) = phase {
        assert(paths.drop_first().len() == paths.len() - 1);
    }
}

/// A Deno of the system that is taken answers the request.
pub proof fn law_system_deno_answers_the_request(
    root: PathView,
    order: DenoOrderView,
    paths: Seq<PathView>,
    outcome: OutcomeView,
    next: InstallNext,
)
    requires
        install_next(root, order, InstallPhaseView::AskSystem(paths), outcome, next),
    ensures
        next.1 matches StepView::Done(deno) ==> {
            &&& paths.len() > 0 && deno.deno == paths[0]
            &&& deno_version::deno_matches(order.request, deno.version, Some(deno.deno))
        },
{
}

/// Nothing is removed but the directory of the version that is downloaded, and only when
/// its executable file was downloaded and the directory is there.
pub proof fn law_old_version_is_removed_last(
    root: PathView,
    order: DenoOrderView,
    phase: InstallPhaseView,
    outcome: OutcomeView,
    next: InstallNext,
)
    requires
        install_next(root, order, phase, outcome, next),
    ensures
        next.1 matches StepView::Do(ActionView::RemoveDirAll(path)) ==> {
            &&& phase matches InstallPhaseView::CheckTarget(version, _)
            &&& path == target_of(root, version)
            &&& outcome == OutcomeView::Answer(true)
        },
        next.0 is CheckTarget ==> phase is CheckBinary && outcome == OutcomeView::Answer(true),
{
}

/// The tags of all the pages.
pub open spec fn all_tags(pages: Seq<Seq<Seq<char>>>) -> Seq<Seq<char>>
    decreases pages.len(),
{
    if pages.len() == 0 {
        Seq::empty()
    } else {
        all_tags(pages.drop_last()) + pages.last()
    }
}

/// Whether these are the steps while the pages of the releases are listed.
pub open spec fn is_listing(
    root: PathView,
    order: DenoOrderView,
    pages: Seq<Seq<Seq<char>>>,
    steps: Seq<InstallNext>,
) -> bool {
    &&& steps.len() == pages.len() + 1
    &&& steps[0] == fetch_page(1, Seq::empty())
    &&& forall|i: int|
        0 <= i < pages.len() ==> install_next(
            root,
            order,
            #[trigger] steps[i].0,
            OutcomeView::Tags(pages[i]),
            steps[i + 1],
        )
}

/// While no page is empty the next one is asked for.
proof fn lemma_pages_so_far(
    root: PathView,
    order: DenoOrderView,
    pages: Seq<Seq<Seq<char>>>,
    steps: Seq<InstallNext>,
    i: int,
)
    requires
        is_listing(root, order, pages, steps),
        0 <= i <= pages.len(),
        i < u64::MAX,
        forall|k: int| 0 <= k < i ==> (#[trigger] pages[k]).len() > 0,
    ensures
        steps[i] == fetch_page((i + 1) as u64, all_tags(pages.take(i))),
    decreases i,
{
    if i == 0 {
        assert(pages.take(0) =~= Seq::<Seq<Seq<char>>>::empty());
    } else {
        lemma_pages_so_far(root, order, pages, steps, i - 1);
        assert(pages[i - 1].len() > 0);
        assert(install_next(
            root,
            order,
            steps[i - 1].0,
            OutcomeView::Tags(pages[i - 1]),
            steps[i - 1 + 1],
        ));
        assert(pages.take(i).drop_last() =~= pages.take(i - 1));
        assert(pages.take(i).last() == pages[i - 1]);
    }
}

/// All releases are listed: the pages are asked for in turn, and where one is empty the
/// version is chosen from the tags of all the pages before it.
pub proof fn law_all_releases_are_listed(
    root: PathView,
    order: DenoOrderView,
    pages: Seq<Seq<Seq<char>>>,
    steps: Seq<InstallNext>,
)
    requires
        is_listing(root, order, pages, steps),
        0 < pages.len() < u64::MAX,
        pages.last().len() == 0,
        forall|k: int| 0 <= k < pages.len() - 1 ==> (#[trigger] pages[k]).len() > 0,
    ensures
        forall|k: int|
            0 <= k < pages.len() ==> (#[trigger] steps[k]).1 == StepView::<DenoResultView>::Do(
                ActionView::FetchTags(page_url((k + 1) as u64)),
            ),
        after_tags(order, all_tags(pages), steps.last()),
{
    let n = pages.len() - 1;
    assert forall|k: int| 0 <= k < pages.len() implies (#[trigger] steps[k]).1 == StepView::<
        DenoResultView,
    >::Do(ActionView::FetchTags(page_url((k + 1) as u64))) by {
        lemma_pages_so_far(root, order, pages, steps, k);
    }
    lemma_pages_so_far(root, order, pages, steps, n);
    assert(pages.take(n) =~= pages.drop_last());
    assert(install_next(root, order, steps[n].0, OutcomeView::Tags(pages[n]), steps[n + 1]));
}

/// Where the first version that answers the request stands.
proof fn lemma_first_matching_place(request: DenoRequestView, versions: Seq<SemVer>) -> (k: int)
    requires
        first_matching(request, versions) is Some,
    ensures
        0 <= k < versions.len(),
        first_matching(request, versions) == Some(versions[k]),
        deno_version::deno_matches(request, versions[k], None),
        forall|m: int|
            0 <= m < k ==> !deno_version::deno_matches(request, #[trigger] versions[m], None),
    decreases versions.len(),
{
    if deno_version::deno_matches(request, versions[0], None) {
        0
    } else {
        let rest = versions.drop_first();
        let k = lemma_first_matching_place(request, rest);
        assert forall|m: int| 0 <= m < k + 1 implies !deno_version::deno_matches(
            request,
            #[trigger] versions[m],
            None,
        ) by {
            if m > 0 {
                assert(versions[m] == rest[m - 1]);
            }
        }
        k + 1
    }
}

/// The release that is chosen is one of the tags, answers the request, and is the latest
/// that does.
pub proof fn law_latest_matching_release_is_chosen(
    request: DenoRequestView,
    tags: Seq<Seq<char>>,
    v: SemVer,
)
    requires
        is_remote_choice(request, tags, Ok(v)),
    ensures
        tag_versions(tags).contains(v),
        deno_version::deno_matches(request, v, None),
        forall|i: int|
            0 <= i < tag_versions(tags).len() && deno_version::deno_matches(
                request,
                #[trigger] tag_versions(tags)[i],
                None,
            ) ==> !version::is_newer(tag_versions(tags)[i], v),
{
    let versions = tag_versions(tags);
    let sorted = choose|sorted: Seq<SemVer>| #[trigger]
        version::is_sorted_from(versions, sorted) && Ok::<SemVer, Seq<Seq<char>>>(v)
            == match first_matching(request, sorted) {
            Some(v) => Ok::<SemVer, Seq<Seq<char>>>(v),
            None => Err(seq!["Version not found on remote"@]),
        };
    let k = lemma_first_matching_place(request, sorted);
    let order = choose|order: Seq<usize>|
        {
            &&& #[trigger] version::is_newest_first(versions, order)
            &&& sorted == order.map_values(|i: usize| versions[i as int])
        };
    assert(sorted[k] == versions[order[k] as int]);
    assert forall|i: int|
        0 <= i < versions.len() && deno_version::deno_matches(
            request,
            #[trigger] versions[i],
            None,
        ) implies !version::is_newer(versions[i], v) by {
        let m = choose|m: int| 0 <= m < order.len() && #[trigger] order[m] == i;
        assert(sorted[m] == versions[order[m] as int]);
        assert(m >= k);
    }
}

/// A Deno that was installed into a directory named by its version is found there again by
/// a request for versions that the version answers.
pub proof fn law_installed_version_is_found_again(
    tag: Seq<char>,
    v: SemVer,
    request: DenoRequestView,
    entry: EntryView,
)
    requires
        deno_version::deno_version(tag) == Some(v),
        entry.kind is Dir,
        ops::lossy_text(entry.name.bytes) == v.text(),
        deno_version::deno_matches(request, v, None),
    ensures
        installed_version(request, entry) == Some(v),
{
    let part = if text::begins(tag, "v"@) {
        tag.skip(1)
    } else {
        tag
    };
    strings::lemma_trim_twice(part, Class::Space);
    strings::lemma_decimal_is_read_back(v.major as nat);
    assert(v.text()[0] == text::decimal(v.major as nat)[0]);
    reveal_strlit("v");
    assert(v.text().take(1)[0] == v.text()[0]);
}

} // verus!
