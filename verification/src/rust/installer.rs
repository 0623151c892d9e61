//! Finding or installing a Rust toolchain that answers a request.

use vstd::prelude::*;

use crate::action;
use crate::action::{
    Action, ActionView, Command, CommandView, Entry, EntryKind, EntryView, Failure, Outcome,
    OutcomeView, Step, StepView, Word, WordView,
};
use crate::path::buf;
use crate::path::buf::PathBuf;
use crate::path::model::PathView;
use crate::path::ops;
use crate::rust::toolchain;
use crate::rust::toolchain::{ToolchainPhase, ToolchainPhaseView};
use crate::rust::version as rust_version;
use crate::rust::version::{RustRequest, RustRequestView, RustVersion};
use crate::strings;
use crate::text;
use crate::text::Class;
use crate::version;
use crate::version::{SemVer, Version};

verus! {

/// A Rust compiler that was found.
#[derive(Debug, PartialEq)]
pub struct RustResult {
    pub(crate) path: PathBuf,
    pub(crate) version: RustVersion,
    pub(crate) from_system: bool,
}

/// What is known of a Rust compiler.
pub struct RustResultView {
    pub path: PathView,
    pub version: SemVer,
    pub from_system: bool,
}

impl View for RustResult {
    type V = RustResultView;

    closed spec fn view(&self) -> RustResultView {
        RustResultView {
            path: self.path@,
            version: self.version@,
            from_system: self.from_system,
        }
    }
}

/// The version 0.0.0, which stands for one that is not known yet.
pub open spec fn no_version() -> SemVer {
    SemVer { major: 0, minor: 0, patch: 0, pre: Seq::empty(), build: Seq::empty() }
}

/// The compiler at a path, of a version that is not known yet.
pub open spec fn rust_at(path: PathView, from_system: bool) -> RustResultView {
    RustResultView { path, version: no_version(), from_system }
}

/// The compiler in the directory of a toolchain, of a version that is not known yet.
pub open spec fn rust_in(dir: PathView, from_system: bool) -> RustResultView {
    rust_at(dir.child("bin"@).program("rustc"@), from_system)
}

/// The command of a compiler, which does not install toolchains by itself.
pub open spec fn rustc(path: PathView, summary: Seq<char>) -> CommandView {
    CommandView::new(WordView::Path(path), summary).env(
        "RUSTUP_AUTO_INSTALL"@,
        WordView::Text("0"@),
    )
}

/// The command that asks a compiler for its version.
pub open spec fn ask_version(path: PathView) -> CommandView {
    rustc(path, "rustc version"@).text("--version"@)
}

/// The command that asks the compiler of a toolchain for its version.
pub open spec fn ask_toolchain_version(
    path: PathView,
    toolchain: Seq<char>,
    rustup_home: PathView,
) -> CommandView {
    ask_version(path).env("RUSTUP_TOOLCHAIN"@, WordView::Text(toolchain)).env(
        "RUSTUP_HOME"@,
        WordView::Path(rustup_home),
    )
}

/// The version in what `rustc --version` wrote, such as
/// `rustc 1.70.0 (90c541806 2023-05-31)`: its second word.
pub open spec fn version_in_output(output: Seq<u8>) -> Result<SemVer, Seq<Seq<char>>> {
    if !vstd::utf8::valid_utf8(output) {
        Err(seq![ops::utf8_problem(output)])
    } else {
        let text = vstd::utf8::decode_utf8(output);
        let words = text::words(text, Class::AsciiSpace);
        if words.len() < 2 {
            Err(seq!["Failed to parse Rust version from output: "@ + text])
        } else {
            match rust_version::rust_version(words[1]) {
                Some(v) => Ok(v),
                None => Err(seq![version::version_problem(text::trim(words[1], Class::Space))]),
            }
        }
    }
}

/// Reads the version in what `rustc --version` wrote.
pub fn read_version(output: &Vec<u8>) -> (r: Result<RustVersion, Failure>)
    ensures
        match r {
            Ok(v) => version_in_output(output@) == Ok::<SemVer, Seq<Seq<char>>>(v@),
            Err(e) => version_in_output(output@) == Err::<SemVer, Seq<Seq<char>>>(e@),
        },
{
    match ops::decode_utf8(output) {
        Err(message) => Err(Failure::new(message)),
        Ok(text) => {
            let words = strings::words(text.as_str(), Class::AsciiSpace);
            proof {
                assert(text::texts(words@).len() == words@.len());
            }
            if words.len() < 2 {
                let mut message = "Failed to parse Rust version from output: ".to_owned();
                message.append(text.as_str());
                Err(Failure::new(message))
            } else {
                proof {
                    assert(text::texts(words@)[1] == words@[1]@);
                }
                match RustVersion::from_str(words[1].as_str()) {
                    Ok(v) => Ok(v),
                    Err(e) => Err(Failure::new(e.message)),
                }
            }
        },
    }
}

impl RustResult {
    /// The compiler at a path, of a version that is not known yet.
    pub fn from_executable(path: PathBuf, from_system: bool) -> (r: RustResult)
        ensures
            r@ == rust_at(path@, from_system),
    {
        RustResult { path, from_system, version: RustVersion::default() }
    }

    /// The compiler in the directory of a toolchain, of a version that is not known yet.
    pub fn from_dir(dir: &PathBuf, from_system: bool) -> (r: RustResult)
        ensures
            r@ == rust_in(dir@, from_system),
    {
        RustResult::from_executable(toolchain::bin_dir(dir).program("rustc"), from_system)
    }

    /// The executable file of the compiler.
    pub fn bin(&self) -> (r: &PathBuf)
        ensures
            r@ == self@.path,
    {
        &self.path
    }

    /// The version of the compiler.
    pub fn version(&self) -> (r: &RustVersion)
        ensures
            r@ == self@.version,
    {
        &self.version
    }

    /// Tells whether the compiler is one of the system.
    pub fn is_from_system(&self) -> (r: bool)
        ensures
            r == self@.from_system,
    {
        self.from_system
    }

    /// The command of the compiler, which does not install toolchains by itself.
    pub fn cmd(&self, summary: &str) -> (r: Command)
        ensures
            r@ == rustc(self@.path, summary@),
    {
        Command::new(Word::path(&self.path), summary).env("RUSTUP_AUTO_INSTALL", Word::text("0"))
    }

    /// The compiler with its version.
    pub fn with_version(self, version: RustVersion) -> (r: RustResult)
        ensures
            r@ == (RustResultView { version: version@, ..self@ }),
    {
        RustResult { path: self.path, from_system: self.from_system, version }
    }

    /// A copy of what is known.
    pub fn duplicate(&self) -> (r: RustResult)
        ensures
            r@ == self@,
    {
        RustResult {
            path: self.path.duplicate(),
            version: self.version.duplicate(),
            from_system: self.from_system,
        }
    }

    /// The path and the version, as they are shown to users.
    pub fn to_string(&self) -> (r: String)
        ensures
            r@ == action::shown(self@.path) + "@"@ + self@.version.text(),
    {
        let mut out = self.path.to_string_lossy();
        out.append("@");
        out.append(self.version.to_string().as_str());
        out
    }

    /// The command that asks for the version.
    fn ask(&self) -> (r: Command)
        ensures
            r@ == ask_version(self@.path),
    {
        self.cmd("rustc version").text("--version")
    }

    /// The command that asks the compiler of a toolchain for its version.
    fn ask_toolchain(&self, toolchain: &str, rustup_home: PathBuf) -> (r: Command)
        ensures
            r@ == ask_toolchain_version(self@.path, toolchain@, rustup_home@),
    {
        self.ask().env("RUSTUP_TOOLCHAIN", Word::text(toolchain)).env(
            "RUSTUP_HOME",
            Word::Path(rustup_home),
        )
    }

    /// The compiler with the version that it told, or why it cannot be read.
    pub fn fill_version(self, output: &Vec<u8>) -> (r: Result<RustResult, Failure>)
        ensures
            match r {
                Ok(rust) => version_in_output(output@) matches Ok(v) && rust@ == (RustResultView {
                    version: v,
                    ..self@
                }),
                Err(e) => version_in_output(output@) == Err::<SemVer, Seq<Seq<char>>>(e@),
            },
    {
        match read_version(output) {
            Ok(v) => Ok(self.with_version(v)),
            Err(e) => Err(e),
        }
    }
}

/// The name of a directory entry as text.
pub open spec fn name_text(entry: EntryView) -> Seq<char> {
    ops::lossy_text(entry.name.bytes)
}

/// The version of an installed toolchain that answers the request: the name of its
/// directory.
pub open spec fn installed_version(request: RustRequestView, entry: EntryView) -> Option<SemVer> {
    if entry.kind is Dir {
        match rust_version::rust_version(name_text(entry)) {
            Some(v) => if rust_version::rust_matches(request, v, Some(entry.path)) {
                Some(v)
            } else {
                None
            },
            None => None,
        }
    } else {
        None
    }
}

/// Whether an entry is the directory of a channel.
pub open spec fn is_channel_dir(channel: Seq<char>, entry: EntryView) -> bool {
    entry.kind is Dir && name_text(entry) == channel
}

/// Which of the installed toolchains a request can be given: for a channel the directory
/// of its name, else the newest of the versions that answer the request.
pub open spec fn is_installed_choice(
    request: RustRequestView,
    entries: Seq<EntryView>,
    choice: Option<int>,
) -> bool {
    match request {
        RustRequestView::Channel(channel) => match choice {
            Some(i) => 0 <= i < entries.len() && is_channel_dir(channel, entries[i]),
            None => forall|i: int|
                0 <= i < entries.len() ==> !is_channel_dir(channel, #[trigger] entries[i]),
        },
        _ => version::is_newest_of(
            entries.map_values(|e: EntryView| installed_version(request, e)),
            choice,
        ),
    }
}

/// The version of an installed toolchain that answers the request.
fn candidate(request: &RustRequest, entry: &Entry) -> (r: Option<Version>)
    ensures
        match r {
            Some(v) => installed_version(request@, entry@) == Some(v@),
            None => installed_version(request@, entry@) is None,
        },
{
    if entry.kind != EntryKind::Dir {
        return None;
    }
    match RustVersion::from_str(entry.name.to_string_lossy().as_str()) {
        Ok(v) => if request.matches(&v, Some(&entry.path)) {
            Some(v.0)
        } else {
            None
        },
        Err(_) => None,
    }
}

/// The place of the directory of a channel.
fn find_channel(channel: &str, entries: &Vec<Entry>) -> (r: Option<usize>)
    ensures
        is_installed_choice(
            RustRequestView::Channel(channel@),
            action::entry_views(entries@),
            version::optional_index(r),
        ),
{
    let ghost views = action::entry_views(entries@);
    let mut i: usize = 0;
    while i < entries.len()
        invariant
            i <= entries@.len(),
            views == action::entry_views(entries@),
            forall|k: int| 0 <= k < i ==> !is_channel_dir(channel@, #[trigger] views[k]),
        decreases entries@.len() - i,
    {
        proof {
            assert(views[i as int] == entries@[i as int]@);
        }
        if entries[i].kind == EntryKind::Dir && strings::same(
            entries[i].name.to_string_lossy().as_str(),
            channel,
        ) {
            return Some(i);
        }
        i = i + 1;
    }
    None
}

/// The place of the newest of the versions that answer the request.
fn find_newest(request: &RustRequest, entries: &Vec<Entry>) -> (r: Option<usize>)
    ensures
        version::is_newest_of(
            action::entry_views(entries@).map_values(
                |e: EntryView| installed_version(request@, e),
            ),
            version::optional_index(r),
        ),
{
    let ghost views = action::entry_views(entries@);
    let ghost all = views.map_values(|e: EntryView| installed_version(request@, e));
    let mut candidates: Vec<Option<Version>> = Vec::new();
    let mut i: usize = 0;
    while i < entries.len()
        invariant
            i <= entries@.len(),
            views == action::entry_views(entries@),
            all == views.map_values(|e: EntryView| installed_version(request@, e)),
            version::candidate_views(candidates@) == all.take(i as int),
        decreases entries@.len() - i,
    {
        let ghost before = version::candidate_views(candidates@);
        let found = candidate(request, &entries[i]);
        candidates.push(found);
        proof {
            assert(views[i as int] == entries@[i as int]@);
            assert(version::candidate_views(candidates@) =~= before.push(all[i as int]));
            assert(all.take(i + 1) =~= all.take(i as int).push(all[i as int]));
        }
        i = i + 1;
    }
    proof {
        assert(all.take(i as int) =~= all);
    }
    version::newest_of(&candidates)
}

/// The version of a tag line of `git ls-remote`: behind a tab stands `refs/tags/` and the
/// version.
pub open spec fn tag_version(line: Seq<char>) -> Option<SemVer> {
    let parts = text::split(line, '\t');
    if parts.len() > 1 && text::begins(parts[1], "refs/tags/"@) {
        rust_version::rust_version(parts[1].skip("refs/tags/"@.len() as int))
    } else {
        None
    }
}

/// The version of a tag line where it answers the request.
pub open spec fn tag_candidate(request: RustRequestView, line: Seq<char>) -> Option<SemVer> {
    match tag_version(line) {
        Some(v) => if rust_version::rust_matches(request, v, None) {
            Some(v)
        } else {
            None
        },
        None => None,
    }
}

/// The versions among the lines that answer the request.
pub open spec fn tag_candidates(request: RustRequestView, lines: Seq<Seq<char>>) -> Seq<
    Option<SemVer>,
> {
    lines.map_values(|line: Seq<char>| tag_candidate(request, line))
}

/// Which toolchain the tags of the remote can give a request: the newest of the versions
/// that answer it.
pub open spec fn is_remote_choice(
    request: RustRequestView,
    output: Seq<u8>,
    r: Result<Seq<char>, Seq<Seq<char>>>,
) -> bool {
    if !vstd::utf8::valid_utf8(output) {
        r == Err::<Seq<char>, Seq<Seq<char>>>(seq![ops::utf8_problem(output)])
    } else {
        let candidates = tag_candidates(request, text::lines(vstd::utf8::decode_utf8(output)));
        exists|choice: Option<int>|
            {
                &&& #[trigger] version::is_newest_of(candidates, choice)
                &&& r == match choice {
                    Some(i) => Ok::<Seq<char>, Seq<Seq<char>>>((candidates[i]->0).text()),
                    None => Err(seq!["Version not found on remote"@]),
                }
            }
    }
}

/// The version of a tag line where it answers the request.
fn read_tag(request: &RustRequest, line: &str) -> (r: Option<Version>)
    ensures
        match r {
            Some(v) => tag_candidate(request@, line@) == Some(v@),
            None => tag_candidate(request@, line@) is None,
        },
{
    let parts = strings::split(line, '\t');
    proof {
        assert(text::texts(parts@).len() == parts@.len());
    }
    if parts.len() < 2 {
        return None;
    }
    proof {
        assert(text::texts(parts@)[1] == parts@[1]@);
    }
    match strings::strip_prefix(parts[1].as_str(), "refs/tags/") {
        Some(tag) => match RustVersion::from_str(tag.as_str()) {
            Ok(v) => if request.matches(&v, None) {
                Some(v.0)
            } else {
                None
            },
            Err(_) => None,
        },
        None => None,
    }
}

/// The toolchain that the tags of the remote give a request.
pub fn newest_tag(request: &RustRequest, output: &Vec<u8>) -> (r: Result<String, Failure>)
    ensures
        is_remote_choice(
            request@,
            output@,
            match r {
                Ok(toolchain) => Ok(toolchain@),
                Err(e) => Err(e@),
            },
        ),
{
    match ops::decode_utf8(output) {
        Err(message) => Err(Failure::new(message)),
        Ok(text) => {
            let lines = strings::lines(text.as_str());
            let ghost all = tag_candidates(request@, text::lines(text@));
            let mut candidates: Vec<Option<Version>> = Vec::new();
            let mut i: usize = 0;
            while i < lines.len()
                invariant
                    i <= lines@.len(),
                    text::texts(lines@) == text::lines(text@),
                    all == tag_candidates(request@, text::lines(text@)),
                    version::candidate_views(candidates@) == all.take(i as int),
                decreases lines@.len() - i,
            {
                let ghost before = version::candidate_views(candidates@);
                let found = read_tag(request, lines[i].as_str());
                candidates.push(found);
                proof {
                    assert(text::texts(lines@)[i as int] == lines@[i as int]@);
                    assert(version::candidate_views(candidates@) =~= before.push(all[i as int]));
                    assert(all.take(i + 1) =~= all.take(i as int).push(all[i as int]));
                }
                i = i + 1;
            }
            proof {
                assert(text::texts(lines@).len() == lines@.len());
                assert(all.take(i as int) =~= all);
            }
            let choice = version::newest_of(&candidates);
            proof {
                assert(version::is_newest_of(all, version::optional_index(choice)));
            }
            match choice {
                Some(i) => match &candidates[i] {
                    Some(v) => {
                        proof {
                            assert(version::candidate_views(candidates@)[i as int] == Some(v@));
                        }
                        Ok(v.to_string())
                    },
                    None => {
                        proof {
                            assert(version::candidate_views(candidates@)[i as int] is None);
                        }
                        Err(Failure::of("Version not found on remote"))
                    },
                },
                None => Err(Failure::of("Version not found on remote")),
            }
        },
    }
}

/// A directory that holds one Rust toolchain per subdirectory.
#[derive(Debug, PartialEq)]
pub struct RustInstaller {
    pub(crate) root: PathBuf,
}

impl View for RustInstaller {
    type V = PathView;

    closed spec fn view(&self) -> PathView {
        self.root@
    }
}

/// Where [`RustInstaller::install`] is.
#[derive(Debug, PartialEq)]
pub enum InstallPhase {
    Start,
    MakeRoot,
    Lock,
    List,
    /// An installed compiler is asked for its version.
    AskCached(RustResult),
    FindSystem,
    /// The first of these compilers of the system is asked for its version.
    AskSystem(Vec<PathBuf>),
    ListTags,
    /// The toolchain of this name is installed.
    Install(String, ToolchainPhase),
    /// The compiler of the toolchain of this name is asked for its version.
    AskInstalled(String),
    Over,
}

/// Where [`RustInstaller::install`] is.
pub enum InstallPhaseView {
    Start,
    MakeRoot,
    Lock,
    List,
    AskCached(RustResultView),
    FindSystem,
    AskSystem(Seq<PathView>),
    ListTags,
    Install(Seq<char>, ToolchainPhaseView),
    AskInstalled(Seq<char>),
    Over,
}

impl View for InstallPhase {
    type V = InstallPhaseView;

    open spec fn view(&self) -> InstallPhaseView {
        match self {
            InstallPhase::Start => InstallPhaseView::Start,
            InstallPhase::MakeRoot => InstallPhaseView::MakeRoot,
            InstallPhase::Lock => InstallPhaseView::Lock,
            InstallPhase::List => InstallPhaseView::List,
            InstallPhase::AskCached(rust) => InstallPhaseView::AskCached(rust@),
            InstallPhase::FindSystem => InstallPhaseView::FindSystem,
            InstallPhase::AskSystem(paths) => InstallPhaseView::AskSystem(buf::path_views(paths@)),
            InstallPhase::ListTags => InstallPhaseView::ListTags,
            InstallPhase::Install(name, phase) => InstallPhaseView::Install(name@, phase@),
            InstallPhase::AskInstalled(name) => InstallPhaseView::AskInstalled(name@),
            InstallPhase::Over => InstallPhaseView::Over,
        }
    }
}

/// What the installation does next.
pub type InstallNext = (InstallPhaseView, StepView<RustResultView>);

/// The installation ends with a failure.
pub open spec fn install_failure(messages: Seq<Seq<char>>) -> InstallNext {
    (InstallPhaseView::Over, StepView::Fail(messages))
}

/// The name and the directory of the toolchain that a compiler belongs to: two levels
/// above its executable file.
pub open spec fn toolchain_of(bin: PathView) -> Option<(Seq<char>, PathView)> {
    match bin.parent() {
        Some(bin_dir) => match bin_dir.parent() {
            Some(dir) => match dir.file_name() {
                Some(name) => if vstd::utf8::valid_utf8(name) {
                    Some((vstd::utf8::decode_utf8(name), dir))
                } else {
                    None
                },
                None => None,
            },
            None => None,
        },
        None => None,
    }
}

/// An installed compiler is asked for its version.
pub open spec fn ask_cached(rust: RustResultView) -> InstallNext {
    match toolchain_of(rust.path) {
        Some((name, dir)) => (
            InstallPhaseView::AskCached(rust),
            StepView::Do(
                ActionView::Run(ask_toolchain_version(rust.path, name, dir.child("rustup"@))),
            ),
        ),
        None => install_failure(seq!["Failed to extract toolchain name"@]),
    }
}

/// What follows the search among the installed toolchains.
pub open spec fn after_search(
    binary_name: Seq<char>,
    entries: Seq<EntryView>,
    choice: Option<int>,
) -> InstallNext {
    match choice {
        Some(i) => ask_cached(rust_in(entries[i].path, false)),
        None => (InstallPhaseView::FindSystem, StepView::Do(ActionView::FindAll(binary_name))),
    }
}

/// What can follow when the installed toolchains are listed.
pub open spec fn after_listing(
    request: RustRequestView,
    binary_name: Seq<char>,
    entries: Seq<EntryView>,
    next: InstallNext,
) -> bool {
    exists|choice: Option<int>| #[trigger]
        is_installed_choice(request, entries, choice) && next == after_search(
            binary_name,
            entries,
            choice,
        )
}

/// The command that lists the tags of the Rust repository.
pub open spec fn list_tags() -> CommandView {
    CommandView::new(WordView::Text("git"@), "list rust tags"@).text("ls-remote"@).text(
        "--tags"@,
    ).text("https://github.com/rust-lang/rust"@)
}

/// The toolchain that a request names without a look at the remote. Any version is the
/// stable channel.
pub open spec fn named_toolchain(request: RustRequestView) -> Option<Seq<char>> {
    match request {
        RustRequestView::Any => Some("stable"@),
        RustRequestView::Channel(channel) => Some(channel),
        RustRequestView::Path(path) => Some(action::shown(path)),
        _ => None,
    }
}

/// What follows a step of the installation of a toolchain.
pub open spec fn after_toolchain(
    root: PathView,
    toolchain: Seq<char>,
    next: toolchain::ToolchainNext,
) -> InstallNext {
    let target = root.child(toolchain);
    match next.1 {
        StepView::Do(action) => (
            InstallPhaseView::Install(toolchain, next.0),
            StepView::Do(action),
        ),
        StepView::Fail(messages) => install_failure(messages),
        StepView::Done(_) => (
            InstallPhaseView::AskInstalled(toolchain),
            StepView::Do(
                ActionView::Run(
                    ask_toolchain_version(
                        rust_in(target, false).path,
                        toolchain,
                        target.child("rustup"@),
                    ),
                ),
            ),
        ),
    }
}

/// The installation of a toolchain starts.
pub open spec fn start_install(root: PathView, toolchain: Seq<char>) -> InstallNext {
    after_toolchain(
        root,
        toolchain,
        toolchain::toolchain_next(
            toolchain,
            root.child(toolchain),
            ToolchainPhaseView::Start,
            OutcomeView::Begin,
        ),
    )
}

/// What can follow when the tags of the remote are listed.
pub open spec fn after_tags(
    root: PathView,
    request: RustRequestView,
    output: Seq<u8>,
    next: InstallNext,
) -> bool {
    exists|choice: Result<Seq<char>, Seq<Seq<char>>>| #[trigger]
        is_remote_choice(request, output, choice) && next == match choice {
            Ok(toolchain) => start_install(root, toolchain),
            Err(messages) => install_failure(messages),
        }
}

/// What follows when nothing that is there will do.
pub open spec fn resolve(
    root: PathView,
    request: RustRequestView,
    allows_download: bool,
) -> InstallNext {
    if !allows_download {
        install_failure(seq!["No suitable system Rust version found and downloads are disabled"@])
    } else {
        match named_toolchain(request) {
            Some(toolchain) => start_install(root, toolchain),
            None => (InstallPhaseView::ListTags, StepView::Do(ActionView::Run(list_tags()))),
        }
    }
}

/// The next compiler of the system is asked for its version.
pub open spec fn ask_system(
    root: PathView,
    request: RustRequestView,
    allows_download: bool,
    paths: Seq<PathView>,
) -> InstallNext {
    if paths.len() > 0 {
        (
            InstallPhaseView::AskSystem(paths),
            StepView::Do(ActionView::Run(ask_version(paths[0]))),
        )
    } else {
        resolve(root, request, allows_download)
    }
}

/// What follows when a compiler told its version.
pub open spec fn after_version(rust: RustResultView, output: Seq<u8>) -> InstallNext {
    match version_in_output(output) {
        Ok(version) => (
            InstallPhaseView::Over,
            StepView::Done(RustResultView { version, ..rust }),
        ),
        Err(messages) => install_failure(messages),
    }
}

/// How a Rust toolchain is found or installed: one that is installed comes first, then one
/// of the system, and a new one is installed only where neither answers the request.
pub open spec fn install_next(
    root: PathView,
    binary_name: Seq<char>,
    request: RustRequestView,
    allows_download: bool,
    phase: InstallPhaseView,
    outcome: OutcomeView,
    next: InstallNext,
) -> bool {
    match (phase, outcome) {
        (InstallPhaseView::Start, OutcomeView::Begin) => next == (
            InstallPhaseView::MakeRoot,
            StepView::<RustResultView>::Do(ActionView::CreateDirAll(root)),
        ),
        (InstallPhaseView::MakeRoot, OutcomeView::Done) => next == (
            InstallPhaseView::Lock,
            StepView::<RustResultView>::Do(ActionView::Lock(root.child(".lock"@), "rust"@)),
        ),
        (InstallPhaseView::Lock, OutcomeView::Done) => next == (
            InstallPhaseView::List,
            StepView::<RustResultView>::Do(ActionView::ListDir(root)),
        ),
        (InstallPhaseView::List, OutcomeView::Entries(entries)) => after_listing(
            request,
            binary_name,
            entries,
            next,
        ),
        (InstallPhaseView::List, OutcomeView::Failed(_)) => next == after_search(
            binary_name,
            Seq::empty(),
            None,
        ),
        (InstallPhaseView::AskCached(rust), OutcomeView::Output(output)) => next == after_version(
            rust,
            output,
        ),
        (InstallPhaseView::FindSystem, OutcomeView::Paths(paths)) => next == ask_system(
            root,
            request,
            allows_download,
            paths,
        ),
        (InstallPhaseView::FindSystem, OutcomeView::Failed(_)) => next == resolve(
            root,
            request,
            allows_download,
        ),
        (InstallPhaseView::AskSystem(paths), OutcomeView::Output(output)) if paths.len() > 0 =>
        next == match version_in_output(output) {
            Ok(version) if rust_version::rust_matches(request, version, Some(paths[0])) => (
                InstallPhaseView::Over,
                StepView::Done(RustResultView { version, ..rust_at(paths[0], true) }),
            ),
            _ => ask_system(root, request, allows_download, paths.drop_first()),
        },
        (InstallPhaseView::AskSystem(paths), OutcomeView::Failed(_)) if paths.len() > 0 => next
            == ask_system(root, request, allows_download, paths.drop_first()),
        (InstallPhaseView::ListTags, OutcomeView::Output(output)) => after_tags(
            root,
            request,
            output,
            next,
        ),
        (InstallPhaseView::Install(toolchain, phase), _) => next == after_toolchain(
            root,
            toolchain,
            toolchain::toolchain_next(toolchain, root.child(toolchain), phase, outcome),
        ),
        (InstallPhaseView::AskInstalled(toolchain), OutcomeView::Output(output)) => next
            == after_version(rust_in(root.child(toolchain), false), output),
        _ => next == install_failure(action::failure_of(outcome)),
    }
}

/// The name and the directory of the toolchain that a compiler belongs to.
fn find_toolchain(bin: &PathBuf) -> (r: Option<(String, PathBuf)>)
    ensures
        match r {
            Some((name, dir)) => toolchain_of(bin@) == Some((name@, dir@)),
            None => toolchain_of(bin@) is None,
        },
{
    match bin.parent() {
        Some(bin_dir) => match bin_dir.parent() {
            Some(dir) => match dir.file_name() {
                Some(name) => match ops::decode_utf8(&name) {
                    Ok(name) => Some((name, dir)),
                    Err(_) => None,
                },
                None => None,
            },
            None => None,
        },
        None => None,
    }
}

/// The compiler with the version that it told.
fn end_with_version(rust: RustResult, output: &Vec<u8>) -> (r: (InstallPhase, Step<RustResult>))
    ensures
        (r.0@, r.1@) == after_version(rust@, output@),
{
    match rust.fill_version(output) {
        Ok(rust) => (InstallPhase::Over, Step::Done(rust)),
        Err(failure) => (InstallPhase::Over, Step::Fail(failure)),
    }
}

impl RustInstaller {
    /// The installer of the toolchains below a directory.
    pub fn new(root: PathBuf) -> (r: RustInstaller)
        ensures
            r@ == root@,
    {
        RustInstaller { root }
    }

    /// The installed toolchain that answers a request, if there is one.
    pub fn find_installed(&self, request: &RustRequest, entries: &Vec<Entry>) -> (r: Option<
        RustResult,
    >)
        ensures
            exists|choice: Option<int>| #[trigger]
                is_installed_choice(request@, action::entry_views(entries@), choice) && match r {
                    Some(rust) => choice matches Some(i) && rust@ == rust_in(
                        action::entry_views(entries@)[i].path,
                        false,
                    ),
                    None => choice is None,
                },
    {
        let found = match request {
            RustRequest::Channel(channel) => find_channel(channel.as_str(), entries),
            _ => find_newest(request, entries),
        };
        proof {
            assert(is_installed_choice(
                request@,
                action::entry_views(entries@),
                version::optional_index(found),
            ));
        }
        match found {
            Some(i) => Some(RustResult::from_dir(&entries[i].path, false)),
            None => None,
        }
    }

    /// What follows a step of the installation of a toolchain.
    fn follow_toolchain(&self, name: String, next: (ToolchainPhase, Step<()>)) -> (r: (
        InstallPhase,
        Step<RustResult>,
    ))
        ensures
            (r.0@, r.1@) == after_toolchain(self@, name@, (next.0@, next.1@)),
    {
        match next.1 {
            Step::Do(action) => (InstallPhase::Install(name, next.0), Step::Do(action)),
            Step::Fail(failure) => (InstallPhase::Over, Step::Fail(failure)),
            Step::Done(_) => {
                let target = self.root.join(name.as_str());
                let command = RustResult::from_dir(&target, false).ask_toolchain(
                    name.as_str(),
                    toolchain::rustup_home_dir(&target),
                );
                (InstallPhase::AskInstalled(name), Step::Do(Action::Run(command)))
            },
        }
    }

    /// The installation of a toolchain starts.
    fn install_toolchain(&self, name: String) -> (r: (InstallPhase, Step<RustResult>))
        ensures
            (r.0@, r.1@) == start_install(self@, name@),
    {
        let next = toolchain::install_rust_with_toolchain(
            name.as_str(),
            &self.root.join(name.as_str()),
            ToolchainPhase::Start,
            Outcome::Begin,
        );
        self.follow_toolchain(name, next)
    }

    /// The toolchain that a request names, or a look at the remote where it names none.
    pub fn resolve_version(&self, request: &RustRequest, allows_download: bool) -> (r: (
        InstallPhase,
        Step<RustResult>,
    ))
        ensures
            (r.0@, r.1@) == resolve(self@, request@, allows_download),
    {
        if !allows_download {
            return (
                InstallPhase::Over,
                Step::Fail(
                    Failure::of(
                        "No suitable system Rust version found and downloads are disabled",
                    ),
                ),
            );
        }
        match request {
            RustRequest::Any => self.install_toolchain("stable".to_owned()),
            RustRequest::Channel(channel) => self.install_toolchain(channel.clone()),
            RustRequest::Path(path) => self.install_toolchain(path.to_string_lossy()),
            _ => {
                let command = Command::new(Word::text("git"), "list rust tags").text(
                    "ls-remote",
                ).text("--tags").text("https://github.com/rust-lang/rust");
                (InstallPhase::ListTags, Step::Do(Action::Run(command)))
            },
        }
    }

    /// The next compiler of the system is asked for its version.
    fn find_system_rust(
        &self,
        request: &RustRequest,
        allows_download: bool,
        paths: Vec<PathBuf>,
    ) -> (r: (InstallPhase, Step<RustResult>))
        ensures
            (r.0@, r.1@) == ask_system(
                self@,
                request@,
                allows_download,
                buf::path_views(paths@),
            ),
    {
        if paths.len() > 0 {
            let command = RustResult::from_executable(paths[0].duplicate(), true).ask();
            (InstallPhase::AskSystem(paths), Step::Do(Action::Run(command)))
        } else {
            self.resolve_version(request, allows_download)
        }
    }

    /// Asks the compilers of the system behind the first.
    fn skip_system_rust(
        &self,
        request: &RustRequest,
        allows_download: bool,
        paths: Vec<PathBuf>,
    ) -> (r: (InstallPhase, Step<RustResult>))
        requires
            paths@.len() > 0,
        ensures
            (r.0@, r.1@) == ask_system(
                self@,
                request@,
                allows_download,
                buf::path_views(paths@).drop_first(),
            ),
    {
        let mut left = paths;
        let _ = left.remove(0);
        proof {
            assert(buf::path_views(left@) =~= buf::path_views(paths@).drop_first());
        }
        self.find_system_rust(request, allows_download, left)
    }

    /// What follows the search among the installed toolchains.
    fn after_list(&self, request: &RustRequest, binary_name: &str, entries: &Vec<Entry>) -> (r: (
        InstallPhase,
        Step<RustResult>,
    ))
        ensures
            after_listing(request@, binary_name@, action::entry_views(entries@), (r.0@, r.1@)),
    {
        match self.find_installed(request, entries) {
            Some(rust) => match find_toolchain(rust.bin()) {
                Some((name, dir)) => {
                    let command = rust.ask_toolchain(
                        name.as_str(),
                        toolchain::rustup_home_dir(&dir),
                    );
                    (InstallPhase::AskCached(rust), Step::Do(Action::Run(command)))
                },
                None => (
                    InstallPhase::Over,
                    Step::Fail(Failure::of("Failed to extract toolchain name")),
                ),
            },
            None => (
                InstallPhase::FindSystem,
                Step::Do(Action::FindAll(binary_name.to_owned())),
            ),
        }
    }

    /// What follows when the tags of the remote are listed.
    fn after_list_tags(&self, request: &RustRequest, output: &Vec<u8>) -> (r: (
        InstallPhase,
        Step<RustResult>,
    ))
        ensures
            after_tags(self@, request@, output@, (r.0@, r.1@)),
    {
        match newest_tag(request, output) {
            Ok(name) => {
                proof {
                    assert(is_remote_choice(
                        request@,
                        output@,
                        Ok::<Seq<char>, Seq<Seq<char>>>(name@),
                    ));
                }
                self.install_toolchain(name)
            },
            Err(failure) => {
                proof {
                    assert(is_remote_choice(
                        request@,
                        output@,
                        Err::<Seq<char>, Seq<Seq<char>>>(failure@),
                    ));
                }
                (InstallPhase::Over, Step::Fail(failure))
            },
        }
    }

    /// Finds or installs a Rust toolchain that answers a request.
    pub fn install(
        &self,
        request: &RustRequest,
        allows_download: bool,
        binary_name: &str,
        phase: InstallPhase,
        outcome: Outcome,
    ) -> (r: (InstallPhase, Step<RustResult>))
        ensures
            install_next(
                self@,
                binary_name@,
                request@,
                allows_download,
                phase@,
                outcome@,
                (r.0@, r.1@),
            ),
    {
        match (phase, outcome) {
            (InstallPhase::Start, Outcome::Begin) => (
                InstallPhase::MakeRoot,
                Step::Do(Action::CreateDirAll(self.root.duplicate())),
            ),
            (InstallPhase::MakeRoot, Outcome::Done) => (
                InstallPhase::Lock,
                Step::Do(Action::Lock(self.root.join(".lock"), "rust".to_owned())),
            ),
            (InstallPhase::Lock, Outcome::Done) => (
                InstallPhase::List,
                Step::Do(Action::ListDir(self.root.duplicate())),
            ),
            (InstallPhase::List, Outcome::Entries(entries)) => {
                self.after_list(request, binary_name, &entries)
            },
            (InstallPhase::List, Outcome::Failed(_)) => (
                InstallPhase::FindSystem,
                Step::Do(Action::FindAll(binary_name.to_owned())),
            ),
            (InstallPhase::AskCached(rust), Outcome::Output(output)) => end_with_version(
                rust,
                &output,
            ),
            (InstallPhase::FindSystem, Outcome::Paths(paths)) => self.find_system_rust(
                request,
                allows_download,
                paths,
            ),
            (InstallPhase::FindSystem, Outcome::Failed(_)) => self.resolve_version(
                request,
                allows_download,
            ),
            (InstallPhase::AskSystem(paths), Outcome::Output(output)) if paths.len() > 0 => {
                proof {
                    assert(buf::path_views(paths@)[0] == paths@[0]@);
                }
                let asked = RustResult::from_executable(paths[0].duplicate(), true);
                match asked.fill_version(&output) {
                    Ok(rust) => if request.matches(rust.version(), Some(&paths[0])) {
                        (InstallPhase::Over, Step::Done(rust))
                    } else {
                        self.skip_system_rust(request, allows_download, paths)
                    },
                    Err(_) => self.skip_system_rust(request, allows_download, paths),
                }
            },
            (InstallPhase::AskSystem(paths), Outcome::Failed(_)) if paths.len() > 0 =>
            self.skip_system_rust(request, allows_download, paths),
            (InstallPhase::ListTags, Outcome::Output(output)) => self.after_list_tags(
                request,
                &output,
            ),
            (InstallPhase::Install(name, phase), outcome) => {
                let next = toolchain::install_rust_with_toolchain(
                    name.as_str(),
                    &self.root.join(name.as_str()),
                    phase,
                    outcome,
                );
                self.follow_toolchain(name, next)
            },
            (InstallPhase::AskInstalled(name), Outcome::Output(output)) => {
                let target = self.root.join(name.as_str());
                end_with_version(RustResult::from_dir(&target, false), &output)
            },
            (_, other) => (InstallPhase::Over, Step::Fail(other.into_failure())),
        }
    }
}

/// Whether the phase belongs to the installation of a new toolchain.
pub open spec fn installs(phase: InstallPhaseView) -> bool {
    phase is ListTags || phase is Install || phase is AskInstalled
}

/// Where downloads are not allowed, no toolchain is installed and no remote is asked:
/// nothing is fetched, and all that is run are compilers that are asked for their version.
pub proof fn law_nothing_is_installed_where_downloads_are_off(
    root: PathView,
    binary_name: Seq<char>,
    request: RustRequestView,
    phase: InstallPhaseView,
    outcome: OutcomeView,
    next: InstallNext,
)
    requires
        install_next(root, binary_name, request, false, phase, outcome, next),
        !installs(phase),
    ensures
        !installs(next.0),
        next.1 matches StepView::Do(action) ==> !(action is Fetch),
        next.1 matches StepView::Do(ActionView::Run(command)) ==> command.args =~= seq![
            WordView::Text("--version"@),
        ],
{
}

/// The system is searched only where no installed toolchain answers the request, or the
/// installed ones cannot be listed.
pub proof fn law_installed_comes_before_system(
    root: PathView,
    binary_name: Seq<char>,
    request: RustRequestView,
    allows_download: bool,
    phase: InstallPhaseView,
    outcome: OutcomeView,
    next: InstallNext,
)
    requires
        install_next(root, binary_name, request, allows_download, phase, outcome, next),
        next.0 is FindSystem,
    ensures
        phase is List,
        match outcome {
            OutcomeView::Entries(entries) => is_installed_choice(request, entries, None),
            _ => outcome is Failed,
        },
{
}

/// A toolchain is installed only after the compilers of the system were asked: there was
/// none, or the last of them did not answer the request.
pub proof fn law_system_comes_before_install(
    root: PathView,
    binary_name: Seq<char>,
    request: RustRequestView,
    allows_download: bool,
    phase: InstallPhaseView,
    outcome: OutcomeView,
    next: InstallNext,
)
    requires
        install_next(root, binary_name, request, allows_download, phase, outcome, next),
        installs(next.0),
        !installs(phase),
    ensures
        allows_download,
        match phase {
            InstallPhaseView::FindSystem => outcome is Failed || outcome == OutcomeView::Paths(
                Seq::empty(),
            ),
            InstallPhaseView::AskSystem(paths) => {
                &&& paths.len() == 1
                &&& outcome is Failed || (outcome matches OutcomeView::Output(output) && !(
                version_in_output(output) matches Ok(version) && rust_version::rust_matches(
                    request,
                    version,
                    Some(paths[0]),
                )))
            },
            _ => false,
        },
{
    if let OutcomeView::Paths(paths) = outcome {
        if paths.len() == 0 {
            assert(paths =~= Seq::empty());
        }
    }
    if let InstallPhaseView::AskSystem(paths) = phase {
        assert(paths.drop_first().len() == paths.len() - 1);
    }
}

/// A compiler of the system that is taken answers the request.
pub proof fn law_system_compiler_answers_the_request(
    root: PathView,
    binary_name: Seq<char>,
    request: RustRequestView,
    allows_download: bool,
    paths: Seq<PathView>,
    outcome: OutcomeView,
    next: InstallNext,
)
    requires
        install_next(
            root,
            binary_name,
            request,
            allows_download,
            InstallPhaseView::AskSystem(paths),
            outcome,
            next,
        ),
    ensures
        next.1 matches StepView::Done(rust) ==> {
            &&& rust.from_system
            &&& paths.len() > 0 && rust.path == paths[0]
            &&& rust_version::rust_matches(request, rust.version, Some(rust.path))
        },
{
}

/// A toolchain that was installed into a directory named by its version is found there
/// again by a request for versions that the version answers.
pub proof fn law_installed_version_is_found_again(
    tag: Seq<char>,
    v: SemVer,
    request: RustRequestView,
    entry: EntryView,
)
    requires
        rust_version::rust_version(tag) == Some(v),
        entry.kind is Dir,
        name_text(entry) == v.text(),
        rust_version::rust_matches(request, v, None),
    ensures
        installed_version(request, entry) == Some(v),
{
    strings::lemma_trim_twice(tag, Class::Space);
}

} // verus!
