//! Installing and running hooks that are written in Rust.

use vstd::prelude::*;

use crate::action;
use crate::action::{
    Action, ActionView, Command, Entry, EntryView, Failure, Outcome, OutcomeView, Step, StepView,
    Variable, VariableView, Word, WordView,
};
use crate::hook;
use crate::hook::{InstallInfo, InstallInfoView, LanguageRequest};
use crate::path::buf;
use crate::path::buf::PathBuf;
use crate::path::model::PathView;
use crate::platform::Platform;
use crate::run;
use crate::rust::installer;
use crate::rust::installer::{
    InstallNext, InstallPhase, InstallPhaseView, RustInstaller, RustResult, RustResultView,
};
use crate::rust::package;
use crate::rust::package::{PackageNext, PackagePhase, PackagePhaseView};
use crate::rust::plan;
use crate::rust::plan::Selection;
use crate::rust::toolchain;
use crate::rust::version as rust_version;
use crate::rust::version::{RustRequest, RustRequestView};
use crate::text;

verus! {

/// What is asked of the toolchain of a hook: which version, and whether a new one may be
/// installed.
pub fn requested_rust(request: &LanguageRequest) -> (r: (RustRequest, bool))
    requires
        !(request is Deno),
    ensures
        match request {
            LanguageRequest::Any { system_only } => r.0@ == RustRequestView::Any && r.1
                != *system_only,
            LanguageRequest::Rust(version) => r.0@ == version@ && r.1,
            _ => true,
        },
{
    match request {
        LanguageRequest::Any { system_only } => (RustRequest::Any, !*system_only),
        LanguageRequest::Rust(version) => (version.duplicate(), true),
        _ => (RustRequest::Any, false),
    }
}

/// A hook whose environment is to be installed.
#[derive(Debug, PartialEq)]
pub struct RustHook {
    /// The version that is asked for.
    pub request: RustRequest,
    /// Whether a new toolchain may be installed.
    pub allows_download: bool,
    /// The name under which compilers of the system are looked for.
    pub binary_name: String,
    /// The dependencies besides the repository.
    pub dependencies: Vec<String>,
    /// The repository of the hook, unless it is a local one.
    pub repo: Option<PathBuf>,
    /// The words of the entry, or why it has none.
    pub entry: Result<Vec<String>, Failure>,
    /// The directory of the toolchains.
    pub installer: RustInstaller,
}

/// What is known of a hook whose environment is to be installed.
pub struct RustHookView {
    pub request: RustRequestView,
    pub allows_download: bool,
    pub binary_name: Seq<char>,
    pub dependencies: Seq<Seq<char>>,
    pub repo: Option<PathView>,
    pub entry: Result<Seq<Seq<char>>, Seq<Seq<char>>>,
    pub root: PathView,
}

impl View for RustHook {
    type V = RustHookView;

    open spec fn view(&self) -> RustHookView {
        RustHookView {
            request: self.request@,
            allows_download: self.allows_download,
            binary_name: self.binary_name@,
            dependencies: text::texts(self.dependencies@),
            repo: buf::optional_view(self.repo),
            entry: match self.entry {
                Ok(words) => Ok(text::texts(words@)),
                Err(failure) => Err(failure@),
            },
            root: self.installer@,
        }
    }
}

/// What follows a row of actions.
#[derive(Debug, PartialEq)]
pub enum After {
    /// A lock file is looked for at the first of these places.
    Locks(PathBuf, Vec<PathBuf>),
    /// The sources of the package are looked for.
    Sources(PathBuf),
    /// The sources of the package are listed.
    ListSources(PathBuf),
    /// The package is built.
    Build(PathBuf),
    /// What was built is listed.
    ListBuilt,
    /// The command line tools are installed.
    Tools,
    /// Nothing is left to do.
    Finish,
    /// The installation fails.
    Fail(Failure),
}

/// What follows a row of actions.
pub enum AfterView {
    Locks(PathView, Seq<PathView>),
    Sources(PathView),
    ListSources(PathView),
    Build(PathView),
    ListBuilt,
    Tools,
    Finish,
    Fail(Seq<Seq<char>>),
}

impl View for After {
    type V = AfterView;

    open spec fn view(&self) -> AfterView {
        match self {
            After::Locks(dir, places) => AfterView::Locks(dir@, buf::path_views(places@)),
            After::Sources(dir) => AfterView::Sources(dir@),
            After::ListSources(dir) => AfterView::ListSources(dir@),
            After::Build(dir) => AfterView::Build(dir@),
            After::ListBuilt => AfterView::ListBuilt,
            After::Tools => AfterView::Tools,
            After::Finish => AfterView::Finish,
            After::Fail(failure) => AfterView::Fail(failure@),
        }
    }
}

/// Where the installation of an environment is.
#[derive(Debug, PartialEq)]
pub enum EnvPhase {
    Start,
    /// A toolchain is found or installed.
    Toolchain(InstallPhase),
    /// The directory of the environment is made.
    MakeEnv(RustResult),
    /// The directory of the executable files is made.
    MakeBin(InstallInfo),
    /// The package of the hook is looked for.
    Package(InstallInfo, PackagePhase),
    /// A row of actions is performed, one of which is under way.
    Perform(InstallInfo, Vec<Action>, After),
    /// The first of the places is looked at for a lock file.
    CheckLock(InstallInfo, PathBuf, Vec<PathBuf>),
    CheckSources(InstallInfo, PathBuf),
    ListSources(InstallInfo, PathBuf),
    ListBuilt(InstallInfo),
    Over,
}

/// Where the installation of an environment is.
pub enum EnvPhaseView {
    Start,
    Toolchain(InstallPhaseView),
    MakeEnv(RustResultView),
    MakeBin(InstallInfoView),
    Package(InstallInfoView, PackagePhaseView),
    Perform(InstallInfoView, Seq<ActionView>, AfterView),
    CheckLock(InstallInfoView, PathView, Seq<PathView>),
    CheckSources(InstallInfoView, PathView),
    ListSources(InstallInfoView, PathView),
    ListBuilt(InstallInfoView),
    Over,
}

impl View for EnvPhase {
    type V = EnvPhaseView;

    open spec fn view(&self) -> EnvPhaseView {
        match self {
            EnvPhase::Start => EnvPhaseView::Start,
            EnvPhase::Toolchain(phase) => EnvPhaseView::Toolchain(phase@),
            EnvPhase::MakeEnv(rust) => EnvPhaseView::MakeEnv(rust@),
            EnvPhase::MakeBin(info) => EnvPhaseView::MakeBin(info@),
            EnvPhase::Package(info, phase) => EnvPhaseView::Package(info@, phase@),
            EnvPhase::Perform(info, actions, after) => EnvPhaseView::Perform(
                info@,
                plan::action_views(actions@),
                after@,
            ),
            EnvPhase::CheckLock(info, dir, places) => EnvPhaseView::CheckLock(
                info@,
                dir@,
                buf::path_views(places@),
            ),
            EnvPhase::CheckSources(info, dir) => EnvPhaseView::CheckSources(info@, dir@),
            EnvPhase::ListSources(info, dir) => EnvPhaseView::ListSources(info@, dir@),
            EnvPhase::ListBuilt(info) => EnvPhaseView::ListBuilt(info@),
            EnvPhase::Over => EnvPhaseView::Over,
        }
    }
}

/// What the installation of an environment does next.
pub type EnvNext = (EnvPhaseView, StepView<InstallInfoView>);

/// The installation ends with a failure.
pub open spec fn env_failure(messages: Seq<Seq<char>>) -> EnvNext {
    (EnvPhaseView::Over, StepView::Fail(messages))
}

/// The installation ends with an environment.
pub open spec fn env_done(info: InstallInfoView) -> EnvNext {
    (EnvPhaseView::Over, StepView::Done(info))
}

/// An action that cannot but be performed now.
pub open spec fn start_row(info: InstallInfoView, actions: Seq<ActionView>, after: AfterView) -> EnvNext {
    (EnvPhaseView::Perform(info, actions.drop_first(), after), StepView::Do(actions[0]))
}

/// The channel of a request is noted, so that the environment is found again: any version
/// stands for the stable channel.
pub open spec fn note_channel(info: InstallInfoView, request: RustRequestView) -> InstallInfoView {
    match request {
        RustRequestView::Channel(channel) => info.with_extra("rust_channel"@, channel),
        RustRequestView::Any => info.with_extra("rust_channel"@, "stable"@),
        _ => info,
    }
}

/// What is known of an environment for a hook with a compiler.
pub open spec fn env_info(
    rust: RustResultView,
    env_path: PathView,
    request: RustRequestView,
) -> InstallInfoView {
    note_channel(
        InstallInfoView {
            language_version: rust.version,
            toolchain: rust.path,
            env_path,
            extras: Seq::empty(),
        },
        request,
    )
}

/// The command line tools are installed.
pub open spec fn tools_now(hook: RustHookView, info: InstallInfoView) -> EnvNext {
    let row = plan::install_tools(info.env_path, plan::cli_dependencies(hook.dependencies));
    if row.len() == 0 {
        env_done(info)
    } else {
        start_row(info, row, AfterView::Finish)
    }
}

/// The sources of the package are looked for.
pub open spec fn sources_now(info: InstallInfoView, dir: PathView) -> EnvNext {
    (
        EnvPhaseView::CheckSources(info, dir),
        StepView::Do(ActionView::Exists(dir.child("src"@))),
    )
}

/// A lock file is looked for at the first of these places.
pub open spec fn locks_now(info: InstallInfoView, dir: PathView, places: Seq<PathView>) -> EnvNext {
    if places.len() == 0 {
        sources_now(info, dir)
    } else {
        (
            EnvPhaseView::CheckLock(info, dir, places),
            StepView::Do(ActionView::Exists(places[0])),
        )
    }
}

/// The dependencies are added to the copied manifest and the package is built.
pub open spec fn build_now(hook: RustHookView, info: InstallInfoView, dir: PathView) -> EnvNext {
    start_row(
        info,
        seq![
            ActionView::Run(
                plan::add_dependencies(info.env_path, plan::lib_dependencies(hook.dependencies)),
            ),
            ActionView::Run(plan::build_with_deps(info.env_path, dir)),
        ],
        AfterView::ListBuilt,
    )
}

/// The directory of the binaries that cargo built.
pub open spec fn built_dir(info: InstallInfoView) -> PathView {
    info.env_path.child("target"@).child("release"@)
}

/// The directory of the copied sources.
pub open spec fn copied_sources(info: InstallInfoView) -> PathView {
    plan::manifest_dir(info.env_path).child("src"@)
}

/// What follows a row of actions.
pub open spec fn go_on(hook: RustHookView, info: InstallInfoView, after: AfterView) -> EnvNext {
    match after {
        AfterView::Locks(dir, places) => locks_now(info, dir, places),
        AfterView::Sources(dir) => sources_now(info, dir),
        AfterView::ListSources(dir) => (
            EnvPhaseView::ListSources(info, dir),
            StepView::Do(ActionView::ListDir(dir.child("src"@))),
        ),
        AfterView::Build(dir) => build_now(hook, info, dir),
        AfterView::ListBuilt => (
            EnvPhaseView::ListBuilt(info),
            StepView::Do(ActionView::ListDir(built_dir(info))),
        ),
        AfterView::Tools => tools_now(hook, info),
        AfterView::Finish => env_done(info),
        AfterView::Fail(messages) => env_failure(messages),
    }
}

/// The next action of a row is performed.
pub open spec fn perform(
    hook: RustHookView,
    info: InstallInfoView,
    actions: Seq<ActionView>,
    after: AfterView,
) -> EnvNext {
    if actions.len() > 0 {
        start_row(info, actions, after)
    } else {
        go_on(hook, info, after)
    }
}

/// The package of a hook is installed: directly where there are no dependencies on
/// libraries, else by a copy of its manifest to which they are added.
pub open spec fn package_now(
    hook: RustHookView,
    info: InstallInfoView,
    repo: PathView,
    dir: PathView,
    is_workspace: bool,
) -> EnvNext {
    let to = plan::manifest_dir(info.env_path);
    if plan::lib_dependencies(hook.dependencies).len() == 0 {
        start_row(
            info,
            seq![ActionView::Run(plan::install_local(info.env_path, dir))],
            AfterView::Tools,
        )
    } else {
        start_row(
            info,
            seq![
                ActionView::CreateDirAll(to),
                ActionView::Copy(dir.child("Cargo.toml"@), to.child("Cargo.toml"@)),
            ],
            AfterView::Locks(dir, plan::lock_locations(repo, dir, is_workspace)),
        )
    }
}

/// What follows a step of the search for the package.
pub open spec fn after_package(
    hook: RustHookView,
    info: InstallInfoView,
    repo: PathView,
    next: PackageNext,
) -> EnvNext {
    match next.1 {
        StepView::Do(action) => (EnvPhaseView::Package(info, next.0), StepView::Do(action)),
        StepView::Fail(messages) => env_failure(messages),
        StepView::Done((dir, is_workspace)) => package_now(hook, info, repo, dir, is_workspace),
    }
}

/// What follows when the directories are made: the package of the hook is looked for, if
/// there is a repository.
pub open spec fn after_bin(hook: RustHookView, info: InstallInfoView) -> EnvNext {
    match hook.repo {
        None => tools_now(hook, info),
        Some(repo) => match hook.entry {
            Err(messages) => env_failure(messages),
            Ok(words) => after_package(
                hook,
                info,
                repo,
                package::package_next(
                    repo,
                    words[0],
                    PackagePhaseView::Start,
                    OutcomeView::Begin,
                ),
            ),
        },
    }
}

/// What follows a step of the search for a toolchain.
pub open spec fn after_install(next: InstallNext) -> EnvNext {
    match next.1 {
        StepView::Do(action) => (EnvPhaseView::Toolchain(next.0), StepView::Do(action)),
        StepView::Fail(messages) => env_failure(seq!["Failed to install rust"@] + messages),
        StepView::Done(rust) => (
            EnvPhaseView::MakeEnv(rust),
            StepView::Do(ActionView::CreateEnvDir),
        ),
    }
}

/// What follows when the files of a directory are listed: the selected ones are copied.
pub open spec fn after_listed(
    hook: RustHookView,
    info: InstallInfoView,
    selection: Selection,
    entries: Seq<EntryView>,
    to: PathView,
    after: AfterView,
) -> EnvNext {
    let platform = info.env_path.platform;
    perform(
        hook,
        info,
        plan::copies(selection, platform, entries, to),
        match plan::first_problem(selection, platform, entries) {
            Some(problem) => AfterView::Fail(problem),
            None => after,
        },
    )
}

/// Whether the search for a toolchain can go on in this way.
pub open spec fn toolchain_goes_on(
    hook: RustHookView,
    phase: InstallPhaseView,
    outcome: OutcomeView,
    next: EnvNext,
) -> bool {
    exists|step: InstallNext| #[trigger]
        installer::install_next(
            hook.root,
            hook.binary_name,
            hook.request,
            hook.allows_download,
            phase,
            outcome,
            step,
        ) && next == after_install(step)
}

/// How the environment of a hook is installed: a toolchain is found or installed, the
/// package of the hook is built with it, and the command line tools are installed.
pub open spec fn env_next(
    hook: RustHookView,
    phase: EnvPhaseView,
    outcome: OutcomeView,
    next: EnvNext,
) -> bool {
    match (phase, outcome) {
        (EnvPhaseView::Start, OutcomeView::Begin) => toolchain_goes_on(
            hook,
            InstallPhaseView::Start,
            OutcomeView::Begin,
            next,
        ),
        (EnvPhaseView::Toolchain(inner), _) => toolchain_goes_on(hook, inner, outcome, next),
        (EnvPhaseView::MakeEnv(rust), OutcomeView::Path(env_path)) => next == (
            EnvPhaseView::MakeBin(env_info(rust, env_path, hook.request)),
            StepView::<InstallInfoView>::Do(ActionView::CreateDirAll(env_path.child("bin"@))),
        ),
        (EnvPhaseView::MakeBin(info), OutcomeView::Done) => next == after_bin(hook, info),
        (EnvPhaseView::Package(info, inner), _) => match (hook.repo, hook.entry) {
            (Some(repo), Ok(words)) => next == after_package(
                hook,
                info,
                repo,
                package::package_next(repo, words[0], inner, outcome),
            ),
            _ => next == env_failure(action::failure_of(outcome)),
        },
        (EnvPhaseView::Perform(info, actions, after), OutcomeView::Done) => next == perform(
            hook,
            info,
            actions,
            after,
        ),
        (EnvPhaseView::Perform(info, actions, after), OutcomeView::Output(_)) => next == perform(
            hook,
            info,
            actions,
            after,
        ),
        (EnvPhaseView::CheckLock(info, dir, places), OutcomeView::Answer(there)) if places.len()
            > 0 => next == if there {
            start_row(
                info,
                seq![
                    ActionView::Copy(
                        places[0],
                        plan::manifest_dir(info.env_path).child("Cargo.lock"@),
                    ),
                ],
                AfterView::Sources(dir),
            )
        } else {
            locks_now(info, dir, places.drop_first())
        },
        (EnvPhaseView::CheckSources(info, dir), OutcomeView::Answer(there)) => next == if there {
            start_row(
                info,
                seq![ActionView::CreateDirAll(copied_sources(info))],
                AfterView::ListSources(dir),
            )
        } else {
            build_now(hook, info, dir)
        },
        (EnvPhaseView::ListSources(info, dir), OutcomeView::Entries(entries)) => next
            == after_listed(
            hook,
            info,
            Selection::Sources,
            entries,
            copied_sources(info),
            AfterView::Build(dir),
        ),
        (EnvPhaseView::ListBuilt(info), OutcomeView::Entries(entries)) => next == after_listed(
            hook,
            info,
            Selection::Binaries,
            entries,
            info.env_path.child("bin"@),
            AfterView::Tools,
        ),
        _ => next == env_failure(action::failure_of(outcome)),
    }
}

/// A step of the installation of an environment.
pub type EnvStep = (EnvPhase, Step<InstallInfo>);

/// The first action of a row is performed.
fn begin_row(info: InstallInfo, actions: Vec<Action>, after: After) -> (r: EnvStep)
    requires
        actions@.len() > 0,
    ensures
        (r.0@, r.1@) == start_row(info@, plan::action_views(actions@), after@),
{
    let mut left = actions;
    let first = left.remove(0);
    proof {
        assert(plan::action_views(left@) =~= plan::action_views(actions@).drop_first());
        assert(plan::action_views(actions@)[0] == first@);
    }
    (EnvPhase::Perform(info, left, after), Step::Do(first))
}

/// One action alone.
fn one_action(action: Action) -> (r: Vec<Action>)
    ensures
        plan::action_views(r@) == seq![action@],
        r@.len() == 1,
{
    let mut r: Vec<Action> = Vec::new();
    r.push(action);
    proof {
        assert(plan::action_views(r@) =~= seq![action@]);
    }
    r
}

/// One action after another.
fn two_actions(first: Action, second: Action) -> (r: Vec<Action>)
    ensures
        plan::action_views(r@) == seq![first@, second@],
        r@.len() == 2,
{
    let mut r: Vec<Action> = Vec::new();
    r.push(first);
    r.push(second);
    proof {
        assert(plan::action_views(r@) =~= seq![first@, second@]);
    }
    r
}

/// The sources of the package are looked for.
fn check_sources(info: InstallInfo, dir: PathBuf) -> (r: EnvStep)
    ensures
        (r.0@, r.1@) == sources_now(info@, dir@),
{
    let src = dir.join("src");
    (EnvPhase::CheckSources(info, dir), Step::Do(Action::Exists(src)))
}

/// A lock file is looked for at the first of these places.
fn check_locks(info: InstallInfo, dir: PathBuf, places: Vec<PathBuf>) -> (r: EnvStep)
    ensures
        (r.0@, r.1@) == locks_now(info@, dir@, buf::path_views(places@)),
{
    if places.len() == 0 {
        check_sources(info, dir)
    } else {
        let first = places[0].duplicate();
        proof {
            assert(buf::path_views(places@)[0] == first@);
        }
        (EnvPhase::CheckLock(info, dir, places), Step::Do(Action::Exists(first)))
    }
}

/// What is known of an environment for a hook with a compiler.
pub fn new_install_info(rust: &RustResult, env_path: PathBuf, request: &RustRequest) -> (r:
    InstallInfo)
    ensures
        r@ == env_info(rust@, env_path@, request@),
{
    let mut info = InstallInfo::new(env_path);
    info.with_toolchain(rust.bin().duplicate());
    info.with_language_version(rust.version().0.duplicate());
    match request {
        RustRequest::Channel(channel) => {
            info.with_extra("rust_channel", channel.as_str());
        },
        RustRequest::Any => {
            info.with_extra("rust_channel", "stable");
        },
        _ => {},
    }
    info
}

impl RustHook {
    /// The command line tools are installed.
    fn install_cli_dependencies(&self, info: InstallInfo) -> (r: EnvStep)
        ensures
            (r.0@, r.1@) == tools_now(self@, info@),
    {
        let (tools, _) = plan::split_dependencies(&self.dependencies);
        let row = plan::install_tool_actions(&info.env_path, &tools);
        proof {
            assert(plan::action_views(row@).len() == row@.len());
        }
        if row.len() == 0 {
            (EnvPhase::Over, Step::Done(info))
        } else {
            begin_row(info, row, After::Finish)
        }
    }

    /// The dependencies are added to the copied manifest and the package is built.
    fn build_package(&self, info: InstallInfo, dir: &PathBuf) -> (r: EnvStep)
        ensures
            (r.0@, r.1@) == build_now(self@, info@, dir@),
    {
        let (_, libs) = plan::split_dependencies(&self.dependencies);
        let row = two_actions(
            Action::Run(plan::add_command(&info.env_path, &libs)),
            Action::Run(plan::build_command(&info.env_path, dir)),
        );
        begin_row(info, row, After::ListBuilt)
    }

    /// What follows a row of actions.
    fn continue_with(&self, info: InstallInfo, after: After) -> (r: EnvStep)
        ensures
            (r.0@, r.1@) == go_on(self@, info@, after@),
    {
        match after {
            After::Locks(dir, places) => check_locks(info, dir, places),
            After::Sources(dir) => check_sources(info, dir),
            After::ListSources(dir) => {
                let src = dir.join("src");
                (EnvPhase::ListSources(info, dir), Step::Do(Action::ListDir(src)))
            },
            After::Build(dir) => self.build_package(info, &dir),
            After::ListBuilt => {
                let built = info.env_path.join("target").join("release");
                (EnvPhase::ListBuilt(info), Step::Do(Action::ListDir(built)))
            },
            After::Tools => self.install_cli_dependencies(info),
            After::Finish => (EnvPhase::Over, Step::Done(info)),
            After::Fail(failure) => (EnvPhase::Over, Step::Fail(failure)),
        }
    }

    /// The next action of a row is performed.
    fn perform_next(&self, info: InstallInfo, actions: Vec<Action>, after: After) -> (r: EnvStep)
        ensures
            (r.0@, r.1@) == perform(self@, info@, plan::action_views(actions@), after@),
    {
        proof {
            assert(plan::action_views(actions@).len() == actions@.len());
        }
        if actions.len() > 0 {
            begin_row(info, actions, after)
        } else {
            self.continue_with(info, after)
        }
    }

    /// The package of the hook is installed.
    fn install_package(
        &self,
        info: InstallInfo,
        repo: &PathBuf,
        dir: PathBuf,
        is_workspace: bool,
    ) -> (r: EnvStep)
        ensures
            (r.0@, r.1@) == package_now(self@, info@, repo@, dir@, is_workspace),
    {
        let (_, libs) = plan::split_dependencies(&self.dependencies);
        proof {
            assert(text::texts(libs@).len() == libs@.len());
        }
        if libs.len() == 0 {
            let command = plan::install_local_command(&info.env_path, &dir);
            begin_row(info, one_action(Action::Run(command)), After::Tools)
        } else {
            let to = info.env_path.join("manifest");
            let copy = Action::Copy(dir.join("Cargo.toml"), to.join("Cargo.toml"));
            let mut places: Vec<PathBuf> = Vec::new();
            if is_workspace {
                places.push(repo.join("Cargo.lock"));
            }
            places.push(dir.join("Cargo.lock"));
            proof {
                assert(buf::path_views(places@) =~= plan::lock_locations(
                    repo@,
                    dir@,
                    is_workspace,
                ));
            }
            let row = two_actions(Action::CreateDirAll(to), copy);
            begin_row(info, row, After::Locks(dir, places))
        }
    }

    /// What follows a step of the search for the package.
    fn follow_package(
        &self,
        info: InstallInfo,
        repo: &PathBuf,
        next: (PackagePhase, Step<(PathBuf, bool)>),
    ) -> (r: EnvStep)
        ensures
            (r.0@, r.1@) == after_package(self@, info@, repo@, (next.0@, next.1@)),
    {
        match next.1 {
            Step::Do(action) => (EnvPhase::Package(info, next.0), Step::Do(action)),
            Step::Fail(failure) => (EnvPhase::Over, Step::Fail(failure)),
            Step::Done((dir, is_workspace)) => self.install_package(info, repo, dir, is_workspace),
        }
    }

    /// A step of the search for the package.
    fn search_package(&self, info: InstallInfo, phase: PackagePhase, outcome: Outcome) -> (r:
        EnvStep)
        requires
            self.repo is Some ==> (self.entry matches Ok(words) ==> words@.len() > 0),
        ensures
            (r.0@, r.1@) == match (self@.repo, self@.entry) {
                (Some(repo), Ok(words)) => after_package(
                    self@,
                    info@,
                    repo,
                    package::package_next(repo, words[0], phase@, outcome@),
                ),
                _ => env_failure(action::failure_of(outcome@)),
            },
    {
        match (&self.repo, &self.entry) {
            (Some(repo), Ok(words)) => {
                proof {
                    assert(text::texts(words@)[0] == words@[0]@);
                }
                let next = package::find_package_dir(repo, words[0].as_str(), phase, outcome);
                self.follow_package(info, repo, next)
            },
            _ => (EnvPhase::Over, Step::Fail(outcome.into_failure())),
        }
    }

    /// What follows when the directories are made.
    fn after_make_bin(&self, info: InstallInfo) -> (r: EnvStep)
        requires
            self.repo is Some ==> (self.entry matches Ok(words) ==> words@.len() > 0),
        ensures
            (r.0@, r.1@) == after_bin(self@, info@),
    {
        match (&self.repo, &self.entry) {
            (None, _) => self.install_cli_dependencies(info),
            (Some(_), Err(failure)) => (EnvPhase::Over, Step::Fail(failure.duplicate())),
            (Some(_), Ok(_)) => self.search_package(info, PackagePhase::Start, Outcome::Begin),
        }
    }

    /// A step of the search for a toolchain.
    fn search_toolchain(&self, phase: InstallPhase, outcome: Outcome) -> (r: EnvStep)
        ensures
            toolchain_goes_on(self@, phase@, outcome@, (r.0@, r.1@)),
    {
        let next = self.installer.install(
            &self.request,
            self.allows_download,
            self.binary_name.as_str(),
            phase,
            outcome,
        );
        proof {
            assert(installer::install_next(
                self@.root,
                self@.binary_name,
                self@.request,
                self@.allows_download,
                phase@,
                outcome@,
                (next.0@, next.1@),
            ));
        }
        match next.1 {
            Step::Do(action) => (EnvPhase::Toolchain(next.0), Step::Do(action)),
            Step::Fail(failure) => (
                EnvPhase::Over,
                Step::Fail(failure.within("Failed to install rust".to_owned())),
            ),
            Step::Done(rust) => (EnvPhase::MakeEnv(rust), Step::Do(Action::CreateEnvDir)),
        }
    }

    /// What follows when the files of a directory are listed.
    fn copy_listed(
        &self,
        info: InstallInfo,
        selection: Selection,
        entries: &Vec<Entry>,
        to: &PathBuf,
        after: After,
    ) -> (r: EnvStep)
        ensures
            (r.0@, r.1@) == after_listed(
                self@,
                info@,
                selection,
                action::entry_views(entries@),
                to@,
                after@,
            ),
    {
        let (row, problem) = plan::plan_copies(selection, info.env_path.platform, entries, to);
        let after = match problem {
            Some(failure) => After::Fail(failure),
            None => after,
        };
        self.perform_next(info, row, after)
    }

    /// What follows when it is known whether a lock file is at the first of the places.
    fn after_check_lock(
        &self,
        info: InstallInfo,
        dir: PathBuf,
        places: Vec<PathBuf>,
        there: bool,
    ) -> (r: EnvStep)
        requires
            places@.len() > 0,
        ensures
            (r.0@, r.1@) == (if there {
                start_row(
                    info@,
                    seq![
                        ActionView::Copy(
                            buf::path_views(places@)[0],
                            plan::manifest_dir(info@.env_path).child("Cargo.lock"@),
                        ),
                    ],
                    AfterView::Sources(dir@),
                )
            } else {
                locks_now(info@, dir@, buf::path_views(places@).drop_first())
            }),
    {
        let mut left = places;
        let first = left.remove(0);
        proof {
            assert(buf::path_views(left@) =~= buf::path_views(places@).drop_first());
            assert(buf::path_views(places@)[0] == first@);
        }
        if there {
            let to = info.env_path.join("manifest").join("Cargo.lock");
            begin_row(info, one_action(Action::Copy(first, to)), After::Sources(dir))
        } else {
            check_locks(info, dir, left)
        }
    }

    /// Installs the environment of a hook. With a repository, the entry must not be empty
    /// where it has words.
    pub fn install(&self, phase: EnvPhase, outcome: Outcome) -> (r: EnvStep)
        requires
            self.repo is Some ==> (self.entry matches Ok(words) ==> words@.len() > 0),
        ensures
            env_next(self@, phase@, outcome@, (r.0@, r.1@)),
    {
        match (phase, outcome) {
            (EnvPhase::Start, Outcome::Begin) => self.search_toolchain(
                InstallPhase::Start,
                Outcome::Begin,
            ),
            (EnvPhase::Toolchain(inner), outcome) => self.search_toolchain(inner, outcome),
            (EnvPhase::MakeEnv(rust), Outcome::Path(env_path)) => {
                let bin = toolchain::bin_dir(&env_path);
                let info = new_install_info(&rust, env_path, &self.request);
                (EnvPhase::MakeBin(info), Step::Do(Action::CreateDirAll(bin)))
            },
            (EnvPhase::MakeBin(info), Outcome::Done) => self.after_make_bin(info),
            (EnvPhase::Package(info, inner), outcome) => self.search_package(info, inner, outcome),
            (EnvPhase::Perform(info, actions, after), Outcome::Done) => self.perform_next(
                info,
                actions,
                after,
            ),
            (EnvPhase::Perform(info, actions, after), Outcome::Output(_)) => self.perform_next(
                info,
                actions,
                after,
            ),
            (EnvPhase::CheckLock(info, dir, places), Outcome::Answer(there)) if places.len() > 0 =>
            self.after_check_lock(info, dir, places, there),
            (EnvPhase::CheckSources(info, dir), Outcome::Answer(there)) => if there {
                let to = info.env_path.join("manifest").join("src");
                begin_row(info, one_action(Action::CreateDirAll(to)), After::ListSources(dir))
            } else {
                self.build_package(info, &dir)
            },
            (EnvPhase::ListSources(info, dir), Outcome::Entries(entries)) => {
                let to = info.env_path.join("manifest").join("src");
                self.copy_listed(info, Selection::Sources, &entries, &to, After::Build(dir))
            },
            (EnvPhase::ListBuilt(info), Outcome::Entries(entries)) => {
                let to = toolchain::bin_dir(&info.env_path);
                self.copy_listed(info, Selection::Binaries, &entries, &to, After::Tools)
            },
            (_, other) => (EnvPhase::Over, Step::Fail(other.into_failure())),
        }
    }
}

/// The directories that are put before the search path when a hook runs: that of the
/// environment, then that of the compiler.
pub open spec fn run_dirs(info: InstallInfoView) -> Seq<PathView> {
    seq![info.env_path.child("bin"@), info.toolchain.parent()->0]
}

/// The variables that select a managed toolchain: one whose compiler lies below the
/// directory of the tools.
pub open spec fn managed_variables(info: InstallInfoView, tools: PathView) -> Seq<VariableView> {
    let compiler_dir = info.toolchain.parent()->0;
    if compiler_dir.starts_with(tools) {
        seq![
            VariableView {
                name: "RUSTUP_TOOLCHAIN"@,
                value: WordView::Text(info.language_version.text()),
            },
            VariableView {
                name: "RUSTUP_HOME"@,
                value: WordView::Text(
                    action::shown((compiler_dir.parent()->0).child("rustup"@)),
                ),
            },
        ]
    } else {
        Seq::empty()
    }
}

/// The variables that every hook runs with. Its own variables come behind them.
pub open spec fn run_variables(
    info: InstallInfoView,
    tools: PathView,
    search_path: WordView,
) -> Seq<VariableView> {
    seq![
        VariableView { name: "PATH"@, value: search_path },
        VariableView { name: "CARGO_HOME"@, value: WordView::Path(info.env_path) },
        VariableView { name: "RUSTUP_AUTO_INSTALL"@, value: WordView::Text("0"@) },
    ] + managed_variables(info, tools)
}

/// Whether the toolchain of an environment has the directories that a run looks for: one
/// above its compiler, and, where it is a managed one, one above that.
pub open spec fn has_run_dirs(info: InstallInfoView, tools: PathView) -> bool {
    info.toolchain.parent() matches Some(dir) && (dir.starts_with(tools) ==> dir.parent() is Some)
}

/// The directories that are put before the search path when a hook runs.
pub fn run_path(info: &InstallInfo) -> (r: Vec<PathBuf>)
    requires
        info@.toolchain.parent() is Some,
    ensures
        buf::path_views(r@) == run_dirs(info@),
{
    let mut r: Vec<PathBuf> = Vec::new();
    r.push(toolchain::bin_dir(&info.env_path));
    if let Some(dir) = info.toolchain.parent() {
        r.push(dir);
    }
    proof {
        assert(buf::path_views(r@) =~= run_dirs(info@));
    }
    r
}

/// The variables that select a managed toolchain.
fn managed_toolchain(info: &InstallInfo, tools: &PathBuf) -> (r: Vec<Variable>)
    requires
        has_run_dirs(info@, tools@),
    ensures
        action::variable_views(r@) == managed_variables(info@, tools@),
{
    let mut r: Vec<Variable> = Vec::new();
    if let Some(compiler_dir) = info.toolchain.parent() {
        if compiler_dir.starts_with(tools) {
            if let Some(dir) = compiler_dir.parent() {
                let name = "RUSTUP_TOOLCHAIN".to_owned();
                r.push(Variable { name, value: Word::Text(info.language_version.to_string()) });
                let home = toolchain::rustup_home_dir(&dir).to_string_lossy();
                r.push(Variable { name: "RUSTUP_HOME".to_owned(), value: Word::Text(home) });
            }
        }
    }
    proof {
        assert(action::variable_views(r@) =~= managed_variables(info@, tools@));
    }
    r
}

/// The command that runs a hook over a batch of files. `env` holds the hook's own variables,
/// which prevail. The entry must not be empty.
pub fn run_command(
    info: &InstallInfo,
    tools: &PathBuf,
    search_path: Word,
    entry: &Vec<String>,
    work_dir: &PathBuf,
    env: Vec<Variable>,
    args: &Vec<String>,
    batch: &Vec<PathBuf>,
) -> (r: Command)
    requires
        entry@.len() > 0,
        has_run_dirs(info@, tools@),
    ensures
        r@ == run::hook_command(
            "rust hook"@,
            text::texts(entry@),
            work_dir@,
            run_variables(info@, tools@, search_path@) + action::variable_views(env@),
            text::texts(args@),
            buf::path_views(batch@),
        ).without_input(),
        forall|name: Seq<char>| #[trigger]
            action::value_of(r@.env, name) == match action::value_of(
                action::variable_views(env@),
                name,
            ) {
                Some(value) => Some(value),
                None => action::value_of(run_variables(info@, tools@, search_path@), name),
            },
{
    let mut all: Vec<Variable> = Vec::new();
    all.push(Variable { name: "PATH".to_owned(), value: search_path });
    all.push(Variable { name: "CARGO_HOME".to_owned(), value: Word::path(&info.env_path) });
    all.push(Variable { name: "RUSTUP_AUTO_INSTALL".to_owned(), value: Word::text("0") });
    let ghost fixed = all@;
    let mut managed = managed_toolchain(info, tools);
    let ghost more = managed@;
    all.append(&mut managed);
    let ghost given = all@;
    let mut own = env;
    all.append(&mut own);
    proof {
        assert(action::variable_views(given) =~= action::variable_views(fixed)
            + action::variable_views(more));
        assert(action::variable_views(given) =~= run_variables(info@, tools@, search_path@));
        assert(action::variable_views(all@) =~= action::variable_views(given)
            + action::variable_views(env@));
        assert forall|name: Seq<char>| #[trigger]
            action::value_of(action::variable_views(all@), name) == match action::value_of(
                action::variable_views(env@),
                name,
            ) {
                Some(value) => Some(value),
                None => action::value_of(run_variables(info@, tools@, search_path@), name),
            } by {
            run::law_later_variables_prevail(
                action::variable_views(given),
                action::variable_views(env@),
                name,
            );
        }
    }
    run::build_hook_command("rust hook", entry, work_dir, all, args, batch).without_input()
}

/// An environment that was installed for a request satisfies it, if the compiler does or
/// if the request is for a channel or for any version.
pub proof fn law_installed_environment_satisfies_the_request(
    rust: RustResultView,
    env_path: PathView,
    request: RustRequestView,
)
    requires
        request is Any || request is Channel || rust_version::rust_matches(
            request,
            rust.version,
            Some(rust.path),
        ),
    ensures
        rust_version::rust_satisfied(request, env_info(rust, env_path, request)),
{
    let bare = InstallInfoView {
        language_version: rust.version,
        toolchain: rust.path,
        env_path,
        extras: Seq::empty(),
    };
    let channel = match request {
        RustRequestView::Channel(channel) => channel,
        _ => "stable"@,
    };
    hook::law_extra_is_found_again(bare, "rust_channel"@, channel, "rust_channel"@);
}

/// A failure in a row of actions ends the installation with that failure.
pub proof fn law_failure_ends_the_row(
    hook: RustHookView,
    info: InstallInfoView,
    actions: Seq<ActionView>,
    after: AfterView,
    messages: Seq<Seq<char>>,
    next: EnvNext,
)
    requires
        env_next(
            hook,
            EnvPhaseView::Perform(info, actions, after),
            OutcomeView::Failed(messages),
            next,
        ),
    ensures
        next == env_failure(messages),
{
}

/// Where an action of the installation writes to.
pub open spec fn writes_to(action: ActionView) -> Option<PathView> {
    match action {
        ActionView::CreateDirAll(path) => Some(path),
        ActionView::Copy(_, to) => Some(to),
        ActionView::WriteBytes(path, _) => Some(path),
        ActionView::Symlink(_, to) => Some(to),
        ActionView::Rename(_, to) => Some(to),
        ActionView::RemoveFile(path) => Some(path),
        ActionView::RemoveDirAll(path) => Some(path),
        ActionView::SetMode(path, _) => Some(path),
        _ => None,
    }
}

/// Whether a path is one of the directories that the installation fills in the
/// environment, or the path of an entry of one.
pub open spec fn in_environment(env: PathView, path: PathView) -> bool {
    let bin = env.child("bin"@);
    let manifest = plan::manifest_dir(env);
    let sources = manifest.child("src"@);
    path == bin || path == manifest || exists|name: Seq<u8>|
        path == #[trigger] bin.join(name) || path == manifest.join(name) || path == sources.join(
            name,
        )
}

/// Whether all actions of a row write to the environment only.
pub open spec fn row_stays_inside(env: PathView, actions: Seq<ActionView>) -> bool {
    forall|i: int|
        0 <= i < actions.len() ==> (writes_to(#[trigger] actions[i]) matches Some(path)
            ==> in_environment(env, path))
}

/// Whether the actions that a phase has still to perform write to the environment only.
pub open spec fn phase_stays_inside(phase: EnvPhaseView) -> bool {
    match phase {
        EnvPhaseView::Perform(info, actions, _) => row_stays_inside(info.env_path, actions),
        _ => true,
    }
}

/// The environment that a phase is about.
pub open spec fn env_of(phase: EnvPhaseView) -> Option<PathView> {
    match phase {
        EnvPhaseView::MakeBin(info) => Some(info.env_path),
        EnvPhaseView::Package(info, _) => Some(info.env_path),
        EnvPhaseView::Perform(info, _, _) => Some(info.env_path),
        EnvPhaseView::CheckLock(info, _, _) => Some(info.env_path),
        EnvPhaseView::CheckSources(info, _) => Some(info.env_path),
        EnvPhaseView::ListSources(info, _) => Some(info.env_path),
        EnvPhaseView::ListBuilt(info) => Some(info.env_path),
        _ => None,
    }
}

/// Whether a step writes to the environment only, and leads to a phase that does.
pub open spec fn stays_inside(next: EnvNext) -> bool {
    &&& phase_stays_inside(next.0)
    &&& next.1 matches StepView::Do(action) ==> (writes_to(action) matches Some(path) ==> (env_of(
        next.0,
    ) matches Some(env) && in_environment(env, path)))
}

/// A row that stays inside does so from its first action on.
proof fn lemma_row_stays_inside(info: InstallInfoView, actions: Seq<ActionView>, after: AfterView)
    requires
        row_stays_inside(info.env_path, actions),
        actions.len() > 0,
    ensures
        stays_inside(start_row(info, actions, after)),
{
    let rest = actions.drop_first();
    assert(writes_to(actions[0]) matches Some(path) ==> in_environment(info.env_path, path));
    assert forall|i: int| 0 <= i < rest.len() implies (writes_to(#[trigger] rest[i]) matches Some(
        path,
    ) ==> in_environment(info.env_path, path)) by {
        assert(rest[i] == actions[i + 1]);
    }
}

/// The paths of entries of the directories that are filled.
proof fn lemma_entries_are_inside(env: PathView, name: Seq<u8>)
    ensures
        in_environment(env, env.child("bin"@)),
        in_environment(env, plan::manifest_dir(env)),
        in_environment(env, env.child("bin"@).join(name)),
        in_environment(env, plan::manifest_dir(env).join(name)),
        in_environment(env, plan::manifest_dir(env).child("src"@).join(name)),
{
    let at = env.child("bin"@).join(name);
    assert(at == env.child("bin"@).join(name));
}

/// Copies go where they are told to.
proof fn lemma_copies_stay_inside(
    env: PathView,
    selection: Selection,
    platform: Platform,
    entries: Seq<EntryView>,
    to: PathView,
)
    requires
        to == env.child("bin"@) || to == plan::manifest_dir(env).child("src"@),
    ensures
        row_stays_inside(env, plan::copies(selection, platform, entries, to)),
    decreases entries.len(),
{
    if entries.len() > 0 {
        let rest = entries.drop_first();
        lemma_copies_stay_inside(env, selection, platform, rest, to);
        let row = plan::copies(selection, platform, entries, to);
        let more = plan::copies(selection, platform, rest, to);
        if plan::kind_of(selection, platform, entries[0]) is Copy {
            lemma_entries_are_inside(env, entries[0].name.bytes);
            assert forall|i: int| 0 <= i < row.len() implies (writes_to(
                #[trigger] row[i],
            ) matches Some(path) ==> in_environment(env, path)) by {
                if i > 0 {
                    assert(row[i] == more[i - 1]);
                }
            }
        }
    }
}

/// The installation of the tools writes no file by itself.
proof fn lemma_tools_stay_inside(hook: RustHookView, info: InstallInfoView)
    ensures
        stays_inside(tools_now(hook, info)),
{
    let row = plan::install_tools(info.env_path, plan::cli_dependencies(hook.dependencies));
    if row.len() > 0 {
        lemma_row_stays_inside(info, row, AfterView::Finish);
    }
}

/// Building the package writes no file by itself.
proof fn lemma_build_stays_inside(hook: RustHookView, info: InstallInfoView, dir: PathView)
    ensures
        stays_inside(build_now(hook, info, dir)),
{
    let row = seq![
        ActionView::Run(
            plan::add_dependencies(info.env_path, plan::lib_dependencies(hook.dependencies)),
        ),
        ActionView::Run(plan::build_with_deps(info.env_path, dir)),
    ];
    lemma_row_stays_inside(info, row, AfterView::ListBuilt);
}

/// Performing a row that stays inside does so.
proof fn lemma_perform_stays_inside(
    hook: RustHookView,
    info: InstallInfoView,
    actions: Seq<ActionView>,
    after: AfterView,
)
    requires
        row_stays_inside(info.env_path, actions),
    ensures
        stays_inside(perform(hook, info, actions, after)),
{
    if actions.len() > 0 {
        lemma_row_stays_inside(info, actions, after);
    } else {
        match after {
            AfterView::Build(dir) => lemma_build_stays_inside(hook, info, dir),
            AfterView::Tools => lemma_tools_stay_inside(hook, info),
            _ => {},
        }
    }
}

/// Installing the package of a hook writes to the environment only.
proof fn lemma_package_stays_inside(
    hook: RustHookView,
    info: InstallInfoView,
    repo: PathView,
    dir: PathView,
    is_workspace: bool,
)
    ensures
        stays_inside(package_now(hook, info, repo, dir, is_workspace)),
{
    let to = plan::manifest_dir(info.env_path);
    if plan::lib_dependencies(hook.dependencies).len() == 0 {
        let row = seq![ActionView::Run(plan::install_local(info.env_path, dir))];
        lemma_row_stays_inside(info, row, AfterView::Tools);
    } else {
        lemma_entries_are_inside(info.env_path, vstd::utf8::encode_utf8("Cargo.toml"@));
        let row = seq![
            ActionView::CreateDirAll(to),
            ActionView::Copy(dir.child("Cargo.toml"@), to.child("Cargo.toml"@)),
        ];
        lemma_row_stays_inside(
            info,
            row,
            AfterView::Locks(dir, plan::lock_locations(repo, dir, is_workspace)),
        );
    }
}

/// The search for a package writes nothing.
proof fn lemma_search_stays_inside(
    hook: RustHookView,
    info: InstallInfoView,
    repo: PathView,
    binary: Seq<char>,
    phase: PackagePhaseView,
    outcome: OutcomeView,
)
    ensures
        stays_inside(
            after_package(hook, info, repo, package::package_next(repo, binary, phase, outcome)),
        ),
{
    let next = package::package_next(repo, binary, phase, outcome);
    match (phase, outcome) {
        (PackagePhaseView::ListMembers, OutcomeView::Entries(entries)) => {
            lemma_members_are_only_read(repo, binary, entries);
        },
        (PackagePhaseView::CheckMember(entries), OutcomeView::Answer(_)) => {
            lemma_members_are_only_read(repo, binary, entries.drop_first());
        },
        (PackagePhaseView::ReadMember(entries), OutcomeView::Text(_)) => {
            lemma_members_are_only_read(repo, binary, entries.drop_first());
        },
        _ => {},
    }
    if let StepView::Done((dir, is_workspace)) = next.1 {
        lemma_package_stays_inside(hook, info, repo, dir, is_workspace);
    }
}

/// The search among entries writes nothing.
proof fn lemma_members_are_only_read(repo: PathView, binary: Seq<char>, entries: Seq<EntryView>)
    ensures
        package::search_members(repo, binary, entries).1 matches StepView::Do(action) ==> writes_to(
            action,
        ) is None,
    decreases entries.len(),
{
    if entries.len() > 0 {
        lemma_members_are_only_read(repo, binary, entries.drop_first());
    }
}

/// Copying listed files writes to the environment only.
proof fn lemma_listed_stays_inside(
    hook: RustHookView,
    info: InstallInfoView,
    selection: Selection,
    entries: Seq<EntryView>,
    to: PathView,
    after: AfterView,
)
    requires
        to == info.env_path.child("bin"@) || to == copied_sources(info),
    ensures
        stays_inside(after_listed(hook, info, selection, entries, to, after)),
{
    let platform = info.env_path.platform;
    lemma_copies_stay_inside(info.env_path, selection, platform, entries, to);
    let row = plan::copies(selection, platform, entries, to);
    lemma_perform_stays_inside(hook, info, row, after);
    if let Some(problem) = plan::first_problem(selection, platform, entries) {
        lemma_perform_stays_inside(hook, info, row, AfterView::Fail(problem));
    }
}

/// Copying a lock file writes to the environment only.
proof fn lemma_lock_stays_inside(info: InstallInfoView, dir: PathView, from: PathView)
    ensures
        stays_inside(
            start_row(
                info,
                seq![
                    ActionView::Copy(
                        from,
                        plan::manifest_dir(info.env_path).child("Cargo.lock"@),
                    ),
                ],
                AfterView::Sources(dir),
            ),
        ),
{
    let to = plan::manifest_dir(info.env_path).child("Cargo.lock"@);
    lemma_entries_are_inside(info.env_path, vstd::utf8::encode_utf8("Cargo.lock"@));
    lemma_row_stays_inside(info, seq![ActionView::Copy(from, to)], AfterView::Sources(dir));
}

/// Making the directory of the sources writes to the environment only.
proof fn lemma_sources_stay_inside(info: InstallInfoView, dir: PathView)
    ensures
        stays_inside(
            start_row(
                info,
                seq![ActionView::CreateDirAll(copied_sources(info))],
                AfterView::ListSources(dir),
            ),
        ),
{
    lemma_entries_are_inside(info.env_path, vstd::utf8::encode_utf8("src"@));
    let row = seq![ActionView::CreateDirAll(copied_sources(info))];
    lemma_row_stays_inside(info, row, AfterView::ListSources(dir));
}

/// What follows when the directories are made writes to the environment only.
proof fn lemma_after_bin_stays_inside(hook: RustHookView, info: InstallInfoView)
    ensures
        stays_inside(after_bin(hook, info)),
{
    match (hook.repo, hook.entry) {
        (None, _) => lemma_tools_stay_inside(hook, info),
        (Some(repo), Ok(words)) => lemma_search_stays_inside(
            hook,
            info,
            repo,
            words[0],
            PackagePhaseView::Start,
            OutcomeView::Begin,
        ),
        _ => {},
    }
}

/// Once the toolchain is there, nothing is written but to the directories of the
/// environment: the repository of the hook stays as it is.
pub proof fn law_repository_is_not_written_to(
    hook: RustHookView,
    phase: EnvPhaseView,
    outcome: OutcomeView,
    next: EnvNext,
)
    requires
        env_next(hook, phase, outcome, next),
        !(phase is Start || phase is Toolchain),
        phase_stays_inside(phase),
    ensures
        stays_inside(next),
{
    if next != env_failure(action::failure_of(outcome)) {
        match (phase, outcome) {
            (EnvPhaseView::MakeEnv(rust), OutcomeView::Path(env_path)) => {
                lemma_entries_are_inside(env_path, Seq::empty());
            },
            (EnvPhaseView::MakeBin(info), _) => {
                lemma_after_bin_stays_inside(hook, info);
            },
            (EnvPhaseView::Package(info, inner), _) => {
                if let (Some(repo), Ok(words)) = (hook.repo, hook.entry) {
                    lemma_search_stays_inside(hook, info, repo, words[0], inner, outcome);
                }
            },
            (EnvPhaseView::Perform(info, actions, after), _) => {
                lemma_perform_stays_inside(hook, info, actions, after);
            },
            (EnvPhaseView::CheckLock(info, dir, places), _) => {
                lemma_lock_stays_inside(info, dir, places[0]);
            },
            (EnvPhaseView::CheckSources(info, dir), _) => {
                lemma_sources_stay_inside(info, dir);
                lemma_build_stays_inside(hook, info, dir);
            },
            (EnvPhaseView::ListSources(info, dir), OutcomeView::Entries(entries)) => {
                lemma_listed_stays_inside(
                    hook,
                    info,
                    Selection::Sources,
                    entries,
                    copied_sources(info),
                    AfterView::Build(dir),
                );
            },
            (EnvPhaseView::ListBuilt(info), OutcomeView::Entries(entries)) => {
                lemma_listed_stays_inside(
                    hook,
                    info,
                    Selection::Binaries,
                    entries,
                    info.env_path.child("bin"@),
                    AfterView::Tools,
                );
            },
            _ => {},
        }
    }
}

} // verus!
