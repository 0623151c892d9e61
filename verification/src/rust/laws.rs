//! What holds of the installation and the runs of Rust hooks as a whole.

use vstd::prelude::*;

use crate::action;
use crate::action::{ActionView, EntryView, OutcomeView, StepView, WordView};
use crate::hook;
use crate::hook::InstallInfoView;
use crate::path::model::PathView;
use crate::rust::installer;
use crate::rust::installer::{InstallNext, RustResultView};
use crate::rust::language;
use crate::rust::language::{AfterView, EnvNext, EnvPhaseView, RustHookView};
use crate::rust::package;
use crate::rust::package::PackagePhaseView;
use crate::rust::plan;
use crate::rust::plan::Selection;
use crate::rust::version::RustRequestView;
use crate::text;

verus! {

/// Without dependencies on libraries, a package is installed by cargo from the directory where
/// it was found, be that the repository itself or a member of its workspace, and into the
/// environment.
pub proof fn law_package_is_installed_from_where_it_was_found(
    hook: RustHookView,
    info: InstallInfoView,
    repo: PathView,
    words: Seq<Seq<char>>,
    inner: PackagePhaseView,
    outcome: OutcomeView,
    dir: PathView,
    is_workspace: bool,
    next: EnvNext,
)
    requires
        language::env_next(hook, EnvPhaseView::Package(info, inner), outcome, next),
        hook.repo == Some(repo),
        hook.entry == Ok::<Seq<Seq<char>>, Seq<Seq<char>>>(words),
        package::package_next(repo, words[0], inner, outcome).1 == StepView::Done(
            (dir, is_workspace),
        ),
        forall|i: int|
            0 <= i < hook.dependencies.len() ==> text::begins(
                #[trigger] hook.dependencies[i],
                "cli:"@,
            ),
    ensures
        next.0 == EnvPhaseView::Perform(info, Seq::empty(), AfterView::Tools),
        next.1 matches StepView::Do(ActionView::Run(command)) && {
            &&& command.program == WordView::Text("cargo"@)
            &&& command.args =~= seq![
                WordView::Text("install"@),
                WordView::Text("--bins"@),
                WordView::Text("--root"@),
                WordView::Path(info.env_path),
                WordView::Text("--path"@),
                WordView::Text("."@),
            ]
            &&& command.current_dir == Some(dir)
            &&& action::value_of(command.env, "CARGO_HOME"@) == Some(
                WordView::Path(info.env_path),
            )
            &&& action::value_of(command.env, "RUSTUP_AUTO_INSTALL"@) == Some(
                WordView::Text("0"@),
            )
            &&& command.remove_git_env
            &&& command.check
        },
{
    plan::law_tools_alone_are_no_libraries(hook.dependencies);
    plan::law_cargo_is_told_where(info.env_path, dir, Seq::empty());
    lemma_cargo_variables(info.env_path);
    let row = seq![ActionView::Run(plan::install_local(info.env_path, dir))];
    assert(row.drop_first() =~= Seq::empty());
}

/// The values of the variables that cargo is given.
proof fn lemma_cargo_variables(env_path: PathView)
    ensures
        action::value_of(plan::cargo_variables(env_path), "CARGO_HOME"@) == Some(
            WordView::Path(env_path),
        ),
        action::value_of(plan::cargo_variables(env_path), "RUSTUP_AUTO_INSTALL"@) == Some(
            WordView::Text("0"@),
        ),
{
    reveal_strlit("CARGO_HOME");
    reveal_strlit("RUSTUP_AUTO_INSTALL");
    assert("CARGO_HOME"@[0] == 'C' && "RUSTUP_AUTO_INSTALL"@[0] == 'R');
    reveal_with_fuel(action::value_of, 3);
    let all = plan::cargo_variables(env_path);
    assert(all.drop_last().last() == all[0]);
}

/// With a dependency on a library, the manifest of the package that was found is copied into
/// the environment. A lock file is then looked for, at the root of a workspace before the
/// directory of the package, and elsewhere in that directory only.
pub proof fn law_manifest_of_the_package_is_copied(
    hook: RustHookView,
    info: InstallInfoView,
    repo: PathView,
    words: Seq<Seq<char>>,
    inner: PackagePhaseView,
    outcome: OutcomeView,
    dir: PathView,
    is_workspace: bool,
    next: EnvNext,
    i: int,
)
    requires
        language::env_next(hook, EnvPhaseView::Package(info, inner), outcome, next),
        hook.repo == Some(repo),
        hook.entry == Ok::<Seq<Seq<char>>, Seq<Seq<char>>>(words),
        package::package_next(repo, words[0], inner, outcome).1 == StepView::Done(
            (dir, is_workspace),
        ),
        0 <= i < hook.dependencies.len(),
        !text::begins(hook.dependencies[i], "cli:"@),
    ensures
        next.1 == StepView::<InstallInfoView>::Do(
            ActionView::CreateDirAll(info.env_path.child("manifest"@)),
        ),
        next.0 == EnvPhaseView::Perform(
            info,
            seq![
                ActionView::Copy(
                    dir.child("Cargo.toml"@),
                    info.env_path.child("manifest"@).child("Cargo.toml"@),
                ),
            ],
            AfterView::Locks(
                dir,
                if is_workspace {
                    seq![repo.child("Cargo.lock"@), dir.child("Cargo.lock"@)]
                } else {
                    seq![dir.child("Cargo.lock"@)]
                },
            ),
        ),
{
    plan::law_dependencies_are_parted(hook.dependencies);
    let libs = plan::lib_dependencies(hook.dependencies);
    assert(plan::cli_dependency(hook.dependencies[i]) is None);
    assert(libs.contains(hook.dependencies[i]));
    let to = info.env_path.child("manifest"@);
    let copy = ActionView::Copy(dir.child("Cargo.toml"@), to.child("Cargo.toml"@));
    let row = seq![ActionView::CreateDirAll(to), copy];
    assert(row.drop_first() =~= seq![copy]);
}

/// A row of actions is performed one after the other, each once the one before it is done.
pub proof fn law_row_is_performed_in_order(
    hook: RustHookView,
    info: InstallInfoView,
    actions: Seq<ActionView>,
    after: AfterView,
    outcome: OutcomeView,
    next: EnvNext,
)
    requires
        language::env_next(hook, EnvPhaseView::Perform(info, actions, after), outcome, next),
        outcome is Done || outcome is Output,
        actions.len() > 0,
    ensures
        next == (
            EnvPhaseView::Perform(info, actions.skip(1), after),
            StepView::<InstallInfoView>::Do(actions[0]),
        ),
{
    assert(actions.skip(1) =~= actions.drop_first());
}

/// Which place is looked at next for a lock file, or that the sources are.
pub open spec fn looks_for_lock(
    info: InstallInfoView,
    dir: PathView,
    places: Seq<PathView>,
    next: EnvNext,
) -> bool {
    next == if places.len() > 0 {
        (
            EnvPhaseView::CheckLock(info, dir, places),
            StepView::<InstallInfoView>::Do(ActionView::Exists(places[0])),
        )
    } else {
        (
            EnvPhaseView::CheckSources(info, dir),
            StepView::<InstallInfoView>::Do(ActionView::Exists(dir.child("src"@))),
        )
    }
}

/// The first lock file that is there is copied next to the copied manifest, and no other one.
/// Where none is there the installation goes on without one.
pub proof fn law_first_lock_file_is_copied(
    hook: RustHookView,
    info: InstallInfoView,
    dir: PathView,
    places: Seq<PathView>,
    outcome: OutcomeView,
    next: EnvNext,
)
    ensures
        language::env_next(
            hook,
            EnvPhaseView::Perform(info, Seq::empty(), AfterView::Locks(dir, places)),
            OutcomeView::Done,
            next,
        ) ==> looks_for_lock(info, dir, places, next),
        places.len() > 0 && language::env_next(
            hook,
            EnvPhaseView::CheckLock(info, dir, places),
            OutcomeView::Answer(false),
            next,
        ) ==> looks_for_lock(info, dir, places.skip(1), next),
        places.len() > 0 && language::env_next(
            hook,
            EnvPhaseView::CheckLock(info, dir, places),
            OutcomeView::Answer(true),
            next,
        ) ==> next == (
            EnvPhaseView::Perform(info, Seq::empty(), AfterView::Sources(dir)),
            StepView::<InstallInfoView>::Do(
                ActionView::Copy(
                    places[0],
                    info.env_path.child("manifest"@).child("Cargo.lock"@),
                ),
            ),
        ),
        (outcome is Done || outcome is Output) && language::env_next(
            hook,
            EnvPhaseView::Perform(info, Seq::empty(), AfterView::Sources(dir)),
            outcome,
            next,
        ) ==> looks_for_lock(info, dir, Seq::empty(), next),
{
    if places.len() > 0 {
        assert(places.skip(1) =~= places.drop_first());
    }
    let copy = seq![
        ActionView::Copy(places[0], info.env_path.child("manifest"@).child("Cargo.lock"@)),
    ];
    assert(copy.drop_first() =~= Seq::empty());
}

/// Whether the dependencies on libraries are added to the copied manifest now, with the build
/// of the package in its own directory behind it.
pub open spec fn adds_and_builds(
    hook: RustHookView,
    info: InstallInfoView,
    dir: PathView,
    next: EnvNext,
) -> bool {
    let libs = plan::lib_dependencies(hook.dependencies);
    &&& next.0 matches EnvPhaseView::Perform(to_come_info, to_come, after) && {
        &&& to_come_info == info
        &&& to_come.len() == 1
        &&& to_come[0] matches ActionView::Run(build) && {
            &&& build.program == WordView::Text("cargo"@)
            &&& build.args =~= seq![
                WordView::Text("build"@),
                WordView::Text("--bins"@),
                WordView::Text("--release"@),
                WordView::Text("--manifest-path"@),
                WordView::Path(info.env_path.child("manifest"@).child("Cargo.toml"@)),
                WordView::Text("--target-dir"@),
                WordView::Path(info.env_path.child("target"@)),
            ]
            &&& build.current_dir == Some(dir)
            &&& build.env == plan::cargo_variables(info.env_path)
            &&& build.remove_git_env && build.check
        }
        &&& after == AfterView::ListBuilt
    }
    &&& next.1 matches StepView::Do(ActionView::Run(add)) && {
        &&& add.program == WordView::Text("cargo"@)
        &&& add.args.len() == libs.len() + 1
        &&& add.args[0] == WordView::Text("add"@)
        &&& forall|i: int|
            0 <= i < libs.len() ==> #[trigger] add.args[i + 1] == WordView::Text(
                package::cargo_dependency(libs[i]),
            )
        &&& add.current_dir == Some(info.env_path.child("manifest"@))
        &&& add.env == plan::cargo_variables(info.env_path)
        &&& add.remove_git_env && add.check
    }
}

/// The dependencies on libraries are added and the package is built.
proof fn lemma_adds_and_builds(hook: RustHookView, info: InstallInfoView, dir: PathView)
    ensures
        adds_and_builds(hook, info, dir, language::build_now(hook, info, dir)),
{
    let libs = plan::lib_dependencies(hook.dependencies);
    plan::law_cargo_is_told_where(info.env_path, dir, libs);
    let add = ActionView::Run(plan::add_dependencies(info.env_path, libs));
    let build = ActionView::Run(plan::build_with_deps(info.env_path, dir));
    let row = seq![add, build];
    assert(row.drop_first() =~= seq![build]);
}

/// The sources of the package, if there are any, are copied before the dependencies are added;
/// then the package is built, and what was built is listed.
pub proof fn law_package_is_built_with_its_libraries(
    hook: RustHookView,
    info: InstallInfoView,
    dir: PathView,
    outcome: OutcomeView,
    next: EnvNext,
)
    ensures
        language::env_next(
            hook,
            EnvPhaseView::CheckSources(info, dir),
            OutcomeView::Answer(true),
            next,
        ) ==> next == (
            EnvPhaseView::Perform(info, Seq::empty(), AfterView::ListSources(dir)),
            StepView::<InstallInfoView>::Do(
                ActionView::CreateDirAll(info.env_path.child("manifest"@).child("src"@)),
            ),
        ),
        language::env_next(
            hook,
            EnvPhaseView::CheckSources(info, dir),
            OutcomeView::Answer(false),
            next,
        ) ==> adds_and_builds(hook, info, dir, next),
        outcome is Done || outcome is Output ==> {
            &&& language::env_next(
                hook,
                EnvPhaseView::Perform(info, Seq::empty(), AfterView::ListSources(dir)),
                outcome,
                next,
            ) ==> next == (
                EnvPhaseView::ListSources(info, dir),
                StepView::<InstallInfoView>::Do(ActionView::ListDir(dir.child("src"@))),
            )
            &&& language::env_next(
                hook,
                EnvPhaseView::Perform(info, Seq::empty(), AfterView::Build(dir)),
                outcome,
                next,
            ) ==> adds_and_builds(hook, info, dir, next)
            &&& language::env_next(
                hook,
                EnvPhaseView::Perform(info, Seq::empty(), AfterView::ListBuilt),
                outcome,
                next,
            ) ==> next == (
                EnvPhaseView::ListBuilt(info),
                StepView::<InstallInfoView>::Do(
                    ActionView::ListDir(info.env_path.child("target"@).child("release"@)),
                ),
            )
        },
{
    lemma_adds_and_builds(hook, info, dir);
    let row = seq![
        ActionView::CreateDirAll(info.env_path.child("manifest"@).child("src"@)),
    ];
    assert(row.drop_first() =~= Seq::empty());
}

/// Whether these copies are performed now, and then what is to follow them.
pub open spec fn copies_then(
    hook: RustHookView,
    info: InstallInfoView,
    copies: Seq<ActionView>,
    after: AfterView,
    next: EnvNext,
) -> bool {
    if copies.len() > 0 {
        next == (
            EnvPhaseView::Perform(info, copies.skip(1), after),
            StepView::<InstallInfoView>::Do(copies[0]),
        )
    } else {
        language::env_next(
            hook,
            EnvPhaseView::Perform(info, Seq::empty(), after),
            OutcomeView::Done,
            next,
        )
    }
}

/// The files of the source directory are copied next to the copied manifest before the package
/// is built, and the binaries that were built are copied to the directory of the executable
/// files before the tools are installed. An entry of which it cannot be told what it is ends the
/// installation with its problem, once the copies before it are made.
pub proof fn law_listed_files_are_copied(
    hook: RustHookView,
    info: InstallInfoView,
    dir: PathView,
    entries: Seq<EntryView>,
    next: EnvNext,
)
    ensures
        language::env_next(
            hook,
            EnvPhaseView::ListSources(info, dir),
            OutcomeView::Entries(entries),
            next,
        ) ==> copies_then(
            hook,
            info,
            plan::copies(
                Selection::Sources,
                info.env_path.platform,
                entries,
                info.env_path.child("manifest"@).child("src"@),
            ),
            match plan::first_problem(Selection::Sources, info.env_path.platform, entries) {
                Some(problem) => AfterView::Fail(problem),
                None => AfterView::Build(dir),
            },
            next,
        ),
        language::env_next(
            hook,
            EnvPhaseView::ListBuilt(info),
            OutcomeView::Entries(entries),
            next,
        ) ==> copies_then(
            hook,
            info,
            plan::copies(
                Selection::Binaries,
                info.env_path.platform,
                entries,
                info.env_path.child("bin"@),
            ),
            match plan::first_problem(Selection::Binaries, info.env_path.platform, entries) {
                Some(problem) => AfterView::Fail(problem),
                None => AfterView::Tools,
            },
            next,
        ),
{
    let sources = plan::copies(
        Selection::Sources,
        info.env_path.platform,
        entries,
        info.env_path.child("manifest"@).child("src"@),
    );
    let built = plan::copies(
        Selection::Binaries,
        info.env_path.platform,
        entries,
        info.env_path.child("bin"@),
    );
    if sources.len() > 0 {
        assert(sources.skip(1) =~= sources.drop_first());
    } else {
        assert(sources =~= Seq::empty());
    }
    if built.len() > 0 {
        assert(built.skip(1) =~= built.drop_first());
    } else {
        assert(built =~= Seq::empty());
    }
}

/// Whether the command line tools are installed now, or the installation ends where there is
/// none.
pub open spec fn installs_tools(
    hook: RustHookView,
    info: InstallInfoView,
    next: EnvNext,
) -> bool {
    let tools = plan::cli_dependencies(hook.dependencies);
    if tools.len() > 0 {
        &&& next.1 == StepView::<InstallInfoView>::Do(
            ActionView::Run(plan::install_tool(info.env_path, tools[0])),
        )
        &&& next.0 matches EnvPhaseView::Perform(to_come_info, to_come, after) && {
            &&& to_come_info == info
            &&& to_come.len() == tools.len() - 1
            &&& forall|i: int|
                0 <= i < to_come.len() ==> #[trigger] to_come[i] == ActionView::Run(
                    plan::install_tool(info.env_path, tools[i + 1]),
                )
            &&& after == AfterView::Finish
        }
    } else {
        next == (EnvPhaseView::Over, StepView::Done(info))
    }
}

/// Every command line tool is installed, in order, whether the hook has a repository or not,
/// and only then the installation ends, with what is known of the environment.
pub proof fn law_tools_are_installed_before_the_end(
    hook: RustHookView,
    info: InstallInfoView,
    outcome: OutcomeView,
    next: EnvNext,
)
    ensures
        hook.repo is None && language::env_next(
            hook,
            EnvPhaseView::MakeBin(info),
            OutcomeView::Done,
            next,
        ) ==> installs_tools(hook, info, next),
        outcome is Done || outcome is Output ==> {
            &&& language::env_next(
                hook,
                EnvPhaseView::Perform(info, Seq::empty(), AfterView::Tools),
                outcome,
                next,
            ) ==> installs_tools(hook, info, next)
            &&& language::env_next(
                hook,
                EnvPhaseView::Perform(info, Seq::empty(), AfterView::Finish),
                outcome,
                next,
            ) ==> next == (EnvPhaseView::Over, StepView::Done(info))
        },
{
    lemma_installs_tools(hook, info);
}

/// The command line tools are installed.
proof fn lemma_installs_tools(hook: RustHookView, info: InstallInfoView)
    ensures
        installs_tools(hook, info, language::tools_now(hook, info)),
{
    let tools = plan::cli_dependencies(hook.dependencies);
    plan::law_every_tool_is_installed(info.env_path, tools);
    let row = plan::install_tools(info.env_path, tools);
    if tools.len() > 0 {
        let rest = row.drop_first();
        assert forall|i: int| 0 <= i < rest.len() implies #[trigger] rest[i] == ActionView::Run(
            plan::install_tool(info.env_path, tools[i + 1]),
        ) by {
            assert(rest[i] == row[i + 1]);
        }
    }
}

/// A hook with a repository has its package searched for from the start, by the first word of
/// its entry. An entry that has no words ends the installation with what is wrong with it.
pub proof fn law_package_is_searched_by_the_first_word(
    hook: RustHookView,
    info: InstallInfoView,
    repo: PathView,
    inner: PackagePhaseView,
    outcome: OutcomeView,
    next: EnvNext,
)
    requires
        hook.repo == Some(repo),
    ensures
        language::env_next(hook, EnvPhaseView::MakeBin(info), OutcomeView::Done, next)
            ==> match hook.entry {
            Ok(words) => next == (
                EnvPhaseView::Package(info, PackagePhaseView::CheckRoot),
                StepView::<InstallInfoView>::Do(
                    ActionView::Exists(repo.child("Cargo.toml"@)),
                ),
            ),
            Err(messages) => next == (
                EnvPhaseView::Over,
                StepView::<InstallInfoView>::Fail(messages),
            ),
        },
        hook.entry is Ok && language::env_next(
            hook,
            EnvPhaseView::Package(info, inner),
            outcome,
            next,
        ) ==> ({
            let step = package::package_next(repo, hook.entry->Ok_0[0], inner, outcome);
            match step.1 {
                StepView::Do(action) => next == (
                    EnvPhaseView::Package(info, step.0),
                    StepView::<InstallInfoView>::Do(action),
                ),
                StepView::Fail(messages) => next == (
                    EnvPhaseView::Over,
                    StepView::<InstallInfoView>::Fail(messages),
                ),
                StepView::Done(_) => true,
            }
        }),
{
}

/// A toolchain is searched for with what the hook asks for. Why there is none is told behind
/// what was tried, and with one the directory of the environment is made.
pub proof fn law_toolchain_is_the_one_asked_for(
    hook: RustHookView,
    phase: installer::InstallPhaseView,
    outcome: OutcomeView,
    next: EnvNext,
)
    requires
        language::env_next(hook, EnvPhaseView::Toolchain(phase), outcome, next) || (phase
            == installer::InstallPhaseView::Start && outcome == OutcomeView::Begin
            && language::env_next(hook, EnvPhaseView::Start, outcome, next)),
    ensures
        exists|step: InstallNext|
            {
                &&& #[trigger] installer::install_next(
                    hook.root,
                    hook.binary_name,
                    hook.request,
                    hook.allows_download,
                    phase,
                    outcome,
                    step,
                )
                &&& match step.1 {
                    StepView::Do(action) => next == (
                        EnvPhaseView::Toolchain(step.0),
                        StepView::<InstallInfoView>::Do(action),
                    ),
                    StepView::Fail(messages) => next == (
                        EnvPhaseView::Over,
                        StepView::<InstallInfoView>::Fail(
                            seq!["Failed to install rust"@] + messages,
                        ),
                    ),
                    StepView::Done(rust) => next == (
                        EnvPhaseView::MakeEnv(rust),
                        StepView::<InstallInfoView>::Do(ActionView::CreateEnvDir),
                    ),
                }
            },
{
    let step = choose|step: InstallNext| #[trigger]
        installer::install_next(
            hook.root,
            hook.binary_name,
            hook.request,
            hook.allows_download,
            phase,
            outcome,
            step,
        ) && next == language::after_install(step);
    assert(installer::install_next(
        hook.root,
        hook.binary_name,
        hook.request,
        hook.allows_download,
        phase,
        outcome,
        step,
    ));
}

/// What is known of a new environment: the compiler and its version, where it is, and the
/// channel that was asked for. Any version stands for the stable channel, and a request for
/// versions for none.
pub proof fn law_new_environment_is_what_was_asked_for(
    hook: RustHookView,
    rust: RustResultView,
    env_path: PathView,
    next: EnvNext,
)
    requires
        language::env_next(
            hook,
            EnvPhaseView::MakeEnv(rust),
            OutcomeView::Path(env_path),
            next,
        ),
    ensures
        next.1 == StepView::<InstallInfoView>::Do(
            ActionView::CreateDirAll(env_path.child("bin"@)),
        ),
        next.0 matches EnvPhaseView::MakeBin(info) && {
            &&& info.language_version == rust.version
            &&& info.toolchain == rust.path
            &&& info.env_path == env_path
            &&& hook::extra_of(info.extras, "rust_channel"@) == match hook.request {
                RustRequestView::Channel(channel) => Some(channel),
                RustRequestView::Any => Some("stable"@),
                _ => None,
            }
        },
{
    let bare = InstallInfoView {
        language_version: rust.version,
        toolchain: rust.path,
        env_path,
        extras: Seq::empty(),
    };
    let key = "rust_channel"@;
    match hook.request {
        RustRequestView::Channel(channel) => {
            hook::law_extra_is_found_again(bare, key, channel, key);
        },
        RustRequestView::Any => {
            hook::law_extra_is_found_again(bare, key, "stable"@, key);
        },
        _ => {},
    }
}

/// What is known of the environment that a phase is about.
pub open spec fn info_of(phase: EnvPhaseView) -> Option<InstallInfoView> {
    match phase {
        EnvPhaseView::MakeBin(info) => Some(info),
        EnvPhaseView::Package(info, _) => Some(info),
        EnvPhaseView::Perform(info, _, _) => Some(info),
        EnvPhaseView::CheckLock(info, _, _) => Some(info),
        EnvPhaseView::CheckSources(info, _) => Some(info),
        EnvPhaseView::ListSources(info, _) => Some(info),
        EnvPhaseView::ListBuilt(info) => Some(info),
        _ => None,
    }
}

/// What is known of an environment stays as it is until the installation ends with it, and it
/// ends well in no other way.
pub proof fn law_environment_stays_the_same(
    hook: RustHookView,
    phase: EnvPhaseView,
    outcome: OutcomeView,
    next: EnvNext,
)
    requires
        language::env_next(hook, phase, outcome, next),
    ensures
        info_of(phase) is Some ==> match next.1 {
            StepView::Do(_) => info_of(next.0) == info_of(phase),
            StepView::Done(info) => Some(info) == info_of(phase),
            StepView::Fail(_) => true,
        },
        info_of(phase) is None ==> !(next.1 is Done),
{
}

/// Whether these are the steps of an installation from its start. The outcome at `i` is what
/// led to the step at `i`.
pub open spec fn is_run(
    hook: RustHookView,
    steps: Seq<EnvNext>,
    outcomes: Seq<OutcomeView>,
) -> bool {
    &&& steps.len() > 0
    &&& steps.len() == outcomes.len()
    &&& outcomes[0] == OutcomeView::Begin
    &&& language::env_next(hook, EnvPhaseView::Start, OutcomeView::Begin, steps[0])
    &&& forall|i: int|
        0 < i < steps.len() ==> steps[i - 1].1 is Do && language::env_next(
            hook,
            steps[i - 1].0,
            outcomes[i],
            #[trigger] steps[i],
        )
}

/// Whether the step at `k` is the one by which the search for the package found it in `dir`.
pub open spec fn is_found_at(
    hook: RustHookView,
    steps: Seq<EnvNext>,
    outcomes: Seq<OutcomeView>,
    k: int,
    dir: PathView,
) -> bool {
    &&& 0 < k < steps.len()
    &&& hook.repo matches Some(repo) && hook.entry matches Ok(words) && steps[k - 1].0
        matches EnvPhaseView::Package(_, inner) && package::package_next(
        repo,
        words[0],
        inner,
        outcomes[k],
    ).1 matches StepView::Done((found, _)) && found == dir
}

/// Whether a step runs cargo in a directory with these words first.
pub open spec fn runs_cargo(step: EnvNext, dir: PathView, words: Seq<WordView>) -> bool {
    step.1 matches StepView::Do(ActionView::Run(command)) && {
        &&& command.program == WordView::Text("cargo"@)
        &&& command.args.len() >= words.len()
        &&& command.args.take(words.len() as int) =~= words
        &&& command.current_dir == Some(dir)
    }
}

/// Whether the step at `k` makes the binaries of the package in `dir`: installs it, or builds
/// it where it has dependencies on libraries.
pub open spec fn makes_binaries(
    hook: RustHookView,
    env: PathView,
    steps: Seq<EnvNext>,
    k: int,
    dir: PathView,
) -> bool {
    let libs = exists|i: int|
        0 <= i < hook.dependencies.len() && !text::begins(
            #[trigger] hook.dependencies[i],
            "cli:"@,
        );
    &&& 0 <= k < steps.len()
    &&& !libs ==> runs_cargo(
        steps[k],
        dir,
        seq![
            WordView::Text("install"@),
            WordView::Text("--bins"@),
            WordView::Text("--root"@),
            WordView::Path(env),
            WordView::Text("--path"@),
            WordView::Text("."@),
        ],
    )
    &&& libs ==> runs_cargo(
        steps[k],
        dir,
        seq![
            WordView::Text("build"@),
            WordView::Text("--bins"@),
            WordView::Text("--release"@),
            WordView::Text("--manifest-path"@),
            WordView::Path(env.child("manifest"@).child("Cargo.toml"@)),
            WordView::Text("--target-dir"@),
            WordView::Path(env.child("target"@)),
        ],
    ) && k > 0 && runs_cargo(steps[k - 1], env.child("manifest"@), seq![WordView::Text("add"@)])
}

/// Whether up to the step at `i` the package was found in a directory, and then made there.
pub open spec fn is_made(
    hook: RustHookView,
    env: PathView,
    steps: Seq<EnvNext>,
    outcomes: Seq<OutcomeView>,
    i: int,
) -> bool {
    exists|j: int, k: int, dir: PathView|
        0 <= j <= k <= i && #[trigger] is_found_at(hook, steps, outcomes, j, dir)
            && #[trigger] makes_binaries(hook, env, steps, k, dir)
}

/// Whether up to the step at `i` the package was found in a directory.
spec fn is_found(
    hook: RustHookView,
    steps: Seq<EnvNext>,
    outcomes: Seq<OutcomeView>,
    i: int,
    dir: PathView,
) -> bool {
    exists|j: int| 0 <= j <= i && #[trigger] is_found_at(hook, steps, outcomes, j, dir)
}

/// The directory of the package that a phase is to build.
spec fn dir_of(phase: EnvPhaseView) -> Option<PathView> {
    match phase {
        EnvPhaseView::Perform(_, _, AfterView::Locks(dir, _)) => Some(dir),
        EnvPhaseView::Perform(_, _, AfterView::Sources(dir)) => Some(dir),
        EnvPhaseView::Perform(_, _, AfterView::ListSources(dir)) => Some(dir),
        EnvPhaseView::Perform(_, _, AfterView::Build(dir)) => Some(dir),
        EnvPhaseView::CheckLock(_, dir, _) => Some(dir),
        EnvPhaseView::CheckSources(_, dir) => Some(dir),
        EnvPhaseView::ListSources(_, dir) => Some(dir),
        _ => None,
    }
}

/// What holds of the step at `i` of an installation, of the package and of the tools.
spec fn run_goes_well(
    hook: RustHookView,
    steps: Seq<EnvNext>,
    outcomes: Seq<OutcomeView>,
    i: int,
) -> bool {
    let libs = plan::lib_dependencies(hook.dependencies);
    let tools = plan::cli_dependencies(hook.dependencies);
    let step = steps[i];
    &&& (dir_of(step.0) matches Some(dir) ==> libs.len() > 0 && is_found(
        hook,
        steps,
        outcomes,
        i,
        dir,
    ))
    &&& match step.0 {
        EnvPhaseView::Perform(info, left, AfterView::ListBuilt) => {
            ||| left.len() == 0 && is_made(hook, info.env_path, steps, outcomes, i)
            ||| libs.len() > 0 && exists|dir: PathView|
                #![trigger plan::build_with_deps(info.env_path, dir)]
                {
                    &&& left =~= seq![ActionView::Run(plan::build_with_deps(info.env_path, dir))]
                    &&& is_found(hook, steps, outcomes, i, dir)
                    &&& step.1 == StepView::<InstallInfoView>::Do(
                        ActionView::Run(plan::add_dependencies(info.env_path, libs)),
                    )
                }
        },
        EnvPhaseView::ListBuilt(info) => is_made(hook, info.env_path, steps, outcomes, i),
        EnvPhaseView::Perform(info, left, AfterView::Tools) => is_made(
            hook,
            info.env_path,
            steps,
            outcomes,
            i,
        ),
        EnvPhaseView::Perform(info, left, AfterView::Finish) => {
            let row = plan::install_tools(info.env_path, tools);
            let m = row.len() - left.len();
            &&& hook.repo is Some ==> is_made(hook, info.env_path, steps, outcomes, i)
            &&& 0 < m <= row.len()
            &&& m <= i + 1
            &&& left =~= row.skip(m)
            &&& forall|j: int|
                0 <= j < m ==> #[trigger] steps[i - m + 1 + j].1 == StepView::<InstallInfoView>::Do(
                    row[j],
                )
        },
        EnvPhaseView::Over => {
            step.1 matches StepView::Done(info) ==> {
                let row = plan::install_tools(info.env_path, tools);
                &&& hook.repo is Some ==> is_made(hook, info.env_path, steps, outcomes, i)
                &&& row.len() <= i
                &&& forall|j: int|
                    0 <= j < row.len() ==> #[trigger] steps[i - row.len() + j].1 == StepView::<
                        InstallInfoView,
                    >::Do(row[j])
            }
        },
        _ => !(step.1 is Done),
    }
}

/// What was found or made stays so.
proof fn lemma_stays_made(
    hook: RustHookView,
    env: PathView,
    steps: Seq<EnvNext>,
    outcomes: Seq<OutcomeView>,
    i: int,
)
    ensures
        is_made(hook, env, steps, outcomes, i - 1) ==> is_made(hook, env, steps, outcomes, i),
        forall|dir: PathView|
            is_found(hook, steps, outcomes, i - 1, dir) ==> #[trigger] is_found(
                hook,
                steps,
                outcomes,
                i,
                dir,
            ),
{
}

/// There is a dependency on a library if and only if one of them does not start with `cli:`.
proof fn lemma_libraries(deps: Seq<Seq<char>>)
    ensures
        plan::lib_dependencies(deps).len() > 0 <==> exists|i: int|
            0 <= i < deps.len() && !text::begins(#[trigger] deps[i], "cli:"@),
{
    plan::law_dependencies_are_parted(deps);
    if exists|i: int| 0 <= i < deps.len() && !text::begins(#[trigger] deps[i], "cli:"@) {
        let i = choose|i: int| 0 <= i < deps.len() && !text::begins(#[trigger] deps[i], "cli:"@);
        assert(plan::cli_dependency(deps[i]) is None);
        assert(plan::lib_dependencies(deps).contains(deps[i]));
    } else {
        plan::law_tools_alone_are_no_libraries(deps);
    }
}

/// The tools go well once what comes before them is made.
proof fn lemma_tools_go_well(
    hook: RustHookView,
    info: InstallInfoView,
    steps: Seq<EnvNext>,
    outcomes: Seq<OutcomeView>,
    i: int,
)
    requires
        0 < i < steps.len(),
        steps[i] == language::tools_now(hook, info),
        hook.repo is Some ==> is_made(hook, info.env_path, steps, outcomes, i),
    ensures
        run_goes_well(hook, steps, outcomes, i),
{
    let row = plan::install_tools(
        info.env_path,
        plan::cli_dependencies(hook.dependencies),
    );
    if row.len() > 0 {
        assert(row.drop_first() =~= row.skip(1));
        assert(row.drop_first().len() == row.len() - 1);
        assert forall|j: int| 0 <= j < 1 implies #[trigger] steps[i - 1 + 1 + j].1 == StepView::<
            InstallInfoView,
        >::Do(row[j]) by {
            assert(steps[i].1 == StepView::<InstallInfoView>::Do(row[0]));
        }
    }
}

/// The build goes well once the package was found.
proof fn lemma_build_goes_well(
    hook: RustHookView,
    info: InstallInfoView,
    dir: PathView,
    steps: Seq<EnvNext>,
    outcomes: Seq<OutcomeView>,
    i: int,
)
    requires
        0 < i < steps.len(),
        steps[i] == language::build_now(hook, info, dir),
        plan::lib_dependencies(hook.dependencies).len() > 0,
        is_found(hook, steps, outcomes, i, dir),
    ensures
        run_goes_well(hook, steps, outcomes, i),
{
    let libs = plan::lib_dependencies(hook.dependencies);
    let add = ActionView::Run(plan::add_dependencies(info.env_path, libs));
    let build = ActionView::Run(plan::build_with_deps(info.env_path, dir));
    let row = seq![add, build];
    assert(row.drop_first() =~= seq![build]);
}

/// The build is run now that the dependencies are added.
proof fn lemma_package_is_built(
    hook: RustHookView,
    info: InstallInfoView,
    dir: PathView,
    steps: Seq<EnvNext>,
    outcomes: Seq<OutcomeView>,
    i: int,
)
    requires
        0 < i < steps.len(),
        plan::lib_dependencies(hook.dependencies).len() > 0,
        is_found(hook, steps, outcomes, i, dir),
        steps[i - 1].1 == StepView::<InstallInfoView>::Do(
            ActionView::Run(
                plan::add_dependencies(
                    info.env_path,
                    plan::lib_dependencies(hook.dependencies),
                ),
            ),
        ),
        steps[i].1 == StepView::<InstallInfoView>::Do(
            ActionView::Run(plan::build_with_deps(info.env_path, dir)),
        ),
    ensures
        is_made(hook, info.env_path, steps, outcomes, i),
{
    let env = info.env_path;
    let libs = plan::lib_dependencies(hook.dependencies);
    lemma_libraries(hook.dependencies);
    plan::law_cargo_is_told_where(env, dir, libs);
    let add = plan::add_dependencies(env, libs);
    assert(add.args.take(1) =~= seq![WordView::Text("add"@)]);
    let build = plan::build_with_deps(env, dir);
    assert(build.args.take(7) =~= build.args);
    let j = choose|j: int| 0 <= j <= i && #[trigger] is_found_at(hook, steps, outcomes, j, dir);
    assert(makes_binaries(hook, env, steps, i, dir));
}

/// The package goes well once it was found.
proof fn lemma_package_goes_well(
    hook: RustHookView,
    info: InstallInfoView,
    repo: PathView,
    dir: PathView,
    is_workspace: bool,
    steps: Seq<EnvNext>,
    outcomes: Seq<OutcomeView>,
    i: int,
)
    requires
        0 < i < steps.len(),
        steps[i] == language::package_now(hook, info, repo, dir, is_workspace),
        is_found_at(hook, steps, outcomes, i, dir),
    ensures
        run_goes_well(hook, steps, outcomes, i),
{
    let env = info.env_path;
    lemma_libraries(hook.dependencies);
    if plan::lib_dependencies(hook.dependencies).len() == 0 {
        plan::law_cargo_is_told_where(env, dir, Seq::empty());
        let install = plan::install_local(env, dir);
        assert(install.args.take(6) =~= install.args);
        assert(steps[i].1 == StepView::<InstallInfoView>::Do(ActionView::Run(install)));
        assert(makes_binaries(hook, env, steps, i, dir));
    } else {
        assert(is_found(hook, steps, outcomes, i, dir));
    }
}

/// What follows a row goes well.
proof fn lemma_row_goes_well(
    hook: RustHookView,
    info: InstallInfoView,
    left: Seq<ActionView>,
    after: AfterView,
    steps: Seq<EnvNext>,
    outcomes: Seq<OutcomeView>,
    i: int,
)
    requires
        0 < i < steps.len(),
        steps[i - 1].0 == EnvPhaseView::Perform(info, left, after),
        run_goes_well(hook, steps, outcomes, i - 1),
        steps[i] == language::perform(hook, info, left, after),
    ensures
        run_goes_well(hook, steps, outcomes, i),
{
    let libs = plan::lib_dependencies(hook.dependencies);
    lemma_stays_made(hook, info.env_path, steps, outcomes, i);
    match after {
        AfterView::ListBuilt => {
            if left.len() > 0 {
                let dir = choose|dir: PathView|
                    #![trigger plan::build_with_deps(info.env_path, dir)]
                    {
                        &&& left =~= seq![
                            ActionView::Run(plan::build_with_deps(info.env_path, dir)),
                        ]
                        &&& is_found(hook, steps, outcomes, i - 1, dir)
                        &&& steps[i - 1].1 == StepView::<InstallInfoView>::Do(
                            ActionView::Run(plan::add_dependencies(info.env_path, libs)),
                        )
                    };
                lemma_package_is_built(hook, info, dir, steps, outcomes, i);
            }
        },
        AfterView::Build(dir) => {
            if left.len() == 0 {
                lemma_build_goes_well(hook, info, dir, steps, outcomes, i);
            }
        },
        AfterView::Tools => {
            if left.len() == 0 {
                lemma_tools_go_well(hook, info, steps, outcomes, i);
            }
        },
        AfterView::Finish => {
            let row = plan::install_tools(
                info.env_path,
                plan::cli_dependencies(hook.dependencies),
            );
            let m = row.len() - left.len();
            if left.len() > 0 {
                assert(left.drop_first() =~= row.skip(m + 1));
                assert(left[0] == row[m]);
                assert forall|j: int| 0 <= j < m + 1 implies #[trigger] steps[i - (m + 1) + 1
                    + j].1 == StepView::<InstallInfoView>::Do(row[j]) by {
                    if j < m {
                        assert(steps[(i - 1) - m + 1 + j].1 == StepView::<InstallInfoView>::Do(
                            row[j],
                        ));
                    }
                }
            } else {
                assert forall|j: int| 0 <= j < row.len() implies #[trigger] steps[i - row.len()
                    + j].1 == StepView::<InstallInfoView>::Do(row[j]) by {
                    assert(steps[(i - 1) - m + 1 + j].1 == StepView::<InstallInfoView>::Do(
                        row[j],
                    ));
                }
            }
        },
        _ => {},
    }
}

/// What follows copies goes well.
proof fn lemma_copies_go_well(
    hook: RustHookView,
    info: InstallInfoView,
    row: Seq<ActionView>,
    after: AfterView,
    steps: Seq<EnvNext>,
    outcomes: Seq<OutcomeView>,
    i: int,
)
    requires
        0 < i < steps.len(),
        steps[i] == language::perform(hook, info, row, after),
        match after {
            AfterView::Fail(_) => true,
            AfterView::Build(dir) => plan::lib_dependencies(hook.dependencies).len() > 0
                && is_found(hook, steps, outcomes, i, dir),
            AfterView::Tools => is_made(hook, info.env_path, steps, outcomes, i),
            _ => false,
        },
    ensures
        run_goes_well(hook, steps, outcomes, i),
{
    if row.len() == 0 {
        match after {
            AfterView::Build(dir) => lemma_build_goes_well(hook, info, dir, steps, outcomes, i),
            AfterView::Tools => lemma_tools_go_well(hook, info, steps, outcomes, i),
            _ => {},
        }
    }
}

/// Every step of an installation goes well.
#[verifier::rlimit(40)]
proof fn lemma_run_goes_well(
    hook: RustHookView,
    steps: Seq<EnvNext>,
    outcomes: Seq<OutcomeView>,
    i: int,
)
    requires
        is_run(hook, steps, outcomes),
        0 <= i < steps.len(),
    ensures
        run_goes_well(hook, steps, outcomes, i),
    decreases i,
{
    if i > 0 {
        lemma_run_goes_well(hook, steps, outcomes, i - 1);
        let outcome = outcomes[i];
        assert(language::env_next(hook, steps[i - 1].0, outcome, steps[i]));
        match steps[i - 1].0 {
            EnvPhaseView::MakeBin(info) => {
                if hook.repo is None && outcome is Done {
                    lemma_tools_go_well(hook, info, steps, outcomes, i);
                }
            },
            EnvPhaseView::Package(info, inner) => {
                if let (Some(repo), Ok(words)) = (hook.repo, hook.entry) {
                    let step = package::package_next(repo, words[0], inner, outcome);
                    if let StepView::Done((dir, is_workspace)) = step.1 {
                        lemma_package_goes_well(
                            hook,
                            info,
                            repo,
                            dir,
                            is_workspace,
                            steps,
                            outcomes,
                            i,
                        );
                    }
                }
            },
            EnvPhaseView::Perform(info, left, after) => {
                if outcome is Done || outcome is Output {
                    lemma_row_goes_well(hook, info, left, after, steps, outcomes, i);
                }
            },
            EnvPhaseView::CheckLock(info, dir, places) => {
                lemma_stays_made(hook, info.env_path, steps, outcomes, i);
            },
            EnvPhaseView::CheckSources(info, dir) => {
                lemma_stays_made(hook, info.env_path, steps, outcomes, i);
                if outcome == OutcomeView::Answer(false) {
                    lemma_build_goes_well(hook, info, dir, steps, outcomes, i);
                }
            },
            EnvPhaseView::ListSources(info, dir) => {
                lemma_stays_made(hook, info.env_path, steps, outcomes, i);
                if let OutcomeView::Entries(entries) = outcome {
                    let platform = info.env_path.platform;
                    lemma_copies_go_well(
                        hook,
                        info,
                        plan::copies(
                            Selection::Sources,
                            platform,
                            entries,
                            language::copied_sources(info),
                        ),
                        match plan::first_problem(Selection::Sources, platform, entries) {
                            Some(problem) => AfterView::Fail(problem),
                            None => AfterView::Build(dir),
                        },
                        steps,
                        outcomes,
                        i,
                    );
                }
            },
            EnvPhaseView::ListBuilt(info) => {
                lemma_stays_made(hook, info.env_path, steps, outcomes, i);
                if let OutcomeView::Entries(entries) = outcome {
                    let platform = info.env_path.platform;
                    lemma_copies_go_well(
                        hook,
                        info,
                        plan::copies(
                            Selection::Binaries,
                            platform,
                            entries,
                            info.env_path.child("bin"@),
                        ),
                        match plan::first_problem(Selection::Binaries, platform, entries) {
                            Some(problem) => AfterView::Fail(problem),
                            None => AfterView::Tools,
                        },
                        steps,
                        outcomes,
                        i,
                    );
                }
            },
            _ => {},
        }
    }
}

/// An installation ends well only after everything that the hook needs was made. Where it has
/// a repository, its package was found in some directory, and cargo was run in that very
/// directory to install it, or, with dependencies on libraries, to build it once they were
/// added to the copied manifest. The last things that were run are the installations of the
/// command line tools, all of them and in order.
pub proof fn law_installation_is_complete(
    hook: RustHookView,
    steps: Seq<EnvNext>,
    outcomes: Seq<OutcomeView>,
    info: InstallInfoView,
)
    requires
        is_run(hook, steps, outcomes),
        steps.last().1 == StepView::Done(info),
    ensures
        hook.repo is Some ==> is_made(hook, info.env_path, steps, outcomes, steps.len() - 1),
        ({
            let tools = plan::cli_dependencies(hook.dependencies);
            let first = steps.len() - 1 - tools.len();
            &&& first >= 0
            &&& forall|j: int|
                0 <= j < tools.len() ==> #[trigger] steps[first + j].1 == StepView::<
                    InstallInfoView,
                >::Do(ActionView::Run(plan::install_tool(info.env_path, tools[j])))
        }),
{
    let last = steps.len() - 1;
    lemma_run_goes_well(hook, steps, outcomes, last);
    let tools = plan::cli_dependencies(hook.dependencies);
    let row = plan::install_tools(info.env_path, tools);
    plan::law_every_tool_is_installed(info.env_path, tools);
    if last > 0 {
        law_environment_stays_the_same(hook, steps[last - 1].0, outcomes[last], steps[last]);
    }
    assert forall|j: int| 0 <= j < tools.len() implies #[trigger] steps[last - tools.len() + j].1
        == StepView::<InstallInfoView>::Do(
        ActionView::Run(plan::install_tool(info.env_path, tools[j])),
    ) by {
        assert(steps[last - row.len() + j].1 == StepView::<InstallInfoView>::Do(row[j]));
    }
}

/// A hook runs with the executable files of its environment first, then those of its compiler.
/// Cargo has its home in the environment and installs no toolchain. A compiler below the
/// directory of the tools is selected by its version and by the home of rustup next to it; for
/// any other one neither is set.
pub proof fn law_hook_runs_with_its_toolchain(
    info: InstallInfoView,
    tools: PathView,
    search_path: WordView,
    bin: PathView,
    dir: PathView,
)
    requires
        info.toolchain.parent() == Some(bin),
        bin.parent() == Some(dir),
    ensures
        language::run_dirs(info) == seq![info.env_path.child("bin"@), bin],
        ({
            let variables = language::run_variables(info, tools, search_path);
            let managed = bin.starts_with(tools);
            &&& action::value_of(variables, "PATH"@) == Some(search_path)
            &&& action::value_of(variables, "CARGO_HOME"@) == Some(WordView::Path(info.env_path))
            &&& action::value_of(variables, "RUSTUP_AUTO_INSTALL"@) == Some(
                WordView::Text("0"@),
            )
            &&& action::value_of(variables, "RUSTUP_TOOLCHAIN"@) == (if managed {
                Some(WordView::Text(info.language_version.text()))
            } else {
                None
            })
            &&& action::value_of(variables, "RUSTUP_HOME"@) == (if managed {
                Some(WordView::Text(action::shown(dir.child("rustup"@))))
            } else {
                None
            })
        }),
{
    reveal_strlit("PATH");
    reveal_strlit("CARGO_HOME");
    reveal_strlit("RUSTUP_AUTO_INSTALL");
    reveal_strlit("RUSTUP_TOOLCHAIN");
    reveal_strlit("RUSTUP_HOME");
    assert("PATH"@.len() == 4 && "CARGO_HOME"@.len() == 10 && "RUSTUP_AUTO_INSTALL"@.len() == 19
        && "RUSTUP_TOOLCHAIN"@.len() == 16 && "RUSTUP_HOME"@.len() == 11);
    reveal_with_fuel(action::value_of, 6);
    let all = language::run_variables(info, tools, search_path);
    let one = all.drop_last();
    let two = one.drop_last();
    let three = two.drop_last();
    let four = three.drop_last();
    if bin.starts_with(tools) {
        assert(all.len() == 5);
        assert(one.last() == all[3] && two.last() == all[2] && three.last() == all[1]
            && four.last() == all[0]);
    } else {
        assert(all.len() == 3);
        assert(one.last() == all[1] && two.last() == all[0]);
    }
}

/// Once the toolchain is there, what an action failed with is what the installation fails with,
/// whatever it was doing.
pub proof fn law_failure_ends_the_installation(
    hook: RustHookView,
    phase: EnvPhaseView,
    cause: Seq<Seq<char>>,
    next: EnvNext,
)
    requires
        language::env_next(hook, phase, OutcomeView::Failed(cause), next),
        !(phase is Toolchain),
    ensures
        next == (EnvPhaseView::Over, StepView::<InstallInfoView>::Fail(cause)),
{
    if let EnvPhaseView::Package(_, inner) = phase {
        if let (Some(repo), Ok(words)) = (hook.repo, hook.entry) {
            package::law_failure_ends_the_search(repo, words[0], inner, cause);
        }
    }
}

} // verus!
