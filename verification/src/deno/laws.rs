//! What holds of the installation and the runs of Deno hooks as a whole.

use vstd::prelude::*;

use crate::action;
use crate::action::{ActionView, OutcomeView, StepView, VariableView, WordView};
use crate::deno::installer;
use crate::deno::installer::{DenoResultView, InstallNext};
use crate::deno::language;
use crate::deno::language::{DenoHookView, EnvNext, EnvPhaseView};
use crate::fs;
use crate::fs::LinkPhase;
use crate::hook::InstallInfoView;
use crate::path::model::PathView;
use crate::text;

verus! {

/// Where the Deno of a directory is: below `bin` on Unix, and in the directory itself on
/// Windows, where its name ends in `.exe`.
pub proof fn law_place_of_deno(dir: PathView)
    ensures
        dir.platform is Unix ==> installer::bin_of(dir) == dir.child("bin"@)
            && installer::deno_in(dir) == dir.child("bin"@).child("deno"@),
        dir.platform is Windows ==> installer::bin_of(dir) == dir && installer::deno_in(dir)
            == dir.child("deno.exe"@),
{
    reveal_strlit("");
    reveal_strlit("deno");
    reveal_strlit(".exe");
    reveal_strlit("deno.exe");
    assert("deno"@ + ""@ =~= "deno"@);
    assert("deno"@ + ".exe"@ =~= "deno.exe"@);
}

/// Whether a step runs the Deno of an environment, in a directory and with these words. What
/// it downloads goes to the cache of the hook, and it finds other programs by the search path.
pub open spec fn runs_deno(
    step: StepView<InstallInfoView>,
    hook: DenoHookView,
    env: PathView,
    search_path: PathView,
    dir: PathView,
    words: Seq<Seq<char>>,
) -> bool {
    step matches StepView::Do(ActionView::Run(command)) && {
        &&& command.program == WordView::Path(installer::deno_in(env))
        &&& command.summary == "deno "@ + words[0]
        &&& command.args.len() == words.len()
        &&& forall|i: int|
            0 <= i < words.len() ==> #[trigger] command.args[i] == WordView::Text(words[i])
        &&& command.current_dir == Some(dir)
        &&& command.env =~= seq![
            VariableView { name: "PATH"@, value: WordView::Path(search_path) },
            VariableView { name: "DENO_DIR"@, value: WordView::Path(hook.cache_dir) },
        ]
        &&& command.check
        &&& !command.remove_git_env
        &&& !command.null_stdin
    }
}

/// Whether the script of the entry is cached now, or the installation ends: well where there is
/// no script to cache, and with what is wrong with the entry where it has no words.
pub open spec fn caches_script(
    hook: DenoHookView,
    info: InstallInfoView,
    search_path: PathView,
    next: EnvNext,
) -> bool {
    match hook.entry {
        Err(messages) => next == (
            EnvPhaseView::Over,
            StepView::<InstallInfoView>::Fail(messages),
        ),
        Ok(words) => match language::script_to_cache(words) {
            Some(script) => next.0 == EnvPhaseView::CacheScript(info) && runs_deno(
                next.1,
                hook,
                info.env_path,
                search_path,
                hook.work_dir,
                seq!["cache"@, script],
            ),
            None => next == (EnvPhaseView::Over, StepView::Done(info)),
        },
    }
}

/// Whether the dependencies are added now, all of them and in order, to the environment. Where
/// there are none, the script of the entry is next.
pub open spec fn adds_dependencies(
    hook: DenoHookView,
    info: InstallInfoView,
    search_path: PathView,
    next: EnvNext,
) -> bool {
    if hook.dependencies.len() > 0 {
        next.0 == EnvPhaseView::AddDependencies(info, search_path) && runs_deno(
            next.1,
            hook,
            info.env_path,
            search_path,
            info.env_path,
            seq!["add"@] + hook.dependencies,
        )
    } else {
        caches_script(hook, info, search_path, next)
    }
}

/// The script of the entry is cached.
proof fn lemma_caches_script(hook: DenoHookView, info: InstallInfoView, search_path: PathView)
    ensures
        caches_script(hook, info, search_path, language::cache_now(hook, info, search_path)),
{
    reveal_strlit("deno ");
    reveal_strlit("cache");
    reveal_strlit("deno cache");
    assert("deno "@ + "cache"@ =~= "deno cache"@);
}

/// The dependencies are added.
proof fn lemma_adds_dependencies(hook: DenoHookView, info: InstallInfoView, search_path: PathView)
    ensures
        adds_dependencies(hook, info, search_path, language::add_now(hook, info, search_path)),
{
    lemma_caches_script(hook, info, search_path);
    reveal_strlit("deno ");
    reveal_strlit("add");
    reveal_strlit("deno add");
    assert("deno "@ + "add"@ =~= "deno add"@);
    let next = language::add_now(hook, info, search_path);
    if let StepView::Do(ActionView::Run(command)) = next.1 {
        if hook.dependencies.len() > 0 {
            let words = seq!["add"@] + hook.dependencies;
            assert forall|i: int| 0 <= i < words.len() implies #[trigger] command.args[i]
                == WordView::Text(words[i]) by {
                if i > 0 {
                    assert(words[i] == hook.dependencies[i - 1]);
                }
            }
        }
    }
}

/// Dependencies are added whether the environment had a configuration or an empty one was
/// written. One is written only where there was none.
pub proof fn law_dependencies_are_added(
    hook: DenoHookView,
    info: InstallInfoView,
    search_path: PathView,
    next: EnvNext,
)
    ensures
        language::env_next(
            hook,
            EnvPhaseView::CheckConfig(info, search_path),
            OutcomeView::Answer(true),
            next,
        ) ==> adds_dependencies(hook, info, search_path, next),
        language::env_next(
            hook,
            EnvPhaseView::CheckConfig(info, search_path),
            OutcomeView::Answer(false),
            next,
        ) ==> next == (
            EnvPhaseView::WriteConfig(info, search_path),
            StepView::<InstallInfoView>::Do(
                ActionView::WriteBytes(
                    info.env_path.child("deno.json"@),
                    vstd::utf8::encode_utf8("{}"@),
                ),
            ),
        ),
        language::env_next(
            hook,
            EnvPhaseView::WriteConfig(info, search_path),
            OutcomeView::Done,
            next,
        ) ==> adds_dependencies(hook, info, search_path, next),
{
    lemma_adds_dependencies(hook, info, search_path);
}

/// Where there are dependencies, the script of the entry is cached, or the installation ends
/// well, only after they were added, or, at the very end, after the script was cached.
pub proof fn law_nothing_follows_but_the_added_dependencies(
    hook: DenoHookView,
    phase: EnvPhaseView,
    outcome: OutcomeView,
    next: EnvNext,
)
    requires
        language::env_next(hook, phase, outcome, next),
        hook.dependencies.len() > 0,
    ensures
        next.0 is CacheScript ==> phase is AddDependencies && outcome is Output,
        next.1 is Done ==> (phase is AddDependencies || phase is CacheScript) && outcome is Output,
{
}

/// Once the dependencies are added the script of the entry is cached, and once that is done
/// the installation ends well. That a script cannot be cached is told with its reason.
pub proof fn law_script_is_cached_at_the_end(
    hook: DenoHookView,
    info: InstallInfoView,
    search_path: PathView,
    output: Seq<u8>,
    cause: Seq<Seq<char>>,
    next: EnvNext,
)
    ensures
        language::env_next(
            hook,
            EnvPhaseView::AddDependencies(info, search_path),
            OutcomeView::Output(output),
            next,
        ) ==> caches_script(hook, info, search_path, next),
        language::env_next(
            hook,
            EnvPhaseView::CacheScript(info),
            OutcomeView::Output(output),
            next,
        ) ==> next == (EnvPhaseView::Over, StepView::Done(info)),
        language::env_next(
            hook,
            EnvPhaseView::CacheScript(info),
            OutcomeView::Failed(cause),
            next,
        ) ==> next == (
            EnvPhaseView::Over,
            StepView::<InstallInfoView>::Fail(
                seq!["Failed to cache entry script dependencies"@] + cause,
            ),
        ),
{
    lemma_caches_script(hook, info, search_path);
}

/// The configuration of the repository, where it has one, is copied to the environment before
/// that of the environment is looked at. Without a repository that is looked at only where
/// there are dependencies.
pub proof fn law_configuration_of_the_repository_is_copied(
    hook: DenoHookView,
    info: InstallInfoView,
    search_path: PathView,
    there: bool,
    next: EnvNext,
)
    ensures
        language::env_next(
            hook,
            EnvPhaseView::JoinPath(info),
            OutcomeView::Path(search_path),
            next,
        ) ==> match hook.repo {
            Some(repo) => next == (
                EnvPhaseView::CheckRepoConfig(info, search_path),
                StepView::<InstallInfoView>::Do(ActionView::Exists(repo.child("deno.json"@))),
            ),
            None => if hook.dependencies.len() > 0 {
                looks_at_configuration(info, search_path, next)
            } else {
                caches_script(hook, info, search_path, next)
            },
        },
        language::env_next(
            hook,
            EnvPhaseView::CheckRepoConfig(info, search_path),
            OutcomeView::Answer(there),
            next,
        ) ==> if there && hook.repo is Some {
            next == (
                EnvPhaseView::CopyConfig(info, search_path),
                StepView::<InstallInfoView>::Do(
                    ActionView::Copy(
                        (hook.repo->0).child("deno.json"@),
                        info.env_path.child("deno.json"@),
                    ),
                ),
            )
        } else {
            looks_at_configuration(info, search_path, next)
        },
        language::env_next(
            hook,
            EnvPhaseView::CopyConfig(info, search_path),
            OutcomeView::Done,
            next,
        ) ==> looks_at_configuration(info, search_path, next),
{
    lemma_caches_script(hook, info, search_path);
}

/// Whether the configuration of the environment is looked at now.
pub open spec fn looks_at_configuration(
    info: InstallInfoView,
    search_path: PathView,
    next: EnvNext,
) -> bool {
    next == (
        EnvPhaseView::CheckConfig(info, search_path),
        StepView::<InstallInfoView>::Do(ActionView::Exists(info.env_path.child("deno.json"@))),
    )
}

/// With a Deno, the directories of the environment are made, the Deno that was found is linked
/// into it under its own name, and the directory of the cache is made. Commands find other
/// programs first where that Deno is.
pub proof fn law_deno_that_was_found_is_linked(
    hook: DenoHookView,
    info: InstallInfoView,
    deno: DenoResultView,
    env_path: PathView,
    phase: LinkPhase,
    outcome: OutcomeView,
    next: EnvNext,
)
    ensures
        language::env_next(
            hook,
            EnvPhaseView::MakeEnv(deno),
            OutcomeView::Path(env_path),
            next,
        ) ==> next == (
            EnvPhaseView::MakeBin(
                InstallInfoView {
                    language_version: deno.version,
                    toolchain: deno.deno,
                    env_path,
                    extras: Seq::empty(),
                },
            ),
            StepView::<InstallInfoView>::Do(
                ActionView::CreateDirAll(installer::bin_of(env_path)),
            ),
        ),
        language::env_next(hook, EnvPhaseView::MakeBin(info), OutcomeView::Done, next) ==> next
            == (
            EnvPhaseView::Link(info, LinkPhase::Check),
            StepView::<InstallInfoView>::Do(
                ActionView::Exists(installer::deno_in(info.env_path)),
            ),
        ),
        language::env_next(hook, EnvPhaseView::Link(info, phase), outcome, next) ==> ({
            let step = fs::link_next(
                info.toolchain,
                installer::deno_in(info.env_path),
                phase,
                outcome,
            );
            match step.1 {
                StepView::Do(action) => next == (
                    EnvPhaseView::Link(info, step.0),
                    StepView::<InstallInfoView>::Do(action),
                ),
                StepView::Fail(messages) => next == (
                    EnvPhaseView::Over,
                    StepView::<InstallInfoView>::Fail(messages),
                ),
                StepView::Done(_) => next == (
                    EnvPhaseView::MakeCache(info),
                    StepView::<InstallInfoView>::Do(ActionView::CreateDirAll(hook.cache_dir)),
                ),
            }
        }),
        language::env_next(hook, EnvPhaseView::MakeCache(info), OutcomeView::Done, next) ==> next
            == (
            EnvPhaseView::JoinPath(info),
            StepView::<InstallInfoView>::Do(
                ActionView::PrependPath(installer::bin_of(info.env_path)),
            ),
        ),
{
}

/// A Deno is searched for with what the hook asks for. Why there is none is told behind what
/// was tried, and with one the directory of the environment is made.
pub proof fn law_deno_is_the_one_asked_for(
    hook: DenoHookView,
    phase: installer::InstallPhaseView,
    outcome: OutcomeView,
    next: EnvNext,
)
    requires
        language::env_next(hook, EnvPhaseView::Toolchain(phase), outcome, next) || (phase
            == installer::InstallPhaseView::Start && outcome == OutcomeView::Begin
            && language::env_next(hook, EnvPhaseView::Start, outcome, next)),
    ensures
        exists|step: InstallNext|
            {
                &&& #[trigger] installer::install_next(
                    hook.root,
                    hook.order,
                    phase,
                    outcome,
                    step,
                )
                &&& match step.1 {
                    StepView::Do(action) => next == (
                        EnvPhaseView::Toolchain(step.0),
                        StepView::<InstallInfoView>::Do(action),
                    ),
                    StepView::Fail(messages) => next == (
                        EnvPhaseView::Over,
                        StepView::<InstallInfoView>::Fail(
                            seq!["Failed to install deno"@] + messages,
                        ),
                    ),
                    StepView::Done(deno) => next == (
                        EnvPhaseView::MakeEnv(deno),
                        StepView::<InstallInfoView>::Do(ActionView::CreateEnvDir),
                    ),
                }
            },
{
    let step = choose|step: InstallNext| #[trigger]
        installer::install_next(hook.root, hook.order, phase, outcome, step) && next
            == language::after_install(step);
    assert(installer::install_next(hook.root, hook.order, phase, outcome, step));
}

/// What is known of the environment that a phase is about.
pub open spec fn info_of(phase: EnvPhaseView) -> Option<InstallInfoView> {
    match phase {
        EnvPhaseView::MakeBin(info) => Some(info),
        EnvPhaseView::Link(info, _) => Some(info),
        EnvPhaseView::MakeCache(info) => Some(info),
        EnvPhaseView::JoinPath(info) => Some(info),
        EnvPhaseView::CheckRepoConfig(info, _) => Some(info),
        EnvPhaseView::CopyConfig(info, _) => Some(info),
        EnvPhaseView::CheckConfig(info, _) => Some(info),
        EnvPhaseView::WriteConfig(info, _) => Some(info),
        EnvPhaseView::AddDependencies(info, _) => Some(info),
        EnvPhaseView::CacheScript(info) => Some(info),
        _ => None,
    }
}

/// What is known of an environment stays as it is until the installation ends with it, and it
/// ends well in no other way.
pub proof fn law_environment_stays_the_same(
    hook: DenoHookView,
    phase: EnvPhaseView,
    outcome: OutcomeView,
    next: EnvNext,
)
    requires
        language::env_next(hook, phase, outcome, next),
    ensures
        info_of(phase) is Some ==> match next.1 {
            StepView::Do(_) => info_of(next.0) == info_of(phase),
            StepView::Done(info) => Some(info) == info_of(phase),
            StepView::Fail(_) => true,
        },
        info_of(phase) is None ==> !(next.1 is Done),
{
}

/// Whether these are the steps of an installation from its start. The outcome at `i` is what
/// led to the step at `i`.
pub open spec fn is_run(
    hook: DenoHookView,
    steps: Seq<EnvNext>,
    outcomes: Seq<OutcomeView>,
) -> bool {
    &&& steps.len() > 0
    &&& steps.len() == outcomes.len()
    &&& outcomes[0] == OutcomeView::Begin
    &&& language::env_next(hook, EnvPhaseView::Start, OutcomeView::Begin, steps[0])
    &&& forall|i: int|
        0 < i < steps.len() ==> steps[i - 1].1 is Do && language::env_next(
            hook,
            steps[i - 1].0,
            outcomes[i],
            #[trigger] steps[i],
        )
}

/// The words that tell Deno to add dependencies.
pub open spec fn add_words(dependencies: Seq<Seq<char>>) -> Seq<Seq<char>> {
    seq!["add"@] + dependencies
}

/// The words that tell Deno to cache a script.
pub open spec fn cache_words(script: Seq<char>) -> Seq<Seq<char>> {
    seq!["cache"@, script]
}

/// Whether the step at `k` adds the dependencies.
pub open spec fn adds_at(
    hook: DenoHookView,
    env: PathView,
    steps: Seq<EnvNext>,
    k: int,
) -> bool {
    0 <= k < steps.len() && exists|search_path: PathView| #[trigger]
        runs_deno(
            steps[k].1,
            hook,
            env,
            search_path,
            env,
            add_words(hook.dependencies),
        )
}

/// Whether the step at `k` puts a Deno into an environment, and that was done.
pub open spec fn links_at(
    deno: PathView,
    env: PathView,
    steps: Seq<EnvNext>,
    outcomes: Seq<OutcomeView>,
    k: int,
) -> bool {
    &&& 0 <= k < steps.len() - 1
    &&& steps[k].1 == StepView::<InstallInfoView>::Do(
        ActionView::Symlink(deno, installer::deno_in(env)),
    ) || steps[k].1 == StepView::<InstallInfoView>::Do(
        ActionView::Copy(deno, installer::deno_in(env)),
    )
    &&& outcomes[k + 1] is Done
}

/// Whether the dependencies, if there are any, were added up to the step at `i`.
pub open spec fn is_added(
    hook: DenoHookView,
    env: PathView,
    steps: Seq<EnvNext>,
    i: int,
) -> bool {
    hook.dependencies.len() > 0 ==> exists|k: int|
        0 <= k <= i && #[trigger] adds_at(hook, env, steps, k)
}

/// Whether the Deno of an environment was put into it before the step at `i`.
pub open spec fn is_linked(
    info: InstallInfoView,
    steps: Seq<EnvNext>,
    outcomes: Seq<OutcomeView>,
    i: int,
) -> bool {
    exists|k: int|
        0 <= k < i && #[trigger] links_at(info.toolchain, info.env_path, steps, outcomes, k)
}

/// Whether the step at `k` caches a script.
pub open spec fn caches_at(
    hook: DenoHookView,
    env: PathView,
    steps: Seq<EnvNext>,
    k: int,
    script: Seq<char>,
) -> bool {
    0 <= k < steps.len() && exists|search_path: PathView| #[trigger]
        runs_deno(steps[k].1, hook, env, search_path, hook.work_dir, cache_words(script))
}

/// What holds of the step at `i` of an installation.
spec fn run_goes_well(
    hook: DenoHookView,
    steps: Seq<EnvNext>,
    outcomes: Seq<OutcomeView>,
    i: int,
) -> bool {
    let step = steps[i];
    &&& (step.1 matches StepView::Done(info) ==> {
        &&& is_linked(info, steps, outcomes, i)
        &&& is_added(hook, info.env_path, steps, i)
        &&& hook.entry matches Ok(words) && (language::script_to_cache(words) matches Some(script)
            ==> caches_at(hook, info.env_path, steps, i - 1, script))
    })
    &&& match step.0 {
        EnvPhaseView::Link(info, inner) => match inner {
            LinkPhase::Link => step.1 == StepView::<InstallInfoView>::Do(
                ActionView::Symlink(info.toolchain, installer::deno_in(info.env_path)),
            ),
            LinkPhase::Copy => step.1 == StepView::<InstallInfoView>::Do(
                ActionView::Copy(info.toolchain, installer::deno_in(info.env_path)),
            ),
            _ => true,
        },
        EnvPhaseView::MakeCache(info) => is_linked(info, steps, outcomes, i),
        EnvPhaseView::JoinPath(info) => is_linked(info, steps, outcomes, i),
        EnvPhaseView::CheckRepoConfig(info, _) => is_linked(info, steps, outcomes, i),
        EnvPhaseView::CopyConfig(info, _) => is_linked(info, steps, outcomes, i),
        EnvPhaseView::CheckConfig(info, _) => is_linked(info, steps, outcomes, i),
        EnvPhaseView::WriteConfig(info, _) => is_linked(info, steps, outcomes, i),
        EnvPhaseView::AddDependencies(info, _) => is_linked(info, steps, outcomes, i) && is_added(
            hook,
            info.env_path,
            steps,
            i,
        ),
        EnvPhaseView::CacheScript(info) => {
            &&& is_linked(info, steps, outcomes, i)
            &&& is_added(hook, info.env_path, steps, i)
            &&& hook.entry matches Ok(words) && language::script_to_cache(words) matches Some(
                script,
            ) && caches_at(hook, info.env_path, steps, i, script)
        },
        _ => true,
    }
}

/// What was done before stays done.
proof fn lemma_stays_done(
    hook: DenoHookView,
    info: InstallInfoView,
    steps: Seq<EnvNext>,
    outcomes: Seq<OutcomeView>,
    i: int,
)
    ensures
        is_added(hook, info.env_path, steps, i - 1) ==> is_added(hook, info.env_path, steps, i),
        is_linked(info, steps, outcomes, i - 1) ==> is_linked(info, steps, outcomes, i),
{
}

/// What comes behind the dependencies goes well.
proof fn lemma_cache_goes_well(
    hook: DenoHookView,
    info: InstallInfoView,
    search_path: PathView,
    steps: Seq<EnvNext>,
    outcomes: Seq<OutcomeView>,
    i: int,
)
    requires
        0 < i < steps.len(),
        steps[i] == language::cache_now(hook, info, search_path),
        is_linked(info, steps, outcomes, i),
        is_added(hook, info.env_path, steps, i),
    ensures
        run_goes_well(hook, steps, outcomes, i),
{
    lemma_caches_script(hook, info, search_path);
    if let Ok(words) = hook.entry {
        if let Some(script) = language::script_to_cache(words) {
            assert(cache_words(script) == seq!["cache"@, script]);
            assert(runs_deno(
                steps[i].1,
                hook,
                info.env_path,
                search_path,
                hook.work_dir,
                cache_words(script),
            ));
        }
    }
}

/// What comes behind the configuration goes well.
proof fn lemma_add_goes_well(
    hook: DenoHookView,
    info: InstallInfoView,
    search_path: PathView,
    steps: Seq<EnvNext>,
    outcomes: Seq<OutcomeView>,
    i: int,
)
    requires
        0 < i < steps.len(),
        steps[i] == language::add_now(hook, info, search_path),
        is_linked(info, steps, outcomes, i),
    ensures
        run_goes_well(hook, steps, outcomes, i),
{
    if hook.dependencies.len() > 0 {
        lemma_adds_dependencies(hook, info, search_path);
        assert(runs_deno(
            steps[i].1,
            hook,
            info.env_path,
            search_path,
            info.env_path,
            add_words(hook.dependencies),
        ));
        assert(adds_at(hook, info.env_path, steps, i));
    } else {
        lemma_cache_goes_well(hook, info, search_path, steps, outcomes, i);
    }
}

/// Every step of an installation goes well.
proof fn lemma_run_goes_well(
    hook: DenoHookView,
    steps: Seq<EnvNext>,
    outcomes: Seq<OutcomeView>,
    i: int,
)
    requires
        is_run(hook, steps, outcomes),
        0 <= i < steps.len(),
    ensures
        run_goes_well(hook, steps, outcomes, i),
    decreases i,
{
    if i > 0 {
        lemma_run_goes_well(hook, steps, outcomes, i - 1);
        let phase = steps[i - 1].0;
        let outcome = outcomes[i];
        assert(language::env_next(hook, phase, outcome, steps[i]));
        if let Some(info) = info_of(phase) {
            lemma_stays_done(hook, info, steps, outcomes, i);
        }
        match (phase, outcome) {
            (EnvPhaseView::Link(info, inner), _) => {
                if outcome is Done && (inner is Link || inner is Copy) {
                    assert(links_at(info.toolchain, info.env_path, steps, outcomes, i - 1));
                }
            },
            (EnvPhaseView::JoinPath(info), OutcomeView::Path(path)) => {
                if hook.repo is None && hook.dependencies.len() == 0 {
                    lemma_cache_goes_well(hook, info, path, steps, outcomes, i);
                }
            },
            (EnvPhaseView::CheckConfig(info, path), OutcomeView::Answer(there)) => {
                if there {
                    lemma_add_goes_well(hook, info, path, steps, outcomes, i);
                }
            },
            (EnvPhaseView::WriteConfig(info, path), OutcomeView::Done) => {
                lemma_add_goes_well(hook, info, path, steps, outcomes, i);
            },
            (EnvPhaseView::AddDependencies(info, path), OutcomeView::Output(_)) => {
                lemma_cache_goes_well(hook, info, path, steps, outcomes, i);
            },
            _ => {},
        }
    }
}

/// An installation ends well only after everything that the hook needs was done: the Deno that
/// was found was put into the environment, all dependencies were added in order, whether there
/// was a configuration or not, and the script of the entry, if there is one to cache, was
/// cached last.
pub proof fn law_installation_is_complete(
    hook: DenoHookView,
    steps: Seq<EnvNext>,
    outcomes: Seq<OutcomeView>,
    info: InstallInfoView,
)
    requires
        is_run(hook, steps, outcomes),
        steps.last().1 == StepView::Done(info),
    ensures
        is_linked(info, steps, outcomes, steps.len() - 1),
        is_added(hook, info.env_path, steps, steps.len() - 1),
        hook.entry matches Ok(words) && (language::script_to_cache(words) matches Some(script)
            ==> caches_at(hook, info.env_path, steps, steps.len() - 2, script)),
{
    lemma_run_goes_well(hook, steps, outcomes, steps.len() - 1);
}

/// A hook runs with the search path and with the cache of its own.
pub proof fn law_hook_runs_with_its_variables(cache_dir: PathView, search_path: WordView)
    ensures
        action::value_of(language::run_variables(cache_dir, search_path), "PATH"@) == Some(
            search_path,
        ),
        action::value_of(language::run_variables(cache_dir, search_path), "DENO_DIR"@) == Some(
            WordView::Path(cache_dir),
        ),
        language::run_variables(cache_dir, search_path).len() == 2,
{
    reveal_strlit("PATH");
    reveal_strlit("DENO_DIR");
    assert("PATH"@[0] == 'P' && "DENO_DIR"@[0] == 'D');
    reveal_with_fuel(action::value_of, 3);
    let all = language::run_variables(cache_dir, search_path);
    assert(all.drop_last().last() == all[0]);
}

/// An environment is healthy if and only if its Deno tells the version that was noted. Else it
/// is said which was expected and which was found, or why none was.
pub proof fn law_environment_is_healthy_if_its_version_stays(info: InstallInfoView, output: Seq<u8>)
    ensures
        match installer::version_in_output(output) {
            Ok(version) => if version == info.language_version {
                language::health_problem(info, output) is None
            } else {
                language::health_problem(info, output) == Some(
                    seq![
                        "Deno version mismatch: expected `"@ + info.language_version.text()
                            + "`, found `"@ + version.text() + "`"@,
                    ],
                )
            },
            Err(messages) => language::health_problem(info, output) == Some(
                seq!["Failed to query current Deno info"@] + messages,
            ),
        },
{
}

/// Whether a word is a script that Deno can cache: a module of the web, of JSR or of npm, or a
/// file of TypeScript or JavaScript, and no flag.
pub open spec fn can_be_cached(word: Seq<char>) -> bool {
    &&& word.len() > 0 && word[0] != '-'
    &&& {
        ||| text::begins(word, "http"@)
        ||| text::begins(word, "jsr:"@)
        ||| text::begins(word, "npm:"@)
        ||| text::ends(word, ".ts"@)
        ||| text::ends(word, ".tsx"@)
        ||| text::ends(word, ".js"@)
        ||| text::ends(word, ".jsx"@)
        ||| text::ends(word, ".mjs"@)
    }
}

/// A word is a script exactly where it can be cached.
proof fn lemma_script_can_be_cached(word: Seq<char>)
    ensures
        language::is_script(word) <==> can_be_cached(word),
{
    reveal_strlit("-");
    reveal_strlit("http");
    reveal_strlit("jsr:");
    reveal_strlit("npm:");
    reveal_strlit(".ts");
    reveal_strlit(".tsx");
    reveal_strlit(".js");
    reveal_strlit(".jsx");
    reveal_strlit(".mjs");
    if word.len() > 0 {
        assert(word.take(1)[0] == word[0]);
        if word[0] == '-' {
            assert(word.take(1) =~= "-"@);
        } else if text::begins(word, "-"@) {
            assert(word.take(1)[0] == "-"@[0]);
        }
    }
}

/// The first script is the first word that is one.
proof fn lemma_first_script_at(words: Seq<Seq<char>>, k: int)
    requires
        0 <= k <= words.len(),
        forall|i: int| 0 <= i < k ==> !can_be_cached(#[trigger] words[i]),
        k < words.len() ==> can_be_cached(words[k]),
    ensures
        language::first_script(words) == (if k < words.len() {
            Some(words[k])
        } else {
            None
        }),
    decreases words.len(),
{
    if words.len() > 0 {
        lemma_script_can_be_cached(words[0]);
        if k > 0 {
            let rest = words.drop_first();
            assert(!can_be_cached(words[0]));
            assert forall|i: int| 0 <= i < k - 1 implies !can_be_cached(#[trigger] rest[i]) by {
                assert(rest[i] == words[i + 1]);
            }
            lemma_first_script_at(rest, k - 1);
        }
    }
}

/// The script that is cached is the first word of the entry that can be, behind a leading
/// `deno` and a `run`. There is none where no word can be, and none for the other commands of
/// Deno itself.
pub proof fn law_first_script_of_the_entry_is_cached(
    entry: Seq<Seq<char>>,
    leading: bool,
    runs: bool,
    words: Seq<Seq<char>>,
    k: int,
)
    requires
        entry == (if leading {
            seq!["deno"@]
        } else {
            Seq::empty()
        }) + (if runs {
            seq!["run"@]
        } else {
            Seq::empty()
        }) + words,
        !leading && !runs && words.len() > 0 ==> words[0] != "deno"@,
        !runs && words.len() > 0 ==> words[0] != "run"@,
        0 <= k <= words.len(),
        forall|i: int| 0 <= i < k ==> !can_be_cached(#[trigger] words[i]),
        k < words.len() ==> can_be_cached(words[k]),
    ensures
        !runs && words.len() > 0 && (words[0] == "fmt"@ || words[0] == "lint"@ || words[0]
            == "test"@ || words[0] == "check"@ || words[0] == "bundle"@ || words[0] == "doc"@
            || words[0] == "repl"@ || words[0] == "eval"@) ==> language::script_to_cache(entry)
            is None,
        runs || words.len() == 0 || !(words[0] == "fmt"@ || words[0] == "lint"@ || words[0]
            == "test"@ || words[0] == "check"@ || words[0] == "bundle"@ || words[0] == "doc"@
            || words[0] == "repl"@ || words[0] == "eval"@) ==> language::script_to_cache(entry)
            == (if k < words.len() {
            Some(words[k])
        } else {
            None
        }),
{
    reveal_strlit("deno");
    reveal_strlit("run");
    reveal_strlit("fmt");
    reveal_strlit("lint");
    reveal_strlit("test");
    reveal_strlit("check");
    reveal_strlit("bundle");
    reveal_strlit("doc");
    reveal_strlit("repl");
    reveal_strlit("eval");
    assert("run"@.len() == 3 && "run"@[0] == 'r' && "deno"@.len() == 4 && "deno"@[0] == 'd');
    assert("fmt"@[0] == 'f' && "lint"@[0] == 'l' && "test"@[0] == 't' && "check"@[0] == 'c'
        && "bundle"@[0] == 'b' && "doc"@[0] == 'd' && "repl"@[0] == 'r' && "eval"@[0] == 'e');
    assert("doc"@.len() == 3 && "repl"@.len() == 4);
    lemma_first_script_at(words, k);
    let behind = (if runs {
        seq!["run"@]
    } else {
        Seq::empty()
    }) + words;
    if leading {
        assert(entry.drop_first() =~= behind);
        assert(entry[0] == "deno"@);
    } else {
        assert(entry =~= behind);
    }
    if runs {
        assert(behind[0] == "run"@);
        assert(behind.drop_first() =~= words);
    } else {
        assert(behind =~= words);
    }
    assert(language::deno_words(entry) == behind);
}

/// Once the Deno is there, what an action failed with is what the installation fails with,
/// behind what was tried where that was the search path or the script. Only that Deno cannot be
/// linked is no failure yet: it is copied.
pub proof fn law_failure_ends_the_installation(
    hook: DenoHookView,
    phase: EnvPhaseView,
    cause: Seq<Seq<char>>,
    next: EnvNext,
)
    requires
        language::env_next(hook, phase, OutcomeView::Failed(cause), next),
        !(phase is Toolchain || phase is Link),
    ensures
        next == (
            EnvPhaseView::Over,
            StepView::<InstallInfoView>::Fail(
                if phase is JoinPath {
                    seq!["Failed to join PATH"@] + cause
                } else if phase is CacheScript {
                    seq!["Failed to cache entry script dependencies"@] + cause
                } else {
                    cause
                },
            ),
        ),
{
}

} // verus!
