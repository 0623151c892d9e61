//! Installing and running hooks that run with Deno.

use vstd::prelude::*;

use crate::action;
use crate::action::{
    Action, ActionView, Command, CommandView, Failure, Outcome, OutcomeView, Step, StepView,
    Variable, VariableView, Word, WordView,
};
use crate::deno::installer;
use crate::deno::installer::{
    DenoInstaller, DenoOrder, DenoOrderView, DenoResult, DenoResultView, InstallNext, InstallPhase,
    InstallPhaseView,
};
use crate::deno::version as deno_version;
use crate::deno::version::{DenoRequest, DenoRequestView};
use crate::fs;
use crate::fs::LinkPhase;
use crate::hook::{InstallInfo, InstallInfoView, LanguageRequest};
use crate::path::buf;
use crate::path::buf::PathBuf;
use crate::path::model::PathView;
use crate::run;
use crate::strings;
use crate::text;

verus! {

/// Whether a word of an entry names a built-in command of Deno that runs no script.
pub open spec fn is_builtin(word: Seq<char>) -> bool {
    ||| word == "fmt"@
    ||| word == "lint"@
    ||| word == "test"@
    ||| word == "check"@
    ||| word == "bundle"@
    ||| word == "doc"@
    ||| word == "repl"@
    ||| word == "eval"@
}

/// Whether a script is a remote module or a TypeScript or JavaScript file.
pub open spec fn is_cacheable(script: Seq<char>) -> bool {
    ||| text::begins(script, "http"@)
    ||| text::begins(script, "jsr:"@)
    ||| text::begins(script, "npm:"@)
    ||| text::ends(script, ".ts"@)
    ||| text::ends(script, ".js"@)
    ||| text::ends(script, ".mjs"@)
    ||| text::ends(script, ".tsx"@)
    ||| text::ends(script, ".jsx"@)
}

/// Whether a word of an entry is a script to cache: not a flag, and cacheable.
pub open spec fn is_script(word: Seq<char>) -> bool {
    !text::begins(word, "-"@) && is_cacheable(word)
}

/// The first of the words that is a script to cache.
pub open spec fn first_script(words: Seq<Seq<char>>) -> Option<Seq<char>>
    decreases words.len(),
{
    if words.len() == 0 {
        None
    } else if is_script(words[0]) {
        Some(words[0])
    } else {
        first_script(words.drop_first())
    }
}

/// The words of an entry that Deno is given: those behind a leading `deno`, or all of them.
pub open spec fn deno_words(entry: Seq<Seq<char>>) -> Seq<Seq<char>> {
    if entry.len() > 0 && entry[0] == "deno"@ {
        entry.drop_first()
    } else {
        entry
    }
}

/// The script of an entry that is to be cached. Built-in commands have none; behind `run`
/// it is looked for among the words that follow.
pub open spec fn script_to_cache(entry: Seq<Seq<char>>) -> Option<Seq<char>> {
    let words = deno_words(entry);
    if words.len() == 0 || is_builtin(words[0]) {
        None
    } else if words[0] == "run"@ {
        first_script(words.drop_first())
    } else {
        first_script(words)
    }
}

/// Tells whether a script should be cached.
pub fn is_cacheable_script(script: &str) -> (r: bool)
    ensures
        r == is_cacheable(script@),
{
    strings::starts_with(script, "http") || strings::starts_with(script, "jsr:")
        || strings::starts_with(script, "npm:") || strings::ends_with(script, ".ts")
        || strings::ends_with(script, ".js") || strings::ends_with(script, ".mjs")
        || strings::ends_with(script, ".tsx") || strings::ends_with(script, ".jsx")
}

/// Words that are no scripts are passed over.
proof fn lemma_first_script_from(words: Seq<Seq<char>>, i: int)
    requires
        0 <= i <= words.len(),
        forall|k: int| 0 <= k < i ==> !is_script(#[trigger] words[k]),
    ensures
        first_script(words) == first_script(words.skip(i)),
    decreases i,
{
    if i == 0 {
        assert(words.skip(0) =~= words);
    } else {
        let rest = words.drop_first();
        assert forall|k: int| 0 <= k < i - 1 implies !is_script(#[trigger] rest[k]) by {
            assert(rest[k] == words[k + 1]);
        }
        assert(!is_script(words[0]));
        lemma_first_script_from(rest, i - 1);
        assert(rest.skip(i - 1) =~= words.skip(i));
    }
}

/// The first word from `from` on that is a script to cache.
fn find_script_from(entry: &Vec<String>, from: usize) -> (r: Option<String>)
    requires
        from <= entry@.len(),
    ensures
        match r {
            Some(script) => first_script(text::texts(entry@).skip(from as int)) == Some(script@),
            None => first_script(text::texts(entry@).skip(from as int)) is None,
        },
{
    let ghost words = text::texts(entry@).skip(from as int);
    let mut i: usize = from;
    while i < entry.len()
        invariant
            from <= i <= entry@.len(),
            words == text::texts(entry@).skip(from as int),
            forall|k: int| 0 <= k < i - from ==> !is_script(#[trigger] words[k]),
        decreases entry@.len() - i,
    {
        proof {
            assert(words[i - from] == entry@[i as int]@);
        }
        if !strings::starts_with(entry[i].as_str(), "-") && is_cacheable_script(
            entry[i].as_str(),
        ) {
            proof {
                lemma_first_script_from(words, i - from);
                assert(words.skip(i - from)[0] == words[i - from]);
            }
            return Some(entry[i].clone());
        }
        i = i + 1;
    }
    proof {
        lemma_first_script_from(words, i - from);
        assert(words.skip(i - from) =~= Seq::<Seq<char>>::empty());
    }
    None
}

/// Finds the script in an entry that should be cached: a script itself, or that of a
/// `deno run` command.
pub fn find_script_to_cache(entry: &Vec<String>) -> (r: Option<String>)
    ensures
        match r {
            Some(script) => script_to_cache(text::texts(entry@)) == Some(script@),
            None => script_to_cache(text::texts(entry@)) is None,
        },
{
    let ghost all = text::texts(entry@);
    let ghost words = deno_words(all);
    proof {
        assert(all.len() == entry@.len());
        if entry@.len() > 0 {
            assert(all[0] == entry@[0]@);
        }
    }
    let from: usize = if entry.len() > 0 && strings::same(entry[0].as_str(), "deno") {
        1
    } else {
        0
    };
    proof {
        assert(all.skip(from as int) =~= words);
    }
    if from == entry.len() {
        return None;
    }
    proof {
        assert(words[0] == entry@[from as int]@);
        assert(all.skip(from + 1) =~= words.drop_first());
    }
    let first = entry[from].as_str();
    if strings::same(first, "fmt") || strings::same(first, "lint") || strings::same(first, "test")
        || strings::same(first, "check") || strings::same(first, "bundle") || strings::same(
        first,
        "doc",
    ) || strings::same(first, "repl") || strings::same(first, "eval") {
        return None;
    }
    if strings::same(first, "run") {
        find_script_from(entry, from + 1)
    } else {
        find_script_from(entry, from)
    }
}

/// A script that is to be cached is a word of the entry, is cacheable and is no flag, and
/// built-in commands cache none, with or without a leading `deno`.
pub proof fn law_cached_script_is_a_word_of_the_entry(entry: Seq<Seq<char>>)
    ensures
        script_to_cache(entry) matches Some(script) ==> {
            &&& entry.contains(script)
            &&& is_cacheable(script)
            &&& !text::begins(script, "-"@)
            &&& !is_builtin(entry[0])
            &&& entry[0] == "deno"@ ==> entry.len() > 1 && !is_builtin(entry[1])
        },
{
    reveal_strlit("deno");
    reveal_strlit("fmt");
    reveal_strlit("lint");
    reveal_strlit("test");
    reveal_strlit("check");
    reveal_strlit("bundle");
    reveal_strlit("doc");
    reveal_strlit("repl");
    reveal_strlit("eval");
    if let Some(script) = script_to_cache(entry) {
        let words = deno_words(entry);
        let searched = if words[0] == "run"@ {
            words.drop_first()
        } else {
            words
        };
        lemma_first_script_is_a_word(searched);
        let k = choose|k: int| 0 <= k < searched.len() && searched[k] == script;
        let skipped = entry.len() - searched.len();
        assert(searched =~= entry.skip(skipped));
        assert(entry[k + skipped] == script);
        if entry[0] == "deno"@ {
            assert(words[0] == entry[1]);
            assert("deno"@[0] == 'd' && "deno"@[1] == 'e');
        }
    }
}

/// The first script is one of the words.
proof fn lemma_first_script_is_a_word(words: Seq<Seq<char>>)
    ensures
        first_script(words) matches Some(script) ==> words.contains(script) && is_script(script),
    decreases words.len(),
{
    if words.len() > 0 {
        if is_script(words[0]) {
            assert(words.contains(words[0]));
        } else {
            let rest = words.drop_first();
            lemma_first_script_is_a_word(rest);
            if let Some(script) = first_script(rest) {
                let k = choose|k: int| 0 <= k < rest.len() && rest[k] == script;
                assert(words[k + 1] == script);
            }
        }
    }
}

/// What is asked of the Deno of a hook: which version, and whether it may be downloaded.
pub fn requested_deno(request: &LanguageRequest) -> (r: (DenoRequest, bool))
    requires
        !(request is Rust),
    ensures
        match request {
            LanguageRequest::Any { system_only } => r.0@ == DenoRequestView::Any && r.1
                != *system_only,
            LanguageRequest::Deno(version) => r.0@ == version@ && r.1,
            _ => true,
        },
{
    match request {
        LanguageRequest::Any { system_only } => (DenoRequest::Any, !*system_only),
        LanguageRequest::Deno(version) => (version.duplicate(), true),
        _ => (DenoRequest::Any, false),
    }
}

/// A hook whose environment is to be installed.
#[derive(Debug, PartialEq)]
pub struct DenoHook {
    /// What is asked of the installer.
    pub order: DenoOrder,
    pub installer: DenoInstaller,
    /// The dependencies besides the repository.
    pub dependencies: Vec<String>,
    /// The repository of the hook, unless it is a local one.
    pub repo: Option<PathBuf>,
    /// The words of the entry, or why it has none.
    pub entry: Result<Vec<String>, Failure>,
    /// Where the hook runs.
    pub work_dir: PathBuf,
    /// Where Deno keeps what it downloads.
    pub cache_dir: PathBuf,
}

/// What is known of a hook whose environment is to be installed.
pub struct DenoHookView {
    pub order: DenoOrderView,
    pub root: PathView,
    pub dependencies: Seq<Seq<char>>,
    pub repo: Option<PathView>,
    pub entry: Result<Seq<Seq<char>>, Seq<Seq<char>>>,
    pub work_dir: PathView,
    pub cache_dir: PathView,
}

impl View for DenoHook {
    type V = DenoHookView;

    open spec fn view(&self) -> DenoHookView {
        DenoHookView {
            order: self.order@,
            root: self.installer@,
            dependencies: text::texts(self.dependencies@),
            repo: buf::optional_view(self.repo),
            entry: match self.entry {
                Ok(words) => Ok(text::texts(words@)),
                Err(failure) => Err(failure@),
            },
            work_dir: self.work_dir@,
            cache_dir: self.cache_dir@,
        }
    }
}

/// Where the installation of an environment is. The last path is the search path that
/// commands run with.
#[derive(Debug, PartialEq)]
pub enum EnvPhase {
    Start,
    /// A Deno is found or downloaded.
    Toolchain(InstallPhase),
    MakeEnv(DenoResult),
    MakeBin(InstallInfo),
    /// Deno is linked into the environment.
    Link(InstallInfo, LinkPhase),
    MakeCache(InstallInfo),
    JoinPath(InstallInfo),
    CheckRepoConfig(InstallInfo, PathBuf),
    CopyConfig(InstallInfo, PathBuf),
    CheckConfig(InstallInfo, PathBuf),
    WriteConfig(InstallInfo, PathBuf),
    AddDependencies(InstallInfo, PathBuf),
    CacheScript(InstallInfo),
    Over,
}

/// Where the installation of an environment is.
pub enum EnvPhaseView {
    Start,
    Toolchain(InstallPhaseView),
    MakeEnv(DenoResultView),
    MakeBin(InstallInfoView),
    Link(InstallInfoView, LinkPhase),
    MakeCache(InstallInfoView),
    JoinPath(InstallInfoView),
    CheckRepoConfig(InstallInfoView, PathView),
    CopyConfig(InstallInfoView, PathView),
    CheckConfig(InstallInfoView, PathView),
    WriteConfig(InstallInfoView, PathView),
    AddDependencies(InstallInfoView, PathView),
    CacheScript(InstallInfoView),
    Over,
}

impl View for EnvPhase {
    type V = EnvPhaseView;

    open spec fn view(&self) -> EnvPhaseView {
        match self {
            EnvPhase::Start => EnvPhaseView::Start,
            EnvPhase::Toolchain(phase) => EnvPhaseView::Toolchain(phase@),
            EnvPhase::MakeEnv(deno) => EnvPhaseView::MakeEnv(deno@),
            EnvPhase::MakeBin(info) => EnvPhaseView::MakeBin(info@),
            EnvPhase::Link(info, phase) => EnvPhaseView::Link(info@, *phase),
            EnvPhase::MakeCache(info) => EnvPhaseView::MakeCache(info@),
            EnvPhase::JoinPath(info) => EnvPhaseView::JoinPath(info@),
            EnvPhase::CheckRepoConfig(info, path) => EnvPhaseView::CheckRepoConfig(info@, path@),
            EnvPhase::CopyConfig(info, path) => EnvPhaseView::CopyConfig(info@, path@),
            EnvPhase::CheckConfig(info, path) => EnvPhaseView::CheckConfig(info@, path@),
            EnvPhase::WriteConfig(info, path) => EnvPhaseView::WriteConfig(info@, path@),
            EnvPhase::AddDependencies(info, path) => EnvPhaseView::AddDependencies(info@, path@),
            EnvPhase::CacheScript(info) => EnvPhaseView::CacheScript(info@),
            EnvPhase::Over => EnvPhaseView::Over,
        }
    }
}

/// What the installation of an environment does next.
pub type EnvNext = (EnvPhaseView, StepView<InstallInfoView>);

/// The installation ends with a failure.
pub open spec fn env_failure(messages: Seq<Seq<char>>) -> EnvNext {
    (EnvPhaseView::Over, StepView::Fail(messages))
}

/// The installation ends with an environment.
pub open spec fn env_done(info: InstallInfoView) -> EnvNext {
    (EnvPhaseView::Over, StepView::Done(info))
}

/// What is known of an environment with a Deno.
pub open spec fn env_info(deno: DenoResultView, env_path: PathView) -> InstallInfoView {
    InstallInfoView {
        language_version: deno.version,
        toolchain: deno.deno,
        env_path,
        extras: Seq::empty(),
    }
}

/// A command of the Deno in the environment, with its cache and a search path.
pub open spec fn deno_command(
    hook: DenoHookView,
    info: InstallInfoView,
    search_path: PathView,
    summary: Seq<char>,
    dir: PathView,
) -> CommandView {
    CommandView::new(WordView::Path(installer::deno_in(info.env_path)), summary).dir(dir).env(
        "PATH"@,
        WordView::Path(search_path),
    ).env("DENO_DIR"@, WordView::Path(hook.cache_dir))
}

/// The configuration of Deno in a directory.
pub open spec fn config_in(dir: PathView) -> PathView {
    dir.child("deno.json"@)
}

/// The script of the entry is cached, if there is one.
pub open spec fn cache_now(
    hook: DenoHookView,
    info: InstallInfoView,
    search_path: PathView,
) -> EnvNext {
    match hook.entry {
        Err(messages) => env_failure(messages),
        Ok(words) => match script_to_cache(words) {
            Some(script) => (
                EnvPhaseView::CacheScript(info),
                StepView::Do(
                    ActionView::Run(
                        deno_command(hook, info, search_path, "deno cache"@, hook.work_dir).text(
                            "cache"@,
                        ).text(script),
                    ),
                ),
            ),
            None => env_done(info),
        },
    }
}

/// The dependencies are added, if there are any.
pub open spec fn add_now(
    hook: DenoHookView,
    info: InstallInfoView,
    search_path: PathView,
) -> EnvNext {
    if hook.dependencies.len() > 0 {
        (
            EnvPhaseView::AddDependencies(info, search_path),
            StepView::Do(
                ActionView::Run(
                    deno_command(hook, info, search_path, "deno add"@, info.env_path).text(
                        "add"@,
                    ).texts(hook.dependencies),
                ),
            ),
        )
    } else {
        cache_now(hook, info, search_path)
    }
}

/// The configuration in the environment is looked for.
pub open spec fn check_config(info: InstallInfoView, search_path: PathView) -> EnvNext {
    (
        EnvPhaseView::CheckConfig(info, search_path),
        StepView::Do(ActionView::Exists(config_in(info.env_path))),
    )
}

/// What follows when the search path is known: a repository or dependencies need a
/// configuration.
pub open spec fn after_path(
    hook: DenoHookView,
    info: InstallInfoView,
    search_path: PathView,
) -> EnvNext {
    match hook.repo {
        Some(repo) => (
            EnvPhaseView::CheckRepoConfig(info, search_path),
            StepView::Do(ActionView::Exists(config_in(repo))),
        ),
        None => if hook.dependencies.len() > 0 {
            check_config(info, search_path)
        } else {
            cache_now(hook, info, search_path)
        },
    }
}

/// What follows a step of linking Deno into the environment.
pub open spec fn after_link(
    hook: DenoHookView,
    info: InstallInfoView,
    next: (LinkPhase, StepView<()>),
) -> EnvNext {
    match next.1 {
        StepView::Do(action) => (EnvPhaseView::Link(info, next.0), StepView::Do(action)),
        StepView::Fail(messages) => env_failure(messages),
        StepView::Done(_) => (
            EnvPhaseView::MakeCache(info),
            StepView::Do(ActionView::CreateDirAll(hook.cache_dir)),
        ),
    }
}

/// A step of linking Deno into the environment.
pub open spec fn link(
    hook: DenoHookView,
    info: InstallInfoView,
    phase: LinkPhase,
    outcome: OutcomeView,
) -> EnvNext {
    after_link(
        hook,
        info,
        fs::link_next(info.toolchain, installer::deno_in(info.env_path), phase, outcome),
    )
}

/// What follows a step of the search for a Deno.
pub open spec fn after_install(next: InstallNext) -> EnvNext {
    match next.1 {
        StepView::Do(action) => (EnvPhaseView::Toolchain(next.0), StepView::Do(action)),
        StepView::Fail(messages) => env_failure(seq!["Failed to install deno"@] + messages),
        StepView::Done(deno) => (
            EnvPhaseView::MakeEnv(deno),
            StepView::Do(ActionView::CreateEnvDir),
        ),
    }
}

/// Whether the search for a Deno can go on in this way.
pub open spec fn toolchain_goes_on(
    hook: DenoHookView,
    phase: InstallPhaseView,
    outcome: OutcomeView,
    next: EnvNext,
) -> bool {
    exists|step: InstallNext| #[trigger]
        installer::install_next(hook.root, hook.order, phase, outcome, step) && next
            == after_install(step)
}

/// How the environment of a hook is installed: a Deno is found or downloaded, it is linked
/// into the environment, and what the hook needs is downloaded with it.
pub open spec fn env_next(
    hook: DenoHookView,
    phase: EnvPhaseView,
    outcome: OutcomeView,
    next: EnvNext,
) -> bool {
    match (phase, outcome) {
        (EnvPhaseView::Start, OutcomeView::Begin) => toolchain_goes_on(
            hook,
            InstallPhaseView::Start,
            OutcomeView::Begin,
            next,
        ),
        (EnvPhaseView::Toolchain(inner), _) => toolchain_goes_on(hook, inner, outcome, next),
        (EnvPhaseView::MakeEnv(deno), OutcomeView::Path(env_path)) => next == (
            EnvPhaseView::MakeBin(env_info(deno, env_path)),
            StepView::<InstallInfoView>::Do(
                ActionView::CreateDirAll(installer::bin_of(env_path)),
            ),
        ),
        (EnvPhaseView::MakeBin(info), OutcomeView::Done) => next == link(
            hook,
            info,
            LinkPhase::Start,
            OutcomeView::Begin,
        ),
        (EnvPhaseView::Link(info, inner), _) => next == link(hook, info, inner, outcome),
        (EnvPhaseView::MakeCache(info), OutcomeView::Done) => next == (
            EnvPhaseView::JoinPath(info),
            StepView::<InstallInfoView>::Do(
                ActionView::PrependPath(installer::bin_of(info.env_path)),
            ),
        ),
        (EnvPhaseView::JoinPath(info), OutcomeView::Path(search_path)) => next == after_path(
            hook,
            info,
            search_path,
        ),
        (EnvPhaseView::JoinPath(_), OutcomeView::Failed(cause)) => next == env_failure(
            seq!["Failed to join PATH"@] + cause,
        ),
        (EnvPhaseView::CheckRepoConfig(info, path), OutcomeView::Answer(there)) => next
            == match hook.repo {
            Some(repo) if there => (
                EnvPhaseView::CopyConfig(info, path),
                StepView::Do(ActionView::Copy(config_in(repo), config_in(info.env_path))),
            ),
            _ => check_config(info, path),
        },
        (EnvPhaseView::CopyConfig(info, path), OutcomeView::Done) => next == check_config(
            info,
            path,
        ),
        (EnvPhaseView::CheckConfig(info, path), OutcomeView::Answer(there)) => next == if there {
            add_now(hook, info, path)
        } else {
            (
                EnvPhaseView::WriteConfig(info, path),
                StepView::Do(
                    ActionView::WriteBytes(
                        config_in(info.env_path),
                        vstd::utf8::encode_utf8("{}"@),
                    ),
                ),
            )
        },
        (EnvPhaseView::WriteConfig(info, path), OutcomeView::Done) => next == add_now(
            hook,
            info,
            path,
        ),
        (EnvPhaseView::AddDependencies(info, path), OutcomeView::Output(_)) => next == cache_now(
            hook,
            info,
            path,
        ),
        (EnvPhaseView::CacheScript(info), OutcomeView::Output(_)) => next == env_done(info),
        (EnvPhaseView::CacheScript(_), OutcomeView::Failed(cause)) => next == env_failure(
            seq!["Failed to cache entry script dependencies"@] + cause,
        ),
        _ => next == env_failure(action::failure_of(outcome)),
    }
}

/// A step of the installation of an environment.
pub type EnvStep = (EnvPhase, Step<InstallInfo>);

/// The configuration in the environment is looked for.
fn look_for_config(info: InstallInfo, search_path: PathBuf) -> (r: EnvStep)
    ensures
        (r.0@, r.1@) == check_config(info@, search_path@),
{
    let config = info.env_path.join("deno.json");
    (EnvPhase::CheckConfig(info, search_path), Step::Do(Action::Exists(config)))
}

impl DenoHook {
    /// A command of the Deno in the environment.
    fn command(
        &self,
        info: &InstallInfo,
        search_path: &PathBuf,
        summary: &str,
        dir: &PathBuf,
    ) -> (r: Command)
        ensures
            r@ == deno_command(self@, info@, search_path@, summary@, dir@),
    {
        let deno = installer::bin_dir(&info.env_path).program("deno");
        Command::new(Word::Path(deno), summary).dir(dir).env(
            "PATH",
            Word::path(search_path),
        ).env("DENO_DIR", Word::path(&self.cache_dir))
    }

    /// The script of the entry is cached, if there is one.
    fn cache_script(&self, info: InstallInfo, search_path: &PathBuf) -> (r: EnvStep)
        ensures
            (r.0@, r.1@) == cache_now(self@, info@, search_path@),
    {
        match &self.entry {
            Err(failure) => {
                let messages = strings::copy_list(&failure.messages);
                (EnvPhase::Over, Step::Fail(Failure { messages }))
            },
            Ok(words) => match find_script_to_cache(words) {
                Some(script) => {
                    let command = self.command(
                        &info,
                        search_path,
                        "deno cache",
                        &self.work_dir,
                    ).text("cache").text(script.as_str());
                    (EnvPhase::CacheScript(info), Step::Do(Action::Run(command)))
                },
                None => (EnvPhase::Over, Step::Done(info)),
            },
        }
    }

    /// The dependencies are added, if there are any.
    fn add_dependencies(&self, info: InstallInfo, search_path: PathBuf) -> (r: EnvStep)
        ensures
            (r.0@, r.1@) == add_now(self@, info@, search_path@),
    {
        proof {
            assert(self@.dependencies.len() == self.dependencies@.len());
        }
        if self.dependencies.len() > 0 {
            let command = self.command(&info, &search_path, "deno add", &info.env_path).text(
                "add",
            ).texts(&self.dependencies);
            (EnvPhase::AddDependencies(info, search_path), Step::Do(Action::Run(command)))
        } else {
            self.cache_script(info, &search_path)
        }
    }

    /// What follows when the search path is known.
    fn after_join_path(&self, info: InstallInfo, search_path: PathBuf) -> (r: EnvStep)
        ensures
            (r.0@, r.1@) == after_path(self@, info@, search_path@),
    {
        proof {
            assert(self@.dependencies.len() == self.dependencies@.len());
        }
        match &self.repo {
            Some(repo) => {
                let config = repo.join("deno.json");
                (EnvPhase::CheckRepoConfig(info, search_path), Step::Do(Action::Exists(config)))
            },
            None => if self.dependencies.len() > 0 {
                look_for_config(info, search_path)
            } else {
                self.cache_script(info, &search_path)
            },
        }
    }

    /// What follows when it is known whether the repository has a configuration.
    fn after_check_repo(&self, info: InstallInfo, search_path: PathBuf, there: bool) -> (r: EnvStep)
        ensures
            (r.0@, r.1@) == match self@.repo {
                Some(repo) if there => (
                    EnvPhaseView::CopyConfig(info@, search_path@),
                    StepView::Do(ActionView::Copy(config_in(repo), config_in(info@.env_path))),
                ),
                _ => check_config(info@, search_path@),
            },
    {
        match &self.repo {
            Some(repo) => if there {
                let to = info.env_path.join("deno.json");
                let copy = Action::Copy(repo.join("deno.json"), to);
                (EnvPhase::CopyConfig(info, search_path), Step::Do(copy))
            } else {
                look_for_config(info, search_path)
            },
            None => look_for_config(info, search_path),
        }
    }

    /// What follows when it is known whether the environment has a configuration.
    fn after_check_config(&self, info: InstallInfo, search_path: PathBuf, there: bool) -> (r:
        EnvStep)
        ensures
            (r.0@, r.1@) == (if there {
                add_now(self@, info@, search_path@)
            } else {
                (
                    EnvPhaseView::WriteConfig(info@, search_path@),
                    StepView::Do(
                        ActionView::WriteBytes(
                            config_in(info@.env_path),
                            vstd::utf8::encode_utf8("{}"@),
                        ),
                    ),
                )
            }),
    {
        if there {
            self.add_dependencies(info, search_path)
        } else {
            let config = info.env_path.join("deno.json");
            let empty = vstd::slice::slice_to_vec("{}".as_bytes());
            (
                EnvPhase::WriteConfig(info, search_path),
                Step::Do(Action::WriteBytes(config, empty)),
            )
        }
    }

    /// A step of linking Deno into the environment.
    fn link_deno(&self, info: InstallInfo, phase: LinkPhase, outcome: Outcome) -> (r: EnvStep)
        ensures
            (r.0@, r.1@) == link(self@, info@, phase, outcome@),
    {
        let target = installer::bin_dir(&info.env_path).program("deno");
        let next = fs::create_symlink_or_copy(&info.toolchain, &target, phase, outcome);
        match next.1 {
            Step::Do(action) => (EnvPhase::Link(info, next.0), Step::Do(action)),
            Step::Fail(failure) => (EnvPhase::Over, Step::Fail(failure)),
            Step::Done(_) => (
                EnvPhase::MakeCache(info),
                Step::Do(Action::CreateDirAll(self.cache_dir.duplicate())),
            ),
        }
    }

    /// A step of the search for a Deno.
    fn search_toolchain(&self, phase: InstallPhase, outcome: Outcome) -> (r: EnvStep)
        ensures
            toolchain_goes_on(self@, phase@, outcome@, (r.0@, r.1@)),
    {
        let next = self.installer.install(&self.order, phase, outcome);
        proof {
            assert(installer::install_next(
                self@.root,
                self@.order,
                phase@,
                outcome@,
                (next.0@, next.1@),
            ));
        }
        match next.1 {
            Step::Do(action) => (EnvPhase::Toolchain(next.0), Step::Do(action)),
            Step::Fail(failure) => (
                EnvPhase::Over,
                Step::Fail(failure.within("Failed to install deno".to_owned())),
            ),
            Step::Done(deno) => (EnvPhase::MakeEnv(deno), Step::Do(Action::CreateEnvDir)),
        }
    }

    /// What follows when the directory of the environment is made.
    fn after_make_env(&self, deno: &DenoResult, env_path: PathBuf) -> (r: EnvStep)
        ensures
            (r.0@, r.1@) == (
                EnvPhaseView::MakeBin(env_info(deno@, env_path@)),
                StepView::<InstallInfoView>::Do(
                    ActionView::CreateDirAll(installer::bin_of(env_path@)),
                ),
            ),
    {
        let bin = installer::bin_dir(&env_path);
        let mut info = InstallInfo::new(env_path);
        info.with_toolchain(deno.deno().duplicate());
        info.with_language_version(deno.version().0.duplicate());
        (EnvPhase::MakeBin(info), Step::Do(Action::CreateDirAll(bin)))
    }

    /// Installs the environment of a hook.
    pub fn install(&self, phase: EnvPhase, outcome: Outcome) -> (r: EnvStep)
        ensures
            env_next(self@, phase@, outcome@, (r.0@, r.1@)),
    {
        match (phase, outcome) {
            (EnvPhase::Start, Outcome::Begin) => self.search_toolchain(
                InstallPhase::Start,
                Outcome::Begin,
            ),
            (EnvPhase::Toolchain(inner), outcome) => self.search_toolchain(inner, outcome),
            (EnvPhase::MakeEnv(deno), Outcome::Path(env_path)) => self.after_make_env(
                &deno,
                env_path,
            ),
            (EnvPhase::MakeBin(info), Outcome::Done) => self.link_deno(
                info,
                LinkPhase::Start,
                Outcome::Begin,
            ),
            (EnvPhase::Link(info, inner), outcome) => self.link_deno(info, inner, outcome),
            (EnvPhase::MakeCache(info), Outcome::Done) => {
                let bin = installer::bin_dir(&info.env_path);
                (EnvPhase::JoinPath(info), Step::Do(Action::PrependPath(bin)))
            },
            (EnvPhase::JoinPath(info), Outcome::Path(search_path)) => self.after_join_path(
                info,
                search_path,
            ),
            (EnvPhase::JoinPath(_), Outcome::Failed(failure)) => (
                EnvPhase::Over,
                Step::Fail(failure.within("Failed to join PATH".to_owned())),
            ),
            (EnvPhase::CheckRepoConfig(info, path), Outcome::Answer(there)) =>
            self.after_check_repo(info, path, there),
            (EnvPhase::CopyConfig(info, path), Outcome::Done) => look_for_config(info, path),
            (EnvPhase::CheckConfig(info, path), Outcome::Answer(there)) => self.after_check_config(
                info,
                path,
                there,
            ),
            (EnvPhase::WriteConfig(info, path), Outcome::Done) => self.add_dependencies(info, path),
            (EnvPhase::AddDependencies(info, path), Outcome::Output(_)) => self.cache_script(
                info,
                &path,
            ),
            (EnvPhase::CacheScript(info), Outcome::Output(_)) => (EnvPhase::Over, Step::Done(info)),
            (EnvPhase::CacheScript(_), Outcome::Failed(failure)) => (
                EnvPhase::Over,
                Step::Fail(failure.within("Failed to cache entry script dependencies".to_owned())),
            ),
            (_, other) => (EnvPhase::Over, Step::Fail(other.into_failure())),
        }
    }
}

/// What is said when an environment has another version than was noted.
pub open spec fn version_mismatch(expected: Seq<char>, found: Seq<char>) -> Seq<char> {
    "Deno version mismatch: expected `"@ + expected + "`, found `"@ + found + "`"@
}

/// What is wrong with an environment, by what its Deno wrote when it was asked for its
/// version. Nothing is, if the version is the one that was noted.
pub open spec fn health_problem(info: InstallInfoView, output: Seq<u8>) -> Option<Seq<Seq<char>>> {
    match installer::version_in_output(output) {
        Err(messages) => Some(seq!["Failed to query current Deno info"@] + messages),
        Ok(version) => if version != info.language_version {
            Some(seq![version_mismatch(info.language_version.text(), version.text())])
        } else {
            None
        },
    }
}

/// The command that asks the Deno of an environment for its version.
pub fn health_command(info: &InstallInfo) -> (r: Command)
    ensures
        r@ == installer::ask_version(info@.toolchain),
{
    DenoResult::from_executable(info.toolchain.duplicate()).version_command()
}

/// Checks an environment by what its Deno wrote when it was asked for its version.
pub fn check_health(info: &InstallInfo, output: &Vec<u8>) -> (r: Result<(), Failure>)
    ensures
        match r {
            Ok(()) => health_problem(info@, output@) is None,
            Err(e) => health_problem(info@, output@) == Some(e@),
        },
{
    match DenoResult::from_executable(info.toolchain.duplicate()).fill_version(output) {
        Err(failure) => Err(failure.within("Failed to query current Deno info".to_owned())),
        Ok(current) => if current.version().0.same(&info.language_version) {
            Ok(())
        } else {
            let mut message = "Deno version mismatch: expected `".to_owned();
            message.append(info.language_version.to_string().as_str());
            message.append("`, found `");
            message.append(current.version().to_string().as_str());
            message.append("`");
            Err(Failure::new(message))
        },
    }
}

/// The variables that every hook runs with. Its own variables come behind them.
pub open spec fn run_variables(cache_dir: PathView, search_path: WordView) -> Seq<VariableView> {
    seq![
        VariableView { name: "PATH"@, value: search_path },
        VariableView { name: "DENO_DIR"@, value: WordView::Path(cache_dir) },
    ]
}

/// The command that runs a hook over a batch of files. `env` holds the hook's own variables,
/// which prevail. The entry must not be empty.
pub fn run_command(
    cache_dir: &PathBuf,
    search_path: Word,
    entry: &Vec<String>,
    work_dir: &PathBuf,
    env: Vec<Variable>,
    args: &Vec<String>,
    batch: &Vec<PathBuf>,
) -> (r: Command)
    requires
        entry@.len() > 0,
    ensures
        r@ == run::hook_command(
            "deno hook"@,
            text::texts(entry@),
            work_dir@,
            run_variables(cache_dir@, search_path@) + action::variable_views(env@),
            text::texts(args@),
            buf::path_views(batch@),
        ),
        forall|name: Seq<char>| #[trigger]
            action::value_of(r@.env, name) == match action::value_of(
                action::variable_views(env@),
                name,
            ) {
                Some(value) => Some(value),
                None => action::value_of(run_variables(cache_dir@, search_path@), name),
            },
{
    let mut all: Vec<Variable> = Vec::new();
    all.push(Variable { name: "PATH".to_owned(), value: search_path });
    all.push(Variable { name: "DENO_DIR".to_owned(), value: Word::path(cache_dir) });
    let ghost fixed = all@;
    let mut own = env;
    all.append(&mut own);
    proof {
        assert(action::variable_views(fixed) =~= run_variables(cache_dir@, search_path@));
        assert(action::variable_views(all@) =~= action::variable_views(fixed)
            + action::variable_views(env@));
        assert forall|name: Seq<char>| #[trigger]
            action::value_of(action::variable_views(all@), name) == match action::value_of(
                action::variable_views(env@),
                name,
            ) {
                Some(value) => Some(value),
                None => action::value_of(run_variables(cache_dir@, search_path@), name),
            } by {
            run::law_later_variables_prevail(
                action::variable_views(fixed),
                action::variable_views(env@),
                name,
            );
        }
    }
    run::build_hook_command("deno hook", entry, work_dir, all, args, batch)
}

/// Whether a command keeps what it downloads in the cache of the hook.
pub open spec fn uses_cache(command: CommandView, cache_dir: PathView) -> bool {
    command.env.contains(
        VariableView { name: "DENO_DIR"@, value: WordView::Path(cache_dir) },
    )
}

/// Once Deno is there, every command is run by the Deno of the environment and keeps what
/// it downloads in the cache of the hook.
pub proof fn law_commands_use_their_own_cache(
    hook: DenoHookView,
    phase: EnvPhaseView,
    outcome: OutcomeView,
    next: EnvNext,
)
    requires
        env_next(hook, phase, outcome, next),
        !(phase is Start || phase is Toolchain),
    ensures
        next.1 matches StepView::Do(ActionView::Run(command)) ==> uses_cache(
            command,
            hook.cache_dir,
        ) && (exists|env: PathView|
            command.program == WordView::Path(#[trigger] installer::deno_in(env))),
{
    if let StepView::Do(ActionView::Run(command)) = next.1 {
        let wanted = VariableView { name: "DENO_DIR"@, value: WordView::Path(hook.cache_dir) };
        assert(command.env.len() == 2);
        assert(command.env[1] == wanted);
    }
}

/// A hook runs with the cache that its environment was installed with, unless its own
/// variables name another.
pub proof fn law_run_uses_the_cache(
    cache_dir: PathView,
    search_path: WordView,
    env: Seq<VariableView>,
)
    ensures
        action::value_of(env, "DENO_DIR"@) is None ==> action::value_of(
            run_variables(cache_dir, search_path) + env,
            "DENO_DIR"@,
        ) == Some(WordView::Path(cache_dir)),
{
    let fixed = run_variables(cache_dir, search_path);
    run::law_later_variables_prevail(fixed, env, "DENO_DIR"@);
    assert(fixed.last() == VariableView { name: "DENO_DIR"@, value: WordView::Path(cache_dir) });
}

/// A new environment is healthy as long as its Deno tells the version that it had.
pub proof fn law_new_environment_is_healthy(
    deno: DenoResultView,
    env_path: PathView,
    output: Seq<u8>,
)
    ensures
        health_problem(env_info(deno, env_path), output) is None <==> installer::version_in_output(
            output,
        ) == Ok::<crate::version::SemVer, Seq<Seq<char>>>(deno.version),
{
}

/// An environment that was made with a Deno that answers a request satisfies it.
pub proof fn law_new_environment_satisfies_the_request(
    deno: DenoResultView,
    env_path: PathView,
    request: DenoRequestView,
)
    requires
        deno_version::deno_matches(request, deno.version, Some(deno.deno)),
    ensures
        deno_version::deno_matches(
            request,
            env_info(deno, env_path).language_version,
            Some(env_info(deno, env_path).toolchain),
        ),
{
}

} // verus!
