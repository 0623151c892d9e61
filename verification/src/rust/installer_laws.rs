//! What holds of the search for a Rust toolchain, and of its installation, as a whole.

use vstd::prelude::*;

use crate::action;
use crate::action::{ActionView, EntryView, OutcomeView, StepView, VariableView, WordView};
use crate::path::laws;
use crate::path::model::{Comp, PathView};
use crate::path::ops;
use crate::path::ways;
use crate::rust::installer;
use crate::rust::installer::{InstallNext, InstallPhaseView, RustResultView};
use crate::rust::toolchain::ToolchainPhaseView;
use crate::rust::version as rust_version;
use crate::rust::version::RustRequestView;
use crate::strings;
use crate::text;
use crate::text::Class;
use crate::version;
use crate::version::SemVer;

verus! {

/// Whether a request stands for the toolchain of this name: the channel that it names, the
/// stable channel where any version will do, or the path that it names.
pub open spec fn stands_for(request: RustRequestView, name: Seq<char>) -> bool {
    match request {
        RustRequestView::Any => name == "stable"@,
        RustRequestView::Channel(channel) => name == channel,
        RustRequestView::Path(path) => name == action::shown(path),
        _ => false,
    }
}

/// Whether a phase installs no other toolchain than the one of this name, and asks no remote
/// which there are.
pub open spec fn installs_only(phase: InstallPhaseView, name: Seq<char>) -> bool {
    match phase {
        InstallPhaseView::Install(installed, _) => installed == name,
        InstallPhaseView::AskInstalled(installed) => installed == name,
        InstallPhaseView::ListTags => false,
        _ => true,
    }
}

/// Whether a step has rustup install the toolchain of this name into the directory of that
/// name, and nowhere else.
pub open spec fn installs_toolchain(
    step: StepView<RustResultView>,
    root: PathView,
    name: Seq<char>,
) -> bool {
    let target = root.child(name);
    step matches StepView::Do(ActionView::Run(command)) && {
        &&& command.program == WordView::Path(target.child("bin"@).program("rustup"@))
        &&& command.args =~= seq![
            WordView::Text("toolchain"@),
            WordView::Text("install"@),
            WordView::Text("--no-self-update"@),
            WordView::Text(name),
        ]
        &&& command.env =~= seq![
            VariableView { name: "CARGO_HOME"@, value: WordView::Path(target) },
            VariableView {
                name: "RUSTUP_HOME"@,
                value: WordView::Path(target.child("rustup"@)),
            },
        ]
        &&& command.summary == "install toolchain"@
        &&& command.current_dir is None
        &&& command.check
        &&& !command.remove_git_env
        &&& !command.null_stdin
    }
}

/// Whether a step asks a compiler of a toolchain for its version.
pub open spec fn asks_toolchain(
    step: StepView<RustResultView>,
    compiler: PathView,
    name: Seq<char>,
    dir: PathView,
) -> bool {
    step matches StepView::Do(ActionView::Run(command)) && {
        &&& command.program == WordView::Path(compiler)
        &&& command.args =~= seq![WordView::Text("--version"@)]
        &&& command.env =~= seq![
            VariableView { name: "RUSTUP_AUTO_INSTALL"@, value: WordView::Text("0"@) },
            VariableView { name: "RUSTUP_TOOLCHAIN"@, value: WordView::Text(name) },
            VariableView { name: "RUSTUP_HOME"@, value: WordView::Path(dir.child("rustup"@)) },
        ]
        &&& command.summary == "rustc version"@
        &&& command.current_dir is None
        &&& command.check
        &&& !command.remove_git_env
        &&& !command.null_stdin
    }
}

/// A request for a channel, for any version or for a path leads to the toolchain of its name
/// and to no other: that one is what rustup is told to install, it is asked for its version in
/// the directory of its name, and the compiler of that directory is what the installation ends
/// with.
pub proof fn law_requested_toolchain_is_installed(
    root: PathView,
    binary_name: Seq<char>,
    request: RustRequestView,
    allows_download: bool,
    name: Seq<char>,
    phase: InstallPhaseView,
    outcome: OutcomeView,
    next: InstallNext,
)
    requires
        installer::install_next(
            root,
            binary_name,
            request,
            allows_download,
            phase,
            outcome,
            next,
        ),
        stands_for(request, name),
        installs_only(phase, name),
    ensures
        installs_only(next.0, name),
        next.1 matches StepView::Do(ActionView::Run(command)) ==> (command.args.len() > 0
            && command.args[0] == WordView::Text("toolchain"@) ==> installs_toolchain(
            next.1,
            root,
            name,
        )),
        next.0 matches InstallPhaseView::Install(_, inner) ==> (inner is InstallToolchain
            ==> installs_toolchain(next.1, root, name)),
        next.0 is AskInstalled ==> {
            &&& phase matches InstallPhaseView::Install(_, inner) && inner is InstallToolchain
            &&& outcome is Output
            &&& asks_toolchain(
                next.1,
                root.child(name).child("bin"@).program("rustc"@),
                name,
                root.child(name),
            )
        },
        phase is AskInstalled ==> (next.1 matches StepView::Done(rust) ==> {
            &&& rust.path == root.child(name).child("bin"@).program("rustc"@)
            &&& !rust.from_system
            &&& outcome matches OutcomeView::Output(output) && installer::version_in_output(output)
                == Ok::<SemVer, Seq<Seq<char>>>(rust.version)
        }),
{
    reveal_strlit("toolchain");
    reveal_strlit("--version");
    reveal_strlit("-y");
    reveal_strlit("ls-remote");
    assert("toolchain"@[0] == 't' && "--version"@[0] == '-' && "-y"@[0] == '-' && "ls-remote"@[0]
        == 'l');
}

/// What is done where no compiler answers a request. Nothing where downloads are off. The
/// toolchain of its name is installed where it has one, into the directory of that name. For
/// all other requests the tags of the Rust repository are listed.
pub open spec fn looks_elsewhere(
    root: PathView,
    request: RustRequestView,
    allows_download: bool,
    next: InstallNext,
) -> bool {
    if !allows_download {
        next == (
            InstallPhaseView::Over,
            StepView::<RustResultView>::Fail(
                seq!["No suitable system Rust version found and downloads are disabled"@],
            ),
        )
    } else if request is Any || request is Channel || request is Path {
        forall|name: Seq<char>| #[trigger]
            stands_for(request, name) ==> next == (
                InstallPhaseView::Install(name, ToolchainPhaseView::MakeHome),
                StepView::<RustResultView>::Do(
                    ActionView::CreateDirAll(root.child(name).child("rustup"@)),
                ),
            )
    } else {
        &&& next.0 is ListTags
        &&& next.1 matches StepView::Do(ActionView::Run(command)) && {
            &&& command.program == WordView::Text("git"@)
            &&& command.args =~= seq![
                WordView::Text("ls-remote"@),
                WordView::Text("--tags"@),
                WordView::Text("https://github.com/rust-lang/rust"@),
            ]
            &&& command.env.len() == 0
            &&& command.summary == "list rust tags"@
            &&& command.current_dir is None
            &&& command.check
            &&& !command.remove_git_env
            &&& !command.null_stdin
        }
    }
}

/// What is done where no compiler answers a request.
proof fn lemma_looks_elsewhere(root: PathView, request: RustRequestView, allows_download: bool)
    ensures
        looks_elsewhere(
            root,
            request,
            allows_download,
            installer::resolve(root, request, allows_download),
        ),
{
}

/// Where there is no compiler on the system, or none can be found, one is looked for elsewhere.
pub proof fn law_without_a_compiler_one_is_looked_for_elsewhere(
    root: PathView,
    binary_name: Seq<char>,
    request: RustRequestView,
    allows_download: bool,
    outcome: OutcomeView,
    next: InstallNext,
)
    requires
        installer::install_next(
            root,
            binary_name,
            request,
            allows_download,
            InstallPhaseView::FindSystem,
            outcome,
            next,
        ),
        outcome is Failed || (outcome matches OutcomeView::Paths(paths) && paths.len() == 0),
    ensures
        looks_elsewhere(root, request, allows_download, next),
{
    lemma_looks_elsewhere(root, request, allows_download);
}

/// Whether a compiler of the system answers a request, by what came of asking it.
pub open spec fn answers(
    request: RustRequestView,
    path: PathView,
    outcome: OutcomeView,
    version: SemVer,
) -> bool {
    outcome matches OutcomeView::Output(output) && installer::version_in_output(output) == Ok::<
        SemVer,
        Seq<Seq<char>>,
    >(version) && rust_version::rust_matches(request, version, Some(path))
}

/// Whether these are the steps while the compilers of the system are asked. The outcome at `i`
/// is what came of the step at `i`.
pub open spec fn is_asking(
    root: PathView,
    binary_name: Seq<char>,
    request: RustRequestView,
    allows_download: bool,
    paths: Seq<PathView>,
    outcomes: Seq<OutcomeView>,
    steps: Seq<InstallNext>,
) -> bool {
    &&& steps.len() == outcomes.len() + 1
    &&& installer::install_next(
        root,
        binary_name,
        request,
        allows_download,
        InstallPhaseView::FindSystem,
        OutcomeView::Paths(paths),
        steps[0],
    )
    &&& forall|i: int|
        0 <= i < outcomes.len() ==> installer::install_next(
            root,
            binary_name,
            request,
            allows_download,
            #[trigger] steps[i].0,
            outcomes[i],
            steps[i + 1],
        )
}

/// While no compiler answers, the next one is asked.
proof fn lemma_compilers_so_far(
    root: PathView,
    binary_name: Seq<char>,
    request: RustRequestView,
    allows_download: bool,
    paths: Seq<PathView>,
    outcomes: Seq<OutcomeView>,
    steps: Seq<InstallNext>,
    k: int,
)
    requires
        is_asking(root, binary_name, request, allows_download, paths, outcomes, steps),
        0 <= k <= outcomes.len(),
        k <= paths.len(),
        forall|i: int|
            0 <= i < k ==> {
                &&& (#[trigger] outcomes[i]) is Output || outcomes[i] is Failed
                &&& forall|v: SemVer| !answers(request, paths[i], outcomes[i], v)
            },
    ensures
        steps[k] == installer::ask_system(root, request, allows_download, paths.skip(k)),
    decreases k,
{
    if k == 0 {
        assert(paths.skip(0) =~= paths);
    } else {
        lemma_compilers_so_far(
            root,
            binary_name,
            request,
            allows_download,
            paths,
            outcomes,
            steps,
            k - 1,
        );
        let left = paths.skip(k - 1);
        assert(left[0] == paths[k - 1]);
        assert(left.drop_first() =~= paths.skip(k));
        assert(installer::install_next(
            root,
            binary_name,
            request,
            allows_download,
            steps[k - 1].0,
            outcomes[k - 1],
            steps[k - 1 + 1],
        ));
        if let OutcomeView::Output(output) = outcomes[k - 1] {
            if let Ok(v) = installer::version_in_output(output) {
                assert(!answers(request, paths[k - 1], outcomes[k - 1], v));
            }
        }
    }
}

/// The compilers of the system are asked one after the other, and the first that answers the
/// request is taken, with the version that it told. One that cannot be asked, or whose answer
/// cannot be read, is passed over. Where none answers, one is looked for elsewhere.
pub proof fn law_first_compiler_that_answers_is_taken(
    root: PathView,
    binary_name: Seq<char>,
    request: RustRequestView,
    allows_download: bool,
    paths: Seq<PathView>,
    outcomes: Seq<OutcomeView>,
    steps: Seq<InstallNext>,
    k: int,
    version: SemVer,
)
    requires
        is_asking(root, binary_name, request, allows_download, paths, outcomes, steps),
        0 <= k <= outcomes.len(),
        k <= paths.len(),
        forall|i: int|
            0 <= i < k ==> {
                &&& (#[trigger] outcomes[i]) is Output || outcomes[i] is Failed
                &&& forall|v: SemVer| !answers(request, paths[i], outcomes[i], v)
            },
    ensures
        k < paths.len() ==> (steps[k].1 matches StepView::Do(ActionView::Run(command)) && {
            &&& command.program == WordView::Path(paths[k])
            &&& command.args =~= seq![WordView::Text("--version"@)]
            &&& command.env =~= seq![
                VariableView { name: "RUSTUP_AUTO_INSTALL"@, value: WordView::Text("0"@) },
            ]
            &&& command.summary == "rustc version"@
            &&& command.current_dir is None
            &&& command.check
            &&& !command.remove_git_env
            &&& !command.null_stdin
        }),
        k < paths.len() && k < outcomes.len() && answers(request, paths[k], outcomes[k], version)
            ==> steps[k + 1] == (
            InstallPhaseView::Over,
            StepView::Done(
                RustResultView { path: paths[k], version, from_system: true },
            ),
        ),
        k == paths.len() ==> looks_elsewhere(root, request, allows_download, steps[k]),
{
    lemma_compilers_so_far(
        root,
        binary_name,
        request,
        allows_download,
        paths,
        outcomes,
        steps,
        k,
    );
    lemma_looks_elsewhere(root, request, allows_download);
    if k < paths.len() {
        assert(paths.skip(k)[0] == paths[k]);
        if k < outcomes.len() {
            assert(installer::install_next(
                root,
                binary_name,
                request,
                allows_download,
                steps[k].0,
                outcomes[k],
                steps[k + 1],
            ));
        }
    }
}

/// Whether an installed toolchain can be given to a request: for a channel the directory of its
/// name, and else a directory that is named by a version that answers the request.
pub open spec fn is_installed_for(
    request: RustRequestView,
    entry: EntryView,
    version: SemVer,
) -> bool {
    let name = ops::lossy_text(entry.name.bytes);
    entry.kind is Dir && match request {
        RustRequestView::Channel(channel) => name == channel,
        _ => rust_version::rust_version(name) == Some(version) && rust_version::rust_matches(
            request,
            version,
            Some(entry.path),
        ),
    }
}

/// Whether the compiler in the directory of an entry is asked for its version now. It fails
/// where the name of its toolchain cannot be told from its path.
pub open spec fn asks_installed(entry: EntryView, next: InstallNext) -> bool {
    let compiler = entry.path.child("bin"@).program("rustc"@);
    match installer::toolchain_of(compiler) {
        Some((name, dir)) => {
            &&& next.0 matches InstallPhaseView::AskCached(rust) && rust.path == compiler
                && !rust.from_system
            &&& asks_toolchain(next.1, compiler, name, dir)
        },
        None => next == (
            InstallPhaseView::Over,
            StepView::<RustResultView>::Fail(seq!["Failed to extract toolchain name"@]),
        ),
    }
}

/// Where an installed toolchain answers the request, one that does is taken, and for versions
/// one of which none is newer. The system is searched only where there is none.
pub proof fn law_newest_installed_toolchain_is_taken(
    root: PathView,
    binary_name: Seq<char>,
    request: RustRequestView,
    allows_download: bool,
    entries: Seq<EntryView>,
    next: InstallNext,
)
    requires
        installer::install_next(
            root,
            binary_name,
            request,
            allows_download,
            InstallPhaseView::List,
            OutcomeView::Entries(entries),
            next,
        ),
    ensures
        (exists|i: int, v: SemVer|
            0 <= i < entries.len() && #[trigger] is_installed_for(request, entries[i], v)) ==> (
        exists|i: int, v: SemVer|
            {
                &&& 0 <= i < entries.len()
                &&& #[trigger] is_installed_for(request, entries[i], v)
                &&& asks_installed(entries[i], next)
                &&& request is Channel || forall|j: int, w: SemVer|
                    0 <= j < entries.len() && #[trigger] is_installed_for(request, entries[j], w)
                        ==> !version::is_newer(w, v)
            }),
        !(exists|i: int, v: SemVer|
            0 <= i < entries.len() && #[trigger] is_installed_for(request, entries[i], v))
            ==> next == (
            InstallPhaseView::FindSystem,
            StepView::<RustResultView>::Do(ActionView::FindAll(binary_name)),
        ),
{
    let choice = choose|choice: Option<int>| #[trigger]
        installer::is_installed_choice(request, entries, choice) && next
            == installer::after_search(binary_name, entries, choice);
    let versions = entries.map_values(|e: EntryView| installer::installed_version(request, e));
    match choice {
        Some(i) => {
            let v = match versions[i] {
                Some(v) => v,
                None => installer::no_version(),
            };
            assert(is_installed_for(request, entries[i], v));
            assert(asks_installed(entries[i], next));
            assert forall|j: int, w: SemVer|
                !(request is Channel) && 0 <= j < entries.len() && #[trigger] is_installed_for(
                    request,
                    entries[j],
                    w,
                ) implies !version::is_newer(w, v) by {
                assert(versions[j] == Some(w));
            }
        },
        None => {
            assert forall|i: int, v: SemVer|
                0 <= i < entries.len() && #[trigger] is_installed_for(
                    request,
                    entries[i],
                    v,
                ) implies false by {
                if let RustRequestView::Channel(channel) = request {
                    assert(!installer::is_channel_dir(channel, entries[i]));
                } else {
                    assert(versions[i] is None);
                }
            }
        },
    }
}

/// The toolchain that a compiler belongs to is the directory two levels above it, and its name
/// is that of the directory.
pub proof fn law_toolchain_is_two_levels_above_its_compiler(
    compiler: PathView,
    bin: PathView,
    dir: PathView,
    name: Seq<u8>,
)
    requires
        compiler.parent() == Some(bin),
        bin.parent() == Some(dir),
        dir.file_name() == Some(name),
        vstd::utf8::valid_utf8(name),
    ensures
        installer::toolchain_of(compiler) == Some((vstd::utf8::decode_utf8(name), dir)),
{
}

/// A line of the listed tags is a hash, a tab, `refs/tags/` and the tag.
pub proof fn law_tag_stands_behind_a_tab(hash: Seq<char>, tag: Seq<char>)
    requires
        !hash.contains('\t'),
        !tag.contains('\t'),
    ensures
        installer::tag_version(hash + seq!['\t'] + ("refs/tags/"@ + tag))
            == rust_version::rust_version(tag),
        !text::begins(tag, "refs/tags/"@) ==> installer::tag_version(hash + seq!['\t'] + tag) is None,
        installer::tag_version(hash) is None,
{
    reveal_strlit("refs/tags/");
    let name = "refs/tags/"@ + tag;
    assert(!name.contains('\t')) by {
        assert forall|i: int| 0 <= i < name.len() implies name[i] != '\t' by {
            if i >= 10 {
                assert(name[i] == tag[i - 10]);
            }
        }
    }
    strings::law_splitting_at_a_separator(hash, '\t', name);
    strings::law_splitting_at_a_separator(name, '\t', Seq::empty());
    strings::law_splitting_at_a_separator(hash, '\t', tag);
    strings::law_splitting_at_a_separator(tag, '\t', Seq::empty());
    assert((seq![hash] + seq![name])[1] == name);
    assert((seq![hash] + seq![tag])[1] == tag);
    assert(name.take(10) =~= "refs/tags/"@);
    assert(name.skip(10) =~= tag);
}

/// Whether a line of the listed tags names a version that answers a request.
pub open spec fn is_tag_for(request: RustRequestView, line: Seq<char>, version: SemVer) -> bool {
    installer::tag_version(line) == Some(version) && rust_version::rust_matches(
        request,
        version,
        None,
    )
}

/// Of the listed tags, a version that answers the request is installed, one of which none is
/// newer, under its own name. It is said that there is none only where there is none.
pub proof fn law_newest_tag_is_installed(
    root: PathView,
    binary_name: Seq<char>,
    request: RustRequestView,
    allows_download: bool,
    output: Seq<u8>,
    next: InstallNext,
)
    requires
        installer::install_next(
            root,
            binary_name,
            request,
            allows_download,
            InstallPhaseView::ListTags,
            OutcomeView::Output(output),
            next,
        ),
        vstd::utf8::valid_utf8(output),
    ensures
        ({
            let lines = text::lines(vstd::utf8::decode_utf8(output));
            let some = exists|i: int, v: SemVer|
                0 <= i < lines.len() && #[trigger] is_tag_for(request, lines[i], v);
            &&& some ==> exists|i: int, v: SemVer|
                {
                    &&& 0 <= i < lines.len()
                    &&& #[trigger] is_tag_for(request, lines[i], v)
                    &&& forall|j: int, w: SemVer|
                        0 <= j < lines.len() && #[trigger] is_tag_for(request, lines[j], w)
                            ==> !version::is_newer(w, v)
                    &&& next == (
                        InstallPhaseView::Install(v.text(), ToolchainPhaseView::MakeHome),
                        StepView::<RustResultView>::Do(
                            ActionView::CreateDirAll(root.child(v.text()).child("rustup"@)),
                        ),
                    )
                }
            &&& !some ==> next == (
                InstallPhaseView::Over,
                StepView::<RustResultView>::Fail(seq!["Version not found on remote"@]),
            )
        }),
{
    let lines = text::lines(vstd::utf8::decode_utf8(output));
    let candidates = installer::tag_candidates(request, lines);
    let r = choose|r: Result<Seq<char>, Seq<Seq<char>>>| #[trigger]
        installer::is_remote_choice(request, output, r) && next == match r {
            Ok(toolchain) => installer::start_install(root, toolchain),
            Err(messages) => installer::install_failure(messages),
        };
    let choice = choose|choice: Option<int>|
        {
            &&& #[trigger] version::is_newest_of(candidates, choice)
            &&& r == match choice {
                Some(i) => Ok::<Seq<char>, Seq<Seq<char>>>((candidates[i]->0).text()),
                None => Err(seq!["Version not found on remote"@]),
            }
        };
    match choice {
        Some(i) => {
            let v = candidates[i]->0;
            assert(is_tag_for(request, lines[i], v));
            assert forall|j: int, w: SemVer|
                0 <= j < lines.len() && #[trigger] is_tag_for(
                    request,
                    lines[j],
                    w,
                ) implies !version::is_newer(w, v) by {
                assert(candidates[j] == Some(w));
            }
        },
        None => {
            assert forall|i: int, v: SemVer|
                0 <= i < lines.len() && #[trigger] is_tag_for(
                    request,
                    lines[i],
                    v,
                ) implies false by {
                assert(candidates[i] is None);
            }
        },
    }
}

/// What a compiler writes when it is asked for its version has the version as its second word,
/// whatever comes behind it.
pub proof fn law_version_is_the_second_word(
    output: Seq<u8>,
    first: Seq<char>,
    word: Seq<char>,
    rest: Seq<char>,
)
    requires
        vstd::utf8::valid_utf8(output),
        vstd::utf8::decode_utf8(output) == first + seq![' '] + word + rest,
        first.len() > 0,
        word.len() > 0,
        forall|i: int| 0 <= i < first.len() ==> !Class::AsciiSpace.has(#[trigger] first[i]),
        forall|i: int| 0 <= i < word.len() ==> !Class::AsciiSpace.has(#[trigger] word[i]),
        rest.len() > 0 ==> Class::AsciiSpace.has(rest[0]),
    ensures
        installer::version_in_output(output) == match rust_version::rust_version(word) {
            Some(v) => Ok::<SemVer, Seq<Seq<char>>>(v),
            None => Err(seq![version::version_problem(text::trim(word, Class::Space))]),
        },
{
    let class = Class::AsciiSpace;
    let gap = seq![' '];
    let behind = gap + word + rest;
    strings::law_words_stand_between_gaps(Seq::empty(), first, behind, class);
    assert(Seq::<char>::empty() + first + behind =~= first + seq![' '] + word + rest);
    strings::law_words_stand_between_gaps(gap, word, rest, class);
    let words = text::words(first + seq![' '] + word + rest, class);
    assert(words =~= seq![first] + (seq![word] + text::words(rest, class)));
    assert(words[1] == word);
}

/// The search starts with the directory of the toolchains, which is made and locked before what
/// is in it is listed. Where it cannot be listed the system is searched.
pub proof fn law_toolchains_are_listed_under_a_lock(
    root: PathView,
    binary_name: Seq<char>,
    request: RustRequestView,
    allows_download: bool,
    phase: InstallPhaseView,
    outcome: OutcomeView,
    next: InstallNext,
)
    requires
        installer::install_next(
            root,
            binary_name,
            request,
            allows_download,
            phase,
            outcome,
            next,
        ),
    ensures
        phase is Start && outcome is Begin ==> next == (
            InstallPhaseView::MakeRoot,
            StepView::<RustResultView>::Do(ActionView::CreateDirAll(root)),
        ),
        phase is MakeRoot && outcome is Done ==> next == (
            InstallPhaseView::Lock,
            StepView::<RustResultView>::Do(ActionView::Lock(root.child(".lock"@), "rust"@)),
        ),
        phase is Lock && outcome is Done ==> next == (
            InstallPhaseView::List,
            StepView::<RustResultView>::Do(ActionView::ListDir(root)),
        ),
        phase is List && outcome is Failed ==> next == (
            InstallPhaseView::FindSystem,
            StepView::<RustResultView>::Do(ActionView::FindAll(binary_name)),
        ),
        next.0 is List ==> phase is Lock && outcome is Done,
        next.0 is Lock ==> phase is MakeRoot && outcome is Done,
        outcome matches OutcomeView::Failed(cause) ==> (phase is Start || phase is MakeRoot
            || phase is Lock || phase is AskCached || phase is ListTags || phase is AskInstalled
            ==> next == (InstallPhaseView::Over, StepView::<RustResultView>::Fail(cause))),
{
}

/// Whether these are the steps of a search from its start. The outcome at `i` is what led to
/// the step at `i`.
pub open spec fn is_run(
    root: PathView,
    binary_name: Seq<char>,
    request: RustRequestView,
    allows_download: bool,
    steps: Seq<InstallNext>,
    outcomes: Seq<OutcomeView>,
) -> bool {
    &&& steps.len() > 0
    &&& steps.len() == outcomes.len()
    &&& outcomes[0] == OutcomeView::Begin
    &&& installer::install_next(
        root,
        binary_name,
        request,
        allows_download,
        InstallPhaseView::Start,
        OutcomeView::Begin,
        steps[0],
    )
    &&& forall|i: int|
        0 < i < steps.len() ==> steps[i - 1].1 is Do && installer::install_next(
            root,
            binary_name,
            request,
            allows_download,
            steps[i - 1].0,
            outcomes[i],
            #[trigger] steps[i],
        )
}

/// Whether a compiler is that of an entry, listed by the outcome at `k`, that can be given to
/// the request.
pub open spec fn is_listed_at(
    request: RustRequestView,
    outcomes: Seq<OutcomeView>,
    path: PathView,
    k: int,
    e: int,
    version: SemVer,
) -> bool {
    outcomes[k] matches OutcomeView::Entries(entries) && 0 <= e < entries.len()
        && is_installed_for(request, entries[e], version) && path == entries[e].path.child(
        "bin"@,
    ).program("rustc"@)
}

/// Whether a compiler is that of an installed toolchain that was listed, up to the outcome at
/// `i`, and can be given to the request.
pub open spec fn is_listed(
    request: RustRequestView,
    outcomes: Seq<OutcomeView>,
    i: int,
    path: PathView,
) -> bool {
    exists|k: int, e: int, version: SemVer|
        0 <= k <= i && #[trigger] is_listed_at(request, outcomes, path, k, e, version)
}

/// Whether the toolchain of a name was installed by a step up to `i`.
pub open spec fn is_installed(
    root: PathView,
    name: Seq<char>,
    steps: Seq<InstallNext>,
    i: int,
) -> bool {
    exists|k: int| 0 <= k <= i && installs_toolchain((#[trigger] steps[k]).1, root, name)
}

/// What holds of the step at `i` of a search for a toolchain with a name.
spec fn run_goes_well(
    root: PathView,
    request: RustRequestView,
    name: Seq<char>,
    steps: Seq<InstallNext>,
    outcomes: Seq<OutcomeView>,
    i: int,
) -> bool {
    &&& installs_only(steps[i].0, name)
    &&& match steps[i].0 {
        InstallPhaseView::Install(_, inner) => inner is InstallToolchain ==> is_installed(
            root,
            name,
            steps,
            i,
        ),
        InstallPhaseView::AskInstalled(_) => is_installed(root, name, steps, i),
        InstallPhaseView::AskCached(rust) => !rust.from_system && is_listed(
            request,
            outcomes,
            i,
            rust.path,
        ),
        _ => true,
    }
    &&& (steps[i].1 matches StepView::Done(rust) ==> {
        &&& outcomes[i] matches OutcomeView::Output(output) && installer::version_in_output(output)
            == Ok::<SemVer, Seq<Seq<char>>>(rust.version)
        &&& if rust.from_system {
            rust_version::rust_matches(request, rust.version, Some(rust.path))
        } else {
            ||| is_listed(request, outcomes, i, rust.path)
            ||| rust.path == root.child(name).child("bin"@).program("rustc"@) && is_installed(
                root,
                name,
                steps,
                i,
            )
        }
    })
}

/// What was listed or installed stays so.
proof fn lemma_stays_listed(
    root: PathView,
    request: RustRequestView,
    name: Seq<char>,
    steps: Seq<InstallNext>,
    outcomes: Seq<OutcomeView>,
    i: int,
    path: PathView,
)
    ensures
        is_listed(request, outcomes, i - 1, path) ==> is_listed(request, outcomes, i, path),
        is_installed(root, name, steps, i - 1) ==> is_installed(root, name, steps, i),
{
    if is_listed(request, outcomes, i - 1, path) {
        let (k, e, v) = choose|k: int, e: int, v: SemVer|
            0 <= k <= i - 1 && #[trigger] is_listed_at(request, outcomes, path, k, e, v);
        assert(is_listed_at(request, outcomes, path, k, e, v));
    }
    if is_installed(root, name, steps, i - 1) {
        let k = choose|k: int|
            0 <= k <= i - 1 && installs_toolchain((#[trigger] steps[k]).1, root, name);
        assert(installs_toolchain(steps[k].1, root, name));
    }
}

/// Every step of a search for a toolchain with a name goes well.
proof fn lemma_run_goes_well(
    root: PathView,
    binary_name: Seq<char>,
    request: RustRequestView,
    allows_download: bool,
    name: Seq<char>,
    steps: Seq<InstallNext>,
    outcomes: Seq<OutcomeView>,
    i: int,
)
    requires
        is_run(root, binary_name, request, allows_download, steps, outcomes),
        stands_for(request, name),
        0 <= i < steps.len(),
    ensures
        run_goes_well(root, request, name, steps, outcomes, i),
    decreases i,
{
    if i > 0 {
        lemma_run_goes_well(
            root,
            binary_name,
            request,
            allows_download,
            name,
            steps,
            outcomes,
            i - 1,
        );
        let phase = steps[i - 1].0;
        let outcome = outcomes[i];
        let next = steps[i];
        assert(installer::install_next(
            root,
            binary_name,
            request,
            allows_download,
            phase,
            outcome,
            next,
        ));
        law_requested_toolchain_is_installed(
            root,
            binary_name,
            request,
            allows_download,
            name,
            phase,
            outcome,
            next,
        );
        if let InstallPhaseView::Install(_, inner) = next.0 {
            if inner is InstallToolchain {
                assert(installs_toolchain(steps[i].1, root, name));
            }
        }
        let path = match phase {
            InstallPhaseView::AskCached(rust) => rust.path,
            _ => root,
        };
        lemma_stays_listed(root, request, name, steps, outcomes, i, path);
        if let (InstallPhaseView::List, OutcomeView::Entries(entries)) = (phase, outcome) {
            law_newest_installed_toolchain_is_taken(
                root,
                binary_name,
                request,
                allows_download,
                entries,
                next,
            );
            if let InstallPhaseView::AskCached(rust) = next.0 {
                let (e, v) = choose|e: int, v: SemVer|
                    {
                        &&& 0 <= e < entries.len()
                        &&& #[trigger] is_installed_for(request, entries[e], v)
                        &&& asks_installed(entries[e], next)
                        &&& request is Channel || forall|j: int, w: SemVer|
                            0 <= j < entries.len() && #[trigger] is_installed_for(
                                request,
                                entries[j],
                                w,
                            ) ==> !version::is_newer(w, v)
                    };
                assert(is_listed_at(request, outcomes, rust.path, i, e, v));
            }
        }
    }
}

/// Whatever comes of the steps, a request for a channel never ends with another compiler than
/// that of an installed toolchain of this name, or of the directory of this name into which
/// rustup was told to install it. The same holds of any version, for which the stable channel is
/// installed, unless a compiler of the system answers it, and of a path. The version is the one
/// that the compiler told at the end.
pub proof fn law_compiler_is_that_of_the_request(
    root: PathView,
    binary_name: Seq<char>,
    request: RustRequestView,
    allows_download: bool,
    name: Seq<char>,
    steps: Seq<InstallNext>,
    outcomes: Seq<OutcomeView>,
    rust: RustResultView,
)
    requires
        is_run(root, binary_name, request, allows_download, steps, outcomes),
        stands_for(request, name),
        steps.last().1 == StepView::Done(rust),
    ensures
        forall|i: int|
            0 <= i < steps.len() ==> (#[trigger] steps[i].0 matches InstallPhaseView::Install(
                installed,
                _,
            ) ==> installed == name),
        outcomes.last() matches OutcomeView::Output(output) && installer::version_in_output(output)
            == Ok::<SemVer, Seq<Seq<char>>>(rust.version),
        request is Channel ==> !rust.from_system,
        !rust.from_system ==> is_listed(request, outcomes, steps.len() - 1, rust.path) || (rust.path
            == root.child(name).child("bin"@).program("rustc"@) && is_installed(
            root,
            name,
            steps,
            steps.len() - 1,
        )),
        rust.from_system ==> rust_version::rust_matches(request, rust.version, Some(rust.path)),
{
    assert forall|i: int| 0 <= i < steps.len() implies (
    #[trigger] steps[i].0 matches InstallPhaseView::Install(installed, _) ==> installed == name) by {
        lemma_run_goes_well(
            root,
            binary_name,
            request,
            allows_download,
            name,
            steps,
            outcomes,
            i,
        );
    }
    lemma_run_goes_well(
        root,
        binary_name,
        request,
        allows_download,
        name,
        steps,
        outcomes,
        steps.len() - 1,
    );
}

/// The installation of a toolchain keeps its name and its directory from step to step, and ends
/// with the compiler of that directory and the version that it told. An installed compiler that
/// is asked stays the same too.
pub proof fn law_installation_keeps_its_name(
    root: PathView,
    binary_name: Seq<char>,
    request: RustRequestView,
    allows_download: bool,
    name: Seq<char>,
    inner: ToolchainPhaseView,
    rust: RustResultView,
    outcome: OutcomeView,
    output: Seq<u8>,
    next: InstallNext,
)
    ensures
        installer::install_next(
            root,
            binary_name,
            request,
            allows_download,
            InstallPhaseView::Install(name, inner),
            outcome,
            next,
        ) ==> {
            &&& next.1 is Fail || installs_only(next.0, name) && (next.0 is Install || next.0
                is AskInstalled)
            &&& (next.0 matches InstallPhaseView::Install(_, step) ==> (step is InstallToolchain
                ==> installs_toolchain(next.1, root, name)))
            &&& next.0 is AskInstalled <==> inner is InstallToolchain && outcome is Output
            &&& next.0 is AskInstalled ==> asks_toolchain(
                next.1,
                root.child(name).child("bin"@).program("rustc"@),
                name,
                root.child(name),
            )
        },
        installer::install_next(
            root,
            binary_name,
            request,
            allows_download,
            InstallPhaseView::AskInstalled(name),
            OutcomeView::Output(output),
            next,
        ) ==> (next.0 is Over && match installer::version_in_output(output) {
            Ok(version) => next.1 == StepView::Done(
                RustResultView {
                    path: root.child(name).child("bin"@).program("rustc"@),
                    version,
                    from_system: false,
                },
            ),
            Err(messages) => next.1 == StepView::<RustResultView>::Fail(messages),
        }),
        installer::install_next(
            root,
            binary_name,
            request,
            allows_download,
            InstallPhaseView::AskCached(rust),
            OutcomeView::Output(output),
            next,
        ) ==> (next.0 is Over && match installer::version_in_output(output) {
            Ok(version) => next.1 == StepView::Done(RustResultView { version, ..rust }),
            Err(messages) => next.1 == StepView::<RustResultView>::Fail(messages),
        }),
{
}

/// On Unix the toolchain that an installed compiler is asked under is the directory that was
/// listed: its name is that of the directory, and the home of rustup lies in it.
pub proof fn law_installed_compiler_is_asked_under_its_directory(dir: PathView, name: Seq<u8>)
    requires
        dir.platform is Unix,
        dir.file_name() == Some(name),
        vstd::utf8::valid_utf8(name),
    ensures
        installer::toolchain_of(dir.child("bin"@).program("rustc"@)) matches Some((found, at))
            && found == vstd::utf8::decode_utf8(name) && at.comps() == dir.comps() && at.same(dir),
{
    reveal_strlit("bin");
    reveal_strlit("rustc");
    reveal_strlit("");
    assert("rustc"@ + ""@ =~= "rustc"@);
    lemma_plain_ascii("bin"@);
    lemma_plain_ascii("rustc"@);
    let bin = dir.child("bin"@);
    let compiler = bin.child("rustc"@);
    ways::law_name_lies_in_its_directory(dir, vstd::utf8::encode_utf8("bin"@));
    ways::law_name_lies_in_its_directory(bin, vstd::utf8::encode_utf8("rustc"@));
    let above = compiler.parent()->0;
    assert(above.comps() == bin.comps());
    ways::law_paths_are_compared_by_components(above, bin);
    assert(above.comps().last() == Comp::Normal(vstd::utf8::encode_utf8("bin"@)));
    let at = above.parent()->0;
    assert(at.comps() =~= dir.comps());
    ways::law_paths_are_compared_by_components(at, dir);
}

/// A word of ASCII without slashes and dots is a plain name.
proof fn lemma_plain_ascii(name: Seq<char>)
    requires
        name.len() > 0,
        forall|i: int| 0 <= i < name.len() ==> 'a' <= #[trigger] name[i] <= 'z',
    ensures
        laws::plain_name(vstd::utf8::encode_utf8(name)),
{
    let bytes = vstd::utf8::encode_utf8(name);
    vstd::utf8::is_ascii_chars_encode_utf8(name);
    assert(bytes.len() == name.len());
    assert forall|i: int| 0 <= i < bytes.len() implies 97 <= #[trigger] bytes[i] <= 122 by {
        assert(bytes[i] == name[i] as u8);
    }
    assert(bytes[0] >= 97);
    assert(seq![46u8][0] == 46);
    assert(seq![46u8, 46u8][0] == 46);
}

/// Why the version of a compiler cannot be read: what it wrote is no text, or there is no second
/// word in it.
pub proof fn law_version_needs_a_second_word(output: Seq<u8>, word: Seq<char>)
    requires
        forall|i: int| 0 <= i < word.len() ==> !Class::AsciiSpace.has(#[trigger] word[i]),
    ensures
        !vstd::utf8::valid_utf8(output) ==> installer::version_in_output(output) == Err::<
            SemVer,
            Seq<Seq<char>>,
        >(seq![ops::utf8_problem(output)]),
        vstd::utf8::valid_utf8(output) && vstd::utf8::decode_utf8(output) == word
            ==> installer::version_in_output(output) == Err::<SemVer, Seq<Seq<char>>>(
            seq!["Failed to parse Rust version from output: "@ + word],
        ),
{
    let class = Class::AsciiSpace;
    let nothing = Seq::<char>::empty();
    if word.len() > 0 {
        strings::law_words_stand_between_gaps(nothing, word, nothing, class);
        assert(nothing + word + nothing =~= word);
        assert(text::words(nothing, class) =~= Seq::<Seq<char>>::empty());
    }
}

} // verus!
