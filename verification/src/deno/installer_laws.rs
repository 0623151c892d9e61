//! What holds of the search for a Deno, and of its download, as a whole.

use vstd::prelude::*;

use crate::action;
use crate::action::{ActionView, EntryView, OutcomeView, StepView, WordView};
use crate::deno::installer;
use crate::deno::installer::{DenoOrderView, DenoResultView, InstallNext, InstallPhaseView};
use crate::deno::version as deno_version;
use crate::deno::version::DenoRequestView;
use crate::path::model::PathView;
use crate::path::ops;
use crate::platform::{Architecture, OperatingSystem};
use crate::strings;
use crate::text;
use crate::text::Class;
use crate::version;
use crate::version::SemVer;

verus! {

/// Whether a directory of the installed Denos can be given to a request: it is named by a
/// version that answers it.
pub open spec fn is_installed_for(
    request: DenoRequestView,
    entry: EntryView,
    version: SemVer,
) -> bool {
    &&& entry.kind is Dir
    &&& deno_version::deno_version(ops::lossy_text(entry.name.bytes)) == Some(version)
    &&& deno_version::deno_matches(request, version, Some(entry.path))
}

/// Where an installed Deno answers the request, one that does is taken, of which none is newer.
/// The system is searched only where there is none.
pub proof fn law_newest_installed_deno_is_taken(
    root: PathView,
    order: DenoOrderView,
    entries: Seq<EntryView>,
    next: InstallNext,
)
    requires
        installer::install_next(
            root,
            order,
            InstallPhaseView::List,
            OutcomeView::Entries(entries),
            next,
        ),
    ensures
        ({
            let some = exists|i: int, v: SemVer|
                0 <= i < entries.len() && #[trigger] is_installed_for(
                    order.request,
                    entries[i],
                    v,
                );
            &&& some ==> exists|i: int, v: SemVer|
                {
                    &&& 0 <= i < entries.len()
                    &&& #[trigger] is_installed_for(order.request, entries[i], v)
                    &&& forall|j: int, w: SemVer|
                        0 <= j < entries.len() && #[trigger] is_installed_for(
                            order.request,
                            entries[j],
                            w,
                        ) ==> !version::is_newer(w, v)
                    &&& next == (
                        InstallPhaseView::Over,
                        StepView::Done(
                            DenoResultView {
                                deno: installer::deno_in(entries[i].path),
                                version: v,
                            },
                        ),
                    )
                }
            &&& !some ==> next == (
                InstallPhaseView::FindSystem,
                StepView::<DenoResultView>::Do(ActionView::FindAll(order.binary_name)),
            )
        }),
{
    let found = choose|found: Option<DenoResultView>| #[trigger]
        installer::is_installed_choice(order.request, entries, found) && next == match found {
            Some(deno) => (InstallPhaseView::Over, StepView::Done(deno)),
            None => installer::find_system(order),
        };
    let candidates = installer::installed_versions(order.request, entries);
    let choice = choose|choice: Option<int>| #[trigger]
        version::is_newest_of(candidates, choice) && found == match choice {
            Some(i) => Some(
                DenoResultView {
                    deno: installer::deno_in(entries[i].path),
                    version: candidates[i]->0,
                },
            ),
            None => None,
        };
    match choice {
        Some(i) => {
            let v = candidates[i]->0;
            assert(is_installed_for(order.request, entries[i], v));
            assert forall|j: int, w: SemVer|
                0 <= j < entries.len() && #[trigger] is_installed_for(
                    order.request,
                    entries[j],
                    w,
                ) implies !version::is_newer(w, v) by {
                assert(candidates[j] == Some(w));
            }
        },
        None => {
            assert forall|i: int, v: SemVer|
                0 <= i < entries.len() && #[trigger] is_installed_for(
                    order.request,
                    entries[i],
                    v,
                ) implies false by {
                assert(candidates[i] is None);
            }
        },
    }
}

/// What is done where no Deno answers a request: nothing where downloads are off, and else the
/// first page of the releases is listed.
pub open spec fn looks_elsewhere(order: DenoOrderView, next: InstallNext) -> bool {
    next == if order.allows_download {
        (
            InstallPhaseView::FetchTags(1, Seq::empty()),
            StepView::<DenoResultView>::Do(
                ActionView::FetchTags(
                    "https://api.github.com/repos/denoland/deno/releases?per_page=100"@,
                ),
            ),
        )
    } else {
        (
            InstallPhaseView::Over,
            StepView::<DenoResultView>::Fail(
                seq!["No suitable system Deno version found and downloads are disabled"@],
            ),
        )
    }
}

/// Where there is no Deno on the system, or none can be found, one is looked for elsewhere.
pub proof fn law_without_a_deno_one_is_looked_for_elsewhere(
    root: PathView,
    order: DenoOrderView,
    outcome: OutcomeView,
    next: InstallNext,
)
    requires
        installer::install_next(root, order, InstallPhaseView::FindSystem, outcome, next),
        outcome is Failed || (outcome matches OutcomeView::Paths(paths) && paths.len() == 0),
    ensures
        looks_elsewhere(order, next),
{
}

/// Whether a Deno of the system answers a request, by what came of asking it.
pub open spec fn answers(
    request: DenoRequestView,
    path: PathView,
    outcome: OutcomeView,
    version: SemVer,
) -> bool {
    outcome matches OutcomeView::Output(output) && installer::version_in_output(output) == Ok::<
        SemVer,
        Seq<Seq<char>>,
    >(version) && deno_version::deno_matches(request, version, Some(path))
}

/// Whether these are the steps while the Denos of the system are asked. The outcome at `i` is
/// what came of the step at `i`.
pub open spec fn is_asking(
    root: PathView,
    order: DenoOrderView,
    paths: Seq<PathView>,
    outcomes: Seq<OutcomeView>,
    steps: Seq<InstallNext>,
) -> bool {
    &&& steps.len() == outcomes.len() + 1
    &&& installer::install_next(
        root,
        order,
        InstallPhaseView::FindSystem,
        OutcomeView::Paths(paths),
        steps[0],
    )
    &&& forall|i: int|
        0 <= i < outcomes.len() ==> installer::install_next(
            root,
            order,
            #[trigger] steps[i].0,
            outcomes[i],
            steps[i + 1],
        )
}

/// While no Deno answers, the next one is asked.
proof fn lemma_denos_so_far(
    root: PathView,
    order: DenoOrderView,
    paths: Seq<PathView>,
    outcomes: Seq<OutcomeView>,
    steps: Seq<InstallNext>,
    k: int,
)
    requires
        is_asking(root, order, paths, outcomes, steps),
        0 <= k <= outcomes.len(),
        k <= paths.len(),
        forall|i: int|
            0 <= i < k ==> {
                &&& (#[trigger] outcomes[i]) is Output || outcomes[i] is Failed
                &&& forall|v: SemVer| !answers(order.request, paths[i], outcomes[i], v)
            },
    ensures
        steps[k] == installer::ask_system(order, paths.skip(k)),
    decreases k,
{
    if k == 0 {
        assert(paths.skip(0) =~= paths);
    } else {
        lemma_denos_so_far(root, order, paths, outcomes, steps, k - 1);
        let left = paths.skip(k - 1);
        assert(left[0] == paths[k - 1]);
        assert(left.drop_first() =~= paths.skip(k));
        assert(installer::install_next(
            root,
            order,
            steps[k - 1].0,
            outcomes[k - 1],
            steps[k - 1 + 1],
        ));
        if let OutcomeView::Output(output) = outcomes[k - 1] {
            if let Ok(v) = installer::version_in_output(output) {
                assert(!answers(order.request, paths[k - 1], outcomes[k - 1], v));
            }
        }
    }
}

/// The Denos of the system are asked one after the other, and the first that answers the request
/// is taken, with the version that it told. One that cannot be asked, or whose answer cannot be
/// read, is passed over. Where none answers, one is looked for elsewhere.
pub proof fn law_first_deno_that_answers_is_taken(
    root: PathView,
    order: DenoOrderView,
    paths: Seq<PathView>,
    outcomes: Seq<OutcomeView>,
    steps: Seq<InstallNext>,
    k: int,
    version: SemVer,
)
    requires
        is_asking(root, order, paths, outcomes, steps),
        0 <= k <= outcomes.len(),
        k <= paths.len(),
        forall|i: int|
            0 <= i < k ==> {
                &&& (#[trigger] outcomes[i]) is Output || outcomes[i] is Failed
                &&& forall|v: SemVer| !answers(order.request, paths[i], outcomes[i], v)
            },
    ensures
        k < paths.len() ==> (steps[k].1 matches StepView::Do(ActionView::Run(command)) && {
            &&& command.program == WordView::Path(paths[k])
            &&& command.args =~= seq![WordView::Text("--version"@)]
            &&& command.env.len() == 0
            &&& command.summary == "deno --version"@
            &&& command.current_dir is None
            &&& command.check
            &&& !command.remove_git_env
            &&& !command.null_stdin
        }),
        k < paths.len() && k < outcomes.len() && answers(
            order.request,
            paths[k],
            outcomes[k],
            version,
        ) ==> steps[k + 1] == (
            InstallPhaseView::Over,
            StepView::Done(DenoResultView { deno: paths[k], version }),
        ),
        k == paths.len() ==> looks_elsewhere(order, steps[k]),
{
    lemma_denos_so_far(root, order, paths, outcomes, steps, k);
    if k < paths.len() {
        assert(paths.skip(k)[0] == paths[k]);
        if k < outcomes.len() {
            assert(installer::install_next(
                root,
                order,
                steps[k].0,
                outcomes[k],
                steps[k + 1],
            ));
        }
    }
}

/// The versions of the tags keep their order and none is left out; a tag that is no version
/// counts for nothing.
pub proof fn law_versions_of_all_tags_are_known(
    first: Seq<Seq<char>>,
    second: Seq<Seq<char>>,
    tag: Seq<char>,
)
    ensures
        installer::tag_versions(first + second) == installer::tag_versions(first)
            + installer::tag_versions(second),
        installer::tag_versions(seq![tag]) == match deno_version::deno_version(tag) {
            Some(v) => seq![v],
            None => Seq::<SemVer>::empty(),
        },
    decreases second.len(),
{
    if second.len() == 0 {
        assert(first + second =~= first);
        assert(installer::tag_versions(first) + installer::tag_versions(second)
            =~= installer::tag_versions(first));
    } else {
        let front = second.drop_last();
        law_versions_of_all_tags_are_known(first, front, tag);
        assert((first + second).drop_last() =~= first + front);
        assert((first + second).last() == second.last());
        assert(installer::tag_versions(first + second) =~= installer::tag_versions(first)
            + installer::tag_versions(second));
    }
    let one = seq![tag];
    assert(one.drop_last() =~= Seq::<Seq<char>>::empty());
    assert(one.last() == tag);
    assert(installer::tag_versions(one.drop_last()) =~= Seq::<SemVer>::empty());
    if let Some(v) = deno_version::deno_version(tag) {
        assert(Seq::<SemVer>::empty().push(v) =~= seq![v]);
    }
}

/// No version answers where none is found, wherever it stands.
proof fn lemma_none_matches(request: DenoRequestView, versions: Seq<SemVer>)
    ensures
        installer::first_matching(request, versions) is None ==> forall|i: int|
            0 <= i < versions.len() ==> !deno_version::deno_matches(
                request,
                #[trigger] versions[i],
                None,
            ),
    decreases versions.len(),
{
    if versions.len() > 0 {
        let rest = versions.drop_first();
        lemma_none_matches(request, rest);
        if installer::first_matching(request, versions) is None {
            assert forall|i: int| 0 <= i < versions.len() implies !deno_version::deno_matches(
                request,
                #[trigger] versions[i],
                None,
            ) by {
                if i > 0 {
                    assert(versions[i] == rest[i - 1]);
                }
            }
        }
    }
}

/// It is said that a version is not to be had only where none of the tags names one that
/// answers the request, and that there are none at all only where no tag names a version.
pub proof fn law_no_version_is_missed(
    request: DenoRequestView,
    tags: Seq<Seq<char>>,
    messages: Seq<Seq<char>>,
)
    requires
        installer::is_remote_choice(request, tags, Err(messages)),
    ensures
        forall|i: int|
            0 <= i < installer::tag_versions(tags).len() ==> !deno_version::deno_matches(
                request,
                #[trigger] installer::tag_versions(tags)[i],
                None,
            ),
        messages == if installer::tag_versions(tags).len() == 0 {
            seq!["Failed to list remote versions"@, "No Deno versions found on GitHub"@]
        } else {
            seq!["Version not found on remote"@]
        },
{
    let versions = installer::tag_versions(tags);
    if versions.len() > 0 {
        let sorted = choose|sorted: Seq<SemVer>| #[trigger]
            version::is_sorted_from(versions, sorted) && Err::<SemVer, Seq<Seq<char>>>(messages)
                == match installer::first_matching(request, sorted) {
                Some(v) => Ok::<SemVer, Seq<Seq<char>>>(v),
                None => Err(seq!["Version not found on remote"@]),
            };
        lemma_none_matches(request, sorted);
        let order = choose|order: Seq<usize>|
            {
                &&& #[trigger] version::is_newest_first(versions, order)
                &&& sorted == order.map_values(|i: usize| versions[i as int])
            };
        assert forall|i: int| 0 <= i < versions.len() implies !deno_version::deno_matches(
            request,
            #[trigger] versions[i],
            None,
        ) by {
            let v = versions[i];
            let m = choose|m: int| 0 <= m < order.len() && #[trigger] order[m] == i;
            assert(sorted[m] == versions[order[m] as int]);
        }
    }
}

/// The name of a machine in the files of the releases.
pub open spec fn machine(architecture: Architecture, os: OperatingSystem) -> Seq<char> {
    (if architecture is X86_64 {
        "x86_64"@
    } else {
        "aarch64"@
    }) + (match os {
        OperatingSystem::Darwin => "-apple-darwin"@,
        OperatingSystem::Linux => "-unknown-linux-gnu"@,
        _ => "-pc-windows-msvc"@,
    })
}

/// Where the release of a version is: in the directory of its tag, in the file of the machine.
/// For other machines there is none.
pub proof fn law_release_fits_version_and_machine(
    version: SemVer,
    architecture: Architecture,
    os: OperatingSystem,
)
    ensures
        match installer::release(version, architecture, os) {
            Ok((url, file)) => {
                &&& !(architecture is Other) && !(os is Other)
                &&& file == "deno-"@ + machine(architecture, os) + ".zip"@
                &&& url == "https://github.com/denoland/deno/releases/download/v"@
                    + version.text() + "/"@ + file
            },
            Err(messages) => messages == if architecture is Other {
                seq!["Unsupported architecture for Deno"@]
            } else {
                seq!["Unsupported OS for Deno"@]
            } && (architecture is Other || os is Other),
        },
{
    reveal_strlit("-");
    reveal_strlit("-apple-darwin");
    reveal_strlit("apple-darwin");
    reveal_strlit("-unknown-linux-gnu");
    reveal_strlit("unknown-linux-gnu");
    reveal_strlit("-pc-windows-msvc");
    reveal_strlit("pc-windows-msvc");
    assert("-"@ + "apple-darwin"@ =~= "-apple-darwin"@);
    assert("-"@ + "unknown-linux-gnu"@ =~= "-unknown-linux-gnu"@);
    assert("-"@ + "pc-windows-msvc"@ =~= "-pc-windows-msvc"@);
    if let Ok((url, file)) = installer::release(version, architecture, os) {
        assert(file =~= "deno-"@ + machine(architecture, os) + ".zip"@);
    }
}

/// What follows when all the tags are known: the release of the version that is chosen is
/// downloaded, or the installation ends with why there is none.
pub proof fn law_chosen_release_is_downloaded(
    order: DenoOrderView,
    tags: Seq<Seq<char>>,
    next: InstallNext,
)
    requires
        installer::after_tags(order, tags, next),
    ensures
        next.1 matches StepView::Do(action) ==> {
            &&& next.0 matches InstallPhaseView::Download(version)
                && installer::tag_versions(tags).contains(version) && deno_version::deno_matches(
                order.request,
                version,
                None,
            ) && (forall|i: int|
                0 <= i < installer::tag_versions(tags).len() && deno_version::deno_matches(
                    order.request,
                    #[trigger] installer::tag_versions(tags)[i],
                    None,
                ) ==> !version::is_newer(installer::tag_versions(tags)[i], version)) && action
                == ActionView::DownloadAndExtract(
                "https://github.com/denoland/deno/releases/download/v"@ + version.text() + "/"@
                    + ("deno-"@ + machine(order.architecture, order.os) + ".zip"@),
                "deno-"@ + machine(order.architecture, order.os) + ".zip"@,
            )
        },
        next.1 is Fail ==> order.architecture is Other || order.os is Other || forall|i: int|
            0 <= i < installer::tag_versions(tags).len() ==> !deno_version::deno_matches(
                order.request,
                #[trigger] installer::tag_versions(tags)[i],
                None,
            ),
        !(next.1 is Done),
{
    let choice = choose|choice: Result<SemVer, Seq<Seq<char>>>| #[trigger]
        installer::is_remote_choice(order.request, tags, choice) && next == match choice {
            Ok(version) => installer::download(order, version),
            Err(messages) => installer::install_failure(messages),
        };
    match choice {
        Ok(version) => {
            installer::law_latest_matching_release_is_chosen(order.request, tags, version);
            law_release_fits_version_and_machine(version, order.architecture, order.os);
        },
        Err(messages) => {
            law_no_version_is_missed(order.request, tags, messages);
        },
    }
}

/// Whether the directory of the executable file of a version is made now.
pub open spec fn makes_bin(
    root: PathView,
    version: SemVer,
    binary: PathView,
    next: InstallNext,
) -> bool {
    next == (
        InstallPhaseView::MakeBin(version, binary),
        StepView::<DenoResultView>::Do(
            ActionView::CreateDirAll(installer::bin_of(root.child(version.text()))),
        ),
    )
}

/// Whether the installation of a version ends well: with the Deno in the directory that is
/// named by it.
pub open spec fn ends_with(root: PathView, version: SemVer, next: InstallNext) -> bool {
    next == (
        InstallPhaseView::Over,
        StepView::Done(
            DenoResultView { deno: installer::deno_in(root.child(version.text())), version },
        ),
    )
}

/// What was downloaded is put where the version belongs. It is the file itself, or the Deno in
/// what was unpacked. A directory that was there before is removed. The file is copied to its
/// place, made executable where files need that, and the installation ends with it.
pub proof fn law_download_is_put_in_its_place(
    root: PathView,
    order: DenoOrderView,
    version: SemVer,
    extracted: PathView,
    binary: PathView,
    next: InstallNext,
)
    ensures
        installer::install_next(
            root,
            order,
            InstallPhaseView::Download(version),
            OutcomeView::Path(extracted),
            next,
        ) ==> next == (
            InstallPhaseView::CheckExtracted(version, extracted),
            StepView::<DenoResultView>::Do(ActionView::IsFile(extracted)),
        ),
        installer::install_next(
            root,
            order,
            InstallPhaseView::CheckExtracted(version, extracted),
            OutcomeView::Answer(true),
            next,
        ) ==> next == (
            InstallPhaseView::CheckBinary(version, extracted),
            StepView::<DenoResultView>::Do(ActionView::Exists(extracted)),
        ),
        installer::install_next(
            root,
            order,
            InstallPhaseView::CheckExtracted(version, extracted),
            OutcomeView::Answer(false),
            next,
        ) ==> next == (
            InstallPhaseView::CheckBinary(version, extracted.program("deno"@)),
            StepView::<DenoResultView>::Do(ActionView::Exists(extracted.program("deno"@))),
        ),
        installer::install_next(
            root,
            order,
            InstallPhaseView::CheckBinary(version, binary),
            OutcomeView::Answer(true),
            next,
        ) ==> next == (
            InstallPhaseView::CheckTarget(version, binary),
            StepView::<DenoResultView>::Do(ActionView::Exists(root.child(version.text()))),
        ),
        installer::install_next(
            root,
            order,
            InstallPhaseView::CheckBinary(version, binary),
            OutcomeView::Answer(false),
            next,
        ) ==> next == (
            InstallPhaseView::Over,
            StepView::<DenoResultView>::Fail(
                seq![
                    "Failed to download and extract deno"@,
                    "Deno binary not found. Expected at "@ + action::shown(binary),
                ],
            ),
        ),
        installer::install_next(
            root,
            order,
            InstallPhaseView::CheckTarget(version, binary),
            OutcomeView::Answer(true),
            next,
        ) ==> next == (
            InstallPhaseView::RemoveTarget(version, binary),
            StepView::<DenoResultView>::Do(
                ActionView::RemoveDirAll(root.child(version.text())),
            ),
        ),
        installer::install_next(
            root,
            order,
            InstallPhaseView::CheckTarget(version, binary),
            OutcomeView::Answer(false),
            next,
        ) ==> makes_bin(root, version, binary, next),
        installer::install_next(
            root,
            order,
            InstallPhaseView::RemoveTarget(version, binary),
            OutcomeView::Done,
            next,
        ) ==> makes_bin(root, version, binary, next),
        installer::install_next(
            root,
            order,
            InstallPhaseView::MakeBin(version, binary),
            OutcomeView::Done,
            next,
        ) ==> next == (
            InstallPhaseView::CopyBinary(version),
            StepView::<DenoResultView>::Do(
                ActionView::Copy(binary, installer::deno_in(root.child(version.text()))),
            ),
        ),
        installer::install_next(
            root,
            order,
            InstallPhaseView::CopyBinary(version),
            OutcomeView::Done,
            next,
        ) ==> if root.platform is Unix {
            next == (
                InstallPhaseView::SetMode(version),
                StepView::<DenoResultView>::Do(
                    ActionView::SetMode(
                        installer::deno_in(root.child(version.text())),
                        0o755,
                    ),
                ),
            )
        } else {
            ends_with(root, version, next)
        },
        installer::install_next(
            root,
            order,
            InstallPhaseView::SetMode(version),
            OutcomeView::Done,
            next,
        ) ==> ends_with(root, version, next),
{
    let messages = seq!["Deno binary not found. Expected at "@ + action::shown(binary)];
    assert(seq!["Failed to download and extract deno"@] + messages =~= seq![
        "Failed to download and extract deno"@,
        "Deno binary not found. Expected at "@ + action::shown(binary),
    ]);
}

/// A download never ends well before its file was copied to its place and, on Unix, made
/// executable; and the version that it is about stays the same.
pub proof fn law_download_ends_with_the_copied_file(
    root: PathView,
    order: DenoOrderView,
    phase: InstallPhaseView,
    outcome: OutcomeView,
    next: InstallNext,
)
    requires
        installer::install_next(root, order, phase, outcome, next),
        installer::downloads(phase),
    ensures
        next.1 is Done ==> outcome is Done && (if root.platform is Unix {
            phase is SetMode
        } else {
            phase is CopyBinary || phase is SetMode
        }),
        next.0 is CopyBinary ==> phase is MakeBin && outcome is Done,
        next.0 is SetMode ==> phase is CopyBinary && outcome is Done,
        version_of(next.0) matches Some(version) ==> version_of(phase) == Some(version),
        next.1 matches StepView::Done(deno) ==> version_of(phase) == Some(deno.version),
        outcome matches OutcomeView::Failed(cause) ==> next == (
            InstallPhaseView::Over,
            StepView::<DenoResultView>::Fail(
                seq!["Failed to download and extract deno"@] + cause,
            ),
        ),
{
}

/// The version that a download is about.
pub open spec fn version_of(phase: InstallPhaseView) -> Option<SemVer> {
    match phase {
        InstallPhaseView::Download(version) => Some(version),
        InstallPhaseView::CheckExtracted(version, _) => Some(version),
        InstallPhaseView::CheckBinary(version, _) => Some(version),
        InstallPhaseView::CheckTarget(version, _) => Some(version),
        InstallPhaseView::RemoveTarget(version, _) => Some(version),
        InstallPhaseView::MakeBin(version, _) => Some(version),
        InstallPhaseView::CopyBinary(version) => Some(version),
        InstallPhaseView::SetMode(version) => Some(version),
        _ => None,
    }
}

/// The pages of the releases are asked for by their number, from the second on.
pub proof fn law_pages_are_asked_for_by_number(page: u64)
    ensures
        installer::page_url(1)
            == "https://api.github.com/repos/denoland/deno/releases?per_page=100"@,
        page > 1 ==> installer::page_url(page) == installer::page_url(1) + "&page="@
            + text::decimal(page as nat),
{
}

/// The search starts with the directory of the Denos, which is made and locked before what is
/// in it is listed. Where it cannot be listed the system is searched.
pub proof fn law_denos_are_listed_under_a_lock(
    root: PathView,
    order: DenoOrderView,
    phase: InstallPhaseView,
    outcome: OutcomeView,
    next: InstallNext,
)
    requires
        installer::install_next(root, order, phase, outcome, next),
    ensures
        phase is Start && outcome is Begin ==> next == (
            InstallPhaseView::MakeRoot,
            StepView::<DenoResultView>::Do(ActionView::CreateDirAll(root)),
        ),
        phase is MakeRoot && outcome is Done ==> next == (
            InstallPhaseView::Lock,
            StepView::<DenoResultView>::Do(ActionView::Lock(root.child(".lock"@), "deno"@)),
        ),
        phase is Lock && outcome is Done ==> next == (
            InstallPhaseView::List,
            StepView::<DenoResultView>::Do(ActionView::ListDir(root)),
        ),
        phase is List && outcome is Failed ==> next == (
            InstallPhaseView::FindSystem,
            StepView::<DenoResultView>::Do(ActionView::FindAll(order.binary_name)),
        ),
        next.0 is List ==> phase is Lock && outcome is Done,
        next.0 is Lock ==> phase is MakeRoot && outcome is Done,
        outcome matches OutcomeView::Failed(cause) ==> (phase is Start || phase is MakeRoot
            || phase is Lock ==> next == (
            InstallPhaseView::Over,
            StepView::<DenoResultView>::Fail(cause),
        )),
        outcome matches OutcomeView::Failed(cause) ==> (phase is FetchTags ==> next == (
            InstallPhaseView::Over,
            StepView::<DenoResultView>::Fail(
                seq!["Failed to list remote versions"@] + cause,
            ),
        )),
{
}

/// What a Deno writes when it is asked for its version has the version as its second word,
/// whatever comes behind it.
pub proof fn law_version_is_the_second_word(
    output: Seq<u8>,
    first: Seq<char>,
    word: Seq<char>,
    rest: Seq<char>,
)
    requires
        ops::lossy_text(output) == first + seq![' '] + word + rest,
        first.len() > 0,
        word.len() > 0,
        forall|i: int| 0 <= i < first.len() ==> !Class::Space.has(#[trigger] first[i]),
        forall|i: int| 0 <= i < word.len() ==> !Class::Space.has(#[trigger] word[i]),
        rest.len() > 0 ==> Class::Space.has(rest[0]),
    ensures
        match deno_version::deno_version(word) {
            Some(v) => installer::version_in_output(output) == Ok::<SemVer, Seq<Seq<char>>>(v),
            None => installer::version_in_output(output) is Err,
        },
{
    let class = Class::Space;
    let gap = seq![' '];
    let behind = gap + word + rest;
    strings::law_words_stand_between_gaps(Seq::empty(), first, behind, class);
    assert(Seq::<char>::empty() + first + behind =~= first + seq![' '] + word + rest);
    strings::law_words_stand_between_gaps(gap, word, rest, class);
    let words = text::words(first + seq![' '] + word + rest, class);
    assert(words =~= seq![first] + (seq![word] + text::words(rest, class)));
    assert(words[1] == word);
}

/// The version of a Deno cannot be read where there is no second word in what it wrote.
pub proof fn law_version_needs_a_second_word(output: Seq<u8>, word: Seq<char>)
    requires
        forall|i: int| 0 <= i < word.len() ==> !Class::Space.has(#[trigger] word[i]),
        ops::lossy_text(output) == word,
    ensures
        installer::version_in_output(output) == Err::<SemVer, Seq<Seq<char>>>(
            seq!["Failed to get Deno version"@],
        ),
{
    let class = Class::Space;
    let nothing = Seq::<char>::empty();
    if word.len() > 0 {
        strings::law_words_stand_between_gaps(nothing, word, nothing, class);
        assert(nothing + word + nothing =~= word);
        assert(text::words(nothing, class) =~= Seq::<Seq<char>>::empty());
    }
}

} // verus!
