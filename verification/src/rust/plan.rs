//! What cargo is told to install for a hook, and which files it leaves to copy.

use vstd::prelude::*;

use crate::action;
use crate::action::{
    Action, ActionView, Command, CommandView, Entry, EntryKind, EntryView, Failure, VariableView, Word,
    WordView,
};
use crate::path::buf::PathBuf;
use crate::path::model::PathView;
use crate::path::syntax::DOT;
use crate::platform::Platform;
use crate::rust::package;
use crate::strings;
use crate::text;

verus! {

/// The dependency on a command line tool: what stands behind `cli:`.
pub open spec fn cli_dependency(dep: Seq<char>) -> Option<Seq<char>> {
    if text::begins(dep, "cli:"@) {
        Some(dep.skip("cli:"@.len() as int))
    } else {
        None
    }
}

/// The dependencies on command line tools, in order.
pub open spec fn cli_dependencies(deps: Seq<Seq<char>>) -> Seq<Seq<char>>
    decreases deps.len(),
{
    if deps.len() == 0 {
        Seq::empty()
    } else {
        let before = cli_dependencies(deps.drop_last());
        match cli_dependency(deps.last()) {
            Some(tool) => before.push(tool),
            None => before,
        }
    }
}

/// The dependencies on libraries, in order: those that are not on command line tools.
pub open spec fn lib_dependencies(deps: Seq<Seq<char>>) -> Seq<Seq<char>>
    decreases deps.len(),
{
    if deps.len() == 0 {
        Seq::empty()
    } else {
        let before = lib_dependencies(deps.drop_last());
        match cli_dependency(deps.last()) {
            Some(_) => before,
            None => before.push(deps.last()),
        }
    }
}

/// Parts the dependencies on command line tools from those on libraries.
pub fn split_dependencies(deps: &Vec<String>) -> (r: (Vec<String>, Vec<String>))
    ensures
        text::texts(r.0@) == cli_dependencies(text::texts(deps@)),
        text::texts(r.1@) == lib_dependencies(text::texts(deps@)),
{
    let ghost all = text::texts(deps@);
    let mut tools: Vec<String> = Vec::new();
    let mut libs: Vec<String> = Vec::new();
    let mut i: usize = 0;
    proof {
        assert(all.take(0) =~= Seq::<Seq<char>>::empty());
        assert(text::texts(tools@) =~= Seq::<Seq<char>>::empty());
        assert(text::texts(libs@) =~= Seq::<Seq<char>>::empty());
    }
    while i < deps.len()
        invariant
            i <= deps@.len(),
            all == text::texts(deps@),
            text::texts(tools@) == cli_dependencies(all.take(i as int)),
            text::texts(libs@) == lib_dependencies(all.take(i as int)),
        decreases deps@.len() - i,
    {
        let ghost tools_before = tools@;
        let ghost libs_before = libs@;
        proof {
            assert(all[i as int] == deps@[i as int]@);
            assert(all.take(i + 1).drop_last() =~= all.take(i as int));
            assert(all.take(i + 1).last() == all[i as int]);
        }
        match strings::strip_prefix(deps[i].as_str(), "cli:") {
            Some(tool) => {
                tools.push(tool);
                proof {
                    assert(text::texts(tools@) =~= text::texts(tools_before).push(tool@));
                }
            },
            None => {
                libs.push(deps[i].clone());
                proof {
                    assert(text::texts(libs@) =~= text::texts(libs_before).push(all[i as int]));
                }
            },
        }
        i = i + 1;
    }
    proof {
        assert(all.take(i as int) =~= all);
    }
    (tools, libs)
}

/// Every dependency is on a library or on a command line tool, and none gets lost.
pub proof fn law_dependencies_are_parted(deps: Seq<Seq<char>>)
    ensures
        cli_dependencies(deps).len() + lib_dependencies(deps).len() == deps.len(),
        forall|i: int|
            0 <= i < deps.len() ==> match cli_dependency(#[trigger] deps[i]) {
                Some(tool) => cli_dependencies(deps).contains(tool),
                None => lib_dependencies(deps).contains(deps[i]),
            },
        forall|i: int|
            0 <= i < lib_dependencies(deps).len() ==> cli_dependency(
                #[trigger] lib_dependencies(deps)[i],
            ) is None,
    decreases deps.len(),
{
    if deps.len() > 0 {
        let front = deps.drop_last();
        law_dependencies_are_parted(front);
        let tools = cli_dependencies(deps);
        let libs = lib_dependencies(deps);
        let last = deps[deps.len() - 1];
        match cli_dependency(last) {
            Some(tool) => {
                assert(tools == cli_dependencies(front).push(tool));
                assert(tools[tools.len() - 1] == tool);
            },
            None => {
                assert(libs == lib_dependencies(front).push(last));
                assert(libs[libs.len() - 1] == last);
            },
        }
        assert forall|i: int| 0 <= i < deps.len() implies match cli_dependency(#[trigger] deps[i]) {
            Some(tool) => tools.contains(tool),
            None => libs.contains(deps[i]),
        } by {
            if i < front.len() {
                assert(front[i] == deps[i]);
                match cli_dependency(front[i]) {
                    Some(tool) => {
                        let k = choose|k: int|
                            0 <= k < cli_dependencies(front).len() && cli_dependencies(front)[k]
                                == tool;
                        assert(tools[k] == tool);
                    },
                    None => {
                        let k = choose|k: int|
                            0 <= k < lib_dependencies(front).len() && lib_dependencies(front)[k]
                                == front[i];
                        assert(libs[k] == front[i]);
                    },
                }
            }
        }
        assert forall|i: int| 0 <= i < libs.len() implies cli_dependency(#[trigger] libs[i]) is None by {
            if i < lib_dependencies(front).len() {
                assert(libs[i] == lib_dependencies(front)[i]);
            }
        }
    }
}

/// A cargo command with its home in the environment. It does not install toolchains and
/// does not see the variables of git.
pub open spec fn in_env(command: CommandView, env_path: PathView) -> CommandView {
    command.env("CARGO_HOME"@, WordView::Path(env_path)).env(
        "RUSTUP_AUTO_INSTALL"@,
        WordView::Text("0"@),
    ).without_git()
}

/// A cargo command.
pub open spec fn cargo(summary: Seq<char>) -> CommandView {
    CommandView::new(WordView::Text("cargo"@), summary)
}

/// The command that installs the binaries of a package.
pub open spec fn install_local(env_path: PathView, package_dir: PathView) -> CommandView {
    in_env(
        cargo("install local"@).text("install"@).text("--bins"@).text("--root"@).path(
            env_path,
        ).text("--path"@).text("."@).dir(package_dir),
        env_path,
    )
}

/// The directory of the copied manifest.
pub open spec fn manifest_dir(env_path: PathView) -> PathView {
    env_path.child("manifest"@)
}

/// The dependencies as cargo writes them.
pub open spec fn cargo_dependencies(deps: Seq<Seq<char>>) -> Seq<Seq<char>> {
    deps.map_values(|dep: Seq<char>| package::cargo_dependency(dep))
}

/// The command that adds dependencies to the copied manifest.
pub open spec fn add_dependencies(env_path: PathView, libs: Seq<Seq<char>>) -> CommandView {
    in_env(
        cargo("add dependencies"@).text("add"@).texts(cargo_dependencies(libs)).dir(
            manifest_dir(env_path),
        ),
        env_path,
    )
}

/// The command that builds the package with the copied manifest.
pub open spec fn build_with_deps(env_path: PathView, package_dir: PathView) -> CommandView {
    in_env(
        cargo("build local with deps"@).text("build"@).text("--bins"@).text("--release"@).text(
            "--manifest-path"@,
        ).path(manifest_dir(env_path).child("Cargo.toml"@)).text("--target-dir"@).path(
            env_path.child("target"@),
        ).dir(package_dir),
        env_path,
    )
}

/// The command that installs a command line tool.
pub open spec fn install_tool(env_path: PathView, tool: Seq<char>) -> CommandView {
    let (package, version) = package::dependency_parts(tool);
    let install = cargo("install cli dep"@).text("install"@).text("--bins"@).text("--root"@).path(
        env_path,
    ).text(package);
    in_env(
        if version.len() == 0 {
            install
        } else {
            install.text("--version"@).text(version)
        },
        env_path,
    )
}

/// The commands that install the command line tools.
pub open spec fn install_tools(env_path: PathView, tools: Seq<Seq<char>>) -> Seq<ActionView> {
    tools.map_values(|tool: Seq<char>| ActionView::Run(install_tool(env_path, tool)))
}

/// The actions that a list holds.
pub open spec fn action_views(actions: Seq<Action>) -> Seq<ActionView> {
    actions.map_values(|a: Action| a@)
}

/// A cargo command with its home in the environment.
fn set_env(command: Command, env_path: &PathBuf) -> (r: Command)
    ensures
        r@ == in_env(command@, env_path@),
{
    command.env("CARGO_HOME", Word::path(env_path)).env(
        "RUSTUP_AUTO_INSTALL",
        Word::text("0"),
    ).without_git()
}

/// The command that installs the binaries of a package.
pub fn install_local_command(env_path: &PathBuf, package_dir: &PathBuf) -> (r: Command)
    ensures
        r@ == install_local(env_path@, package_dir@),
{
    let command = Command::new(Word::text("cargo"), "install local").text("install").text(
        "--bins",
    ).text("--root").path(env_path).text("--path").text(".").dir(package_dir);
    set_env(command, env_path)
}

/// The command that adds dependencies to the copied manifest.
pub fn add_command(env_path: &PathBuf, libs: &Vec<String>) -> (r: Command)
    ensures
        r@ == add_dependencies(env_path@, text::texts(libs@)),
{
    let ghost all = cargo_dependencies(text::texts(libs@));
    let mut written: Vec<String> = Vec::new();
    let mut i: usize = 0;
    while i < libs.len()
        invariant
            i <= libs@.len(),
            all == cargo_dependencies(text::texts(libs@)),
            text::texts(written@) == all.take(i as int),
        decreases libs@.len() - i,
    {
        let one = package::format_cargo_dependency(libs[i].as_str());
        let ghost before = written@;
        written.push(one);
        proof {
            assert(text::texts(written@) =~= text::texts(before).push(one@));
            assert(all[i as int] == one@);
            assert(all.take(i + 1) =~= all.take(i as int).push(all[i as int]));
        }
        i = i + 1;
    }
    proof {
        assert(all.take(i as int) =~= all);
    }
    let command = Command::new(Word::text("cargo"), "add dependencies").text("add").texts(
        &written,
    ).dir(&env_path.join("manifest"));
    set_env(command, env_path)
}

/// The command that builds the package with the copied manifest.
pub fn build_command(env_path: &PathBuf, package_dir: &PathBuf) -> (r: Command)
    ensures
        r@ == build_with_deps(env_path@, package_dir@),
{
    let command = Command::new(Word::text("cargo"), "build local with deps").text("build").text(
        "--bins",
    ).text("--release").text("--manifest-path").path(
        &env_path.join("manifest").join("Cargo.toml"),
    ).text("--target-dir").path(&env_path.join("target")).dir(package_dir);
    set_env(command, env_path)
}

/// The command that installs a command line tool.
pub fn install_tool_command(env_path: &PathBuf, tool: &str) -> (r: Command)
    ensures
        r@ == install_tool(env_path@, tool@),
{
    let (package, version) = package::split_dependency(tool);
    let install = Command::new(Word::text("cargo"), "install cli dep").text("install").text(
        "--bins",
    ).text("--root").path(env_path).text(package.as_str());
    proof {
        reveal_strlit("");
        if version@.len() == 0 {
            assert(version@ =~= ""@);
        }
    }
    let command = if strings::same(version.as_str(), "") {
        install
    } else {
        install.text("--version").text(version.as_str())
    };
    set_env(command, env_path)
}

/// The commands that install the command line tools.
pub fn install_tool_actions(env_path: &PathBuf, tools: &Vec<String>) -> (r: Vec<Action>)
    ensures
        action_views(r@) == install_tools(env_path@, text::texts(tools@)),
{
    let ghost all = install_tools(env_path@, text::texts(tools@));
    let mut out: Vec<Action> = Vec::new();
    let mut i: usize = 0;
    while i < tools.len()
        invariant
            i <= tools@.len(),
            all == install_tools(env_path@, text::texts(tools@)),
            action_views(out@) == all.take(i as int),
        decreases tools@.len() - i,
    {
        let one = Action::Run(install_tool_command(env_path, tools[i].as_str()));
        let ghost before = out@;
        out.push(one);
        proof {
            assert(action_views(out@) =~= action_views(before).push(one@));
            assert(all[i as int] == one@);
            assert(all.take(i + 1) =~= all.take(i as int).push(all[i as int]));
        }
        i = i + 1;
    }
    proof {
        assert(all.take(i as int) =~= all);
    }
    out
}

/// Where the lock file of a package may be: at the root of the workspace first.
pub open spec fn lock_locations(repo: PathView, package_dir: PathView, is_workspace: bool) -> Seq<
    PathView,
> {
    if is_workspace {
        seq![repo.child("Cargo.lock"@), package_dir.child("Cargo.lock"@)]
    } else {
        seq![package_dir.child("Cargo.lock"@)]
    }
}

/// The position of the last dot in a name.
pub open spec fn last_dot(name: Seq<u8>) -> Option<int>
    decreases name.len(),
{
    if name.len() == 0 {
        None
    } else if name.last() == DOT {
        Some(name.len() - 1)
    } else {
        last_dot(name.drop_last())
    }
}

/// The extension of a file name: what stands behind its last dot, unless that is the
/// first character.
pub open spec fn extension(name: Seq<u8>) -> Option<Seq<u8>> {
    match last_dot(name) {
        Some(i) => if i > 0 {
            Some(name.skip(i + 1))
        } else {
            None
        },
        None => None,
    }
}

/// The last dot, found by looking at each byte from the end.
proof fn lemma_last_dot(name: Seq<u8>, i: int)
    requires
        0 <= i <= name.len(),
        forall|k: int| i <= k < name.len() ==> #[trigger] name[k] != DOT,
        i > 0 ==> name[i - 1] == DOT,
    ensures
        last_dot(name) == (if i > 0 {
            Some(i - 1)
        } else {
            None
        }),
    decreases name.len() - i,
{
    if i < name.len() {
        let front = name.drop_last();
        assert forall|k: int| i <= k < front.len() implies #[trigger] front[k] != DOT by {
            assert(front[k] == name[k]);
        }
        assert(name[name.len() - 1] != DOT);
        lemma_last_dot(front, i);
    }
}

/// The extension of a file name.
fn extension_of(name: &Vec<u8>) -> (r: Option<Vec<u8>>)
    ensures
        match r {
            Some(e) => extension(name@) == Some(e@),
            None => extension(name@) is None,
        },
{
    let mut i: usize = name.len();
    while i > 0 && name[i - 1] != DOT
        invariant
            i <= name@.len(),
            forall|k: int| i <= k < name@.len() ==> #[trigger] name@[k] != DOT,
        decreases i,
    {
        i = i - 1;
    }
    proof {
        lemma_last_dot(name@, i as int);
    }
    if i < 2 {
        return None;
    }
    proof {
        assert(name@.subrange(i as int, name@.len() as int) =~= name@.skip(i as int));
    }
    Some(crate::path::buf::copy_bytes(name, i, name.len()))
}

/// What becomes of a file that cargo built.
#[derive(Debug, Clone, Copy, PartialEq, Eq, Structural)]
pub enum Built {
    /// It is copied to the environment.
    Copy,
    /// It is no binary.
    Skip,
    /// It cannot be told.
    Unknown,
}

/// Whether a path has the extension.
pub open spec fn has_extension(path: PathView, wanted: Seq<char>) -> bool {
    path.file_name() matches Some(name) && extension(name) == Some(vstd::utf8::encode_utf8(wanted))
}

/// What becomes of a file that cargo built: dependency and metadata files are no binaries.
/// Of the others those that may be executed are, on Windows those that end in `.exe`.
pub open spec fn built_kind(platform: Platform, entry: EntryView) -> Built {
    if !(entry.kind is File) {
        if entry.kind is Unreadable {
            Built::Unknown
        } else {
            Built::Skip
        }
    } else if has_extension(entry.path, "d"@) || has_extension(entry.path, "rlib"@)
        || has_extension(entry.path, "rmeta"@) {
        Built::Skip
    } else {
        match platform {
            Platform::Unix => match entry.mode {
                Some(mode) => if mode & 0o111 != 0 {
                    Built::Copy
                } else {
                    Built::Skip
                },
                None => Built::Unknown,
            },
            Platform::Windows => if has_extension(entry.path, "exe"@) {
                Built::Copy
            } else {
                Built::Skip
            },
        }
    }
}

/// Tells whether a path has the extension.
fn ends_in(path: &PathBuf, wanted: &str) -> (r: bool)
    ensures
        r == has_extension(path@, wanted@),
{
    match path.file_name() {
        Some(name) => match extension_of(&name) {
            Some(found) => crate::path::buf::same_bytes(
                &found,
                &vstd::slice::slice_to_vec(wanted.as_bytes()),
            ),
            None => false,
        },
        None => false,
    }
}

/// Tells what becomes of a file that cargo built.
pub fn classify_built(platform: Platform, entry: &Entry) -> (r: Built)
    ensures
        r == built_kind(platform, entry@),
{
    match entry.kind {
        EntryKind::Unreadable => Built::Unknown,
        EntryKind::File => if ends_in(&entry.path, "d") || ends_in(&entry.path, "rlib") || ends_in(
            &entry.path,
            "rmeta",
        ) {
            Built::Skip
        } else {
            match platform {
                Platform::Unix => match entry.mode {
                    Some(mode) => if mode & 0o111 != 0 {
                        Built::Copy
                    } else {
                        Built::Skip
                    },
                    None => Built::Unknown,
                },
                Platform::Windows => if ends_in(&entry.path, "exe") {
                    Built::Copy
                } else {
                    Built::Skip
                },
            }
        },
        _ => Built::Skip,
    }
}

/// What becomes of an entry of the source directory: files are copied.
pub open spec fn source_kind(entry: EntryView) -> Built {
    match entry.kind {
        EntryKind::File => Built::Copy,
        EntryKind::Unreadable => Built::Unknown,
        _ => Built::Skip,
    }
}

/// Which files of a directory are copied.
#[derive(Debug, Clone, Copy, PartialEq, Eq, Structural)]
pub enum Selection {
    /// All files.
    Sources,
    /// The binaries.
    Binaries,
}

/// What becomes of an entry.
pub open spec fn kind_of(selection: Selection, platform: Platform, entry: EntryView) -> Built {
    match selection {
        Selection::Sources => source_kind(entry),
        Selection::Binaries => built_kind(platform, entry),
    }
}

/// The copies of the selected entries to a directory, in order, up to the first entry of
/// which it cannot be told.
pub open spec fn copies(
    selection: Selection,
    platform: Platform,
    entries: Seq<EntryView>,
    to: PathView,
) -> Seq<ActionView>
    decreases entries.len(),
{
    if entries.len() == 0 {
        Seq::empty()
    } else {
        match kind_of(selection, platform, entries[0]) {
            Built::Copy => seq![ActionView::Copy(entries[0].path, to.join(entries[0].name.bytes))]
                + copies(selection, platform, entries.drop_first(), to),
            Built::Skip => copies(selection, platform, entries.drop_first(), to),
            Built::Unknown => Seq::empty(),
        }
    }
}

/// Why it cannot be told of the first such entry what becomes of it, if there is one.
pub open spec fn first_problem(
    selection: Selection,
    platform: Platform,
    entries: Seq<EntryView>,
) -> Option<Seq<Seq<char>>>
    decreases entries.len(),
{
    if entries.len() == 0 {
        None
    } else if kind_of(selection, platform, entries[0]) == Built::Unknown {
        Some(entries[0].problem)
    } else {
        first_problem(selection, platform, entries.drop_first())
    }
}

/// The copies of the selected entries to a directory, and why it cannot be told of an entry
/// what becomes of it.
pub fn plan_copies(
    selection: Selection,
    platform: Platform,
    entries: &Vec<Entry>,
    to: &PathBuf,
) -> (r: (Vec<Action>, Option<Failure>))
    ensures
        action_views(r.0@) == copies(selection, platform, action::entry_views(entries@), to@),
        first_problem(selection, platform, action::entry_views(entries@)) == match r.1 {
            Some(failure) => Some(failure@),
            None => None,
        },
{
    let ghost views = action::entry_views(entries@);
    let mut out: Vec<Action> = Vec::new();
    let mut i: usize = 0;
    proof {
        assert(views.skip(0) =~= views);
        assert(action_views(out@) + copies(selection, platform, views, to@) =~= copies(
            selection,
            platform,
            views,
            to@,
        ));
    }
    while i < entries.len()
        invariant
            i <= entries@.len(),
            views == action::entry_views(entries@),
            copies(selection, platform, views, to@) == action_views(out@) + copies(
                selection,
                platform,
                views.skip(i as int),
                to@,
            ),
            first_problem(selection, platform, views) == first_problem(
                selection,
                platform,
                views.skip(i as int),
            ),
        decreases entries@.len() - i,
    {
        let entry = &entries[i];
        let ghost rest = views.skip(i as int);
        proof {
            assert(views[i as int] == entry@);
            assert(rest[0] == entry@);
            assert(rest.drop_first() =~= views.skip(i + 1));
        }
        let kind = match selection {
            Selection::Sources => match entry.kind {
                EntryKind::File => Built::Copy,
                EntryKind::Unreadable => Built::Unknown,
                _ => Built::Skip,
            },
            Selection::Binaries => classify_built(platform, entry),
        };
        match kind {
            Built::Copy => {
                let one = Action::Copy(entry.path.duplicate(), to.join_path(&entry.name));
                let ghost before = out@;
                out.push(one);
                proof {
                    assert(action_views(out@) =~= action_views(before).push(one@));
                    assert(copies(selection, platform, views, to@) =~= action_views(out@) + copies(
                        selection,
                        platform,
                        views.skip(i + 1),
                        to@,
                    ));
                }
            },
            Built::Skip => {},
            Built::Unknown => {
                proof {
                    assert(action_views(out@) + Seq::<ActionView>::empty() =~= action_views(out@));
                    assert(kind_of(selection, platform, views[i as int]) == Built::Unknown);
                }
                return (out, Some(entry.problem.duplicate()));
            },
        }
        i = i + 1;
    }
    proof {
        assert(views.skip(i as int) =~= Seq::<EntryView>::empty());
        assert(action_views(out@) + Seq::<ActionView>::empty() =~= action_views(out@));
    }
    (out, None)
}

/// The dependencies keep their order: those of two lists, one behind the other, are those of
/// the first and then those of the second. A dependency on a command line tool is one that
/// starts with `cli:`, and the tool is what stands behind that.
pub proof fn law_dependencies_keep_their_order(
    first: Seq<Seq<char>>,
    second: Seq<Seq<char>>,
    tool: Seq<char>,
    dep: Seq<char>,
)
    requires
        !text::begins(dep, "cli:"@),
    ensures
        cli_dependencies(first + second) == cli_dependencies(first) + cli_dependencies(second),
        lib_dependencies(first + second) == lib_dependencies(first) + lib_dependencies(second),
        cli_dependencies(seq!["cli:"@ + tool]) == seq![tool],
        lib_dependencies(seq!["cli:"@ + tool]) == Seq::<Seq<char>>::empty(),
        cli_dependencies(seq![dep]) == Seq::<Seq<char>>::empty(),
        lib_dependencies(seq![dep]) == seq![dep],
    decreases second.len(),
{
    if second.len() == 0 {
        assert(first + second =~= first);
        assert(cli_dependencies(first) + cli_dependencies(second) =~= cli_dependencies(first));
        assert(lib_dependencies(first) + lib_dependencies(second) =~= lib_dependencies(first));
    } else {
        let front = second.drop_last();
        law_dependencies_keep_their_order(first, front, tool, dep);
        assert((first + second).drop_last() =~= first + front);
        assert((first + second).last() == second.last());
        assert(cli_dependencies(first + second) =~= cli_dependencies(first) + cli_dependencies(
            second,
        ));
        assert(lib_dependencies(first + second) =~= lib_dependencies(first) + lib_dependencies(
            second,
        ));
    }
    lemma_one_dependency("cli:"@ + tool);
    lemma_one_dependency(dep);
    let written = "cli:"@ + tool;
    assert(written.take("cli:"@.len() as int) =~= "cli:"@);
    assert(written.skip("cli:"@.len() as int) =~= tool);
}

/// One dependency alone.
proof fn lemma_one_dependency(dep: Seq<char>)
    ensures
        cli_dependencies(seq![dep]) == match cli_dependency(dep) {
            Some(tool) => seq![tool],
            None => Seq::<Seq<char>>::empty(),
        },
        lib_dependencies(seq![dep]) == match cli_dependency(dep) {
            Some(_) => Seq::<Seq<char>>::empty(),
            None => seq![dep],
        },
{
    let one = seq![dep];
    assert(one.drop_last() =~= Seq::<Seq<char>>::empty());
    assert(one.last() == dep);
    assert(cli_dependencies(one.drop_last()) =~= Seq::<Seq<char>>::empty());
    assert(lib_dependencies(one.drop_last()) =~= Seq::<Seq<char>>::empty());
    assert(Seq::<Seq<char>>::empty().push(dep) =~= seq![dep]);
    if let Some(tool) = cli_dependency(dep) {
        assert(Seq::<Seq<char>>::empty().push(tool) =~= seq![tool]);
    }
}

/// Where every dependency is on a command line tool, there is none on a library, and the tools
/// are what stands behind `cli:` in each of them.
pub proof fn law_tools_alone_are_no_libraries(deps: Seq<Seq<char>>)
    requires
        forall|i: int| 0 <= i < deps.len() ==> text::begins(#[trigger] deps[i], "cli:"@),
    ensures
        lib_dependencies(deps) == Seq::<Seq<char>>::empty(),
        cli_dependencies(deps).len() == deps.len(),
        forall|i: int|
            0 <= i < deps.len() ==> #[trigger] cli_dependencies(deps)[i] == deps[i].skip(4),
    decreases deps.len(),
{
    reveal_strlit("cli:");
    if deps.len() > 0 {
        let front = deps.drop_last();
        assert forall|i: int| 0 <= i < front.len() implies text::begins(
            #[trigger] front[i],
            "cli:"@,
        ) by {
            assert(front[i] == deps[i]);
        }
        law_tools_alone_are_no_libraries(front);
        assert(text::begins(deps[deps.len() - 1], "cli:"@));
        assert forall|i: int| 0 <= i < deps.len() implies #[trigger] cli_dependencies(deps)[i]
            == deps[i].skip(4) by {
            if i < front.len() {
                assert(cli_dependencies(deps)[i] == cli_dependencies(front)[i]);
                assert(front[i] == deps[i]);
            }
        }
    }
}

/// The variables that cargo is given: its home is the environment, and it installs no
/// toolchain by itself.
pub open spec fn cargo_variables(env_path: PathView) -> Seq<VariableView> {
    seq![
        VariableView { name: "CARGO_HOME"@, value: WordView::Path(env_path) },
        VariableView { name: "RUSTUP_AUTO_INSTALL"@, value: WordView::Text("0"@) },
    ]
}

/// What cargo is told for a hook. All of it goes to the environment, and whatever fails is a
/// failure. The package is installed from, and built in, its own directory; dependencies are
/// added in the directory of the copied manifest, in order, each as cargo writes it.
pub proof fn law_cargo_is_told_where(
    env_path: PathView,
    dir: PathView,
    libs: Seq<Seq<char>>,
)
    ensures
        install_local(env_path, dir) == (CommandView {
            program: WordView::Text("cargo"@),
            summary: "install local"@,
            args: seq![
                WordView::Text("install"@),
                WordView::Text("--bins"@),
                WordView::Text("--root"@),
                WordView::Path(env_path),
                WordView::Text("--path"@),
                WordView::Text("."@),
            ],
            current_dir: Some(dir),
            env: cargo_variables(env_path),
            remove_git_env: true,
            check: true,
            null_stdin: false,
        }),
        build_with_deps(env_path, dir) == (CommandView {
            program: WordView::Text("cargo"@),
            summary: "build local with deps"@,
            args: seq![
                WordView::Text("build"@),
                WordView::Text("--bins"@),
                WordView::Text("--release"@),
                WordView::Text("--manifest-path"@),
                WordView::Path(env_path.child("manifest"@).child("Cargo.toml"@)),
                WordView::Text("--target-dir"@),
                WordView::Path(env_path.child("target"@)),
            ],
            current_dir: Some(dir),
            env: cargo_variables(env_path),
            remove_git_env: true,
            check: true,
            null_stdin: false,
        }),
        ({
            let command = add_dependencies(env_path, libs);
            &&& command.program == WordView::Text("cargo"@)
            &&& command.args.len() == libs.len() + 1
            &&& command.args[0] == WordView::Text("add"@)
            &&& forall|i: int|
                0 <= i < libs.len() ==> #[trigger] command.args[i + 1] == WordView::Text(
                    package::cargo_dependency(libs[i]),
                )
            &&& command.current_dir == Some(env_path.child("manifest"@))
            &&& command.env == cargo_variables(env_path)
            &&& command.remove_git_env && command.check && !command.null_stdin
        }),
{
    assert(install_local(env_path, dir).args =~= seq![
        WordView::Text("install"@),
        WordView::Text("--bins"@),
        WordView::Text("--root"@),
        WordView::Path(env_path),
        WordView::Text("--path"@),
        WordView::Text("."@),
    ]);
    assert(install_local(env_path, dir).env =~= cargo_variables(env_path));
    assert(build_with_deps(env_path, dir).args =~= seq![
        WordView::Text("build"@),
        WordView::Text("--bins"@),
        WordView::Text("--release"@),
        WordView::Text("--manifest-path"@),
        WordView::Path(env_path.child("manifest"@).child("Cargo.toml"@)),
        WordView::Text("--target-dir"@),
        WordView::Path(env_path.child("target"@)),
    ]);
    assert(build_with_deps(env_path, dir).env =~= cargo_variables(env_path));
    assert(add_dependencies(env_path, libs).env =~= cargo_variables(env_path));
}

/// A tool is installed into the environment by its name, in the version behind its colon if
/// there is one.
pub proof fn law_tool_is_installed_in_its_version(
    env_path: PathView,
    name: Seq<char>,
    version: Seq<char>,
)
    requires
        !name.contains(':'),
    ensures
        install_tool(env_path, name) == (CommandView {
            program: WordView::Text("cargo"@),
            summary: "install cli dep"@,
            args: seq![
                WordView::Text("install"@),
                WordView::Text("--bins"@),
                WordView::Text("--root"@),
                WordView::Path(env_path),
                WordView::Text(name),
            ],
            current_dir: None,
            env: cargo_variables(env_path),
            remove_git_env: true,
            check: true,
            null_stdin: false,
        }),
        install_tool(env_path, name + ":"@) == install_tool(env_path, name),
        version.len() > 0 ==> install_tool(env_path, name + ":"@ + version) == (CommandView {
            args: seq![
                WordView::Text("install"@),
                WordView::Text("--bins"@),
                WordView::Text("--root"@),
                WordView::Path(env_path),
                WordView::Text(name),
                WordView::Text("--version"@),
                WordView::Text(version),
            ],
            ..install_tool(env_path, name)
        }),
{
    package::law_dependency_has_two_parts(name, version);
    package::law_dependency_has_two_parts(name, Seq::empty());
    assert(name + ":"@ + Seq::<char>::empty() =~= name + ":"@);
    assert(install_tool(env_path, name).args =~= seq![
        WordView::Text("install"@),
        WordView::Text("--bins"@),
        WordView::Text("--root"@),
        WordView::Path(env_path),
        WordView::Text(name),
    ]);
    assert(install_tool(env_path, name).env =~= cargo_variables(env_path));
    if version.len() > 0 {
        let command = install_tool(env_path, name + ":"@ + version);
        assert(command.args =~= seq![
            WordView::Text("install"@),
            WordView::Text("--bins"@),
            WordView::Text("--root"@),
            WordView::Path(env_path),
            WordView::Text(name),
            WordView::Text("--version"@),
            WordView::Text(version),
        ]);
        assert(command.env =~= cargo_variables(env_path));
    }
}

/// One command for each tool, in order.
pub proof fn law_every_tool_is_installed(env_path: PathView, tools: Seq<Seq<char>>)
    ensures
        install_tools(env_path, tools).len() == tools.len(),
        forall|i: int|
            0 <= i < tools.len() ==> #[trigger] install_tools(env_path, tools)[i]
                == ActionView::Run(install_tool(env_path, tools[i])),
{
}

/// The extension of a file name is what stands behind its last dot, with something before
/// it. A name without a dot, or with one at its start only, has none.
pub proof fn law_extension_stands_behind_the_last_dot(stem: Seq<u8>, wanted: Seq<u8>)
    requires
        !wanted.contains(46),
    ensures
        stem.len() > 0 ==> extension(stem + seq![46u8] + wanted) == Some(wanted),
        extension(wanted) is None,
        extension(seq![46u8] + wanted) is None,
{
    let name = stem + seq![46u8] + wanted;
    let n = stem.len() as int;
    assert(name[n] == DOT);
    assert forall|k: int| n + 1 <= k < name.len() implies #[trigger] name[k] != DOT by {
        assert(name[k] == wanted[k - n - 1]);
    }
    lemma_last_dot(name, n + 1);
    assert(name.skip(n + 1) =~= wanted);
    assert forall|k: int| 0 <= k < wanted.len() implies #[trigger] wanted[k] != DOT by {}
    lemma_last_dot(wanted, 0);
    let bare = seq![46u8] + wanted;
    assert forall|k: int| 1 <= k < bare.len() implies #[trigger] bare[k] != DOT by {
        assert(bare[k] == wanted[k - 1]);
    }
    assert(bare[0] == DOT);
    lemma_last_dot(bare, 1);
}

/// Which files that cargo built are copied. A directory, and a file that ends in `.d`,
/// `.rlib` or `.rmeta`, never is. Of the others, on Unix, each one that anybody may execute is;
/// on Windows each one that ends in `.exe` is.
pub proof fn law_binaries_are_copied(platform: Platform, entry: EntryView)
    ensures
        ({
            let skipped = has_extension(entry.path, "d"@) || has_extension(entry.path, "rlib"@)
                || has_extension(entry.path, "rmeta"@);
            let kind = kind_of(Selection::Binaries, platform, entry);
            &&& kind is Copy <==> entry.kind is File && !skipped && match platform {
                Platform::Unix => entry.mode matches Some(mode) && mode & 0o111 != 0,
                Platform::Windows => has_extension(entry.path, "exe"@),
            }
            &&& kind is Unknown <==> entry.kind is Unreadable || (entry.kind is File && !skipped
                && platform is Unix && entry.mode is None)
        }),
        kind_of(Selection::Sources, platform, entry) is Copy <==> entry.kind is File,
        kind_of(Selection::Sources, platform, entry) is Unknown <==> entry.kind is Unreadable,
{
}

/// The copies keep their order and none is left out: those of two lists are those of the first
/// and then those of the second, as long as it can be told of each entry of the first what
/// becomes of it. An entry keeps its name in the directory that it is copied to. Behind an
/// entry of which it cannot be told nothing is copied, and its problem is what is told.
pub proof fn law_no_copy_is_left_out(
    selection: Selection,
    platform: Platform,
    first: Seq<EntryView>,
    second: Seq<EntryView>,
    entry: EntryView,
    to: PathView,
)
    requires
        forall|i: int|
            0 <= i < first.len() ==> !(kind_of(selection, platform, #[trigger] first[i])
                is Unknown),
    ensures
        copies(selection, platform, first + second, to) == copies(selection, platform, first, to)
            + copies(selection, platform, second, to),
        first_problem(selection, platform, first) is None,
        first_problem(selection, platform, first + second) == first_problem(
            selection,
            platform,
            second,
        ),
        match kind_of(selection, platform, entry) {
            Built::Copy => {
                &&& copies(selection, platform, seq![entry], to) == seq![
                    ActionView::Copy(entry.path, to.join(entry.name.bytes)),
                ]
                &&& first_problem(selection, platform, seq![entry]) is None
            },
            Built::Skip => {
                &&& copies(selection, platform, seq![entry], to) == Seq::<ActionView>::empty()
                &&& first_problem(selection, platform, seq![entry]) is None
            },
            Built::Unknown => {
                &&& copies(selection, platform, seq![entry] + second, to) == Seq::<
                    ActionView,
                >::empty()
                &&& first_problem(selection, platform, seq![entry] + second) == Some(
                    entry.problem,
                )
            },
        },
    decreases first.len(),
{
    let all = first + second;
    if first.len() == 0 {
        assert(all =~= second);
        assert(copies(selection, platform, first, to) + copies(selection, platform, second, to)
            =~= copies(selection, platform, second, to));
    } else {
        let rest = first.drop_first();
        assert forall|i: int| 0 <= i < rest.len() implies !(kind_of(
            selection,
            platform,
            #[trigger] rest[i],
        ) is Unknown) by {
            assert(rest[i] == first[i + 1]);
        }
        law_no_copy_is_left_out(selection, platform, rest, second, entry, to);
        assert(all.drop_first() =~= rest + second);
        assert(all[0] == first[0]);
        assert(!(kind_of(selection, platform, first[0]) is Unknown));
        assert(copies(selection, platform, all, to) =~= copies(selection, platform, first, to)
            + copies(selection, platform, second, to));
    }
    let one = seq![entry];
    let more = one + second;
    assert(one[0] == entry && more[0] == entry);
    assert(one.drop_first() =~= Seq::<EntryView>::empty());
    assert(copies(selection, platform, one.drop_first(), to) =~= Seq::<ActionView>::empty());
    assert(first_problem(selection, platform, one.drop_first()) is None);
    let copied = seq![ActionView::Copy(entry.path, to.join(entry.name.bytes))];
    assert(copied + Seq::<ActionView>::empty() =~= copied);
}

/// A path has an extension if and only if its file name is something, a dot and the extension.
pub proof fn law_extension_ends_the_file_name(path: PathView, wanted: Seq<char>)
    requires
        !vstd::utf8::encode_utf8(wanted).contains(46),
    ensures
        has_extension(path, wanted) <==> exists|stem: Seq<u8>|
            stem.len() > 0 && path.file_name() == Some(
                #[trigger] (stem + seq![46u8]) + vstd::utf8::encode_utf8(wanted),
            ),
{
    let e = vstd::utf8::encode_utf8(wanted);
    if has_extension(path, wanted) {
        let name = path.file_name()->0;
        let i = last_dot(name)->0;
        lemma_last_dot_is_a_dot(name);
        let stem = name.take(i);
        assert(name =~= (stem + seq![46u8]) + e);
        assert(stem.len() > 0 && path.file_name() == Some((stem + seq![46u8]) + e));
    }
    if exists|stem: Seq<u8>|
        stem.len() > 0 && path.file_name() == Some(#[trigger] (stem + seq![46u8]) + e) {
        let stem = choose|stem: Seq<u8>|
            stem.len() > 0 && path.file_name() == Some(#[trigger] (stem + seq![46u8]) + e);
        law_extension_stands_behind_the_last_dot(stem, e);
    }
}

/// At the last dot there is a dot.
proof fn lemma_last_dot_is_a_dot(name: Seq<u8>)
    ensures
        last_dot(name) matches Some(i) ==> 0 <= i < name.len() && name[i] == DOT,
    decreases name.len(),
{
    if name.len() > 0 && name.last() != DOT {
        lemma_last_dot_is_a_dot(name.drop_last());
    }
}

} // verus!
