use prek::action::{Action, Command, Entry, EntryKind, Failure, Outcome, Step, Variable, Word};
use prek::hook::{InstallInfo, LanguageRequest};
use prek::path::PathBuf;
use prek::platform::Platform;
use prek::rust::installer::{InstallPhase, RustInstaller, RustResult, newest_tag};
use prek::rust::language::{EnvPhase, RustHook, requested_rust, run_command, run_path};
use prek::rust::package::{
    PackagePhase, extract_package_name, find_package_dir, format_cargo_dependency,
};
use prek::rust::plan::{Built, classify_built, split_dependencies};
use prek::rust::toolchain::{
    ToolchainPhase, bin_dir, install_rust_with_toolchain, make_executable, rustup_home_dir,
};
use prek::rust::version::{RustRequest, RustVersion};
use prek::version::Version;

fn strings(list: &[&str]) -> Vec<String> {
    list.iter().map(|s| s.to_string()).collect()
}

fn failure(list: &[&str]) -> Failure {
    Failure { messages: strings(list) }
}

fn unix(text: &str) -> PathBuf {
    PathBuf::unix(text)
}

fn entry(parent: &str, name: &str, kind: EntryKind) -> Entry {
    let problem = match kind {
        EntryKind::Unreadable => failure(&["failed to read the kind", "no rights"]),
        _ => failure(&[]),
    };
    Entry { path: unix(parent).join(name), name: unix(name), kind, mode: Some(0o644), problem }
}

fn has_file(files: &[(String, String)], path: &PathBuf) -> bool {
    files.iter().any(|(name, _)| path == &unix(name))
}

fn content(files: &[(String, String)], path: &PathBuf) -> String {
    files.iter().find(|(name, _)| path == &unix(name)).unwrap().1.clone()
}

// Runs the search for a package over files that are given with their contents.
fn search(files: &[(&str, &str)], binary_name: &str) -> Result<(PathBuf, bool), Failure> {
    let repo = unix("/repo");
    let files: Vec<(String, String)> =
        files.iter().map(|(name, text)| (format!("/repo/{name}"), text.to_string())).collect();
    let mut phase = PackagePhase::Start;
    let mut outcome = Outcome::Begin;
    loop {
        let (next, step) = find_package_dir(&repo, binary_name, phase, outcome);
        outcome = match step {
            Step::Do(Action::Exists(path)) => Outcome::Answer(has_file(&files, &path)),
            Step::Do(Action::ReadText(path)) => Outcome::Text(content(&files, &path)),
            Step::Do(Action::ListDir(path)) => {
                assert_eq!(path, repo);
                let mut entries = vec![entry("/repo", "Cargo.toml", EntryKind::File)];
                for (name, _) in &files {
                    let parts: Vec<&str> = name.split('/').collect();
                    if parts.len() > 3 {
                        entries.push(entry("/repo", parts[2], EntryKind::Dir));
                    }
                }
                entries.push(entry("/repo", "target", EntryKind::Dir));
                Outcome::Entries(entries)
            }
            Step::Do(_) => panic!("an action that only looks was expected"),
            Step::Done(found) => return Ok(found),
            Step::Fail(failure) => return Err(failure),
        };
        phase = next;
    }
}

#[test]
fn test_find_package_dir_single_package() {
    let cargo_toml = r#"
[package]
name = "my-tool"
version = "0.1.0"
"#;
    let (path, is_workspace) = search(&[("Cargo.toml", cargo_toml)], "my-tool").unwrap();
    assert_eq!(path, unix("/repo"));
    assert!(!is_workspace);
}

#[test]
fn test_find_package_dir_single_package_underscore_normalization() {
    let cargo_toml = r#"
[package]
name = "my-tool"
version = "0.1.0"
"#;
    // Should match with underscores instead of hyphens
    let (path, is_workspace) = search(&[("Cargo.toml", cargo_toml)], "my_tool").unwrap();
    assert_eq!(path, unix("/repo"));
    assert!(!is_workspace);
}

#[test]
fn test_find_package_dir_workspace_with_root_package() {
    // This is the cargo-deny case: workspace where root is also a package
    let cargo_toml = r#"
[package]
name = "cargo-deny"
version = "0.18.5"

[workspace]
members = ["subcrate"]
"#;
    // Create a subcrate too
    let subcrate_toml = r#"
[package]
name = "subcrate"
version = "0.1.0"
"#;
    let files = [("Cargo.toml", cargo_toml), ("subcrate/Cargo.toml", subcrate_toml)];
    let (path, is_workspace) = search(&files, "cargo-deny").unwrap();
    assert_eq!(path, unix("/repo"));
    assert!(is_workspace);
}

#[test]
fn test_find_package_dir_workspace_member() {
    let cargo_toml = r#"
[workspace]
members = ["cli", "lib"]
"#;
    let cli_toml = r#"
[package]
name = "my-cli"
version = "0.1.0"
"#;
    let lib_toml = r#"
[package]
name = "my-lib"
version = "0.1.0"
"#;
    let files =
        [("Cargo.toml", cargo_toml), ("cli/Cargo.toml", cli_toml), ("lib/Cargo.toml", lib_toml)];
    let (path, is_workspace) = search(&files, "my-cli").unwrap();
    assert_eq!(path, unix("/repo").join("cli"));
    assert!(is_workspace);
    let (path, _) = search(&files, "my_lib").unwrap();
    assert_eq!(path, unix("/repo/lib"));
}

#[test]
fn test_find_package_dir_no_cargo_toml() {
    let result = search(&[], "anything");
    assert!(result.is_err());
    assert!(result.unwrap_err().messages[0].contains("No Cargo.toml"));
}

#[test]
fn test_find_package_dir_workspace_binary_not_found() {
    let cargo_toml = r#"
[workspace]
members = ["cli"]
"#;
    let cli_toml = r#"
[package]
name = "some-other-tool"
version = "0.1.0"
"#;
    let files = [("Cargo.toml", cargo_toml), ("cli/Cargo.toml", cli_toml)];
    let result = search(&files, "nonexistent-binary");
    assert!(result.is_err());
    assert!(result.unwrap_err().messages[0].contains("No package found"));
}

#[test]
fn a_search_for_a_package_fails_in_exact_words() {
    assert_eq!(search(&[], "x"), Err(failure(&["No Cargo.toml found in /repo"])));
    assert_eq!(
        search(&[("Cargo.toml", "[dependencies]\n")], "x"),
        Err(failure(&["Invalid Cargo.toml in /repo"]))
    );
    assert_eq!(
        search(&[("Cargo.toml", "[workspace]\n")], "x"),
        Err(failure(&["No package found for binary 'x' in workspace /repo"]))
    );
    let step = find_package_dir(
        &unix("/repo"),
        "x",
        PackagePhase::ListMembers,
        Outcome::Entries(vec![entry("/repo", "a", EntryKind::Unreadable)]),
    );
    let unreadable = failure(&["failed to read the kind", "no rights"]);
    assert_eq!(step, (PackagePhase::Over, Step::Fail(unreadable)));
}

#[test]
fn test_extract_package_name() {
    let content = r#"
[package]
name = "my-tool"
version = "0.1.0"
"#;
    assert_eq!(extract_package_name(content), Some("my-tool".to_string()));
}

#[test]
fn test_extract_package_name_with_single_quotes() {
    let content = r"
[package]
name = 'my-tool'
version = '0.1.0'
";
    assert_eq!(extract_package_name(content), Some("my-tool".to_string()));
}

#[test]
fn test_extract_package_name_no_package() {
    let content = r#"
[workspace]
members = ["cli"]
"#;
    assert_eq!(extract_package_name(content), None);
}

#[test]
fn package_names_at_the_edges() {
    let name = |content: &str| extract_package_name(content);
    assert_eq!(name("[package]\n  name=x\r\n"), Some("x".to_string()));
    assert_eq!(name("[package]\nname\nname = \"y\""), Some("y".to_string()));
    assert_eq!(name("  [package]  # main\nname = 'a\"b' # it"), Some("a\"b".to_string()));
    // The names of other tables, and other keys, do not count.
    let content = "[lib]\nname = \"mylib\"\n\n[package]\nname = \"my-tool\"\n";
    assert_eq!(name(content), Some("my-tool".to_string()));
    let content = "[package]\nversion = \"1\"\n[[bin]]\nname = \"b\"\n";
    assert_eq!(name(content), None);
    assert_eq!(name("[package]\nnames = \"z\""), None);
    assert_eq!(name("[package.metadata]\nname = \"z\""), None);
    assert_eq!(name("name = \"z\""), None);
    assert_eq!(name("[package]\nname = \"\"\"x\"\"\""), Some("x".to_string()));
    assert_eq!(name("[package]\nname = '''x''' # y"), Some("x".to_string()));
    assert_eq!(name("[package]\nname = \"\""), Some(String::new()));
    // Blanks or quotes in the header make no difference.
    for header in ["[ package ]", "\t[package ] # it", "[\"package\"]", "['package']"] {
        assert_eq!(name(&format!("{header}\nname = \"x\"")), Some("x".to_string()));
    }
    for header in ["[[package]]", "[package.x]", "[packages]", "[ ]", "[package"] {
        assert_eq!(name(&format!("{header}\nname = \"x\"")), None);
    }
    // A line of an array or of a string heads no table and gives no name.
    let content = "[package]\nx = [\n  [\"a\", \"]\"], # [\n  ['[']\n]\nname = \"x\"\n";
    assert_eq!(name(content), Some("x".to_string()));
    let content = "[package]\nd = \"\"\"\n[lib]\nname = \"y\" \\\"\"\"\n\"\"\"\nname = \"x\"\n";
    assert_eq!(name(content), Some("x".to_string()));
    let content = "[package]\nd = '''\nname = 1 \\'''\nk = { a = [1] }\nname = \"x\"\n";
    assert_eq!(name(content), Some("x".to_string()));
    let content = "[package]\nd = \"a [ \\\" [\" # '\nname = 'x'";
    assert_eq!(name(content), Some("x".to_string()));
    let content = "[package]\nd = [\n[lib]\n]\n[lib]\nname = \"x\"";
    assert_eq!(name(content), None);
    assert_eq!(name(""), None);
}

#[test]
fn test_format_cargo_dependency() {
    assert_eq!(format_cargo_dependency("serde"), "serde@*");
    assert_eq!(format_cargo_dependency("serde:1.0"), "serde@1.0");
    assert_eq!(format_cargo_dependency("tokio:1.0.0"), "tokio@1.0.0");
    assert_eq!(format_cargo_dependency("serde:"), "serde@*");
    assert_eq!(format_cargo_dependency("a:b:c"), "a@b:c");
}

#[test]
fn dependencies_are_parted() {
    let (tools, libs) = split_dependencies(&strings(&["cli:a:1", "serde:1", "cli:b", "x"]));
    assert_eq!(tools, strings(&["a:1", "b"]));
    assert_eq!(libs, strings(&["serde:1", "x"]));
}

#[test]
fn directories_and_modes() {
    assert_eq!(bin_dir(&unix("/t")), unix("/t/bin"));
    assert_eq!(rustup_home_dir(&unix("/t")), unix("/t/rustup"));
    assert_eq!(make_executable(Platform::Unix, 0o644), Some(0o755));
    assert_eq!(make_executable(Platform::Unix, 0o755), Some(0o755));
    assert_eq!(make_executable(Platform::Windows, 0o644), None);
}

#[test]
fn compilers_are_described() {
    let rust = RustResult::from_dir(&unix("/t"), false);
    assert_eq!(rust.bin(), &unix("/t/bin/rustc"));
    assert!(!rust.is_from_system());
    assert_eq!(rust.to_string(), "/t/bin/rustc@0.0.0");
    let output = b"rustc 1.70.0 (90c541806 2023-05-31)\n".to_vec();
    let rust = rust.fill_version(&output).unwrap();
    assert_eq!(rust.version().to_string(), "1.70.0");
    assert_eq!(
        rust.cmd("x"),
        Command::new(Word::path(&unix("/t/bin/rustc")), "x")
            .env("RUSTUP_AUTO_INSTALL", Word::text("0"))
    );
    let at = || RustResult::from_executable(unix("/r"), true);
    assert_eq!(at().fill_version(&vec![0xff]), Err(failure(&["invalid utf-8 sequence of 1 bytes from index 0"])));
    assert_eq!(
        at().fill_version(&b"rustc".to_vec()),
        Err(failure(&["Failed to parse Rust version from output: rustc"]))
    );
    assert_eq!(
        at().fill_version(&b"rustc x".to_vec()),
        Err(failure(&["unexpected character 'x' while parsing major version number"]))
    );
    // A no-break space does not part words here.
    assert!(at().fill_version(&"rustc\u{a0}1.70.0".as_bytes().to_vec()).is_err());
}

fn request(text: &str) -> RustRequest {
    RustRequest::from_str(text, Platform::Unix, false).unwrap()
}

fn install(
    request: &RustRequest,
    allows_download: bool,
    mut world: impl FnMut(&Action) -> Outcome,
) -> (Vec<Action>, Step<RustResult>) {
    let installer = RustInstaller::new(unix("/tools"));
    let mut actions = vec![];
    let mut phase = InstallPhase::Start;
    let mut outcome = Outcome::Begin;
    loop {
        let (next, step) = installer.install(request, allows_download, "rustc", phase, outcome);
        match step {
            Step::Do(action) => {
                outcome = world(&action);
                actions.push(action);
            }
            end => return (actions, end),
        }
        phase = next;
    }
}

fn rustc(path: &str) -> Command {
    Command::new(Word::path(&unix(path)), "rustc version")
        .env("RUSTUP_AUTO_INSTALL", Word::text("0"))
        .text("--version")
}

fn managed_rustc(toolchain: &str) -> Command {
    let dir = unix("/tools").join(toolchain);
    rustc(&format!("/tools/{toolchain}/bin/rustc"))
        .env("RUSTUP_TOOLCHAIN", Word::text(toolchain))
        .env("RUSTUP_HOME", Word::path(&dir.join("rustup")))
}

fn found(path: &str, version: &str, from_system: bool) -> Step<RustResult> {
    let version = RustVersion::from_str(version).unwrap();
    Step::Done(RustResult::from_executable(unix(path), from_system).with_version(version))
}

#[test]
fn an_installed_toolchain_comes_first() {
    let entries = || {
        vec![
            entry("/tools", "stable", EntryKind::Dir),
            entry("/tools", "1.70.0", EntryKind::Dir),
            entry("/tools", "1.71.1", EntryKind::Dir),
            entry("/tools", "1.99.0", EntryKind::File),
        ]
    };
    let (actions, end) = install(&request("1"), true, |action| match action {
        Action::ListDir(_) => Outcome::Entries(entries()),
        Action::Run(_) => Outcome::Output(b"rustc 1.71.1".to_vec()),
        _ => Outcome::Done,
    });
    assert_eq!(
        actions,
        vec![
            Action::CreateDirAll(unix("/tools")),
            Action::Lock(unix("/tools/.lock"), "rust".to_string()),
            Action::ListDir(unix("/tools")),
            Action::Run(managed_rustc("1.71.1")),
        ]
    );
    assert_eq!(end, found("/tools/1.71.1/bin/rustc", "1.71.1", false));

    let (actions, end) = install(&request("stable"), true, |action| match action {
        Action::ListDir(_) => Outcome::Entries(entries()),
        Action::Run(_) => Outcome::Output(b"rustc 1.80.0".to_vec()),
        _ => Outcome::Done,
    });
    assert_eq!(actions[3], Action::Run(managed_rustc("stable")));
    assert_eq!(end, found("/tools/stable/bin/rustc", "1.80.0", false));
}

#[test]
fn a_compiler_of_the_system_comes_second() {
    let (actions, end) = install(&request("1.70"), false, |action| match action {
        Action::ListDir(_) => Outcome::Failed(failure(&["none"])),
        Action::FindAll(_) => Outcome::Paths(vec![unix("/a/rustc"), unix("/b/rustc")]),
        Action::Run(command) => {
            if command.program == Word::path(&unix("/a/rustc")) {
                Outcome::Output(b"rustc 1.69.0".to_vec())
            } else {
                Outcome::Output(b"rustc 1.70.2".to_vec())
            }
        }
        _ => Outcome::Done,
    });
    assert_eq!(
        actions[3..],
        [
            Action::FindAll("rustc".to_string()),
            Action::Run(rustc("/a/rustc")),
            Action::Run(rustc("/b/rustc")),
        ]
    );
    assert_eq!(end, found("/b/rustc", "1.70.2", true));
}

#[test]
fn no_toolchain_is_installed_where_it_is_not_allowed() {
    let (actions, end) = install(&RustRequest::Any, false, |action| match action {
        Action::ListDir(_) => Outcome::Entries(vec![]),
        Action::FindAll(_) => Outcome::Paths(vec![]),
        _ => Outcome::Done,
    });
    assert_eq!(actions.len(), 4);
    let message = "No suitable system Rust version found and downloads are disabled";
    assert_eq!(end, Step::Fail(failure(&[message])));
}

#[test]
fn a_channel_is_no_version_of_a_compiler_of_the_system() {
    let (_, end) = install(&request("stable"), false, |action| match action {
        Action::ListDir(_) => Outcome::Entries(vec![]),
        Action::FindAll(_) => Outcome::Paths(vec![unix("/a/rustc")]),
        Action::Run(_) => Outcome::Output(b"rustc 1.80.0".to_vec()),
        _ => Outcome::Done,
    });
    assert!(matches!(end, Step::Fail(_)));
}

#[test]
fn the_stable_channel_is_installed_for_any_version() {
    let (actions, end) = install(&RustRequest::Any, true, |action| match action {
        Action::ListDir(_) => Outcome::Entries(vec![]),
        Action::FindAll(_) => Outcome::Paths(vec![]),
        Action::Exists(_) => Outcome::Answer(true),
        Action::Run(command) => {
            if command.program == Word::path(&unix("/tools/stable/bin/rustc")) {
                Outcome::Output(b"rustc 1.81.0".to_vec())
            } else {
                Outcome::Output(vec![])
            }
        }
        _ => Outcome::Done,
    });
    let install_toolchain =
        Command::new(Word::path(&unix("/tools/stable/bin/rustup")), "install toolchain")
            .text("toolchain")
            .text("install")
            .text("--no-self-update")
            .text("stable")
            .env("CARGO_HOME", Word::path(&unix("/tools/stable")))
            .env("RUSTUP_HOME", Word::path(&unix("/tools/stable/rustup")));
    assert_eq!(
        actions[4..],
        [
            Action::CreateDirAll(unix("/tools/stable/rustup")),
            Action::Exists(unix("/tools/stable/bin/rustup")),
            Action::Run(install_toolchain),
            Action::Run(managed_rustc("stable")),
        ]
    );
    assert_eq!(end, found("/tools/stable/bin/rustc", "1.81.0", false));
}

const TAGS: &str = "a\trefs/tags/1.70.0\nb\trefs/tags/1.71.0\nc\trefs/heads/1.79.0\n\
    d\trefs/tags/release-0.1\ne\nf\trefs/tags/1.71.1\ng\trefs/tags/1.72.0\n";

#[test]
fn the_newest_matching_tag_is_installed() {
    let (actions, _) = install(&request(">=1.70, <1.72"), true, |action| match action {
        Action::ListDir(_) => Outcome::Entries(vec![]),
        Action::FindAll(_) => Outcome::Failed(failure(&["none"])),
        Action::Run(_) => Outcome::Output(TAGS.as_bytes().to_vec()),
        _ => Outcome::Failed(failure(&["stop here"])),
    });
    // The root cannot even be made in this world.
    assert_eq!(actions.len(), 1);

    let (actions, end) = install(&request(">=1.70, <1.72"), true, |action| match action {
        Action::ListDir(_) => Outcome::Entries(vec![]),
        Action::FindAll(_) => Outcome::Failed(failure(&["none"])),
        Action::Run(_) => Outcome::Output(TAGS.as_bytes().to_vec()),
        Action::Exists(_) => Outcome::Failed(failure(&["stop here"])),
        _ => Outcome::Done,
    });
    let list = Command::new(Word::text("git"), "list rust tags")
        .text("ls-remote")
        .text("--tags")
        .text("https://github.com/rust-lang/rust");
    assert_eq!(
        actions[4..],
        [
            Action::Run(list),
            Action::CreateDirAll(unix("/tools/1.71.1/rustup")),
            Action::Exists(unix("/tools/1.71.1/bin/rustup")),
        ]
    );
    assert_eq!(end, Step::Fail(failure(&["stop here"])));
}

#[test]
fn tags_are_read() {
    let output = TAGS.as_bytes().to_vec();
    assert_eq!(newest_tag(&request("1.71"), &output), Ok("1.71.1".to_string()));
    assert_eq!(newest_tag(&request("1"), &output), Ok("1.72.0".to_string()));
    assert_eq!(
        newest_tag(&request("2"), &output),
        Err(failure(&["Version not found on remote"]))
    );
    assert_eq!(
        newest_tag(&request("1"), &vec![0xff]),
        Err(failure(&["invalid utf-8 sequence of 1 bytes from index 0"]))
    );
}

#[test]
fn an_installed_toolchain_is_found_again() {
    let installer = RustInstaller::new(unix("/tools"));
    let name = newest_tag(&request("1.71"), &TAGS.as_bytes().to_vec()).unwrap();
    let entries = vec![entry("/tools", &name, EntryKind::Dir)];
    let rust = installer.find_installed(&request("1.71"), &entries).unwrap();
    assert_eq!(rust.bin(), &unix("/tools/1.71.1/bin/rustc"));
    assert!(installer.find_installed(&request("1.72"), &entries).is_none());
}

fn toolchain(
    target: &PathBuf,
    mut world: impl FnMut(&Action) -> Outcome,
) -> (Vec<Action>, Step<()>) {
    let mut actions = vec![];
    let mut phase = ToolchainPhase::Start;
    let mut outcome = Outcome::Begin;
    loop {
        let (next, step) = install_rust_with_toolchain("1.70.0", target, phase, outcome);
        match step {
            Step::Do(action) => {
                outcome = world(&action);
                actions.push(action);
            }
            end => return (actions, end),
        }
        phase = next;
    }
}

fn toolchain_world(action: &Action) -> Outcome {
    match action {
        Action::Exists(_) => Outcome::Answer(false),
        Action::CreateTempDir => Outcome::Path(unix("/tmp/x")),
        Action::Fetch(_) => Outcome::Response(true, "200 OK".to_string()),
        Action::FetchBody => Outcome::Output(b"#!".to_vec()),
        Action::ReadMode(_) => Outcome::Mode(0o600),
        Action::Run(_) => Outcome::Output(vec![]),
        _ => Outcome::Done,
    }
}

#[test]
fn rustup_is_fetched_where_it_is_missing() {
    let (actions, end) = toolchain(&unix("/t"), toolchain_world);
    let init = Command::new(Word::path(&unix("/tmp/x/rustup-init")), "install rustup")
        .text("-y")
        .text("--quiet")
        .text("--no-modify-path")
        .text("--default-toolchain")
        .text("none")
        .env("CARGO_HOME", Word::path(&unix("/t")))
        .env("RUSTUP_HOME", Word::path(&unix("/t/rustup")));
    assert_eq!(
        actions[..9],
        [
            Action::CreateDirAll(unix("/t/rustup")),
            Action::Exists(unix("/t/bin/rustup")),
            Action::CreateTempDir,
            Action::Fetch("https://sh.rustup.rs".to_string()),
            Action::FetchBody,
            Action::WriteBytes(unix("/tmp/x/rustup-init"), b"#!".to_vec()),
            Action::ReadMode(unix("/tmp/x/rustup-init")),
            Action::SetMode(unix("/tmp/x/rustup-init"), 0o711),
            Action::Run(init),
        ]
    );
    assert_eq!(actions.len(), 10);
    assert_eq!(end, Step::Done(()));

    let (actions, end) = toolchain(&PathBuf::windows("c:\\t"), toolchain_world);
    assert_eq!(actions[3], Action::Fetch("https://win.rustup.rs/x86_64".to_string()));
    assert!(!actions.iter().any(|a| matches!(a, Action::ReadMode(_) | Action::SetMode(_, _))));
    assert_eq!(end, Step::Done(()));
}

#[test]
fn rustup_cannot_be_fetched() {
    let (_, end) = toolchain(&unix("/t"), |action| match action {
        Action::Fetch(_) => Outcome::Response(false, "404 Not Found".to_string()),
        other => toolchain_world(other),
    });
    assert_eq!(end, Step::Fail(failure(&["Failed to download rustup-init: 404 Not Found"])));
    let (_, end) = toolchain(&unix("/t"), |action| match action {
        Action::Fetch(_) => Outcome::Failed(failure(&["offline"])),
        other => toolchain_world(other),
    });
    assert_eq!(end, Step::Fail(failure(&["Failed to download rustup-init", "offline"])));
}

#[test]
fn binaries_are_told_from_other_files() {
    let file = |name: &str, mode: Option<u32>| Entry {
        mode,
        ..entry("/t/release", name, EntryKind::File)
    };
    let unix_kind = |name: &str, mode| classify_built(Platform::Unix, &file(name, mode));
    assert_eq!(unix_kind("tool", Some(0o755)), Built::Copy);
    assert_eq!(unix_kind("tool", Some(0o644)), Built::Skip);
    assert_eq!(unix_kind("tool.d", Some(0o755)), Built::Skip);
    assert_eq!(unix_kind("lib.rlib", Some(0o755)), Built::Skip);
    assert_eq!(unix_kind("lib.rmeta", Some(0o755)), Built::Skip);
    assert_eq!(unix_kind(".d", Some(0o755)), Built::Copy);
    assert_eq!(unix_kind("tool", None), Built::Unknown);
    assert_eq!(unix_kind("tool.d", None), Built::Skip);
    let windows_kind = |name: &str| classify_built(Platform::Windows, &file(name, None));
    assert_eq!(windows_kind("tool.exe"), Built::Copy);
    assert_eq!(windows_kind("tool"), Built::Skip);
    let deps = entry("/t/release", "deps", EntryKind::Dir);
    assert_eq!(classify_built(Platform::Unix, &deps), Built::Skip);
    let lost = entry("/t/release", "lost", EntryKind::Unreadable);
    assert_eq!(classify_built(Platform::Unix, &lost), Built::Unknown);
}

fn hook(repo: Option<PathBuf>, dependencies: &[&str]) -> RustHook {
    RustHook {
        request: request("1.70"),
        allows_download: true,
        binary_name: "rustc".to_string(),
        dependencies: strings(dependencies),
        repo,
        entry: Ok(strings(&["my-tool", "--flag"])),
        installer: RustInstaller::new(unix("/tools")),
    }
}

fn make_env(
    hook: &RustHook,
    mut world: impl FnMut(&Action) -> Outcome,
) -> (Vec<Action>, Step<InstallInfo>) {
    let mut actions = vec![];
    let mut phase = EnvPhase::Start;
    let mut outcome = Outcome::Begin;
    loop {
        let (next, step) = hook.install(phase, outcome);
        match step {
            Step::Do(action) => {
                outcome = world(&action);
                actions.push(action);
            }
            end => return (actions, end),
        }
        phase = next;
    }
}

fn env_world(action: &Action) -> Outcome {
    match action {
        Action::ListDir(path) => {
            if path == &unix("/tools") {
                Outcome::Entries(vec![entry("/tools", "1.70.0", EntryKind::Dir)])
            } else if path == &unix("/repo/src") {
                Outcome::Entries(vec![
                    entry("/repo/src", "main.rs", EntryKind::File),
                    entry("/repo/src", "sub", EntryKind::Dir),
                ])
            } else {
                let tool = entry("/env/target/release", "my-tool", EntryKind::File);
                let dep = entry("/env/target/release", "my-tool.d", EntryKind::File);
                Outcome::Entries(vec![
                    Entry { mode: Some(0o755), ..tool },
                    Entry { mode: Some(0o755), ..dep },
                ])
            }
        }
        Action::CreateEnvDir => Outcome::Path(unix("/env")),
        Action::Exists(_) => Outcome::Answer(true),
        Action::ReadText(_) => Outcome::Text("[package]\nname = \"my-tool\"\n".to_string()),
        Action::Run(_) => Outcome::Output(b"rustc 1.70.0".to_vec()),
        _ => Outcome::Done,
    }
}

fn cargo(summary: &str) -> Command {
    Command::new(Word::text("cargo"), summary)
}

fn in_env(command: Command) -> Command {
    command
        .env("CARGO_HOME", Word::path(&unix("/env")))
        .env("RUSTUP_AUTO_INSTALL", Word::text("0"))
        .without_git()
}

#[test]
fn a_package_is_installed_directly() {
    let (actions, end) = make_env(&hook(Some(unix("/repo")), &[]), env_world);
    let install_local = cargo("install local")
        .text("install")
        .text("--bins")
        .text("--root")
        .path(&unix("/env"))
        .text("--path")
        .text(".")
        .dir(&unix("/repo"));
    assert_eq!(
        actions[4..],
        [
            Action::CreateEnvDir,
            Action::CreateDirAll(unix("/env/bin")),
            Action::Exists(unix("/repo/Cargo.toml")),
            Action::ReadText(unix("/repo/Cargo.toml")),
            Action::Run(in_env(install_local)),
        ]
    );
    let mut info = InstallInfo::new(unix("/env"));
    info.with_toolchain(unix("/tools/1.70.0/bin/rustc"));
    info.with_language_version(Version::new(1, 70, 0));
    assert_eq!(end, Step::Done(info));
}

#[test]
fn a_package_with_dependencies_is_built_from_a_copy() {
    let hook = hook(Some(unix("/repo")), &["serde:1", "cli:just:1.2", "cli:other"]);
    let (actions, end) = make_env(&hook, env_world);
    let add = cargo("add dependencies").text("add").text("serde@1").dir(&unix("/env/manifest"));
    let build = cargo("build local with deps")
        .text("build")
        .text("--bins")
        .text("--release")
        .text("--manifest-path")
        .path(&unix("/env/manifest/Cargo.toml"))
        .text("--target-dir")
        .path(&unix("/env/target"))
        .dir(&unix("/repo"));
    let tool = |name: &str| {
        cargo("install cli dep")
            .text("install")
            .text("--bins")
            .text("--root")
            .path(&unix("/env"))
            .text(name)
    };
    assert_eq!(
        actions[8..],
        [
            Action::CreateDirAll(unix("/env/manifest")),
            Action::Copy(unix("/repo/Cargo.toml"), unix("/env/manifest/Cargo.toml")),
            Action::Exists(unix("/repo/Cargo.lock")),
            Action::Copy(unix("/repo/Cargo.lock"), unix("/env/manifest/Cargo.lock")),
            Action::Exists(unix("/repo/src")),
            Action::CreateDirAll(unix("/env/manifest/src")),
            Action::ListDir(unix("/repo/src")),
            Action::Copy(unix("/repo/src/main.rs"), unix("/env/manifest/src/main.rs")),
            Action::Run(in_env(add)),
            Action::Run(in_env(build)),
            Action::ListDir(unix("/env/target/release")),
            Action::Copy(unix("/env/target/release/my-tool"), unix("/env/bin/my-tool")),
            Action::Run(in_env(tool("just").text("--version").text("1.2"))),
            Action::Run(in_env(tool("other"))),
        ]
    );
    assert!(matches!(end, Step::Done(_)));
}

#[test]
fn the_lock_file_of_a_workspace_comes_first() {
    let member = |action: &Action| match action {
        Action::ListDir(path) if path == &unix("/repo") => {
            Outcome::Entries(vec![entry("/repo", "cli", EntryKind::Dir)])
        }
        Action::ReadText(path) if path == &unix("/repo/Cargo.toml") => {
            Outcome::Text("[workspace]".to_string())
        }
        Action::Exists(path) => Outcome::Answer(
            path != &unix("/repo/Cargo.lock")
                && path != &unix("/repo/cli/Cargo.lock")
                && path != &unix("/repo/cli/src"),
        ),
        other => env_world(other),
    };
    let (actions, end) = make_env(&hook(Some(unix("/repo")), &["x"]), member);
    let at = actions.iter().position(|a| a == &Action::Exists(unix("/repo/Cargo.lock"))).unwrap();
    assert_eq!(actions[at + 1], Action::Exists(unix("/repo/cli/Cargo.lock")));
    assert_eq!(actions[at + 2], Action::Exists(unix("/repo/cli/src")));
    assert!(matches!(actions[at + 3], Action::Run(_)));
    assert!(matches!(end, Step::Done(_)));
}

#[test]
fn a_local_hook_installs_only_its_tools() {
    let (actions, end) = make_env(&hook(None, &["cli:just"]), env_world);
    assert_eq!(actions.len(), 7);
    assert!(matches!(actions[6], Action::Run(_)));
    assert!(matches!(end, Step::Done(_)));
    let (actions, _) = make_env(&hook(None, &["serde"]), env_world);
    assert_eq!(actions.len(), 6);
}

#[test]
fn an_installation_ends_at_its_first_failure() {
    let (actions, end) = make_env(&hook(Some(unix("/repo")), &["serde"]), |action| match action {
        Action::Copy(_, _) => Outcome::Failed(failure(&["disk full"])),
        other => env_world(other),
    });
    assert!(matches!(actions.last(), Some(Action::Copy(_, _))));
    assert_eq!(end, Step::Fail(failure(&["disk full"])));

    let (_, end) = make_env(&hook(None, &[]), |action| match action {
        Action::Lock(_, _) => Outcome::Failed(failure(&["locked"])),
        other => env_world(other),
    });
    assert_eq!(end, Step::Fail(failure(&["Failed to install rust", "locked"])));

    let broken =
        RustHook { entry: Err(failure(&["no entry"])), ..hook(Some(unix("/repo")), &[]) };
    let (_, end) = make_env(&broken, env_world);
    assert_eq!(end, Step::Fail(failure(&["no entry"])));

    let (_, end) = make_env(&hook(Some(unix("/repo")), &["serde"]), |action| match action {
        Action::ListDir(path) if path == &unix("/repo/src") => {
            Outcome::Entries(vec![entry("/repo/src", "x", EntryKind::Unreadable)])
        }
        other => env_world(other),
    });
    assert_eq!(end, Step::Fail(failure(&["failed to read the kind", "no rights"])));
}

#[test]
fn the_channel_of_an_environment_is_noted() {
    let stable = RustHook { request: request("stable"), ..hook(None, &[]) };
    let (_, end) = make_env(&stable, |action| match action {
        Action::ListDir(_) => {
            Outcome::Entries(vec![entry("/tools", "stable", EntryKind::Dir)])
        }
        other => env_world(other),
    });
    let Step::Done(info) = end else { panic!("the installation should succeed") };
    assert!(request("stable").satisfied_by(&info));
    assert!(!request("nightly").satisfied_by(&info));
    assert!(RustRequest::Any.satisfied_by(&info));

    let any = RustHook { request: RustRequest::Any, ..hook(None, &[]) };
    let (_, end) = make_env(&any, env_world);
    let Step::Done(info) = end else { panic!("the installation should succeed") };
    assert_eq!(info.get_extra("rust_channel"), Some(&"stable".to_string()));
}

#[test]
fn the_repository_is_not_written_to() {
    let (actions, _) = make_env(&hook(Some(unix("/repo")), &["serde"]), env_world);
    for action in &actions[4..] {
        if let Action::CreateDirAll(path) | Action::Copy(_, path) = action {
            assert!(path.starts_with(&unix("/env")));
        }
    }
}

#[test]
fn what_a_rust_hook_asks_for() {
    let any = requested_rust(&LanguageRequest::Any { system_only: false });
    assert_eq!(any, (RustRequest::Any, true));
    let system = requested_rust(&LanguageRequest::Any { system_only: true });
    assert_eq!(system, (RustRequest::Any, false));
    let one = requested_rust(&LanguageRequest::Rust(RustRequest::Major(1)));
    assert_eq!(one, (RustRequest::Major(1), true));
}

fn run(toolchain: &str) -> Command {
    let mut info = InstallInfo::new(unix("/env"));
    info.with_toolchain(unix(toolchain));
    info.with_language_version(Version::new(1, 70, 0));
    run_command(
        &info,
        &unix("/tools"),
        Word::text("/env/bin"),
        &strings(&["my-tool", "-v"]),
        &unix("/work"),
        vec![Variable { name: "PATH".to_string(), value: Word::text("/mine") }],
        &strings(&["--fix"]),
        &vec![unix("a.rs")],
    )
}

#[test]
fn a_rust_hook_runs_with_its_toolchain() {
    let want = Command::new(Word::text("my-tool"), "rust hook")
        .dir(&unix("/work"))
        .text("-v")
        .text("--fix")
        .path(&unix("a.rs"))
        .env("PATH", Word::text("/env/bin"))
        .env("CARGO_HOME", Word::path(&unix("/env")))
        .env("RUSTUP_AUTO_INSTALL", Word::text("0"))
        .env("PATH", Word::text("/mine"))
        .unchecked()
        .without_input();
    assert_eq!(run("/usr/bin/rustc"), want);
    let managed = run("/tools/1.70.0/bin/rustc");
    assert_eq!(managed.env.len(), 6);
    assert_eq!(managed.env[3].name, "RUSTUP_TOOLCHAIN");
    assert_eq!(managed.env[3].value, Word::text("1.70.0"));
    assert_eq!(managed.env[4].name, "RUSTUP_HOME");
    assert_eq!(managed.env[4].value, Word::text("/tools/1.70.0/rustup"));
    // The variables of the hook come last, so they prevail.
    assert_eq!(managed.env[5].name, "PATH");
    assert_eq!(managed.env[5].value, Word::text("/mine"));

    let mut info = InstallInfo::new(unix("/env"));
    info.with_toolchain(unix("/usr/bin/rustc"));
    assert_eq!(run_path(&info), vec![unix("/env/bin"), unix("/usr/bin")]);
}
