use prek::action::{Action, Command, Entry, EntryKind, Failure, Outcome, Step, Variable, Word};
use prek::deno::installer::{
    DenoInstaller, DenoOrder, DenoResult, InstallPhase, bin_dir, find_release,
    list_remote_versions, resolve_version,
};
use prek::deno::language::{
    DenoHook, EnvPhase, check_health, find_script_to_cache, health_command, is_cacheable_script,
    requested_deno, run_command,
};
use prek::deno::version::{DenoRequest, DenoVersion};
use prek::hook::{InstallInfo, LanguageRequest};
use prek::path::PathBuf;
use prek::platform::{Architecture, OperatingSystem, Platform};
use prek::version::Version;

fn strings(list: &[&str]) -> Vec<String> {
    list.iter().map(|s| s.to_string()).collect()
}

fn failure(list: &[&str]) -> Failure {
    Failure { messages: strings(list) }
}

fn unix(text: &str) -> PathBuf {
    PathBuf::unix(text)
}

fn order(request: &str, allows_download: bool) -> DenoOrder {
    DenoOrder {
        request: DenoRequest::from_str(request, Platform::Unix, false).unwrap(),
        allows_download,
        binary_name: "deno".to_string(),
        architecture: Architecture::X86_64,
        os: OperatingSystem::Linux,
    }
}

fn dir(name: &str) -> Entry {
    Entry {
        path: unix("/tools").join(name),
        name: unix(name),
        kind: EntryKind::Dir,
        mode: Some(0o755),
        problem: failure(&[]),
    }
}

fn install(
    order: &DenoOrder,
    mut world: impl FnMut(&Action) -> Outcome,
) -> (Vec<Action>, Step<DenoResult>) {
    let installer = DenoInstaller::new(unix("/tools"));
    let mut actions = vec![];
    let mut phase = InstallPhase::Start;
    let mut outcome = Outcome::Begin;
    loop {
        let (next, step) = installer.install(order, phase, outcome);
        match step {
            Step::Do(action) => {
                outcome = world(&action);
                actions.push(action);
            }
            end => return (actions, end),
        }
        phase = next;
    }
}

fn result(path: &str, version: &str) -> Step<DenoResult> {
    let version = DenoVersion::from_str(version).unwrap();
    Step::Done(DenoResult::from_executable(unix(path)).with_version(version))
}

#[test]
fn directories_of_executables() {
    assert_eq!(bin_dir(&unix("/p")), unix("/p/bin"));
    assert_eq!(bin_dir(&PathBuf::windows("c:\\p")), PathBuf::windows("c:\\p"));
    assert_eq!(DenoResult::from_dir(&unix("/p")).deno(), &unix("/p/bin/deno"));
    let windows = DenoResult::from_dir(&PathBuf::windows("c:\\p"));
    assert_eq!(windows.deno().to_string_lossy(), "c:\\p\\deno.exe");
    assert_eq!(windows.to_string(), "c:\\p\\deno.exe@0.0.0");
}

#[test]
fn versions_are_read_from_output() {
    let deno = DenoResult::from_executable(unix("/d"));
    let output = b"deno 1.40.0 (release, x86_64-unknown-linux-gnu)\nv8 12\n".to_vec();
    let deno = deno.fill_version(&output).unwrap();
    assert_eq!(deno.version().to_string(), "1.40.0");
    let deno = DenoResult::from_executable(unix("/d"));
    assert_eq!(
        deno.fill_version(&b"deno\n".to_vec()),
        Err(failure(&["Failed to get Deno version"]))
    );
    let deno = DenoResult::from_executable(unix("/d"));
    assert_eq!(
        deno.fill_version(&b"deno one".to_vec()),
        Err(failure(&[
            "Failed to parse Deno version",
            "unexpected character 'o' while parsing major version number"
        ]))
    );
}

#[test]
fn an_installed_deno_comes_first() {
    let (actions, end) = install(&order("1", true), |action| match action {
        Action::ListDir(_) => Outcome::Entries(vec![
            dir("1.40.0"),
            dir("1.9.0"),
            dir("2.0.0"),
            dir("junk"),
            Entry { kind: EntryKind::File, ..dir("1.99.0") },
        ]),
        _ => Outcome::Done,
    });
    assert_eq!(
        actions,
        vec![
            Action::CreateDirAll(unix("/tools")),
            Action::Lock(unix("/tools/.lock"), "deno".to_string()),
            Action::ListDir(unix("/tools")),
        ]
    );
    assert_eq!(end, result("/tools/1.40.0/bin/deno", "1.40.0"));
}

#[test]
fn a_deno_of_the_system_comes_second() {
    let (actions, end) = install(&order("1.41", false), |action| match action {
        Action::ListDir(_) => Outcome::Entries(vec![dir("1.40.0")]),
        Action::FindAll(_) => Outcome::Paths(vec![unix("/x/deno"), unix("/y/deno"), unix("/z/deno")]),
        Action::Run(command) => {
            if command.program == Word::path(&unix("/x/deno")) {
                Outcome::Failed(failure(&["cannot run"]))
            } else if command.program == Word::path(&unix("/y/deno")) {
                Outcome::Output(b"deno 1.40.0".to_vec())
            } else {
                Outcome::Output(b"deno 1.41.2".to_vec())
            }
        }
        _ => Outcome::Done,
    });
    assert_eq!(actions[3], Action::FindAll("deno".to_string()));
    assert_eq!(
        actions[4],
        Action::Run(Command::new(Word::path(&unix("/x/deno")), "deno --version").text("--version"))
    );
    assert_eq!(actions.len(), 7);
    assert_eq!(end, result("/z/deno", "1.41.2"));
}

#[test]
fn nothing_is_downloaded_where_it_is_not_allowed() {
    let (actions, end) = install(&order("1.41", false), |action| match action {
        Action::ListDir(_) => Outcome::Failed(failure(&["no directory"])),
        Action::FindAll(_) => Outcome::Failed(failure(&["none"])),
        _ => Outcome::Done,
    });
    assert_eq!(actions.len(), 4);
    let message = "No suitable system Deno version found and downloads are disabled";
    assert_eq!(end, Step::Fail(failure(&[message])));
}

#[test]
fn the_latest_matching_release_is_downloaded() {
    let tags = || strings(&["v1.40.1", "v2.0.0", "v1.40.5", "nightly", "v1.39.9"]);
    let (actions, end) = install(&order("1.40", true), |action| match action {
        Action::ListDir(_) => Outcome::Entries(vec![]),
        Action::FindAll(_) => Outcome::Paths(vec![]),
        Action::FetchTags(url) if url.ends_with("&page=2") => Outcome::Tags(vec![]),
        Action::FetchTags(_) => Outcome::Tags(tags()),
        Action::DownloadAndExtract(_, _) => Outcome::Path(unix("/scratch/deno")),
        Action::IsFile(_) => Outcome::Answer(true),
        Action::Exists(_) => Outcome::Answer(true),
        _ => Outcome::Done,
    });
    let file = "deno-x86_64-unknown-linux-gnu.zip";
    let releases = "https://github.com/denoland/deno/releases/download";
    assert_eq!(
        actions[4..],
        [
            Action::FetchTags(
                "https://api.github.com/repos/denoland/deno/releases?per_page=100".to_string()
            ),
            Action::FetchTags(
                "https://api.github.com/repos/denoland/deno/releases?per_page=100&page=2"
                    .to_string()
            ),
            Action::DownloadAndExtract(format!("{releases}/v1.40.5/{file}"), file.to_string()),
            Action::IsFile(unix("/scratch/deno")),
            Action::Exists(unix("/scratch/deno")),
            Action::Exists(unix("/tools/1.40.5")),
            Action::RemoveDirAll(unix("/tools/1.40.5")),
            Action::CreateDirAll(unix("/tools/1.40.5/bin")),
            Action::Copy(unix("/scratch/deno"), unix("/tools/1.40.5/bin/deno")),
            Action::SetMode(unix("/tools/1.40.5/bin/deno"), 0o755),
        ]
    );
    assert_eq!(end, result("/tools/1.40.5/bin/deno", "1.40.5"));
}

#[test]
fn a_download_without_the_binary_fails() {
    let (_, end) = install(&order("1.40", true), |action| match action {
        Action::ListDir(_) => Outcome::Entries(vec![]),
        Action::FindAll(_) => Outcome::Paths(vec![]),
        Action::FetchTags(url) if url.ends_with("&page=2") => Outcome::Tags(vec![]),
        Action::FetchTags(_) => Outcome::Tags(strings(&["v1.40.1"])),
        Action::DownloadAndExtract(_, _) => Outcome::Path(unix("/scratch/out")),
        Action::IsFile(_) => Outcome::Answer(false),
        Action::Exists(path) => Outcome::Answer(path != &unix("/scratch/out/deno")),
        _ => Outcome::Done,
    });
    assert_eq!(
        end,
        Step::Fail(failure(&[
            "Failed to download and extract deno",
            "Deno binary not found. Expected at /scratch/out/deno"
        ]))
    );
}

#[test]
fn all_pages_of_the_releases_are_listed() {
    let pages = |url: &str| -> Vec<String> {
        match url.rsplit_once("&page=") {
            None => strings(&["v1.50.0", "v1.49.0"]),
            Some((_, page)) => {
                let page: u64 = page.parse().unwrap();
                if page < 12 { strings(&[&format!("v1.{}.0", 50 - page)]) } else { vec![] }
            }
        }
    };
    let (actions, _) = install(&order("1.40", true), |action| match action {
        Action::ListDir(_) => Outcome::Entries(vec![]),
        Action::FindAll(_) => Outcome::Paths(vec![]),
        Action::FetchTags(url) => Outcome::Tags(pages(url)),
        Action::DownloadAndExtract(_, _) => Outcome::Failed(failure(&["stop"])),
        _ => Outcome::Done,
    });
    let releases = "https://api.github.com/repos/denoland/deno/releases?per_page=100";
    let mut expected = vec![Action::FetchTags(releases.to_string())];
    for page in 2..13 {
        expected.push(Action::FetchTags(format!("{releases}&page={page}")));
    }
    let file = "deno-x86_64-unknown-linux-gnu.zip";
    let url = format!("https://github.com/denoland/deno/releases/download/v1.40.0/{file}");
    expected.push(Action::DownloadAndExtract(url, file.to_string()));
    assert_eq!(actions[4..], expected[..]);

    let (actions, end) = install(&order("1.40", true), |action| match action {
        Action::ListDir(_) => Outcome::Entries(vec![]),
        Action::FindAll(_) => Outcome::Paths(vec![]),
        Action::FetchTags(url) if url.ends_with("&page=2") => {
            Outcome::Failed(failure(&["no network"]))
        }
        Action::FetchTags(_) => Outcome::Tags(strings(&["v1.40.1"])),
        _ => Outcome::Done,
    });
    assert_eq!(actions.len(), 6);
    assert_eq!(end, Step::Fail(failure(&["Failed to list remote versions", "no network"])));
}

#[test]
fn releases_of_machines() {
    let v = DenoVersion(Version::new(1, 2, 3));
    let (url, file) = find_release(&v, Architecture::Aarch64, OperatingSystem::Darwin).unwrap();
    assert_eq!(file, "deno-aarch64-apple-darwin.zip");
    assert_eq!(
        url,
        "https://github.com/denoland/deno/releases/download/v1.2.3/deno-aarch64-apple-darwin.zip"
    );
    let (_, file) = find_release(&v, Architecture::X86_64, OperatingSystem::Windows).unwrap();
    assert_eq!(file, "deno-x86_64-pc-windows-msvc.zip");
    assert_eq!(
        find_release(&v, Architecture::Other, OperatingSystem::Other),
        Err(failure(&["Unsupported architecture for Deno"]))
    );
    assert_eq!(
        find_release(&v, Architecture::X86_64, OperatingSystem::Other),
        Err(failure(&["Unsupported OS for Deno"]))
    );
}

#[test]
fn remote_versions_are_listed_newest_first() {
    let tags = strings(&["v1.9.0", "x", "v1.10.0"]);
    let listed: Vec<String> =
        list_remote_versions(&tags).unwrap().iter().map(|v| v.to_string()).collect();
    assert_eq!(listed, vec!["1.10.0", "1.9.0"]);
    assert_eq!(
        list_remote_versions(&strings(&["x"])),
        Err(failure(&["No Deno versions found on GitHub"]))
    );
    assert_eq!(resolve_version(&DenoRequest::Any, &tags).unwrap().to_string(), "1.10.0");
    assert_eq!(
        resolve_version(&DenoRequest::Major(3), &tags),
        Err(failure(&["Version not found on remote"]))
    );
    assert_eq!(
        resolve_version(&DenoRequest::Any, &vec![]),
        Err(failure(&["Failed to list remote versions", "No Deno versions found on GitHub"]))
    );
}

#[test]
fn an_installed_version_is_found_again() {
    let installer = DenoInstaller::new(unix("/tools"));
    let v = resolve_version(&DenoRequest::Any, &strings(&["v1.40.0-rc.1"])).unwrap();
    let entries = vec![dir(&v.to_string())];
    let found = installer.find_installed(&DenoRequest::Any, &entries).unwrap();
    assert_eq!(found.version(), &v);
    assert_eq!(found.deno(), &unix("/tools/1.40.0-rc.1/bin/deno"));
}

#[test]
fn scripts_to_cache() {
    let find = |words: &[&str]| find_script_to_cache(&strings(words));
    assert_eq!(find(&["./hook.ts"]), Some("./hook.ts".to_string()));
    assert_eq!(find(&["run", "-A", "npm:cowsay", "x.ts"]), Some("npm:cowsay".to_string()));
    assert_eq!(find(&["deno", "run", "-A", "./hook.ts"]), Some("./hook.ts".to_string()));
    assert_eq!(find(&["run", "run"]), None);
    assert_eq!(find(&["deno", "./hook.ts"]), Some("./hook.ts".to_string()));
    assert_eq!(find(&["deno"]), None);
    assert_eq!(find(&["deno", "run"]), None);
    assert_eq!(find(&["fmt", "x.ts"]), None);
    assert_eq!(find(&["eval", "x.js"]), None);
    assert_eq!(find(&["run", "--config=x.js"]), None);
    assert_eq!(find(&[]), None);
    for name in ["fmt", "lint", "test", "check", "bundle", "doc", "repl", "eval"] {
        assert_eq!(find(&[name, "a.ts"]), None);
        assert_eq!(find(&["deno", name, "a.ts"]), None);
    }
}

#[test]
fn cacheable_scripts() {
    for script in
        ["https://x/y", "http://x", "jsr:@a/b", "npm:c", "a.ts", "a.js", "a.mjs", "a.tsx", "a.jsx"]
    {
        assert!(is_cacheable_script(script));
    }
    for script in ["a.py", "ts", "deno.jsonc", "", "xnpm:c"] {
        assert!(!is_cacheable_script(script));
    }
}

fn hook(repo: Option<PathBuf>, dependencies: &[&str], entry: &[&str]) -> DenoHook {
    DenoHook {
        order: order("1.40", true),
        installer: DenoInstaller::new(unix("/tools")),
        dependencies: strings(dependencies),
        repo,
        entry: Ok(strings(entry)),
        work_dir: unix("/work"),
        cache_dir: unix("/cache/deno"),
    }
}

fn make_env(
    hook: &DenoHook,
    mut world: impl FnMut(&Action) -> Outcome,
) -> (Vec<Action>, Step<InstallInfo>) {
    let mut actions = vec![];
    let mut phase = EnvPhase::Start;
    let mut outcome = Outcome::Begin;
    loop {
        let (next, step) = hook.install(phase, outcome);
        match step {
            Step::Do(action) => {
                outcome = world(&action);
                actions.push(action);
            }
            end => return (actions, end),
        }
        phase = next;
    }
}

fn quiet_world(action: &Action) -> Outcome {
    match action {
        Action::ListDir(_) => Outcome::Entries(vec![dir("1.40.0")]),
        Action::CreateEnvDir => Outcome::Path(unix("/env")),
        Action::PrependPath(_) => Outcome::Path(unix("/env/bin:/usr/bin")),
        Action::Exists(_) => Outcome::Answer(false),
        Action::Run(_) => Outcome::Output(vec![]),
        _ => Outcome::Done,
    }
}

fn deno_command(summary: &str, dir: &str) -> Command {
    Command::new(Word::path(&unix("/env/bin/deno")), summary)
        .dir(&unix(dir))
        .env("PATH", Word::path(&unix("/env/bin:/usr/bin")))
        .env("DENO_DIR", Word::path(&unix("/cache/deno")))
}

#[test]
fn an_environment_without_needs_is_only_linked() {
    let (actions, end) = make_env(&hook(None, &[], &["deno", "--version"]), quiet_world);
    assert_eq!(
        actions[3..],
        [
            Action::CreateEnvDir,
            Action::CreateDirAll(unix("/env/bin")),
            Action::Exists(unix("/env/bin/deno")),
            Action::Symlink(unix("/tools/1.40.0/bin/deno"), unix("/env/bin/deno")),
            Action::CreateDirAll(unix("/cache/deno")),
            Action::PrependPath(unix("/env/bin")),
        ]
    );
    let mut info = InstallInfo::new(unix("/env"));
    info.with_toolchain(unix("/tools/1.40.0/bin/deno"));
    info.with_language_version(Version::new(1, 40, 0));
    assert_eq!(end, Step::Done(info));
}

#[test]
fn dependencies_and_scripts_are_fetched() {
    let hook = hook(None, &["npm:chalk@5"], &["deno", "run", "./hook.ts"]);
    let (actions, end) = make_env(&hook, quiet_world);
    assert_eq!(
        actions[9..],
        [
            Action::Exists(unix("/env/deno.json")),
            Action::WriteBytes(unix("/env/deno.json"), b"{}".to_vec()),
            Action::Run(deno_command("deno add", "/env").text("add").text("npm:chalk@5")),
            Action::Run(deno_command("deno cache", "/work").text("cache").text("./hook.ts")),
        ]
    );
    assert!(matches!(end, Step::Done(_)));
}

#[test]
fn the_configuration_of_the_repository_is_copied() {
    let hook = hook(Some(unix("/repo")), &[], &["deno", "lint"]);
    let (actions, end) = make_env(&hook, |action| match action {
        Action::Exists(path) => Outcome::Answer(path != &unix("/env/bin/deno")),
        other => quiet_world(other),
    });
    assert_eq!(
        actions[9..],
        [
            Action::Exists(unix("/repo/deno.json")),
            Action::Copy(unix("/repo/deno.json"), unix("/env/deno.json")),
            Action::Exists(unix("/env/deno.json")),
        ]
    );
    assert!(matches!(end, Step::Done(_)));
}

#[test]
fn failures_of_an_installation_say_what_was_tried() {
    let bare = || hook(None, &[], &["./x.ts"]);
    let (_, end) = make_env(&bare(), |action| match action {
        Action::CreateDirAll(_) => Outcome::Failed(failure(&["denied"])),
        other => quiet_world(other),
    });
    assert_eq!(end, Step::Fail(failure(&["Failed to install deno", "denied"])));

    let (_, end) = make_env(&bare(), |action| match action {
        Action::PrependPath(_) => Outcome::Failed(failure(&["bad PATH"])),
        other => quiet_world(other),
    });
    assert_eq!(end, Step::Fail(failure(&["Failed to join PATH", "bad PATH"])));

    let (_, end) = make_env(&bare(), |action| match action {
        Action::Run(_) => Outcome::Failed(failure(&["offline"])),
        other => quiet_world(other),
    });
    assert_eq!(
        end,
        Step::Fail(failure(&["Failed to cache entry script dependencies", "offline"]))
    );

    let broken = DenoHook { entry: Err(failure(&["no entry"])), ..bare() };
    let (_, end) = make_env(&broken, quiet_world);
    assert_eq!(end, Step::Fail(failure(&["no entry"])));
}

#[test]
fn the_health_of_an_environment() {
    let mut info = InstallInfo::new(unix("/env"));
    info.with_toolchain(unix("/d/deno"));
    info.with_language_version(Version::new(1, 40, 0));
    assert_eq!(
        health_command(&info),
        Command::new(Word::path(&unix("/d/deno")), "deno --version").text("--version")
    );
    assert_eq!(check_health(&info, &b"deno 1.40.0".to_vec()), Ok(()));
    assert_eq!(
        check_health(&info, &b"deno 1.41.0".to_vec()),
        Err(failure(&["Deno version mismatch: expected `1.40.0`, found `1.41.0`"]))
    );
    assert_eq!(
        check_health(&info, &b"".to_vec()),
        Err(failure(&["Failed to query current Deno info", "Failed to get Deno version"]))
    );
}

#[test]
fn what_a_deno_hook_asks_for() {
    let any = requested_deno(&LanguageRequest::Any { system_only: false });
    assert_eq!(any, (DenoRequest::Any, true));
    let system = requested_deno(&LanguageRequest::Any { system_only: true });
    assert_eq!(system, (DenoRequest::Any, false));
    let one = requested_deno(&LanguageRequest::Deno(DenoRequest::Major(1)));
    assert_eq!(one, (DenoRequest::Major(1), true));
}

#[test]
fn a_deno_hook_runs_with_its_cache() {
    let command = run_command(
        &unix("/cache/deno"),
        Word::text("/env/bin:/bin"),
        &strings(&["deno", "fmt"]),
        &unix("/work"),
        vec![Variable { name: "PATH".to_string(), value: Word::text("/mine") }],
        &strings(&["--check"]),
        &vec![unix("a.ts")],
    );
    let want = Command::new(Word::text("deno"), "deno hook")
        .dir(&unix("/work"))
        .text("fmt")
        .text("--check")
        .path(&unix("a.ts"))
        .env("PATH", Word::text("/env/bin:/bin"))
        .env("DENO_DIR", Word::path(&unix("/cache/deno")))
        // The variables of the hook come last, so they prevail.
        .env("PATH", Word::text("/mine"))
        .unchecked();
    assert_eq!(command, want);
}
