use prek::action::{Failure, Variable, Word};
use prek::path::PathBuf;
use prek::platform::Platform;
use prek::run::{BatchOutput, batch_result, combine_results};
use prek::script::{
    Inline, InlineScript, ShellSpec, check_entry_words, classify_entry, extension_for_interpreter,
    is_inline_script, parse_inline_shebang, plan_inline_script, resolve_default_shell_spec,
    run_command, script_entry, shell_candidates, split_entry,
};

fn strings(list: &[&str]) -> Vec<String> {
    list.iter().map(|s| s.to_string()).collect()
}

fn bash() -> ShellSpec {
    ShellSpec {
        program: "/bin/bash".to_string(),
        prefix_args: strings(&["-e"]),
        extension: "sh".to_string(),
    }
}

#[test]
fn entries_are_split_into_words() {
    assert_eq!(
        split_entry("run 'my script.sh' \"a b\" c\\ d"),
        Ok(strings(&["run", "my script.sh", "a b", "c d"]))
    );
    for empty in ["", " ", "\n"] {
        let messages = vec![format!("The entry `{empty}` is empty")];
        assert_eq!(split_entry(empty), Err(Failure { messages }));
    }
    let open = split_entry("echo 'a");
    assert_eq!(open, Err(Failure { messages: strings(&["Failed to parse entry `echo 'a`"]) }));
    assert_eq!(check_entry_words("x", Some(strings(&["y"]))), Ok(strings(&["y"])));
    assert_eq!(
        check_entry_words("x", Some(vec![])),
        Err(Failure { messages: strings(&["The entry `x` is empty"]) })
    );
}

#[test]
fn one_line_is_a_path() {
    let repo = PathBuf::unix("/repo");
    assert_eq!(is_inline_script("run.sh --flag", &repo), Inline::Path);
    assert_eq!(is_inline_script("run.sh\n", &repo), Inline::Path);
    assert_eq!(is_inline_script("run.sh\r\n\n", &repo), Inline::Path);
    assert!(!Inline::Path.decide(false));
}

#[test]
fn several_lines_are_a_script_unless_the_first_word_is_a_file() {
    let repo = PathBuf::unix("/repo");
    let kind = is_inline_script("'my script.sh' a\nb\n", &repo);
    assert_eq!(kind, Inline::PathIfFile(PathBuf::unix("/repo/my script.sh")));
    assert!(kind.decide(false));
    assert!(!kind.decide(true));
    let open = is_inline_script("echo 'a\nb", &repo);
    assert_eq!(open, Inline::Script);
    assert!(open.decide(true));
    assert_eq!(is_inline_script("a\rb", &repo), Inline::PathIfFile(PathBuf::unix("/repo/a\rb")));
    assert_eq!(classify_entry("a\nb", &repo, &Some(vec![])), Inline::Script);
    assert_eq!(classify_entry("a\nb", &repo, &None), Inline::Script);
}

#[test]
fn final_line_ends_make_no_difference() {
    let repo = PathBuf::unix("/repo");
    for entry in ["a", "a\nb", "a 'x\ny"] {
        let bare = is_inline_script(entry, &repo);
        for more in ["\n", "\r\n", "\n\n\n"] {
            assert_eq!(is_inline_script(&format!("{entry}{more}"), &repo), bare);
        }
    }
}

#[test]
fn default_shells() {
    assert_eq!(shell_candidates(Platform::Unix), strings(&["bash", "sh"]));
    assert_eq!(shell_candidates(Platform::Windows), strings(&["pwsh", "powershell", "cmd"]));

    let found = vec![Some(PathBuf::unix("/bin/bash")), Some(PathBuf::unix("/bin/sh"))];
    assert_eq!(resolve_default_shell_spec(Platform::Unix, &found), Ok(bash()));
    let found = vec![None, Some(PathBuf::unix("/bin/sh"))];
    let spec = resolve_default_shell_spec(Platform::Unix, &found).unwrap();
    assert_eq!(spec.program, "/bin/sh");
    assert_eq!(
        resolve_default_shell_spec(Platform::Unix, &vec![None, None]),
        Err(Failure {
            messages: strings(&["No suitable default shell found (tried bash, sh)"])
        })
    );

    let found = vec![None, Some(PathBuf::windows("ps.exe")), Some(PathBuf::windows("cmd.exe"))];
    let spec = resolve_default_shell_spec(Platform::Windows, &found).unwrap();
    assert_eq!(spec.program, "ps.exe");
    assert_eq!(
        spec.prefix_args,
        strings(&["-NoProfile", "-NonInteractive", "-ExecutionPolicy", "Bypass", "-File"])
    );
    assert_eq!(spec.extension, "ps1");
    let found = vec![None, None, Some(PathBuf::windows("cmd.exe"))];
    let spec = resolve_default_shell_spec(Platform::Windows, &found).unwrap();
    assert_eq!(spec.prefix_args, strings(&["/d", "/s", "/c"]));
    assert_eq!(spec.extension, "cmd");
    assert_eq!(
        resolve_default_shell_spec(Platform::Windows, &vec![None, None, None]),
        Err(Failure {
            messages: strings(&["No suitable default shell found (tried pwsh, powershell, cmd)"])
        })
    );
}

#[test]
fn a_shell_is_given_the_script_last() {
    let command = bash().build_for_script(&PathBuf::unix("/tmp/s.sh"));
    assert_eq!(command, strings(&["/bin/bash", "-e", "/tmp/s.sh"]));
}

#[test]
fn extensions_of_interpreters() {
    assert_eq!(extension_for_interpreter("/usr/bin/pwsh"), "ps1");
    assert_eq!(extension_for_interpreter("powershell.exe"), "ps1");
    assert_eq!(extension_for_interpreter("cmd.exe"), "cmd");
    assert_eq!(extension_for_interpreter("/usr/bin/python3"), "py");
    assert_eq!(extension_for_interpreter("/bin/bash"), "sh");
}

#[test]
fn inline_scripts_are_planned() {
    let failed = || Failure { messages: strings(&["no shell"]) };
    let shebang = Some(strings(&["/usr/bin/python3", "-u"]));
    let script = plan_inline_script("my-hook", shebang, Err(failed())).unwrap();
    assert_eq!(
        script,
        InlineScript { file_name: "prek-script-my-hook.py".to_string(), shell: None }
    );
    let path = script.script_path(&PathBuf::unix("/tmp/x"));
    assert_eq!(path, PathBuf::unix("/tmp/x/prek-script-my-hook.py"));
    assert_eq!(script.entry(&path), strings(&["/tmp/x/prek-script-my-hook.py"]));
    assert!(script.needs_resolving());

    let script = plan_inline_script("h", None, Ok(bash())).unwrap();
    let path = script.script_path(&PathBuf::unix("/tmp"));
    assert_eq!(script.entry(&path), strings(&["/bin/bash", "-e", "/tmp/prek-script-h.sh"]));
    assert!(!script.needs_resolving());

    assert_eq!(plan_inline_script("h", Some(vec![]), Ok(bash())).unwrap().file_name, "prek-script-h.sh");
    assert_eq!(plan_inline_script("h", None, Err(failed())), Err(failed()));

    assert_eq!(parse_inline_shebang(Ok(strings(&["sh"]))), Some(strings(&["sh"])));
    assert_eq!(parse_inline_shebang(Err(failed())), None);
}

#[test]
fn scripts_of_the_repository_are_run_by_path() {
    let entry = script_entry(strings(&["bin/run.sh", "-v"]), &PathBuf::unix("/repo"));
    assert_eq!(entry, strings(&["/repo/bin/run.sh", "-v"]));
    let env = vec![Variable { name: "A".to_string(), value: Word::text("1") }];
    let batch = vec![PathBuf::unix("x.txt"), PathBuf::unix("y.txt")];
    let command =
        run_command(&entry, &PathBuf::unix("/work"), env, &strings(&["--all"]), &batch);
    assert_eq!(command.program, Word::text("/repo/bin/run.sh"));
    assert_eq!(
        command.args,
        vec![
            Word::text("-v"),
            Word::text("--all"),
            Word::path(&batch[0]),
            Word::path(&batch[1])
        ]
    );
    assert_eq!(command.current_dir, Some(PathBuf::unix("/work")));
    assert_eq!(command.env[0].name, "A");
    assert!(!command.check);
    assert!(command.null_stdin);
}

#[test]
fn batches_are_combined() {
    let output = BatchOutput { code: None, stdout: b"out".to_vec(), stderr: b"err".to_vec() };
    assert_eq!(batch_result(output), (1, b"outerr".to_vec()));
    let output = BatchOutput { code: Some(3), stdout: vec![], stderr: vec![] };
    assert_eq!(batch_result(output), (3, vec![]));

    assert_eq!(combine_results(vec![]), (0, vec![]));
    let results = vec![(1, b"a".to_vec()), (4, b"b".to_vec()), (0, b"c".to_vec())];
    assert_eq!(combine_results(results), (5, b"abc".to_vec()));
    assert_eq!(combine_results(vec![(0, vec![]), (0, vec![])]).0, 0);
    assert_ne!(combine_results(vec![(0, vec![]), (-1, vec![])]).0, 0);

    let first = combine_results(vec![(1, b"a".to_vec())]);
    let second = combine_results(vec![(2, b"b".to_vec()), (8, b"c".to_vec())]);
    let all = combine_results(vec![(1, b"a".to_vec()), (2, b"b".to_vec()), (8, b"c".to_vec())]);
    assert_eq!(combine_results(vec![first, second]), all);
}
