//! Hooks that are scripts: a script of the repository, or one that is written into the
//! configuration.

use vstd::prelude::*;

use crate::action;
use crate::action::{Command, Failure, Variable};
use crate::path::buf;
use crate::path::buf::PathBuf;
use crate::path::model::PathView;
use crate::platform::Platform;
use crate::run;
use crate::strings;
use crate::text;
use crate::text::Class;

verus! {

/// The words that `shlex::split` makes of a text, unless quotes in it are left open.
pub uninterp spec fn shell_words(text: Seq<char>) -> Option<Seq<Seq<char>>>;

/// Splits a text into words as a shell does, by `shlex::split`. The words depend on the
/// text alone and are named by [`shell_words`].
#[verifier::external_body]
fn split_shell_words(text: &str) -> (r: Option<Vec<String>>)
    ensures
        match r {
            Some(words) => shell_words(text@) == Some(text::texts(words@)),
            None => shell_words(text@) is None,
        },
{
    shlex::split(text)
}

/// The words of an entry, given how it was split, or why it has none: quotes are left open,
/// or there is no word in it.
pub open spec fn words_of_entry(entry: Seq<char>, words: Option<Seq<Seq<char>>>) -> Result<
    Seq<Seq<char>>,
    Seq<Seq<char>>,
> {
    match words {
        Some(words) => if words.len() > 0 {
            Ok(words)
        } else {
            Err(seq!["The entry `"@ + entry + "` is empty"@])
        },
        None => Err(seq!["Failed to parse entry `"@ + entry + "`"@]),
    }
}

/// The words of an entry, given how it was split. There is at least one.
pub fn check_entry_words(entry: &str, words: Option<Vec<String>>) -> (r: Result<
    Vec<String>,
    Failure,
>)
    ensures
        match words {
            Some(words) => match r {
                Ok(split) => split == words && words@.len() > 0,
                Err(e) => words@.len() == 0 && words_of_entry(entry@, Some(Seq::empty())) == Err::<
                    Seq<Seq<char>>,
                    Seq<Seq<char>>,
                >(e@),
            },
            None => r matches Err(e) && words_of_entry(entry@, None) == Err::<
                Seq<Seq<char>>,
                Seq<Seq<char>>,
            >(e@),
        },
{
    match words {
        Some(words) => if words.len() > 0 {
            Ok(words)
        } else {
            let mut message = "The entry `".to_owned();
            message.append(entry);
            message.append("` is empty");
            Err(Failure::new(message))
        },
        None => {
            let mut message = "Failed to parse entry `".to_owned();
            message.append(entry);
            message.append("`");
            Err(Failure::new(message))
        },
    }
}

/// Splits an entry into its words, of which there is at least one.
pub fn split_entry(entry: &str) -> (r: Result<Vec<String>, Failure>)
    ensures
        match r {
            Ok(words) => shell_words(entry@) == Some(text::texts(words@)) && words@.len() > 0,
            Err(e) => words_of_entry(entry@, shell_words(entry@)) == Err::<
                Seq<Seq<char>>,
                Seq<Seq<char>>,
            >(e@),
        },
        r is Ok <==> (shell_words(entry@) matches Some(words) && words.len() > 0),
{
    let words = split_shell_words(entry);
    proof {
        if words is Some {
            let found = text::texts(words->0@);
            assert(found.len() == words->0@.len());
            if found.len() == 0 {
                assert(found =~= Seq::<Seq<char>>::empty());
            }
        }
    }
    check_entry_words(entry, words)
}

/// What an entry is.
#[derive(Debug, PartialEq)]
pub enum Inline {
    /// A script.
    Script,
    /// The path of a script.
    Path,
    /// The path of a script, if there is a file at this path, else a script.
    PathIfFile(PathBuf),
}

/// What an entry is.
pub enum InlineView {
    Script,
    Path,
    PathIfFile(PathView),
}

impl View for Inline {
    type V = InlineView;

    open spec fn view(&self) -> InlineView {
        match self {
            Inline::Script => InlineView::Script,
            Inline::Path => InlineView::Path,
            Inline::PathIfFile(path) => InlineView::PathIfFile(path@),
        }
    }
}

/// An entry without the line ends that a YAML block scalar may have kept.
pub open spec fn entry_text(entry: Seq<char>) -> Seq<char> {
    text::trim_end(entry, Class::LineEnd)
}

/// Whether a text has more than one line.
pub open spec fn has_lines(s: Seq<char>) -> bool {
    text::has_text(s, "\n"@) || text::has_text(s, "\r"@)
}

/// What an entry is, given its words: a script has more than one line, and its first word
/// is not a file in the repository.
pub open spec fn inline_kind(
    entry: Seq<char>,
    repo: PathView,
    words: Option<Seq<Seq<char>>>,
) -> InlineView {
    if !has_lines(entry_text(entry)) {
        InlineView::Path
    } else {
        match words {
            Some(words) => if words.len() > 0 {
                InlineView::PathIfFile(repo.child(words[0]))
            } else {
                InlineView::Script
            },
            None => InlineView::Script,
        }
    }
}

/// Whether an entry is a script, given whether there is a file at the path that its kind
/// asks for.
pub open spec fn is_inline(kind: InlineView, is_file: bool) -> bool {
    match kind {
        InlineView::Script => true,
        InlineView::Path => false,
        InlineView::PathIfFile(_) => !is_file,
    }
}

/// Tells what an entry is, given its words.
pub fn classify_entry(entry: &str, repo_path: &PathBuf, words: &Option<Vec<String>>) -> (r: Inline)
    ensures
        r@ == inline_kind(
            entry@,
            repo_path@,
            match words {
                Some(words) => Some(text::texts(words@)),
                None => None,
            },
        ),
{
    let entry = strings::trim_end(entry, Class::LineEnd);
    if !(strings::contains(entry.as_str(), "\n") || strings::contains(entry.as_str(), "\r")) {
        return Inline::Path;
    }
    match words {
        Some(words) => {
            proof {
                assert(text::texts(words@).len() == words@.len());
            }
            if words.len() > 0 {
                proof {
                    assert(text::texts(words@)[0] == words@[0]@);
                }
                Inline::PathIfFile(repo_path.join(words[0].as_str()))
            } else {
                Inline::Script
            }
        },
        None => Inline::Script,
    }
}

/// Determines if an entry is an inline script or a script path. It is a script if
/// - it has more than one line, and
/// - its first word is not a file in the repository.
pub fn is_inline_script(entry: &str, repo_path: &PathBuf) -> (r: Inline)
    ensures
        r@ == inline_kind(entry@, repo_path@, shell_words(entry_text(entry@))),
{
    let trimmed = strings::trim_end(entry, Class::LineEnd);
    let words = split_shell_words(trimmed.as_str());
    classify_entry(entry, repo_path, &words)
}

impl Inline {
    /// Tells whether the entry is a script. `is_file` says whether there is a file at the
    /// path that is asked for.
    pub fn decide(&self, is_file: bool) -> (r: bool)
        ensures
            r == is_inline(self@, is_file),
    {
        match self {
            Inline::Script => true,
            Inline::Path => false,
            Inline::PathIfFile(_) => !is_file,
        }
    }
}

/// Line ends at the end of an entry make no difference, however many a block scalar kept.
pub proof fn law_final_line_ends_do_not_matter(
    entry: Seq<char>,
    more: Seq<char>,
    repo: PathView,
    words: Option<Seq<Seq<char>>>,
)
    requires
        forall|i: int| 0 <= i < more.len() ==> Class::LineEnd.has(#[trigger] more[i]),
    ensures
        entry_text(entry + more) == entry_text(entry),
        inline_kind(entry + more, repo, words) == inline_kind(entry, repo, words),
    decreases more.len(),
{
    if more.len() == 0 {
        assert(entry + more =~= entry);
    } else {
        let less = more.drop_last();
        assert forall|i: int| 0 <= i < less.len() implies Class::LineEnd.has(#[trigger] less[i]) by {
            assert(less[i] == more[i]);
        }
        law_final_line_ends_do_not_matter(entry, less, repo, words);
        let all = entry + more;
        assert(all.drop_last() =~= entry + less);
        assert(all.last() == more[more.len() - 1]);
    }
}

/// An entry of one line is never a script, whatever files there are.
pub proof fn law_one_line_is_no_script(
    entry: Seq<char>,
    repo: PathView,
    words: Option<Seq<Seq<char>>>,
    is_file: bool,
)
    requires
        !has_lines(entry_text(entry)),
    ensures
        !is_inline(inline_kind(entry, repo, words), is_file),
{
}

/// The command of a shebang line, if there is one that can be read.
pub fn parse_inline_shebang(parsed: Result<Vec<String>, Failure>) -> (r: Option<Vec<String>>)
    ensures
        match parsed {
            Ok(words) => r == Some(words),
            Err(_) => r is None,
        },
{
    match parsed {
        Ok(words) => Some(words),
        Err(_) => None,
    }
}

/// A shell and how it runs a script.
#[derive(Debug, PartialEq, Eq)]
pub struct ShellSpec {
    /// The executable file of the shell.
    pub program: String,
    /// The arguments before the script.
    pub prefix_args: Vec<String>,
    /// The extension of a script for the shell.
    pub extension: String,
}

/// A shell and how it runs a script.
#[verifier::ext_equal]
pub struct ShellSpecView {
    pub program: Seq<char>,
    pub prefix_args: Seq<Seq<char>>,
    pub extension: Seq<char>,
}

impl View for ShellSpec {
    type V = ShellSpecView;

    open spec fn view(&self) -> ShellSpecView {
        ShellSpecView {
            program: self.program@,
            prefix_args: text::texts(self.prefix_args@),
            extension: self.extension@,
        }
    }
}

/// The command that runs a script with a shell.
pub open spec fn shell_command(spec: ShellSpecView, script: PathView) -> Seq<Seq<char>> {
    seq![spec.program] + spec.prefix_args + seq![action::shown(script)]
}

impl ShellSpec {
    /// The command that runs a script.
    pub fn build_for_script(&self, script_path: &PathBuf) -> (r: Vec<String>)
        ensures
            text::texts(r@) == shell_command(self@, script_path@),
    {
        let mut cmd: Vec<String> = Vec::new();
        cmd.push(self.program.clone());
        let ghost first = cmd@;
        let mut args = strings::copy_list(&self.prefix_args);
        let ghost second = args@;
        cmd.append(&mut args);
        let script = script_path.to_string_lossy();
        cmd.push(script);
        proof {
            assert(text::texts(cmd@) =~= text::texts(first) + text::texts(second) + seq![script@]);
            assert(text::texts(first) =~= seq![self.program@]);
        }
        cmd
    }
}

/// The shells that are looked for on a platform, the best first.
pub open spec fn shell_names(platform: Platform) -> Seq<Seq<char>> {
    match platform {
        Platform::Unix => seq!["bash"@, "sh"@],
        Platform::Windows => seq!["pwsh"@, "powershell"@, "cmd"@],
    }
}

/// The shells that are looked for on a platform, the best first.
pub fn shell_candidates(platform: Platform) -> (r: Vec<String>)
    ensures
        text::texts(r@) == shell_names(platform),
        r@.len() == shell_names(platform).len(),
{
    let mut r: Vec<String> = Vec::new();
    match platform {
        Platform::Unix => {
            r.push("bash".to_owned());
            r.push("sh".to_owned());
        },
        Platform::Windows => {
            r.push("pwsh".to_owned());
            r.push("powershell".to_owned());
            r.push("cmd".to_owned());
        },
    }
    proof {
        assert(text::texts(r@) =~= shell_names(platform));
    }
    r
}

/// A Unix shell, which stops at the first command that fails.
pub open spec fn unix_shell(path: PathView) -> ShellSpecView {
    ShellSpecView {
        program: action::shown(path),
        prefix_args: seq!["-e"@],
        extension: "sh"@,
    }
}

/// A PowerShell.
pub open spec fn power_shell(path: PathView) -> ShellSpecView {
    ShellSpecView {
        program: action::shown(path),
        prefix_args: seq![
            "-NoProfile"@,
            "-NonInteractive"@,
            "-ExecutionPolicy"@,
            "Bypass"@,
            "-File"@,
        ],
        extension: "ps1"@,
    }
}

/// The command interpreter of Windows.
pub open spec fn command_shell(path: PathView) -> ShellSpecView {
    ShellSpecView {
        program: action::shown(path),
        prefix_args: seq!["/d"@, "/s"@, "/c"@],
        extension: "cmd"@,
    }
}

/// The shell that runs scripts without a shebang: the first of the shells of the platform
/// that was found.
pub open spec fn default_shell(platform: Platform, found: Seq<Option<PathView>>) -> Result<
    ShellSpecView,
    Seq<Seq<char>>,
> {
    match platform {
        Platform::Unix => match (found[0], found[1]) {
            (Some(bash), _) => Ok(unix_shell(bash)),
            (None, Some(sh)) => Ok(unix_shell(sh)),
            (None, None) => Err(seq!["No suitable default shell found (tried bash, sh)"@]),
        },
        Platform::Windows => match (found[0], found[1], found[2]) {
            (Some(pwsh), _, _) => Ok(power_shell(pwsh)),
            (None, Some(powershell), _) => Ok(power_shell(powershell)),
            (None, None, Some(cmd)) => Ok(command_shell(cmd)),
            (None, None, None) => Err(
                seq!["No suitable default shell found (tried pwsh, powershell, cmd)"@],
            ),
        },
    }
}

/// The paths that a list holds where it holds any.
pub open spec fn found_views(found: Seq<Option<PathBuf>>) -> Seq<Option<PathView>> {
    found.map_values(|p: Option<PathBuf>| buf::optional_view(p))
}

/// A Unix shell.
fn new_unix_shell(path: &PathBuf) -> (r: ShellSpec)
    ensures
        r@ == unix_shell(path@),
{
    let mut prefix_args: Vec<String> = Vec::new();
    prefix_args.push("-e".to_owned());
    let r = ShellSpec { program: path.to_string_lossy(), prefix_args, extension: "sh".to_owned() };
    proof {
        assert(r@ =~= unix_shell(path@));
    }
    r
}

/// A PowerShell.
fn new_power_shell(path: &PathBuf) -> (r: ShellSpec)
    ensures
        r@ == power_shell(path@),
{
    let mut prefix_args: Vec<String> = Vec::new();
    prefix_args.push("-NoProfile".to_owned());
    prefix_args.push("-NonInteractive".to_owned());
    prefix_args.push("-ExecutionPolicy".to_owned());
    prefix_args.push("Bypass".to_owned());
    prefix_args.push("-File".to_owned());
    let r = ShellSpec { program: path.to_string_lossy(), prefix_args, extension: "ps1".to_owned() };
    proof {
        assert(r@.prefix_args =~= power_shell(path@).prefix_args);
    }
    r
}

/// The command interpreter of Windows.
fn new_command_shell(path: &PathBuf) -> (r: ShellSpec)
    ensures
        r@ == command_shell(path@),
{
    let mut prefix_args: Vec<String> = Vec::new();
    prefix_args.push("/d".to_owned());
    prefix_args.push("/s".to_owned());
    prefix_args.push("/c".to_owned());
    let r = ShellSpec { program: path.to_string_lossy(), prefix_args, extension: "cmd".to_owned() };
    proof {
        assert(r@.prefix_args =~= command_shell(path@).prefix_args);
    }
    r
}

/// The shell that runs scripts without a shebang. `found` holds for each of the
/// [`shell_candidates`] where it was found.
pub fn resolve_default_shell_spec(platform: Platform, found: &Vec<Option<PathBuf>>) -> (r: Result<
    ShellSpec,
    Failure,
>)
    requires
        found@.len() == shell_names(platform).len(),
    ensures
        match r {
            Ok(spec) => default_shell(platform, found_views(found@)) == Ok::<
                ShellSpecView,
                Seq<Seq<char>>,
            >(spec@),
            Err(e) => default_shell(platform, found_views(found@)) == Err::<
                ShellSpecView,
                Seq<Seq<char>>,
            >(e@),
        },
{
    let ghost views = found_views(found@);
    match platform {
        Platform::Unix => {
            proof {
                assert(views[0] == buf::optional_view(found@[0]));
                assert(views[1] == buf::optional_view(found@[1]));
            }
            if let Some(path) = &found[0] {
                return Ok(new_unix_shell(path));
            }
            if let Some(path) = &found[1] {
                return Ok(new_unix_shell(path));
            }
            Err(Failure::of("No suitable default shell found (tried bash, sh)"))
        },
        Platform::Windows => {
            proof {
                assert(views[0] == buf::optional_view(found@[0]));
                assert(views[1] == buf::optional_view(found@[1]));
                assert(views[2] == buf::optional_view(found@[2]));
            }
            if let Some(path) = &found[0] {
                return Ok(new_power_shell(path));
            }
            if let Some(path) = &found[1] {
                return Ok(new_power_shell(path));
            }
            if let Some(path) = &found[2] {
                return Ok(new_command_shell(path));
            }
            Err(Failure::of("No suitable default shell found (tried pwsh, powershell, cmd)"))
        },
    }
}

/// A default shell is found if and only if one of the shells of the platform was.
pub proof fn law_any_shell_will_do(platform: Platform, found: Seq<Option<PathView>>)
    requires
        found.len() == shell_names(platform).len(),
    ensures
        default_shell(platform, found) is Ok <==> exists|i: int|
            0 <= i < found.len() && (#[trigger] found[i]) is Some,
{
    let ok = default_shell(platform, found) is Ok;
    assert(ok <==> (found[0] is Some || found[1] is Some || (platform is Windows && found[2]
        is Some)));
}

/// The extension of a script for an interpreter.
pub open spec fn interpreter_extension(interpreter: Seq<char>) -> Seq<char> {
    if text::has_text(interpreter, "pwsh"@) || text::has_text(interpreter, "powershell"@) {
        "ps1"@
    } else if text::has_text(interpreter, "cmd"@) {
        "cmd"@
    } else if text::has_text(interpreter, "python"@) {
        "py"@
    } else {
        "sh"@
    }
}

/// The extension of a script for an interpreter.
pub fn extension_for_interpreter(interpreter: &str) -> (r: &'static str)
    ensures
        r@ == interpreter_extension(interpreter@),
{
    if strings::contains(interpreter, "pwsh") || strings::contains(interpreter, "powershell") {
        "ps1"
    } else if strings::contains(interpreter, "cmd") {
        "cmd"
    } else if strings::contains(interpreter, "python") {
        "py"
    } else {
        "sh"
    }
}

/// A script of the configuration that is written to a file to be run.
#[derive(Debug, PartialEq, Eq)]
pub struct InlineScript {
    /// The name of the file.
    pub file_name: String,
    /// The shell that runs it, unless its shebang says what does.
    pub shell: Option<ShellSpec>,
}

/// The name of the file of a script.
pub open spec fn script_file_name(hook_id: Seq<char>, extension: Seq<char>) -> Seq<char> {
    "prek-script-"@ + hook_id + "."@ + extension
}

/// The extension of a script with a shebang.
pub open spec fn shebang_extension(shebang: Seq<Seq<char>>) -> Seq<char> {
    if shebang.len() > 0 {
        interpreter_extension(shebang[0])
    } else {
        "sh"@
    }
}

/// Plans the file of a script: with a shebang it is run by what that says, else by the
/// default shell, which then must be there.
pub fn plan_inline_script(
    hook_id: &str,
    shebang: Option<Vec<String>>,
    default_shell: Result<ShellSpec, Failure>,
) -> (r: Result<InlineScript, Failure>)
    ensures
        match (shebang, default_shell) {
            (Some(words), _) => r matches Ok(script) && script.shell is None
                && script.file_name@ == script_file_name(
                hook_id@,
                shebang_extension(text::texts(words@)),
            ),
            (None, Ok(spec)) => r matches Ok(script) && script.shell == Some(spec)
                && script.file_name@ == script_file_name(hook_id@, spec.extension@),
            (None, Err(e)) => r == Err::<InlineScript, Failure>(e),
        },
{
    let mut file_name = "prek-script-".to_owned();
    file_name.append(hook_id);
    file_name.append(".");
    match shebang {
        Some(words) => {
            proof {
                assert(text::texts(words@).len() == words@.len());
            }
            if words.len() > 0 {
                proof {
                    assert(text::texts(words@)[0] == words@[0]@);
                }
                file_name.append(extension_for_interpreter(words[0].as_str()));
            } else {
                file_name.append("sh");
            }
            Ok(InlineScript { file_name, shell: None })
        },
        None => match default_shell {
            Ok(spec) => {
                file_name.append(spec.extension.as_str());
                Ok(InlineScript { file_name, shell: Some(spec) })
            },
            Err(failure) => Err(failure),
        },
    }
}

impl InlineScript {
    /// The file of the script in a directory.
    pub fn script_path(&self, dir: &PathBuf) -> (r: PathBuf)
        ensures
            r@ == dir@.child(self.file_name@),
    {
        dir.join(self.file_name.as_str())
    }

    /// Tells whether the program of the command is still to be found: a script that its
    /// shebang says how to run has one, while a shell is already an executable file.
    pub fn needs_resolving(&self) -> (r: bool)
        ensures
            r == (self.shell is None),
    {
        self.shell.is_none()
    }

    /// The command that runs the script: the shell with the script, or the script alone
    /// where its shebang says what runs it.
    pub fn entry(&self, script_path: &PathBuf) -> (r: Vec<String>)
        ensures
            text::texts(r@) == match self.shell {
                Some(spec) => shell_command(spec@, script_path@),
                None => seq![action::shown(script_path@)],
            },
    {
        match &self.shell {
            Some(spec) => spec.build_for_script(script_path),
            None => {
                let mut r: Vec<String> = Vec::new();
                let script = script_path.to_string_lossy();
                r.push(script);
                proof {
                    assert(text::texts(r@) =~= seq![script@]);
                }
                r
            },
        }
    }
}

/// The entry of a script of the repository: its first word is the path of the script, below
/// the repository. The entry must not be empty.
pub fn script_entry(words: Vec<String>, repo_path: &PathBuf) -> (r: Vec<String>)
    requires
        words@.len() > 0,
    ensures
        text::texts(r@) == text::texts(words@).update(
            0,
            action::shown(repo_path@.child(words@[0]@)),
        ),
        r@.len() == words@.len(),
{
    let script = repo_path.join(words[0].as_str()).to_string_lossy();
    let mut r = words;
    r.set(0, script);
    proof {
        assert(text::texts(r@) =~= text::texts(words@).update(0, script@));
    }
    r
}

/// The command that runs a script over a batch of files. The entry must not be empty.
pub fn run_command(
    entry: &Vec<String>,
    work_dir: &PathBuf,
    env: Vec<Variable>,
    args: &Vec<String>,
    batch: &Vec<PathBuf>,
) -> (r: Command)
    requires
        entry@.len() > 0,
    ensures
        r@ == run::hook_command(
            "run script command"@,
            text::texts(entry@),
            work_dir@,
            action::variable_views(env@),
            text::texts(args@),
            buf::path_views(batch@),
        ).without_input(),
{
    run::build_hook_command(
        "run script command",
        entry,
        work_dir,
        env,
        args,
        batch,
    ).without_input()
}

/// The shells are tried in order. Bash, or sh without it, gets `-e` and a `.sh` file. On
/// Windows either PowerShell gets the arguments that make it run one file and nothing else,
/// and a `.ps1` file; only where there is none, cmd gets `/d /s /c` and a `.cmd` file. Without
/// any of them it is said which were tried.
pub proof fn law_first_shell_found_runs_the_script(
    platform: Platform,
    found: Seq<Option<PathView>>,
)
    requires
        platform is Unix ==> found.len() == 2,
        platform is Windows ==> found.len() == 3,
    ensures
        shell_names(Platform::Unix) == seq!["bash"@, "sh"@],
        shell_names(Platform::Windows) == seq!["pwsh"@, "powershell"@, "cmd"@],
        forall|i: int|
            0 <= i < 2 && platform is Unix && (#[trigger] found[i]) is Some && (forall|j: int|
                0 <= j < i ==> (#[trigger] found[j]) is None) ==> default_shell(platform, found)
                == Ok::<ShellSpecView, Seq<Seq<char>>>(
                (ShellSpecView {
                    program: action::shown(found[i]->0),
                    prefix_args: seq!["-e"@],
                    extension: "sh"@,
                }),
            ),
        forall|i: int|
            0 <= i < 2 && platform is Windows && (#[trigger] found[i]) is Some && (forall|j: int|
                0 <= j < i ==> (#[trigger] found[j]) is None) ==> default_shell(platform, found)
                == Ok::<ShellSpecView, Seq<Seq<char>>>(
                (ShellSpecView {
                    program: action::shown(found[i]->0),
                    prefix_args: seq![
                        "-NoProfile"@,
                        "-NonInteractive"@,
                        "-ExecutionPolicy"@,
                        "Bypass"@,
                        "-File"@,
                    ],
                    extension: "ps1"@,
                }),
            ),
        platform is Windows && found[0] is None && found[1] is None ==> (found[2] matches Some(cmd)
            ==> default_shell(platform, found) == Ok::<ShellSpecView, Seq<Seq<char>>>(
            (ShellSpecView {
                program: action::shown(cmd),
                prefix_args: seq!["/d"@, "/s"@, "/c"@],
                extension: "cmd"@,
            }),
        )),
        (forall|i: int| 0 <= i < found.len() ==> (#[trigger] found[i]) is None) ==> default_shell(
            platform,
            found,
        ) == Err::<ShellSpecView, Seq<Seq<char>>>(
            seq![
                match platform {
                    Platform::Unix => "No suitable default shell found (tried bash, sh)"@,
                    Platform::Windows =>
                        "No suitable default shell found (tried pwsh, powershell, cmd)"@,
                },
            ],
        ),
{
    assert forall|i: int|
        0 <= i < 2 && (#[trigger] found[i]) is Some && (forall|j: int|
            0 <= j < i ==> (#[trigger] found[j]) is None) implies i == 0 || found[0] is None by {
        if i == 1 {
            assert(found[0] is None);
        }
    }
}

/// A shell is started by its own path, gets its arguments in order, and the script last.
pub proof fn law_shell_gets_the_script_last(spec: ShellSpecView, script: PathView)
    ensures
        ({
            let command = shell_command(spec, script);
            &&& command.len() == spec.prefix_args.len() + 2
            &&& command[0] == spec.program
            &&& forall|i: int|
                0 <= i < spec.prefix_args.len() ==> #[trigger] command[i + 1]
                    == spec.prefix_args[i]
            &&& command[command.len() - 1] == action::shown(script)
        }),
{
}

/// The extension that a script gets for an interpreter: that of PowerShell before that of
/// cmd, before that of Python, and that of a shell for all others.
pub proof fn law_extension_fits_the_interpreter(interpreter: Seq<char>)
    ensures
        ({
            let pwsh = text::has_text(interpreter, "pwsh"@) || text::has_text(
                interpreter,
                "powershell"@,
            );
            let cmd = text::has_text(interpreter, "cmd"@);
            let python = text::has_text(interpreter, "python"@);
            let extension = interpreter_extension(interpreter);
            &&& extension == "ps1"@ <==> pwsh
            &&& extension == "cmd"@ <==> cmd && !pwsh
            &&& extension == "py"@ <==> python && !cmd && !pwsh
            &&& extension == "sh"@ <==> !python && !cmd && !pwsh
        }),
        forall|args: Seq<Seq<char>>| #[trigger]
            shebang_extension(seq![interpreter] + args) == interpreter_extension(interpreter),
        shebang_extension(Seq::empty()) == "sh"@,
{
    reveal_strlit("ps1");
    reveal_strlit("cmd");
    reveal_strlit("py");
    reveal_strlit("sh");
    assert("ps1"@[0] == 'p' && "cmd"@[0] == 'c' && "py"@.len() == 2 && "sh"@[0] == 's');
    assert("ps1"@.len() == 3 && "sh"@.len() == 2 && "py"@[0] == 'p' && "cmd"@.len() == 3);
    assert forall|args: Seq<Seq<char>>| #[trigger]
        shebang_extension(seq![interpreter] + args) == interpreter_extension(interpreter) by {
        assert((seq![interpreter] + args)[0] == interpreter);
    }
}

/// The file of a script has the name of its hook in it and the extension at its end, and
/// two hooks never share a file.
pub proof fn law_script_file_belongs_to_its_hook(
    hook_id: Seq<char>,
    other_id: Seq<char>,
    extension: Seq<char>,
)
    ensures
        text::begins(script_file_name(hook_id, extension), "prek-script-"@ + hook_id + "."@),
        text::ends(script_file_name(hook_id, extension), "."@ + extension),
        script_file_name(hook_id, extension).len() == 12 + hook_id.len() + 1 + extension.len(),
        script_file_name(hook_id, extension) == script_file_name(other_id, extension) ==> hook_id
            == other_id,
{
    reveal_strlit("prek-script-");
    reveal_strlit(".");
    let name = script_file_name(hook_id, extension);
    let front = "prek-script-"@ + hook_id + "."@;
    assert(name.take(front.len() as int) =~= front);
    let back = "."@ + extension;
    assert(name.skip(name.len() - back.len()) =~= back);
    let other = script_file_name(other_id, extension);
    if name == other {
        assert(hook_id.len() == other_id.len());
        assert(hook_id =~= name.subrange(12, 12 + hook_id.len() as int));
        assert(other_id =~= other.subrange(12, 12 + hook_id.len() as int));
    }
}

/// A text has a line end if and only if one of its characters is one.
proof fn lemma_has_lines(s: Seq<char>)
    ensures
        has_lines(s) <==> exists|i: int|
            0 <= i < s.len() && (#[trigger] s[i] == '\n' || s[i] == '\r'),
{
    reveal_strlit("\n");
    reveal_strlit("\r");
    if text::has_text(s, "\n"@) {
        let i = choose|i: int|
            0 <= i && i + "\n"@.len() <= s.len() && #[trigger] s.subrange(i, i + "\n"@.len())
                == "\n"@;
        assert(s.subrange(i, i + 1)[0] == s[i]);
        assert(s[i] == '\n');
    }
    if text::has_text(s, "\r"@) {
        let i = choose|i: int|
            0 <= i && i + "\r"@.len() <= s.len() && #[trigger] s.subrange(i, i + "\r"@.len())
                == "\r"@;
        assert(s.subrange(i, i + 1)[0] == s[i]);
        assert(s[i] == '\r');
    }
    if exists|i: int| 0 <= i < s.len() && (#[trigger] s[i] == '\n' || s[i] == '\r') {
        let i = choose|i: int| 0 <= i < s.len() && (#[trigger] s[i] == '\n' || s[i] == '\r');
        if s[i] == '\n' {
            assert(s.subrange(i, i + "\n"@.len()) =~= "\n"@);
        } else {
            assert(s.subrange(i, i + "\r"@.len()) =~= "\r"@);
        }
    }
}

/// An entry is a script if and only if there is a line end in it that does not belong to its
/// end, and its first word, if it has one, is not a file in the repository. Which file that
/// would be is asked only where the answer counts.
pub proof fn law_script_has_lines_and_is_no_file(
    entry: Seq<char>,
    repo: PathView,
    words: Option<Seq<Seq<char>>>,
    is_file: bool,
)
    ensures
        ({
            let lines = exists|i: int, j: int|
                0 <= i < j < entry.len() && (#[trigger] entry[i] == '\n' || entry[i] == '\r') && (
                #[trigger] entry[j] != '\n' && entry[j] != '\r');
            let word = match words {
                Some(words) => words.len() > 0,
                None => false,
            };
            let kind = inline_kind(entry, repo, words);
            &&& is_inline(kind, is_file) <==> lines && !(word && is_file)
            &&& lines && word ==> kind == InlineView::PathIfFile(repo.child(words->0[0]))
            &&& kind is PathIfFile ==> lines && word
        }),
{
    let s = entry_text(entry);
    lemma_entry_text(entry);
    lemma_has_lines(s);
    let lines = exists|i: int, j: int|
        0 <= i < j < entry.len() && (#[trigger] entry[i] == '\n' || entry[i] == '\r') && (
        #[trigger] entry[j] != '\n' && entry[j] != '\r');
    if has_lines(s) {
        let i = choose|i: int| 0 <= i < s.len() && (#[trigger] s[i] == '\n' || s[i] == '\r');
        let j = s.len() - 1;
        assert(entry[i] == s[i]);
        assert(entry[j] == s[j]);
        assert(!Class::LineEnd.has(s[j]));
        assert(lines);
    }
    if lines {
        let (i, j) = choose|i: int, j: int|
            0 <= i < j < entry.len() && (#[trigger] entry[i] == '\n' || entry[i] == '\r') && (
            #[trigger] entry[j] != '\n' && entry[j] != '\r');
        if j >= s.len() {
            assert(Class::LineEnd.has(entry[j]));
        }
        assert(s[i] == entry[i]);
    }
}

/// What is taken off the end of an entry are line ends, and none is left there.
proof fn lemma_entry_text(entry: Seq<char>)
    ensures
        ({
            let s = entry_text(entry);
            &&& s.len() <= entry.len()
            &&& s == entry.take(s.len() as int)
            &&& s.len() > 0 ==> !Class::LineEnd.has(s.last())
            &&& forall|i: int|
                s.len() <= i < entry.len() ==> Class::LineEnd.has(#[trigger] entry[i])
        }),
    decreases entry.len(),
{
    if entry.len() > 0 && Class::LineEnd.has(entry.last()) {
        let front = entry.drop_last();
        lemma_entry_text(front);
        let s = entry_text(entry);
        assert(s == entry_text(front));
        assert(entry.take(s.len() as int) =~= front.take(s.len() as int));
        assert forall|i: int| s.len() <= i < entry.len() implies Class::LineEnd.has(
            #[trigger] entry[i],
        ) by {
            if i < front.len() {
                assert(front[i] == entry[i]);
            }
        }
    } else {
        assert(entry.take(entry.len() as int) =~= entry);
    }
}

/// The words of an entry are those that it was split into, if there are any. Else it is said
/// of the entry that it is empty, or that it cannot be read.
pub proof fn law_words_of_an_entry_are_kept(entry: Seq<char>, words: Option<Seq<Seq<char>>>)
    ensures
        match words {
            None => words_of_entry(entry, words) == Err::<Seq<Seq<char>>, Seq<Seq<char>>>(
                seq!["Failed to parse entry `"@ + entry + "`"@],
            ),
            Some(split) => if split.len() > 0 {
                words_of_entry(entry, words) == Ok::<Seq<Seq<char>>, Seq<Seq<char>>>(split)
            } else {
                words_of_entry(entry, words) == Err::<Seq<Seq<char>>, Seq<Seq<char>>>(
                    seq!["The entry `"@ + entry + "` is empty"@],
                )
            },
        },
{
}

} // verus!
