//! What a flow asks of the outside world and what it is answered.
//!
//! A flow never touches the world itself. It is a function from a phase and the outcome
//! of the last action to the next phase and what to do next.

use vstd::prelude::*;

use crate::path::buf::PathBuf;
use crate::path::model::PathView;
use crate::path::ops;
use crate::strings;
use crate::text;

verus! {

/// A word of a command: a text or a path.
#[derive(Debug, PartialEq)]
pub enum Word {
    Text(String),
    Path(PathBuf),
}

/// What a word of a command is.
pub enum WordView {
    Text(Seq<char>),
    Path(PathView),
}

impl View for Word {
    type V = WordView;

    open spec fn view(&self) -> WordView {
        match self {
            Word::Text(text) => WordView::Text(text@),
            Word::Path(path) => WordView::Path(path@),
        }
    }
}

impl Word {
    /// A text as a word.
    pub fn text(text: &str) -> (r: Word)
        ensures
            r@ == WordView::Text(text@),
    {
        Word::Text(text.to_owned())
    }

    /// A path as a word.
    pub fn path(path: &PathBuf) -> (r: Word)
        ensures
            r@ == WordView::Path(path@),
    {
        Word::Path(path.duplicate())
    }
}

/// A variable of the environment with its value.
#[derive(Debug, PartialEq)]
pub struct Variable {
    pub name: String,
    pub value: Word,
}

/// What a variable of the environment is.
pub struct VariableView {
    pub name: Seq<char>,
    pub value: WordView,
}

impl View for Variable {
    type V = VariableView;

    open spec fn view(&self) -> VariableView {
        VariableView { name: self.name@, value: self.value@ }
    }
}

/// The words that a list holds.
pub open spec fn word_views(words: Seq<Word>) -> Seq<WordView> {
    words.map_values(|w: Word| w@)
}

/// The texts as words.
pub open spec fn text_words(texts: Seq<Seq<char>>) -> Seq<WordView> {
    texts.map_values(|t: Seq<char>| WordView::Text(t))
}

/// The variables that a list holds.
pub open spec fn variable_views(variables: Seq<Variable>) -> Seq<VariableView> {
    variables.map_values(|v: Variable| v@)
}

/// The value that a variable has: the last that the list gives it.
pub open spec fn value_of(variables: Seq<VariableView>, name: Seq<char>) -> Option<WordView>
    decreases variables.len(),
{
    if variables.len() == 0 {
        None
    } else if variables.last().name == name {
        Some(variables.last().value)
    } else {
        value_of(variables.drop_last(), name)
    }
}

/// A command to run.
#[derive(Debug, PartialEq)]
pub struct Command {
    /// The program, by its path or by a name that is looked up.
    pub program: Word,
    /// What the command is for, in words.
    pub summary: String,
    /// The arguments.
    pub args: Vec<Word>,
    /// Where to run it, if not in the current directory.
    pub current_dir: Option<PathBuf>,
    /// The variables to set, of which a later one prevails.
    pub env: Vec<Variable>,
    /// Whether the variables of git are taken away.
    pub remove_git_env: bool,
    /// Whether an exit status other than zero is a failure.
    pub check: bool,
    /// Whether it gets nothing to read on its standard input.
    pub null_stdin: bool,
}

/// What a command is.
#[verifier::ext_equal]
pub struct CommandView {
    pub program: WordView,
    pub summary: Seq<char>,
    pub args: Seq<WordView>,
    pub current_dir: Option<PathView>,
    pub env: Seq<VariableView>,
    pub remove_git_env: bool,
    pub check: bool,
    pub null_stdin: bool,
}

impl View for Command {
    type V = CommandView;

    open spec fn view(&self) -> CommandView {
        CommandView {
            program: self.program@,
            summary: self.summary@,
            args: word_views(self.args@),
            current_dir: crate::path::buf::optional_view(self.current_dir),
            env: variable_views(self.env@),
            remove_git_env: self.remove_git_env,
            check: self.check,
            null_stdin: self.null_stdin,
        }
    }
}

impl CommandView {
    /// A command without arguments, which must succeed.
    pub open spec fn new(program: WordView, summary: Seq<char>) -> CommandView {
        CommandView {
            program,
            summary,
            args: Seq::empty(),
            current_dir: None,
            env: Seq::empty(),
            remove_git_env: false,
            check: true,
            null_stdin: false,
        }
    }

    /// The command with one more argument.
    pub open spec fn arg(self, word: WordView) -> CommandView {
        CommandView { args: self.args.push(word), ..self }
    }

    /// The command with one more argument, a text.
    pub open spec fn text(self, text: Seq<char>) -> CommandView {
        self.arg(WordView::Text(text))
    }

    /// The command with one more argument, a path.
    pub open spec fn path(self, path: PathView) -> CommandView {
        self.arg(WordView::Path(path))
    }

    /// The command with more arguments, texts.
    pub open spec fn texts(self, texts: Seq<Seq<char>>) -> CommandView {
        CommandView { args: self.args + text_words(texts), ..self }
    }

    /// The command with one more variable.
    pub open spec fn env(self, name: Seq<char>, value: WordView) -> CommandView {
        CommandView { env: self.env.push(VariableView { name, value }), ..self }
    }

    /// The command in a directory.
    pub open spec fn dir(self, dir: PathView) -> CommandView {
        CommandView { current_dir: Some(dir), ..self }
    }

    /// The command without the variables of git.
    pub open spec fn without_git(self) -> CommandView {
        CommandView { remove_git_env: true, ..self }
    }

    /// The command, whatever its exit status.
    pub open spec fn unchecked(self) -> CommandView {
        CommandView { check: false, ..self }
    }

    /// The command with nothing to read on its standard input.
    pub open spec fn without_input(self) -> CommandView {
        CommandView { null_stdin: true, ..self }
    }
}

impl Command {
    /// A command without arguments, which must succeed.
    pub fn new(program: Word, summary: &str) -> (r: Command)
        ensures
            r@ == CommandView::new(program@, summary@),
    {
        let r = Command {
            program,
            summary: summary.to_owned(),
            args: Vec::new(),
            current_dir: None,
            env: Vec::new(),
            remove_git_env: false,
            check: true,
            null_stdin: false,
        };
        proof {
            assert(r@ =~= CommandView::new(program@, summary@));
        }
        r
    }

    /// The command with one more argument.
    pub fn arg(self, word: Word) -> (r: Command)
        ensures
            r@ == self@.arg(word@),
    {
        let mut r = self;
        let ghost before = r.args@;
        r.args.push(word);
        proof {
            assert(word_views(r.args@) =~= word_views(before).push(word@));
        }
        r
    }

    /// The command with one more argument, a text.
    pub fn text(self, text: &str) -> (r: Command)
        ensures
            r@ == self@.text(text@),
    {
        self.arg(Word::text(text))
    }

    /// The command with one more argument, a path.
    pub fn path(self, path: &PathBuf) -> (r: Command)
        ensures
            r@ == self@.path(path@),
    {
        self.arg(Word::path(path))
    }

    /// The command with more arguments, texts.
    pub fn texts(self, texts: &Vec<String>) -> (r: Command)
        ensures
            r@ == self@.texts(text::texts(texts@)),
    {
        let mut r = self;
        let mut i: usize = 0;
        let ghost added = text_words(text::texts(texts@));
        proof {
            assert(self@.args + added.take(0) =~= self@.args);
        }
        while i < texts.len()
            invariant
                i <= texts@.len(),
                added == text_words(text::texts(texts@)),
                r@ == (CommandView { args: self@.args + added.take(i as int), ..self@ }),
            decreases texts@.len() - i,
        {
            r = r.text(texts[i].as_str());
            proof {
                assert(self@.args + added.take(i + 1) =~= (self@.args + added.take(i as int)).push(
                    added[i as int],
                ));
            }
            i = i + 1;
        }
        proof {
            assert(added.take(i as int) =~= added);
        }
        r
    }

    /// The command with one more variable.
    pub fn env(self, name: &str, value: Word) -> (r: Command)
        ensures
            r@ == self@.env(name@, value@),
    {
        let mut r = self;
        let ghost before = r.env@;
        let variable = Variable { name: name.to_owned(), value };
        r.env.push(variable);
        proof {
            assert(variable_views(r.env@) =~= variable_views(before).push(variable@));
        }
        r
    }

    /// The command in a directory.
    pub fn dir(self, dir: &PathBuf) -> (r: Command)
        ensures
            r@ == self@.dir(dir@),
    {
        let mut r = self;
        r.current_dir = Some(dir.duplicate());
        r
    }

    /// The command without the variables of git.
    pub fn without_git(self) -> (r: Command)
        ensures
            r@ == self@.without_git(),
    {
        let mut r = self;
        r.remove_git_env = true;
        r
    }

    /// The command, whatever its exit status.
    pub fn unchecked(self) -> (r: Command)
        ensures
            r@ == self@.unchecked(),
    {
        let mut r = self;
        r.check = false;
        r
    }

    /// The command with nothing to read on its standard input.
    pub fn without_input(self) -> (r: Command)
        ensures
            r@ == self@.without_input(),
    {
        let mut r = self;
        r.null_stdin = true;
        r
    }
}

/// Why something failed: what was attempted, from the outermost attempt to the cause.
#[derive(Debug, PartialEq, Eq)]
pub struct Failure {
    pub messages: Vec<String>,
}

impl View for Failure {
    type V = Seq<Seq<char>>;

    open spec fn view(&self) -> Seq<Seq<char>> {
        text::texts(self.messages@)
    }
}

impl Failure {
    /// A failure without a further cause.
    pub fn new(message: String) -> (r: Failure)
        ensures
            r@ == seq![message@],
    {
        let mut messages: Vec<String> = Vec::new();
        messages.push(message);
        let r = Failure { messages };
        proof {
            assert(r@ =~= seq![message@]);
        }
        r
    }

    /// A failure without a further cause, in fixed words.
    pub fn of(message: &str) -> (r: Failure)
        ensures
            r@ == seq![message@],
    {
        Failure::new(message.to_owned())
    }

    /// A copy of the failure.
    pub fn duplicate(&self) -> (r: Failure)
        ensures
            r@ == self@,
    {
        Failure { messages: strings::copy_list(&self.messages) }
    }

    /// The failure as the cause of another.
    pub fn within(self, attempt: String) -> (r: Failure)
        ensures
            r@ == seq![attempt@] + self@,
    {
        let mut r = self;
        let ghost before = r.messages@;
        r.messages.insert(0, attempt);
        proof {
            assert(r.messages@ =~= seq![attempt] + before);
            assert(r@ =~= seq![attempt@] + self@);
        }
        r
    }
}

/// The kind of a directory entry.
#[derive(Debug, Clone, Copy, PartialEq, Eq, Structural)]
pub enum EntryKind {
    Dir,
    File,
    Other,
    /// The entry or its kind could not be read.
    Unreadable,
}

/// An entry of a directory.
#[derive(Debug, PartialEq)]
pub struct Entry {
    pub path: PathBuf,
    /// The last component of the path.
    pub name: PathBuf,
    pub kind: EntryKind,
    /// The permission bits, where they could be read.
    pub mode: Option<u32>,
    /// Why the entry, its kind or its permission bits could not be read, where that is so.
    pub problem: Failure,
}

/// What an entry of a directory is.
pub struct EntryView {
    pub path: PathView,
    pub name: PathView,
    pub kind: EntryKind,
    pub mode: Option<u32>,
    pub problem: Seq<Seq<char>>,
}

impl View for Entry {
    type V = EntryView;

    open spec fn view(&self) -> EntryView {
        EntryView {
            path: self.path@,
            name: self.name@,
            kind: self.kind,
            mode: self.mode,
            problem: self.problem@,
        }
    }
}

/// The entries that a list holds.
pub open spec fn entry_views(entries: Seq<Entry>) -> Seq<EntryView> {
    entries.map_values(|e: Entry| e@)
}

/// Something that is to be done in the outside world.
#[derive(Debug, PartialEq)]
pub enum Action {
    /// Create a directory and those above it.
    CreateDirAll(PathBuf),
    /// Create a new temporary directory.
    CreateTempDir,
    /// Create a new directory for the environment of a hook.
    CreateEnvDir,
    /// Hold a lock file, for the resource of this name, until the flow ends.
    Lock(PathBuf, String),
    /// Look whether there is something at a path.
    Exists(PathBuf),
    /// Look whether there is a file at a path.
    IsFile(PathBuf),
    /// Read a text file.
    ReadText(PathBuf),
    /// List a directory.
    ListDir(PathBuf),
    /// Copy a file to a path.
    Copy(PathBuf, PathBuf),
    /// Write a file.
    WriteBytes(PathBuf, Vec<u8>),
    /// Make the second path a link to the first.
    Symlink(PathBuf, PathBuf),
    /// Rename a file to a path.
    Rename(PathBuf, PathBuf),
    /// Remove a file.
    RemoveFile(PathBuf),
    /// Remove a directory with all that is in it.
    RemoveDirAll(PathBuf),
    /// Read the permission bits of a file.
    ReadMode(PathBuf),
    /// Set the permission bits of a file.
    SetMode(PathBuf, u32),
    /// Find all executable files of a name.
    FindAll(String),
    /// Put a directory before the search path of the environment, and tell the result.
    PrependPath(PathBuf),
    /// Run a command.
    Run(Command),
    /// Ask for what is at a URL.
    Fetch(String),
    /// Take the body of the response.
    FetchBody,
    /// List the tags of the releases at a URL.
    FetchTags(String),
    /// Download an archive of this name from a URL and unpack it.
    DownloadAndExtract(String, String),
}

/// What is to be done in the outside world.
pub enum ActionView {
    CreateDirAll(PathView),
    CreateTempDir,
    CreateEnvDir,
    Lock(PathView, Seq<char>),
    Exists(PathView),
    IsFile(PathView),
    ReadText(PathView),
    ListDir(PathView),
    Copy(PathView, PathView),
    WriteBytes(PathView, Seq<u8>),
    Symlink(PathView, PathView),
    Rename(PathView, PathView),
    RemoveFile(PathView),
    RemoveDirAll(PathView),
    ReadMode(PathView),
    SetMode(PathView, u32),
    FindAll(Seq<char>),
    PrependPath(PathView),
    Run(CommandView),
    Fetch(Seq<char>),
    FetchBody,
    FetchTags(Seq<char>),
    DownloadAndExtract(Seq<char>, Seq<char>),
}

impl View for Action {
    type V = ActionView;

    open spec fn view(&self) -> ActionView {
        match self {
            Action::CreateDirAll(path) => ActionView::CreateDirAll(path@),
            Action::CreateTempDir => ActionView::CreateTempDir,
            Action::CreateEnvDir => ActionView::CreateEnvDir,
            Action::Lock(path, resource) => ActionView::Lock(path@, resource@),
            Action::Exists(path) => ActionView::Exists(path@),
            Action::IsFile(path) => ActionView::IsFile(path@),
            Action::ReadText(path) => ActionView::ReadText(path@),
            Action::ListDir(path) => ActionView::ListDir(path@),
            Action::Copy(from, to) => ActionView::Copy(from@, to@),
            Action::WriteBytes(path, bytes) => ActionView::WriteBytes(path@, bytes@),
            Action::Symlink(from, to) => ActionView::Symlink(from@, to@),
            Action::Rename(from, to) => ActionView::Rename(from@, to@),
            Action::RemoveFile(path) => ActionView::RemoveFile(path@),
            Action::RemoveDirAll(path) => ActionView::RemoveDirAll(path@),
            Action::ReadMode(path) => ActionView::ReadMode(path@),
            Action::SetMode(path, mode) => ActionView::SetMode(path@, *mode),
            Action::FindAll(name) => ActionView::FindAll(name@),
            Action::PrependPath(dir) => ActionView::PrependPath(dir@),
            Action::Run(command) => ActionView::Run(command@),
            Action::Fetch(url) => ActionView::Fetch(url@),
            Action::FetchBody => ActionView::FetchBody,
            Action::FetchTags(url) => ActionView::FetchTags(url@),
            Action::DownloadAndExtract(url, name) => ActionView::DownloadAndExtract(url@, name@),
        }
    }
}

/// What came of the last action.
#[derive(Debug, PartialEq)]
pub enum Outcome {
    /// There was no action yet.
    Begin,
    /// It was done, and there is nothing to tell.
    Done,
    /// It failed.
    Failed(Failure),
    /// It failed because the two paths lie on different devices.
    CrossesDevices(Failure),
    /// A yes or a no.
    Answer(bool),
    /// A text that was read.
    Text(String),
    /// What a command wrote to its standard output, or the body of a response.
    Output(Vec<u8>),
    /// Permission bits.
    Mode(u32),
    /// A path, or a list of paths in the form of a search path.
    Path(PathBuf),
    /// The executable files that were found.
    Paths(Vec<PathBuf>),
    /// The entries of a directory.
    Entries(Vec<Entry>),
    /// The tags of releases.
    Tags(Vec<String>),
    /// A response: whether it is a success, and its status in words.
    Response(bool, String),
}

/// What came of the last action.
pub enum OutcomeView {
    Begin,
    Done,
    Failed(Seq<Seq<char>>),
    CrossesDevices(Seq<Seq<char>>),
    Answer(bool),
    Text(Seq<char>),
    Output(Seq<u8>),
    Mode(u32),
    Path(PathView),
    Paths(Seq<PathView>),
    Entries(Seq<EntryView>),
    Tags(Seq<Seq<char>>),
    Response(bool, Seq<char>),
}

impl View for Outcome {
    type V = OutcomeView;

    open spec fn view(&self) -> OutcomeView {
        match self {
            Outcome::Begin => OutcomeView::Begin,
            Outcome::Done => OutcomeView::Done,
            Outcome::Failed(failure) => OutcomeView::Failed(failure@),
            Outcome::CrossesDevices(failure) => OutcomeView::CrossesDevices(failure@),
            Outcome::Answer(answer) => OutcomeView::Answer(*answer),
            Outcome::Text(text) => OutcomeView::Text(text@),
            Outcome::Output(bytes) => OutcomeView::Output(bytes@),
            Outcome::Mode(mode) => OutcomeView::Mode(*mode),
            Outcome::Path(path) => OutcomeView::Path(path@),
            Outcome::Paths(paths) => OutcomeView::Paths(crate::path::buf::path_views(paths@)),
            Outcome::Entries(entries) => OutcomeView::Entries(entry_views(entries@)),
            Outcome::Tags(tags) => OutcomeView::Tags(text::texts(tags@)),
            Outcome::Response(success, status) => OutcomeView::Response(*success, status@),
        }
    }
}

/// What a flow does next: act, end with a result, or end with a failure.
#[derive(Debug, PartialEq)]
pub enum Step<R> {
    Do(Action),
    Done(R),
    Fail(Failure),
}

/// What a flow does next.
pub enum StepView<R> {
    Do(ActionView),
    Done(R),
    Fail(Seq<Seq<char>>),
}

impl<R: View> View for Step<R> {
    type V = StepView<R::V>;

    open spec fn view(&self) -> StepView<R::V> {
        match self {
            Step::Do(action) => StepView::Do(action@),
            Step::Done(result) => StepView::Done(result@),
            Step::Fail(failure) => StepView::Fail(failure@),
        }
    }
}

/// Why a flow ends when an action failed, or was answered with what it was not asked
/// for.
pub open spec fn failure_of(outcome: OutcomeView) -> Seq<Seq<char>> {
    match outcome {
        OutcomeView::Failed(messages) => messages,
        OutcomeView::CrossesDevices(messages) => messages,
        _ => seq!["Unexpected outcome of an action"@],
    }
}

impl Outcome {
    /// Why a flow ends when an action failed, or was answered with what it was not asked
    /// for.
    pub fn into_failure(self) -> (r: Failure)
        ensures
            r@ == failure_of(self@),
    {
        match self {
            Outcome::Failed(failure) => failure,
            Outcome::CrossesDevices(failure) => failure,
            _ => Failure::of("Unexpected outcome of an action"),
        }
    }
}

/// A path as it is shown to users.
pub open spec fn shown(path: PathView) -> Seq<char> {
    ops::lossy_text(path.bytes)
}

} // verus!
