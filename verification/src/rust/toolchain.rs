//! Installing a Rust toolchain with rustup into a directory of its own.

use vstd::prelude::*;

use crate::action;
use crate::action::{
    Action, ActionView, Command, CommandView, Failure, Outcome, OutcomeView, Step, StepView,
    VariableView, Word, WordView,
};
use crate::path::buf::PathBuf;
use crate::path::model::PathView;
use crate::platform::Platform;

verus! {

/// The directory of the executable files in an environment.
pub fn bin_dir(env_path: &PathBuf) -> (r: PathBuf)
    ensures
        r@ == env_path@.child("bin"@),
{
    env_path.join("bin")
}

/// The `RUSTUP_HOME` directory in a managed installation of Rust.
pub fn rustup_home_dir(env_path: &PathBuf) -> (r: PathBuf)
    ensures
        r@ == env_path@.child("rustup"@),
{
    env_path.join("rustup")
}

/// The permission bits that make a file with `mode` executable for all. Only Unix has
/// them.
pub fn make_executable(platform: Platform, mode: u32) -> (r: Option<u32>)
    ensures
        match platform {
            Platform::Unix => r == Some(mode | 0o111),
            Platform::Windows => r is None,
        },
{
    match platform {
        Platform::Unix => Some(mode | 0o111),
        Platform::Windows => None,
    }
}

/// The bits for execution are set, the others stay as they were, and doing it twice is
/// doing it once.
pub proof fn law_executable_bits_are_added(mode: u32)
    ensures
        (mode | 0o111) & 0o111 == 0o111,
        (mode | 0o111) & !0o111u32 == mode & !0o111u32,
        (mode | 0o111) | 0o111 == mode | 0o111,
{
    assert((mode | 0o111) & 0o111 == 0o111) by (bit_vector);
    assert((mode | 0o111) & !0o111u32 == mode & !0o111u32) by (bit_vector);
    assert((mode | 0o111) | 0o111 == mode | 0o111) by (bit_vector);
}

/// Where [`install_rust_with_toolchain`] is.
#[derive(Debug, PartialEq)]
pub enum ToolchainPhase {
    Start,
    MakeHome,
    CheckRustup,
    MakeTempDir,
    /// rustup-init goes into this directory.
    Fetch(PathBuf),
    FetchBody(PathBuf),
    Write(PathBuf),
    ReadMode(PathBuf),
    SetMode(PathBuf),
    RunInit,
    InstallToolchain,
    Over,
}

/// Where [`install_rust_with_toolchain`] is.
pub enum ToolchainPhaseView {
    Start,
    MakeHome,
    CheckRustup,
    MakeTempDir,
    Fetch(PathView),
    FetchBody(PathView),
    Write(PathView),
    ReadMode(PathView),
    SetMode(PathView),
    RunInit,
    InstallToolchain,
    Over,
}

impl View for ToolchainPhase {
    type V = ToolchainPhaseView;

    open spec fn view(&self) -> ToolchainPhaseView {
        match self {
            ToolchainPhase::Start => ToolchainPhaseView::Start,
            ToolchainPhase::MakeHome => ToolchainPhaseView::MakeHome,
            ToolchainPhase::CheckRustup => ToolchainPhaseView::CheckRustup,
            ToolchainPhase::MakeTempDir => ToolchainPhaseView::MakeTempDir,
            ToolchainPhase::Fetch(dir) => ToolchainPhaseView::Fetch(dir@),
            ToolchainPhase::FetchBody(dir) => ToolchainPhaseView::FetchBody(dir@),
            ToolchainPhase::Write(dir) => ToolchainPhaseView::Write(dir@),
            ToolchainPhase::ReadMode(dir) => ToolchainPhaseView::ReadMode(dir@),
            ToolchainPhase::SetMode(dir) => ToolchainPhaseView::SetMode(dir@),
            ToolchainPhase::RunInit => ToolchainPhaseView::RunInit,
            ToolchainPhase::InstallToolchain => ToolchainPhaseView::InstallToolchain,
            ToolchainPhase::Over => ToolchainPhaseView::Over,
        }
    }
}

/// What the installation of a toolchain does next.
pub type ToolchainNext = (ToolchainPhaseView, StepView<()>);

/// Where rustup-init is fetched from.
pub open spec fn rustup_url(platform: Platform) -> Seq<char> {
    match platform {
        Platform::Unix => "https://sh.rustup.rs"@,
        Platform::Windows => "https://win.rustup.rs/x86_64"@,
    }
}

/// The command with the homes of cargo and rustup below the target directory.
pub open spec fn with_homes(command: CommandView, target: PathView) -> CommandView {
    command.env("CARGO_HOME"@, WordView::Path(target)).env(
        "RUSTUP_HOME"@,
        WordView::Path(target.child("rustup"@)),
    )
}

/// The command that installs rustup without a toolchain.
pub open spec fn init_command(dir: PathView, target: PathView) -> CommandView {
    with_homes(
        CommandView::new(WordView::Path(dir.program("rustup-init"@)), "install rustup"@).text(
            "-y"@,
        ).text("--quiet"@).text("--no-modify-path"@).text("--default-toolchain"@).text("none"@),
        target,
    )
}

/// The command that installs a toolchain.
pub open spec fn toolchain_command(toolchain: Seq<char>, target: PathView) -> CommandView {
    with_homes(
        CommandView::new(
            WordView::Path(target.child("bin"@).program("rustup"@)),
            "install toolchain"@,
        ).text("toolchain"@).text("install"@).text("--no-self-update"@).text(toolchain),
        target,
    )
}

/// The toolchain is installed now that rustup is there.
pub open spec fn install_now(toolchain: Seq<char>, target: PathView) -> ToolchainNext {
    (
        ToolchainPhaseView::InstallToolchain,
        StepView::Do(ActionView::Run(toolchain_command(toolchain, target))),
    )
}

/// rustup-init is run now that it is executable.
pub open spec fn init_now(dir: PathView, target: PathView) -> ToolchainNext {
    (ToolchainPhaseView::RunInit, StepView::Do(ActionView::Run(init_command(dir, target))))
}

/// How a toolchain is installed: rustup is fetched and installed where it is not there
/// yet, and it installs the toolchain. All of it stays below the target directory.
pub open spec fn toolchain_next(
    toolchain: Seq<char>,
    target: PathView,
    phase: ToolchainPhaseView,
    outcome: OutcomeView,
) -> ToolchainNext {
    match (phase, outcome) {
        (ToolchainPhaseView::Start, OutcomeView::Begin) => (
            ToolchainPhaseView::MakeHome,
            StepView::Do(ActionView::CreateDirAll(target.child("rustup"@))),
        ),
        (ToolchainPhaseView::MakeHome, OutcomeView::Done) => (
            ToolchainPhaseView::CheckRustup,
            StepView::Do(ActionView::Exists(target.child("bin"@).program("rustup"@))),
        ),
        (ToolchainPhaseView::CheckRustup, OutcomeView::Answer(there)) => if there {
            install_now(toolchain, target)
        } else {
            (ToolchainPhaseView::MakeTempDir, StepView::Do(ActionView::CreateTempDir))
        },
        (ToolchainPhaseView::MakeTempDir, OutcomeView::Path(dir)) => (
            ToolchainPhaseView::Fetch(dir),
            StepView::Do(ActionView::Fetch(rustup_url(target.platform))),
        ),
        (ToolchainPhaseView::Fetch(dir), OutcomeView::Response(success, status)) => if success {
            (ToolchainPhaseView::FetchBody(dir), StepView::Do(ActionView::FetchBody))
        } else {
            (
                ToolchainPhaseView::Over,
                StepView::Fail(seq!["Failed to download rustup-init: "@ + status]),
            )
        },
        (ToolchainPhaseView::Fetch(_), OutcomeView::Failed(cause)) => (
            ToolchainPhaseView::Over,
            StepView::Fail(seq!["Failed to download rustup-init"@] + cause),
        ),
        (ToolchainPhaseView::FetchBody(dir), OutcomeView::Output(body)) => (
            ToolchainPhaseView::Write(dir),
            StepView::Do(ActionView::WriteBytes(dir.program("rustup-init"@), body)),
        ),
        (ToolchainPhaseView::Write(dir), OutcomeView::Done) => match target.platform {
            Platform::Unix => (
                ToolchainPhaseView::ReadMode(dir),
                StepView::Do(ActionView::ReadMode(dir.program("rustup-init"@))),
            ),
            Platform::Windows => init_now(dir, target),
        },
        (ToolchainPhaseView::ReadMode(dir), OutcomeView::Mode(mode)) => match target.platform {
            Platform::Unix => (
                ToolchainPhaseView::SetMode(dir),
                StepView::Do(ActionView::SetMode(dir.program("rustup-init"@), mode | 0o111)),
            ),
            Platform::Windows => init_now(dir, target),
        },
        (ToolchainPhaseView::SetMode(dir), OutcomeView::Done) => init_now(dir, target),
        (ToolchainPhaseView::RunInit, OutcomeView::Output(_)) => install_now(toolchain, target),
        (ToolchainPhaseView::InstallToolchain, OutcomeView::Output(_)) => (
            ToolchainPhaseView::Over,
            StepView::Done(()),
        ),
        _ => (ToolchainPhaseView::Over, StepView::Fail(action::failure_of(outcome))),
    }
}

/// The command with the homes of cargo and rustup below the target directory.
fn add_homes(command: Command, target_dir: &PathBuf) -> (r: Command)
    ensures
        r@ == with_homes(command@, target_dir@),
{
    command.env("CARGO_HOME", Word::path(target_dir)).env(
        "RUSTUP_HOME",
        Word::Path(rustup_home_dir(target_dir)),
    )
}

/// rustup-init is run now that it is executable.
fn run_init(dir: &PathBuf, target_dir: &PathBuf) -> (r: (ToolchainPhase, Step<()>))
    ensures
        (r.0@, r.1@) == init_now(dir@, target_dir@),
{
    let command = Command::new(Word::Path(dir.program("rustup-init")), "install rustup").text(
        "-y",
    ).text("--quiet").text("--no-modify-path").text("--default-toolchain").text("none");
    (ToolchainPhase::RunInit, Step::Do(Action::Run(add_homes(command, target_dir))))
}

/// The toolchain is installed now that rustup is there.
fn run_install(toolchain: &str, target_dir: &PathBuf) -> (r: (ToolchainPhase, Step<()>))
    ensures
        (r.0@, r.1@) == install_now(toolchain@, target_dir@),
{
    let command = Command::new(
        Word::Path(bin_dir(target_dir).program("rustup")),
        "install toolchain",
    ).text("toolchain").text("install").text("--no-self-update").text(toolchain);
    (ToolchainPhase::InstallToolchain, Step::Do(Action::Run(add_homes(command, target_dir))))
}

/// Installs a toolchain with rustup, which is installed first where it is not there yet.
/// The `RUSTUP_HOME` in the target directory stays, so that toolchains are kept.
pub fn install_rust_with_toolchain(
    toolchain: &str,
    target_dir: &PathBuf,
    phase: ToolchainPhase,
    outcome: Outcome,
) -> (r: (ToolchainPhase, Step<()>))
    ensures
        (r.0@, r.1@) == toolchain_next(toolchain@, target_dir@, phase@, outcome@),
{
    match (phase, outcome) {
        (ToolchainPhase::Start, Outcome::Begin) => (
            ToolchainPhase::MakeHome,
            Step::Do(Action::CreateDirAll(rustup_home_dir(target_dir))),
        ),
        (ToolchainPhase::MakeHome, Outcome::Done) => (
            ToolchainPhase::CheckRustup,
            Step::Do(Action::Exists(bin_dir(target_dir).program("rustup"))),
        ),
        (ToolchainPhase::CheckRustup, Outcome::Answer(there)) => if there {
            run_install(toolchain, target_dir)
        } else {
            (ToolchainPhase::MakeTempDir, Step::Do(Action::CreateTempDir))
        },
        (ToolchainPhase::MakeTempDir, Outcome::Path(dir)) => {
            let url = match target_dir.platform {
                Platform::Unix => "https://sh.rustup.rs",
                Platform::Windows => "https://win.rustup.rs/x86_64",
            };
            (ToolchainPhase::Fetch(dir), Step::Do(Action::Fetch(url.to_owned())))
        },
        (ToolchainPhase::Fetch(dir), Outcome::Response(success, status)) => if success {
            (ToolchainPhase::FetchBody(dir), Step::Do(Action::FetchBody))
        } else {
            let mut message = "Failed to download rustup-init: ".to_owned();
            message.append(status.as_str());
            (ToolchainPhase::Over, Step::Fail(Failure::new(message)))
        },
        (ToolchainPhase::Fetch(_), Outcome::Failed(failure)) => (
            ToolchainPhase::Over,
            Step::Fail(failure.within("Failed to download rustup-init".to_owned())),
        ),
        (ToolchainPhase::FetchBody(dir), Outcome::Output(body)) => {
            let file = dir.program("rustup-init");
            (ToolchainPhase::Write(dir), Step::Do(Action::WriteBytes(file, body)))
        },
        (ToolchainPhase::Write(dir), Outcome::Done) => match target_dir.platform {
            Platform::Unix => {
                let file = dir.program("rustup-init");
                (ToolchainPhase::ReadMode(dir), Step::Do(Action::ReadMode(file)))
            },
            Platform::Windows => run_init(&dir, target_dir),
        },
        (ToolchainPhase::ReadMode(dir), Outcome::Mode(mode)) => match make_executable(
            target_dir.platform,
            mode,
        ) {
            Some(mode) => {
                let file = dir.program("rustup-init");
                (ToolchainPhase::SetMode(dir), Step::Do(Action::SetMode(file, mode)))
            },
            None => run_init(&dir, target_dir),
        },
        (ToolchainPhase::SetMode(dir), Outcome::Done) => run_init(&dir, target_dir),
        (ToolchainPhase::RunInit, Outcome::Output(_)) => run_install(toolchain, target_dir),
        (ToolchainPhase::InstallToolchain, Outcome::Output(_)) => (
            ToolchainPhase::Over,
            Step::Done(()),
        ),
        (_, other) => (ToolchainPhase::Over, Step::Fail(other.into_failure())),
    }
}

/// rustup is fetched only where it is not there. The toolchain is installed only by a
/// rustup that is there, and the flow ends well only after that.
pub proof fn law_rustup_is_fetched_only_where_it_is_missing(
    toolchain: Seq<char>,
    target: PathView,
    phase: ToolchainPhaseView,
    outcome: OutcomeView,
)
    ensures
        ({
            let (next, step) = toolchain_next(toolchain, target, phase, outcome);
            &&& next is MakeTempDir ==> phase is CheckRustup && outcome == OutcomeView::Answer(
                false,
            )
            &&& next is Fetch ==> phase is MakeTempDir
            &&& next is InstallToolchain ==> (phase is CheckRustup && outcome
                == OutcomeView::Answer(true)) || phase is RunInit
            &&& step is Done ==> phase is InstallToolchain && outcome is Output
        }),
{
}

/// Whether a step installs the toolchain with the rustup of a directory, and only below that
/// directory.
pub open spec fn installs_toolchain(
    toolchain: Seq<char>,
    target: PathView,
    next: ToolchainNext,
) -> bool {
    &&& next.0 is InstallToolchain
    &&& next.1 matches StepView::Do(ActionView::Run(command)) && {
        &&& command.summary == "install toolchain"@
        &&& command.program == WordView::Path(target.child("bin"@).program("rustup"@))
        &&& command.args =~= seq![
            WordView::Text("toolchain"@),
            WordView::Text("install"@),
            WordView::Text("--no-self-update"@),
            WordView::Text(toolchain),
        ]
        &&& command.env =~= seq![
            VariableView { name: "CARGO_HOME"@, value: WordView::Path(target) },
            VariableView {
                name: "RUSTUP_HOME"@,
                value: WordView::Path(target.child("rustup"@)),
            },
        ]
        &&& command.current_dir is None
        &&& command.check
        &&& !command.remove_git_env
        &&& !command.null_stdin
    }
}

/// Whether a step runs the rustup-init of a directory, which installs rustup below the target
/// directory, without a toolchain and without a change to the search path.
pub open spec fn installs_rustup(dir: PathView, target: PathView, next: ToolchainNext) -> bool {
    &&& next.0 is RunInit
    &&& next.1 matches StepView::Do(ActionView::Run(command)) && {
        &&& command.summary == "install rustup"@
        &&& command.program == WordView::Path(dir.program("rustup-init"@))
        &&& command.args =~= seq![
            WordView::Text("-y"@),
            WordView::Text("--quiet"@),
            WordView::Text("--no-modify-path"@),
            WordView::Text("--default-toolchain"@),
            WordView::Text("none"@),
        ]
        &&& command.env =~= seq![
            VariableView { name: "CARGO_HOME"@, value: WordView::Path(target) },
            VariableView {
                name: "RUSTUP_HOME"@,
                value: WordView::Path(target.child("rustup"@)),
            },
        ]
        &&& command.current_dir is None
        &&& command.check
        &&& !command.remove_git_env
        &&& !command.null_stdin
    }
}

/// A toolchain is installed by the rustup that is there, with the name that was asked for. Where
/// there is none, it is fetched from where it is published for the platform, written to a
/// temporary directory as it came, made executable where files need that, and run before.
pub proof fn law_toolchain_is_installed_by_rustup(
    toolchain: Seq<char>,
    target: PathView,
    dir: PathView,
    body: Seq<u8>,
    mode: u32,
    status: Seq<char>,
    cause: Seq<Seq<char>>,
)
    ensures
        toolchain_next(toolchain, target, ToolchainPhaseView::Start, OutcomeView::Begin) == (
            ToolchainPhaseView::MakeHome,
            StepView::<()>::Do(ActionView::CreateDirAll(target.child("rustup"@))),
        ),
        toolchain_next(toolchain, target, ToolchainPhaseView::MakeHome, OutcomeView::Done) == (
            ToolchainPhaseView::CheckRustup,
            StepView::<()>::Do(ActionView::Exists(target.child("bin"@).program("rustup"@))),
        ),
        installs_toolchain(
            toolchain,
            target,
            toolchain_next(
                toolchain,
                target,
                ToolchainPhaseView::CheckRustup,
                OutcomeView::Answer(true),
            ),
        ),
        toolchain_next(
            toolchain,
            target,
            ToolchainPhaseView::CheckRustup,
            OutcomeView::Answer(false),
        ) == (ToolchainPhaseView::MakeTempDir, StepView::<()>::Do(ActionView::CreateTempDir)),
        toolchain_next(
            toolchain,
            target,
            ToolchainPhaseView::MakeTempDir,
            OutcomeView::Path(dir),
        ) == (
            ToolchainPhaseView::Fetch(dir),
            StepView::<()>::Do(
                ActionView::Fetch(
                    if target.platform is Windows {
                        "https://win.rustup.rs/x86_64"@
                    } else {
                        "https://sh.rustup.rs"@
                    },
                ),
            ),
        ),
        toolchain_next(
            toolchain,
            target,
            ToolchainPhaseView::Fetch(dir),
            OutcomeView::Response(true, status),
        ) == (ToolchainPhaseView::FetchBody(dir), StepView::<()>::Do(ActionView::FetchBody)),
        toolchain_next(
            toolchain,
            target,
            ToolchainPhaseView::Fetch(dir),
            OutcomeView::Response(false, status),
        ) == (
            ToolchainPhaseView::Over,
            StepView::<()>::Fail(seq!["Failed to download rustup-init: "@ + status]),
        ),
        toolchain_next(
            toolchain,
            target,
            ToolchainPhaseView::Fetch(dir),
            OutcomeView::Failed(cause),
        ) == (
            ToolchainPhaseView::Over,
            StepView::<()>::Fail(seq!["Failed to download rustup-init"@] + cause),
        ),
        toolchain_next(
            toolchain,
            target,
            ToolchainPhaseView::FetchBody(dir),
            OutcomeView::Output(body),
        ) == (
            ToolchainPhaseView::Write(dir),
            StepView::<()>::Do(ActionView::WriteBytes(dir.program("rustup-init"@), body)),
        ),
        ({
            let written = toolchain_next(
                toolchain,
                target,
                ToolchainPhaseView::Write(dir),
                OutcomeView::Done,
            );
            &&& target.platform is Windows ==> installs_rustup(dir, target, written)
            &&& target.platform is Unix ==> written == (
                ToolchainPhaseView::ReadMode(dir),
                StepView::<()>::Do(ActionView::ReadMode(dir.program("rustup-init"@))),
            )
        }),
        target.platform is Unix ==> toolchain_next(
            toolchain,
            target,
            ToolchainPhaseView::ReadMode(dir),
            OutcomeView::Mode(mode),
        ) == (
            ToolchainPhaseView::SetMode(dir),
            StepView::<()>::Do(ActionView::SetMode(dir.program("rustup-init"@), mode | 0o111)),
        ),
        installs_rustup(
            dir,
            target,
            toolchain_next(
                toolchain,
                target,
                ToolchainPhaseView::SetMode(dir),
                OutcomeView::Done,
            ),
        ),
        installs_toolchain(
            toolchain,
            target,
            toolchain_next(
                toolchain,
                target,
                ToolchainPhaseView::RunInit,
                OutcomeView::Output(body),
            ),
        ),
        toolchain_next(
            toolchain,
            target,
            ToolchainPhaseView::InstallToolchain,
            OutcomeView::Output(body),
        ) == (ToolchainPhaseView::Over, StepView::Done(())),
{
}

/// What an action failed with is what the installation of a toolchain fails with, behind what
/// was tried where that was the download.
pub proof fn law_failure_ends_the_installation(
    toolchain: Seq<char>,
    target: PathView,
    phase: ToolchainPhaseView,
    cause: Seq<Seq<char>>,
)
    ensures
        ({
            let next = toolchain_next(toolchain, target, phase, OutcomeView::Failed(cause));
            &&& next.0 is Over
            &&& next.1 == StepView::<()>::Fail(
                if phase is Fetch {
                    seq!["Failed to download rustup-init"@] + cause
                } else {
                    cause
                },
            )
        }),
{
}

} // verus!
