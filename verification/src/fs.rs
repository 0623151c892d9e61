//! Files: links, moves and locks.

use vstd::prelude::*;

use crate::action;
use crate::action::{Action, ActionView, Failure, Outcome, OutcomeView, Step, StepView};
use crate::path::buf::PathBuf;
use crate::path::model::PathView;

verus! {

/// Where [`create_symlink_or_copy`] is.
#[derive(Debug, Clone, Copy, PartialEq, Eq, Structural)]
pub enum LinkPhase {
    Start,
    Check,
    Remove,
    Link,
    Copy,
    Over,
}

/// What is said when a file cannot be copied.
pub open spec fn copy_failed(source: PathView, target: PathView) -> Seq<char> {
    "Failed to copy file from "@ + action::shown(source) + " to "@ + action::shown(target)
}

/// What is done when the old target is out of the way: try a link first.
pub open spec fn link_now(source: PathView, target: PathView) -> (LinkPhase, StepView<()>) {
    (LinkPhase::Link, StepView::Do(ActionView::Symlink(source, target)))
}

/// How a link is made: what is at the target is removed, a link is tried, and where that
/// fails the file is copied.
pub open spec fn link_next(
    source: PathView,
    target: PathView,
    phase: LinkPhase,
    outcome: OutcomeView,
) -> (LinkPhase, StepView<()>) {
    match (phase, outcome) {
        (LinkPhase::Start, OutcomeView::Begin) => (
            LinkPhase::Check,
            StepView::Do(ActionView::Exists(target)),
        ),
        (LinkPhase::Check, OutcomeView::Answer(true)) => (
            LinkPhase::Remove,
            StepView::Do(ActionView::RemoveFile(target)),
        ),
        (LinkPhase::Check, OutcomeView::Answer(false)) => link_now(source, target),
        (LinkPhase::Remove, OutcomeView::Done) => link_now(source, target),
        (LinkPhase::Link, OutcomeView::Done) => (LinkPhase::Over, StepView::Done(())),
        (LinkPhase::Link, OutcomeView::Failed(_)) | (
            LinkPhase::Link,
            OutcomeView::CrossesDevices(_),
        ) => (LinkPhase::Copy, StepView::Do(ActionView::Copy(source, target))),
        (LinkPhase::Copy, OutcomeView::Done) => (LinkPhase::Over, StepView::Done(())),
        (LinkPhase::Copy, OutcomeView::Failed(cause)) | (
            LinkPhase::Copy,
            OutcomeView::CrossesDevices(cause),
        ) => (LinkPhase::Over, StepView::Fail(seq![copy_failed(source, target)] + cause)),
        _ => (LinkPhase::Over, StepView::Fail(action::failure_of(outcome))),
    }
}

/// Makes `target` a link to `source`, or a copy of it where links cannot be made.
pub fn create_symlink_or_copy(
    source: &PathBuf,
    target: &PathBuf,
    phase: LinkPhase,
    outcome: Outcome,
) -> (r: (LinkPhase, Step<()>))
    ensures
        (r.0, r.1@) == link_next(source@, target@, phase, outcome@),
{
    match (phase, outcome) {
        (LinkPhase::Start, Outcome::Begin) => (
            LinkPhase::Check,
            Step::Do(Action::Exists(target.duplicate())),
        ),
        (LinkPhase::Check, Outcome::Answer(there)) => if there {
            (LinkPhase::Remove, Step::Do(Action::RemoveFile(target.duplicate())))
        } else {
            (LinkPhase::Link, Step::Do(Action::Symlink(source.duplicate(), target.duplicate())))
        },
        (LinkPhase::Remove, Outcome::Done) => (
            LinkPhase::Link,
            Step::Do(Action::Symlink(source.duplicate(), target.duplicate())),
        ),
        (LinkPhase::Link, Outcome::Done) => (LinkPhase::Over, Step::Done(())),
        (LinkPhase::Link, Outcome::Failed(_)) | (LinkPhase::Link, Outcome::CrossesDevices(_)) => (
            LinkPhase::Copy,
            Step::Do(Action::Copy(source.duplicate(), target.duplicate())),
        ),
        (LinkPhase::Copy, Outcome::Done) => (LinkPhase::Over, Step::Done(())),
        (LinkPhase::Copy, Outcome::Failed(failure)) | (
            LinkPhase::Copy,
            Outcome::CrossesDevices(failure),
        ) => {
            let mut message = "Failed to copy file from ".to_owned();
            message.append(source.to_string_lossy().as_str());
            message.append(" to ");
            message.append(target.to_string_lossy().as_str());
            (LinkPhase::Over, Step::Fail(failure.within(message)))
        },
        (_, other) => (LinkPhase::Over, Step::Fail(other.into_failure())),
    }
}

/// A link is made only of a link that was made or of a copy that was made, and a copy is
/// made where, and only where, a link could not be. Nothing is removed but what is at the target, and
/// only where something is there.
pub proof fn law_link_comes_first(
    source: PathView,
    target: PathView,
    phase: LinkPhase,
    outcome: OutcomeView,
)
    ensures
        ({
            let (next, step) = link_next(source, target, phase, outcome);
            &&& step is Done ==> outcome is Done && (phase is Link || phase is Copy)
            &&& (step matches StepView::Do(ActionView::Copy(from, to)) ==> {
                &&& phase is Link
                &&& outcome is Failed || outcome is CrossesDevices
                &&& from == source
                &&& to == target
            })
            &&& (step matches StepView::Do(ActionView::RemoveFile(path)) ==> {
                &&& path == target
                &&& outcome == OutcomeView::Answer(true)
            })
            &&& phase is Link && (outcome is Failed || outcome is CrossesDevices) ==> step
                == StepView::<()>::Do(ActionView::Copy(source, target))
        }),
{
}

/// Where [`rename_or_copy`] is.
#[derive(Debug, Clone, Copy, PartialEq, Eq, Structural)]
pub enum MovePhase {
    Start,
    Rename,
    Copy,
    Remove,
    Over,
}

/// How a file is moved: by renaming it, and between devices by copying it and then
/// removing it.
pub open spec fn move_next(
    source: PathView,
    target: PathView,
    phase: MovePhase,
    outcome: OutcomeView,
) -> (MovePhase, StepView<()>) {
    match (phase, outcome) {
        (MovePhase::Start, OutcomeView::Begin) => (
            MovePhase::Rename,
            StepView::Do(ActionView::Rename(source, target)),
        ),
        (MovePhase::Rename, OutcomeView::Done) => (MovePhase::Over, StepView::Done(())),
        (MovePhase::Rename, OutcomeView::CrossesDevices(_)) => (
            MovePhase::Copy,
            StepView::Do(ActionView::Copy(source, target)),
        ),
        (MovePhase::Copy, OutcomeView::Done) => (
            MovePhase::Remove,
            StepView::Do(ActionView::RemoveFile(source)),
        ),
        (MovePhase::Remove, OutcomeView::Done) => (MovePhase::Over, StepView::Done(())),
        _ => (MovePhase::Over, StepView::Fail(action::failure_of(outcome))),
    }
}

/// Moves `source` to `target`.
pub fn rename_or_copy(
    source: &PathBuf,
    target: &PathBuf,
    phase: MovePhase,
    outcome: Outcome,
) -> (r: (MovePhase, Step<()>))
    ensures
        (r.0, r.1@) == move_next(source@, target@, phase, outcome@),
{
    match (phase, outcome) {
        (MovePhase::Start, Outcome::Begin) => (
            MovePhase::Rename,
            Step::Do(Action::Rename(source.duplicate(), target.duplicate())),
        ),
        (MovePhase::Rename, Outcome::Done) => (MovePhase::Over, Step::Done(())),
        (MovePhase::Rename, Outcome::CrossesDevices(_)) => (
            MovePhase::Copy,
            Step::Do(Action::Copy(source.duplicate(), target.duplicate())),
        ),
        (MovePhase::Copy, Outcome::Done) => (
            MovePhase::Remove,
            Step::Do(Action::RemoveFile(source.duplicate())),
        ),
        (MovePhase::Remove, Outcome::Done) => (MovePhase::Over, Step::Done(())),
        (_, other) => (MovePhase::Over, Step::Fail(other.into_failure())),
    }
}

/// A file is removed only after it was copied, and copied only where renaming it would
/// cross devices.
pub proof fn law_source_is_removed_only_after_a_copy(
    source: PathView,
    target: PathView,
    phase: MovePhase,
    outcome: OutcomeView,
)
    ensures
        ({
            let (next, step) = move_next(source, target, phase, outcome);
            &&& (step matches StepView::Do(ActionView::RemoveFile(path)) ==> {
                &&& path == source
                &&& phase is Copy
                &&& outcome is Done
            })
            &&& step is Do && next is Copy ==> phase is Rename && outcome is CrossesDevices
            &&& step is Done ==> outcome is Done && (phase is Rename || phase is Remove)
        }),
{
}

/// Where the taking of a lock is.
#[derive(Debug, Clone, Copy, PartialEq, Eq, Structural)]
pub enum LockPhase {
    Start,
    Create,
    Try,
    Wait,
    Over,
}

/// What is done with a lock file.
#[derive(Debug, PartialEq, Eq)]
pub enum LockStep {
    /// Create the file.
    Create,
    /// Lock the file if nobody else holds the lock.
    Try,
    /// Wait until the file can be locked.
    Wait,
    /// The lock is held.
    Held,
    /// The lock cannot be had.
    Fail(Failure),
}

/// What is done with a lock file.
pub enum LockStepView {
    Create,
    Try,
    Wait,
    Held,
    Fail(Seq<Seq<char>>),
}

impl View for LockStep {
    type V = LockStepView;

    open spec fn view(&self) -> LockStepView {
        match self {
            LockStep::Create => LockStepView::Create,
            LockStep::Try => LockStepView::Try,
            LockStep::Wait => LockStepView::Wait,
            LockStep::Held => LockStepView::Held,
            LockStep::Fail(failure) => LockStepView::Fail(failure@),
        }
    }
}

/// What is said when a lock cannot be had.
pub open spec fn lock_failed(resource: Seq<char>, path: PathView, cause: Seq<char>) -> Seq<char> {
    "Could not acquire lock for `"@ + resource + "` at `"@ + action::shown(path) + "`: "@ + cause
}

/// How a lock is taken: at once where nobody else holds it, else after a wait.
pub open spec fn lock_next(
    path: PathView,
    resource: Seq<char>,
    phase: LockPhase,
    outcome: OutcomeView,
) -> (LockPhase, LockStepView) {
    match (phase, outcome) {
        (LockPhase::Start, OutcomeView::Begin) => (LockPhase::Create, LockStepView::Create),
        (LockPhase::Create, OutcomeView::Done) => (LockPhase::Try, LockStepView::Try),
        (LockPhase::Try, OutcomeView::Done) => (LockPhase::Over, LockStepView::Held),
        (LockPhase::Try, OutcomeView::Failed(_)) => (LockPhase::Wait, LockStepView::Wait),
        (LockPhase::Wait, OutcomeView::Done) => (LockPhase::Over, LockStepView::Held),
        (LockPhase::Wait, OutcomeView::Failed(cause)) => (
            LockPhase::Over,
            LockStepView::Fail(
                seq![
                    lock_failed(
                        resource,
                        path,
                        if cause.len() > 0 {
                            cause[0]
                        } else {
                            Seq::empty()
                        },
                    ),
                ],
            ),
        ),
        _ => (LockPhase::Over, LockStepView::Fail(action::failure_of(outcome))),
    }
}

/// Takes a lock for a resource by the lock file at `path`.
pub fn lock_file_blocking(
    path: &PathBuf,
    resource: &str,
    phase: LockPhase,
    outcome: Outcome,
) -> (r: (LockPhase, LockStep))
    ensures
        (r.0, r.1@) == lock_next(path@, resource@, phase, outcome@),
{
    match (phase, outcome) {
        (LockPhase::Start, Outcome::Begin) => (LockPhase::Create, LockStep::Create),
        (LockPhase::Create, Outcome::Done) => (LockPhase::Try, LockStep::Try),
        (LockPhase::Try, Outcome::Done) => (LockPhase::Over, LockStep::Held),
        (LockPhase::Try, Outcome::Failed(_)) => (LockPhase::Wait, LockStep::Wait),
        (LockPhase::Wait, Outcome::Done) => (LockPhase::Over, LockStep::Held),
        (LockPhase::Wait, Outcome::Failed(failure)) => {
            let mut message = "Could not acquire lock for `".to_owned();
            message.append(resource);
            message.append("` at `");
            message.append(path.to_string_lossy().as_str());
            message.append("`: ");
            if failure.messages.len() > 0 {
                message.append(failure.messages[0].as_str());
            }
            let failed = Failure::new(message);
            proof {
                let cause = if failure@.len() > 0 {
                    failure@[0]
                } else {
                    Seq::empty()
                };
                assert(message@ =~= lock_failed(resource@, path@, cause));
            }
            (LockPhase::Over, LockStep::Fail(failed))
        },
        (_, other) => (LockPhase::Over, LockStep::Fail(other.into_failure())),
    }
}

/// A lock is held where, and only where, the file was locked. That another holds it makes
/// one wait and is no failure: where each step was done or failed, the lock cannot be had
/// only because the file could not be created or because the wait itself failed.
pub proof fn law_lock_is_held_only_when_taken(
    path: PathView,
    resource: Seq<char>,
    phase: LockPhase,
    outcome: OutcomeView,
)
    ensures
        ({
            let (next, step) = lock_next(path, resource, phase, outcome);
            &&& step is Held ==> outcome is Done && (phase is Try || phase is Wait)
            &&& outcome is Done && (phase is Try || phase is Wait) ==> step is Held
            &&& step is Wait <==> phase is Try && outcome is Failed
            &&& step is Fail && (outcome is Done || outcome is Failed) && !(phase is Start
                || phase is Over) ==> outcome is Failed && (phase is Create || phase is Wait)
        }),
{
}

/// Each step of making a link: what is at the target is looked for and removed, then the target
/// is made a link to the source.
pub proof fn law_target_becomes_a_link_to_the_source(
    source: PathView,
    target: PathView,
    cause: Seq<Seq<char>>,
)
    ensures
        link_next(source, target, LinkPhase::Start, OutcomeView::Begin) == (
            LinkPhase::Check,
            StepView::<()>::Do(ActionView::Exists(target)),
        ),
        link_next(source, target, LinkPhase::Check, OutcomeView::Answer(true)) == (
            LinkPhase::Remove,
            StepView::<()>::Do(ActionView::RemoveFile(target)),
        ),
        link_next(source, target, LinkPhase::Check, OutcomeView::Answer(false)) == (
            LinkPhase::Link,
            StepView::<()>::Do(ActionView::Symlink(source, target)),
        ),
        link_next(source, target, LinkPhase::Remove, OutcomeView::Done) == (
            LinkPhase::Link,
            StepView::<()>::Do(ActionView::Symlink(source, target)),
        ),
        link_next(source, target, LinkPhase::Link, OutcomeView::Failed(cause)) == (
            LinkPhase::Copy,
            StepView::<()>::Do(ActionView::Copy(source, target)),
        ),
        forall|phase: LinkPhase|
            phase is Link || phase is Copy ==> #[trigger] link_next(
                source,
                target,
                phase,
                OutcomeView::Done,
            ) == (LinkPhase::Over, StepView::Done(())),
        forall|phase: LinkPhase|
            phase is Start || phase is Check || phase is Remove || phase is Over
                ==> #[trigger] link_next(source, target, phase, OutcomeView::Failed(cause)) == (
                LinkPhase::Over,
                StepView::<()>::Fail(cause),
            ),
        link_next(source, target, LinkPhase::Copy, OutcomeView::Failed(cause)) == (
            LinkPhase::Over,
            StepView::<()>::Fail(
                seq![
                    "Failed to copy file from "@ + action::shown(source) + " to "@
                        + action::shown(target),
                ] + cause,
            ),
        ),
{
}

/// Each step of moving a file: it is renamed, and where the target is on another device it is
/// copied there and then removed. Whatever else fails is a failure.
pub proof fn law_source_is_moved_to_the_target(
    source: PathView,
    target: PathView,
    phase: MovePhase,
    cause: Seq<Seq<char>>,
)
    ensures
        move_next(source, target, MovePhase::Start, OutcomeView::Begin) == (
            MovePhase::Rename,
            StepView::<()>::Do(ActionView::Rename(source, target)),
        ),
        move_next(source, target, MovePhase::Rename, OutcomeView::Done) == (
            MovePhase::Over,
            StepView::Done(()),
        ),
        move_next(source, target, MovePhase::Rename, OutcomeView::CrossesDevices(cause)) == (
            MovePhase::Copy,
            StepView::<()>::Do(ActionView::Copy(source, target)),
        ),
        move_next(source, target, MovePhase::Copy, OutcomeView::Done) == (
            MovePhase::Remove,
            StepView::<()>::Do(ActionView::RemoveFile(source)),
        ),
        move_next(source, target, MovePhase::Remove, OutcomeView::Done) == (
            MovePhase::Over,
            StepView::Done(()),
        ),
        move_next(source, target, phase, OutcomeView::Failed(cause)) == (
            MovePhase::Over,
            StepView::<()>::Fail(cause),
        ),
{
}

/// A lock file is created before it is tried, tried before it is waited for, and where the wait
/// fails it is said which resource it was for, where it is and why.
pub proof fn law_lock_is_tried_before_it_is_waited_for(
    path: PathView,
    resource: Seq<char>,
    cause: Seq<char>,
    more: Seq<Seq<char>>,
)
    ensures
        lock_next(path, resource, LockPhase::Start, OutcomeView::Begin) == (
            LockPhase::Create,
            LockStepView::Create,
        ),
        lock_next(path, resource, LockPhase::Create, OutcomeView::Done) == (
            LockPhase::Try,
            LockStepView::Try,
        ),
        lock_next(path, resource, LockPhase::Create, OutcomeView::Failed(more)) == (
            LockPhase::Over,
            LockStepView::Fail(more),
        ),
        lock_next(path, resource, LockPhase::Try, OutcomeView::Failed(more)) == (
            LockPhase::Wait,
            LockStepView::Wait,
        ),
        lock_next(path, resource, LockPhase::Wait, OutcomeView::Failed(seq![cause] + more)) == (
            LockPhase::Over,
            LockStepView::Fail(
                seq![
                    "Could not acquire lock for `"@ + resource + "` at `"@ + action::shown(path)
                        + "`: "@ + cause,
                ],
            ),
        ),
{
    assert((seq![cause] + more)[0] == cause);
}

} // verus!
