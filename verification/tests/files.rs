use prek::action::{Action, Failure, Outcome, Step};
use prek::fs::{
    LinkPhase, LockPhase, LockStep, MovePhase, create_symlink_or_copy, lock_file_blocking,
    rename_or_copy,
};
use prek::path::PathBuf;

fn failure(text: &str) -> Failure {
    Failure { messages: vec![text.to_string()] }
}

fn link(answers: Vec<Outcome>) -> (Vec<Action>, Step<()>) {
    let source = PathBuf::unix("/a");
    let target = PathBuf::unix("/b");
    let mut actions = vec![];
    let mut phase = LinkPhase::Start;
    let mut outcome = Outcome::Begin;
    let mut answers = answers.into_iter();
    loop {
        let (next, step) = create_symlink_or_copy(&source, &target, phase, outcome);
        match step {
            Step::Do(action) => actions.push(action),
            end => return (actions, end),
        }
        phase = next;
        outcome = answers.next().unwrap();
    }
}

fn moved(answers: Vec<Outcome>) -> (Vec<Action>, Step<()>) {
    let source = PathBuf::unix("/a");
    let target = PathBuf::unix("/b");
    let mut actions = vec![];
    let mut phase = MovePhase::Start;
    let mut outcome = Outcome::Begin;
    let mut answers = answers.into_iter();
    loop {
        let (next, step) = rename_or_copy(&source, &target, phase, outcome);
        match step {
            Step::Do(action) => actions.push(action),
            end => return (actions, end),
        }
        phase = next;
        outcome = answers.next().unwrap();
    }
}

fn a() -> PathBuf {
    PathBuf::unix("/a")
}

fn b() -> PathBuf {
    PathBuf::unix("/b")
}

#[test]
fn a_link_is_made() {
    let (actions, end) = link(vec![Outcome::Answer(false), Outcome::Done]);
    assert_eq!(actions, vec![Action::Exists(b()), Action::Symlink(a(), b())]);
    assert_eq!(end, Step::Done(()));
}

#[test]
fn what_is_at_the_target_is_removed_first() {
    let (actions, end) = link(vec![Outcome::Answer(true), Outcome::Done, Outcome::Done]);
    assert_eq!(
        actions,
        vec![Action::Exists(b()), Action::RemoveFile(b()), Action::Symlink(a(), b())]
    );
    assert_eq!(end, Step::Done(()));
    let (_, end) = link(vec![Outcome::Answer(true), Outcome::Failed(failure("denied"))]);
    assert_eq!(end, Step::Fail(failure("denied")));
}

#[test]
fn a_copy_stands_in_for_a_link() {
    let no_link = || Outcome::Failed(failure("no links"));
    let (actions, end) = link(vec![Outcome::Answer(false), no_link(), Outcome::Done]);
    assert_eq!(
        actions,
        vec![Action::Exists(b()), Action::Symlink(a(), b()), Action::Copy(a(), b())]
    );
    assert_eq!(end, Step::Done(()));
    let full = Outcome::Failed(failure("disk full"));
    let (_, end) = link(vec![Outcome::Answer(false), no_link(), full]);
    let messages =
        vec!["Failed to copy file from /a to /b".to_string(), "disk full".to_string()];
    assert_eq!(end, Step::Fail(Failure { messages }));
}

#[test]
fn a_link_between_devices_becomes_a_copy() {
    let crosses = || Outcome::CrossesDevices(failure("cross-device link"));
    let (actions, end) = link(vec![Outcome::Answer(false), crosses(), Outcome::Done]);
    assert_eq!(
        actions,
        vec![Action::Exists(b()), Action::Symlink(a(), b()), Action::Copy(a(), b())]
    );
    assert_eq!(end, Step::Done(()));
    let (_, end) = link(vec![Outcome::Answer(false), crosses(), crosses()]);
    let messages =
        vec!["Failed to copy file from /a to /b".to_string(), "cross-device link".to_string()];
    assert_eq!(end, Step::Fail(Failure { messages }));
}

#[test]
fn a_file_is_renamed() {
    let (actions, end) = moved(vec![Outcome::Done]);
    assert_eq!(actions, vec![Action::Rename(a(), b())]);
    assert_eq!(end, Step::Done(()));
    let (actions, end) = moved(vec![Outcome::Failed(failure("denied"))]);
    assert_eq!(actions, vec![Action::Rename(a(), b())]);
    assert_eq!(end, Step::Fail(failure("denied")));
}

#[test]
fn between_devices_a_file_is_copied_and_then_removed() {
    let crosses = || Outcome::CrossesDevices(failure("cross-device link"));
    let (actions, end) = moved(vec![crosses(), Outcome::Done, Outcome::Done]);
    assert_eq!(
        actions,
        vec![Action::Rename(a(), b()), Action::Copy(a(), b()), Action::RemoveFile(a())]
    );
    assert_eq!(end, Step::Done(()));
    let (actions, end) = moved(vec![crosses(), Outcome::Failed(failure("disk full"))]);
    assert_eq!(actions, vec![Action::Rename(a(), b()), Action::Copy(a(), b())]);
    assert_eq!(end, Step::Fail(failure("disk full")));
}

#[test]
fn a_lock_is_taken() {
    let path = PathBuf::unix("/root/.lock");
    let step = |phase, outcome| lock_file_blocking(&path, "deno", phase, outcome);
    assert_eq!(step(LockPhase::Start, Outcome::Begin), (LockPhase::Create, LockStep::Create));
    assert_eq!(step(LockPhase::Create, Outcome::Done), (LockPhase::Try, LockStep::Try));
    assert_eq!(step(LockPhase::Try, Outcome::Done), (LockPhase::Over, LockStep::Held));
    let busy = Outcome::Failed(failure("would block"));
    assert_eq!(step(LockPhase::Try, busy), (LockPhase::Wait, LockStep::Wait));
    assert_eq!(step(LockPhase::Wait, Outcome::Done), (LockPhase::Over, LockStep::Held));
    let broken = Outcome::Failed(failure("not supported"));
    let message = "Could not acquire lock for `deno` at `/root/.lock`: not supported";
    assert_eq!(
        step(LockPhase::Wait, broken),
        (LockPhase::Over, LockStep::Fail(failure(message)))
    );
    let denied = Outcome::Failed(failure("denied"));
    assert_eq!(
        step(LockPhase::Create, denied),
        (LockPhase::Over, LockStep::Fail(failure("denied")))
    );
}

#[test]
fn an_answer_to_another_question_ends_a_flow() {
    let (_, end) = moved(vec![Outcome::Mode(0)]);
    assert_eq!(end, Step::Fail(failure("Unexpected outcome of an action")));
}
