//! Running a hook over its files, batch by batch.

use vstd::prelude::*;

use crate::action;
use crate::action::{Command, CommandView, Variable, VariableView, Word, WordView};
use crate::path::buf;
use crate::path::buf::PathBuf;
use crate::path::model::PathView;
use crate::text;

verus! {

/// What a command that ran over a batch left behind.
#[derive(Debug, PartialEq, Eq)]
pub struct BatchOutput {
    /// The exit code, unless a signal ended the command.
    pub code: Option<i32>,
    pub stdout: Vec<u8>,
    pub stderr: Vec<u8>,
}

/// The exit code of a command: 1 where a signal ended it.
pub open spec fn exit_code(code: Option<i32>) -> i32 {
    match code {
        Some(code) => code,
        None => 1,
    }
}

/// The result of a batch: the exit code, and the standard output with the standard error
/// behind it.
pub fn batch_result(output: BatchOutput) -> (r: (i32, Vec<u8>))
    ensures
        r.0 == exit_code(output.code),
        r.1@ == output.stdout@ + output.stderr@,
{
    let mut all = output.stdout;
    let mut more = output.stderr;
    all.append(&mut more);
    let code: i32 = match output.code {
        Some(code) => code,
        None => 1,
    };
    (code, all)
}

/// The bits that any of the exit codes has.
pub open spec fn combined_status(results: Seq<(i32, Vec<u8>)>) -> i32
    decreases results.len(),
{
    if results.len() == 0 {
        0
    } else {
        combined_status(results.drop_last()) | results.last().0
    }
}

/// The outputs one behind the other.
pub open spec fn combined_output(results: Seq<(i32, Vec<u8>)>) -> Seq<u8>
    decreases results.len(),
{
    if results.len() == 0 {
        Seq::empty()
    } else {
        combined_output(results.drop_last()) + results.last().1@
    }
}

/// Combines the results of the batches into one.
pub fn combine_results(results: Vec<(i32, Vec<u8>)>) -> (r: (i32, Vec<u8>))
    ensures
        r.0 == combined_status(results@),
        r.1@ == combined_output(results@),
{
    let mut status: i32 = 0;
    let mut output: Vec<u8> = Vec::new();
    let mut i: usize = 0;
    proof {
        assert(results@.take(0) =~= Seq::empty());
    }
    while i < results.len()
        invariant
            i <= results@.len(),
            status == combined_status(results@.take(i as int)),
            output@ == combined_output(results@.take(i as int)),
        decreases results@.len() - i,
    {
        proof {
            assert(results@.take(i + 1).drop_last() =~= results@.take(i as int));
            assert(results@.take(i + 1).last() == results@[i as int]);
        }
        status = status | results[i].0;
        let part = &results[i].1;
        let mut copy = buf::copy_bytes(part, 0, part.len());
        proof {
            assert(part@.subrange(0, part@.len() as int) =~= part@);
        }
        output.append(&mut copy);
        i = i + 1;
    }
    proof {
        assert(results@.take(i as int) =~= results@);
    }
    (status, output)
}

/// A hook succeeds if and only if it does so on every batch.
pub proof fn law_status_is_zero_only_if_all_are(results: Seq<(i32, Vec<u8>)>)
    ensures
        combined_status(results) == 0 <==> (forall|i: int|
            0 <= i < results.len() ==> (#[trigger] results[i]).0 == 0),
    decreases results.len(),
{
    if results.len() > 0 {
        let front = results.drop_last();
        let before = combined_status(front);
        let last = results.last().0;
        law_status_is_zero_only_if_all_are(front);
        assert((before | last) == 0 <==> (before == 0 && last == 0)) by (bit_vector);
        if combined_status(results) == 0 {
            assert forall|i: int| 0 <= i < results.len() implies (#[trigger] results[i]).0 == 0 by {
                if i < front.len() {
                    assert(front[i] == results[i]);
                }
            }
        }
        if forall|i: int| 0 <= i < results.len() ==> (#[trigger] results[i]).0 == 0 {
            assert forall|i: int| 0 <= i < front.len() implies (#[trigger] front[i]).0 == 0 by {
                assert(front[i] == results[i]);
            }
            assert(results[results.len() - 1].0 == 0);
        }
    }
}

/// It makes no difference whether batches are combined all at once or in two goes.
pub proof fn law_batches_combine_in_turn(a: Seq<(i32, Vec<u8>)>, b: Seq<(i32, Vec<u8>)>)
    ensures
        combined_status(a + b) == combined_status(a) | combined_status(b),
        combined_output(a + b) == combined_output(a) + combined_output(b),
    decreases b.len(),
{
    if b.len() == 0 {
        assert(a + b =~= a);
        let status = combined_status(a);
        assert(status | 0i32 == status) by (bit_vector);
        assert(combined_output(a) + combined_output(b) =~= combined_output(a));
    } else {
        law_batches_combine_in_turn(a, b.drop_last());
        assert((a + b).drop_last() =~= a + b.drop_last());
        assert((a + b).last() == b.last());
        let x = combined_status(a);
        let y = combined_status(b.drop_last());
        let z = b.last().0;
        assert((x | y) | z == x | (y | z)) by (bit_vector);
        assert((combined_output(a) + combined_output(b.drop_last())) + b.last().1@
            =~= combined_output(a) + combined_output(b));
    }
}

/// The paths as words.
pub open spec fn path_words(paths: Seq<PathView>) -> Seq<WordView> {
    paths.map_values(|p: PathView| WordView::Path(p))
}

/// The command that runs a hook over a batch of files: the entry, then the arguments of
/// the hook, then the files. Its exit status is not a failure.
pub open spec fn hook_command(
    summary: Seq<char>,
    entry: Seq<Seq<char>>,
    work_dir: PathView,
    env: Seq<VariableView>,
    args: Seq<Seq<char>>,
    batch: Seq<PathView>,
) -> CommandView {
    CommandView {
        program: WordView::Text(entry[0]),
        summary,
        args: action::text_words(entry.drop_first()) + action::text_words(args) + path_words(batch),
        current_dir: Some(work_dir),
        env,
        remove_git_env: false,
        check: false,
        null_stdin: false,
    }
}

/// Variables that are put behind others prevail over them, and the others keep their values
/// where these say nothing.
pub proof fn law_later_variables_prevail(
    fixed: Seq<VariableView>,
    env: Seq<VariableView>,
    name: Seq<char>,
)
    ensures
        action::value_of(fixed + env, name) == match action::value_of(env, name) {
            Some(value) => Some(value),
            None => action::value_of(fixed, name),
        },
    decreases env.len(),
{
    if env.len() == 0 {
        assert(fixed + env =~= fixed);
    } else {
        assert((fixed + env).drop_last() =~= fixed + env.drop_last());
        assert((fixed + env).last() == env.last());
        law_later_variables_prevail(fixed, env.drop_last(), name);
    }
}

/// The words of a list of texts from `from` on.
fn words_from(texts: &Vec<String>, from: usize) -> (r: Vec<Word>)
    requires
        from <= texts@.len(),
    ensures
        action::word_views(r@) == action::text_words(text::texts(texts@).skip(from as int)),
{
    let ghost all = action::text_words(text::texts(texts@).skip(from as int));
    let mut out: Vec<Word> = Vec::new();
    let mut i: usize = from;
    while i < texts.len()
        invariant
            from <= i <= texts@.len(),
            all == action::text_words(text::texts(texts@).skip(from as int)),
            action::word_views(out@) == all.take(i - from),
        decreases texts@.len() - i,
    {
        let word = Word::text(texts[i].as_str());
        let ghost before = out@;
        out.push(word);
        proof {
            assert(action::word_views(out@) =~= action::word_views(before).push(word@));
            assert(all[i - from] == word@);
            assert(all.take(i + 1 - from) =~= all.take(i - from).push(all[i - from]));
        }
        i = i + 1;
    }
    proof {
        assert(all.take(i - from) =~= all);
    }
    out
}

/// The words of a list of paths.
fn words_of_paths(paths: &Vec<PathBuf>) -> (r: Vec<Word>)
    ensures
        action::word_views(r@) == path_words(buf::path_views(paths@)),
{
    let ghost all = path_words(buf::path_views(paths@));
    let mut out: Vec<Word> = Vec::new();
    let mut i: usize = 0;
    while i < paths.len()
        invariant
            i <= paths@.len(),
            all == path_words(buf::path_views(paths@)),
            action::word_views(out@) == all.take(i as int),
        decreases paths@.len() - i,
    {
        let word = Word::path(&paths[i]);
        let ghost before = out@;
        out.push(word);
        proof {
            assert(action::word_views(out@) =~= action::word_views(before).push(word@));
            assert(all[i as int] == word@);
            assert(all.take(i + 1) =~= all.take(i as int).push(all[i as int]));
        }
        i = i + 1;
    }
    proof {
        assert(all.take(i as int) =~= all);
    }
    out
}

/// The command that runs a hook over a batch of files. The entry must not be empty.
pub fn build_hook_command(
    summary: &str,
    entry: &Vec<String>,
    work_dir: &PathBuf,
    env: Vec<Variable>,
    args: &Vec<String>,
    batch: &Vec<PathBuf>,
) -> (r: Command)
    requires
        entry@.len() > 0,
    ensures
        r@ == hook_command(
            summary@,
            text::texts(entry@),
            work_dir@,
            action::variable_views(env@),
            text::texts(args@),
            buf::path_views(batch@),
        ),
{
    let mut words = words_from(entry, 1);
    let ghost first = words@;
    let mut more = words_from(args, 0);
    let ghost second = more@;
    words.append(&mut more);
    let mut files = words_of_paths(batch);
    let ghost third = files@;
    words.append(&mut files);
    proof {
        assert(text::texts(entry@).skip(1) =~= text::texts(entry@).drop_first());
        assert(text::texts(args@).skip(0) =~= text::texts(args@));
        assert(action::word_views(words@) =~= action::word_views(first) + action::word_views(
            second,
        ) + action::word_views(third));
    }
    Command {
        program: Word::text(entry[0].as_str()),
        summary: summary.to_owned(),
        args: words,
        current_dir: Some(work_dir.duplicate()),
        env,
        remove_git_env: false,
        check: false,
        null_stdin: false,
    }
}

/// A hook runs its entry in its directory, and gets the other words of the entry, then its own
/// arguments, then the files of the batch, each of them once and in order. That it fails is not
/// a failure of the run.
pub proof fn law_hook_gets_its_words_and_files(
    summary: Seq<char>,
    entry: Seq<Seq<char>>,
    work_dir: PathView,
    env: Seq<VariableView>,
    args: Seq<Seq<char>>,
    batch: Seq<PathView>,
)
    requires
        entry.len() > 0,
    ensures
        ({
            let command = hook_command(summary, entry, work_dir, env, args, batch);
            let n = entry.len() - 1;
            let m = n + args.len();
            &&& command.program == WordView::Text(entry[0])
            &&& command.args.len() == m + batch.len()
            &&& forall|i: int|
                0 <= i < n ==> #[trigger] command.args[i] == WordView::Text(entry[i + 1])
            &&& forall|i: int|
                n <= i < m ==> #[trigger] command.args[i] == WordView::Text(args[i - n])
            &&& forall|i: int|
                m <= i < m + batch.len() ==> #[trigger] command.args[i] == WordView::Path(
                    batch[i - m],
                )
            &&& command.current_dir == Some(work_dir)
            &&& command.env == env
            &&& !command.check
            &&& !command.remove_git_env
        }),
{
}

/// Nothing combines to success without output, and one batch alone to what it left behind. A
/// command that a signal ended counts as failed.
pub proof fn law_one_batch_stays_as_it_is(result: (i32, Vec<u8>), code: i32)
    ensures
        combined_status(Seq::empty()) == 0,
        combined_output(Seq::empty()) == Seq::<u8>::empty(),
        combined_status(seq![result]) == result.0,
        combined_output(seq![result]) == result.1@,
        exit_code(Some(code)) == code,
        exit_code(None) == 1,
{
    let one = seq![result];
    let status = result.0;
    assert(one.drop_last() =~= Seq::empty());
    assert(one.last() == result);
    assert(combined_status(one.drop_last()) == 0);
    assert(combined_output(one.drop_last()) =~= Seq::<u8>::empty());
    assert(0i32 | status == status) by (bit_vector);
    assert(Seq::<u8>::empty() + result.1@ =~= result.1@);
}

} // verus!
