//! The packages of a Rust repository: what they are called, where they are, and how
//! dependencies on others are written.

use vstd::prelude::*;

use crate::action;
use crate::action::{
    Action, ActionView, Entry, EntryKind, EntryView, Failure, Outcome, OutcomeView, Step, StepView,
};
use crate::path::buf::PathBuf;
use crate::path::model::PathView;
use crate::strings;
use crate::text;
use crate::text::Class;

verus! {

/// The two parts of a dependency: the name, and the version behind a colon.
pub open spec fn dependency_parts(dep: Seq<char>) -> (Seq<char>, Seq<char>) {
    match text::split_once(dep, ':') {
        Some(parts) => parts,
        None => (dep, Seq::empty()),
    }
}

/// Splits a dependency into its name and the version behind a colon.
pub fn split_dependency(dep: &str) -> (r: (String, String))
    ensures
        (r.0@, r.1@) == dependency_parts(dep@),
{
    match strings::split_once(dep, ':') {
        Some(parts) => parts,
        None => (dep.to_owned(), String::new()),
    }
}

/// A dependency as cargo writes it.
pub open spec fn cargo_dependency(dep: Seq<char>) -> Seq<char> {
    let (name, version) = dependency_parts(dep);
    name + "@"@ + (if version.len() == 0 {
        "*"@
    } else {
        version
    })
}

/// Writes a dependency such as `serde:1.0` as cargo does: `serde@1.0`, with `*` for a
/// version that is not given.
pub fn format_cargo_dependency(dep: &str) -> (r: String)
    ensures
        r@ == cargo_dependency(dep@),
{
    let (name, version) = split_dependency(dep);
    let mut out = name;
    out.append("@");
    proof {
        reveal_strlit("");
        if version@.len() == 0 {
            assert(version@ =~= ""@);
        }
    }
    if strings::same(version.as_str(), "") {
        out.append("*");
    } else {
        out.append(version.as_str());
    }
    out
}

/// Whether the same quote stands three times at `i`.
pub open spec fn three_at(line: Seq<char>, i: int, quote: char) -> bool {
    i + 2 < line.len() && line[i] == quote && line[i + 1] == quote && line[i + 2] == quote
}

/// The text of a value: what stands between quotes, of which there may be three on each side,
/// or the value as it is.
pub open spec fn text_of_value(value: Seq<char>) -> Seq<char> {
    let value = text::trim(value, Class::Space);
    if value.len() > 0 && (value[0] == '"' || value[0] == '\'') {
        let rest = value.skip(
            if three_at(value, 0, value[0]) {
                3
            } else {
                1
            },
        );
        match text::split_once(rest, value[0]) {
            Some((inside, _)) => inside,
            None => rest,
        }
    } else {
        value
    }
}

/// The name that a line of a table gives: the value of a key that is called `name`.
pub open spec fn name_in_line(line: Seq<char>) -> Option<Seq<char>> {
    match text::split_once(line, '=') {
        Some((key, value)) if text::trim(key, Class::Space) == "name"@ => Some(
            text_of_value(value),
        ),
        _ => None,
    }
}

/// Where a reader of a manifest is: how deep inside arrays and inline tables, and in which
/// string, if in any. A long string, in three quotes on each side, can have several lines.
#[derive(Debug, Clone, Copy, PartialEq, Eq)]
pub struct Reading {
    pub depth: u64,
    pub quote: Option<char>,
    pub long: bool,
}

impl Reading {
    /// The start of a manifest.
    pub open spec fn start() -> Reading {
        Reading { depth: 0, quote: None, long: false }
    }

    /// Whether a table, or a key of one, can be next.
    pub open spec fn at_top(self) -> bool {
        self.depth == 0 && self.quote is None
    }

    /// Behind an opening bracket.
    pub open spec fn deeper(self) -> Reading {
        if self.depth < u64::MAX {
            Reading { depth: (self.depth + 1) as u64, ..self }
        } else {
            self
        }
    }

    /// Behind a closing bracket.
    pub open spec fn back(self) -> Reading {
        if self.depth > 0 {
            Reading { depth: (self.depth - 1) as u64, ..self }
        } else {
            self
        }
    }

    /// In a string.
    pub open spec fn inside(self, quote: char, long: bool) -> Reading {
        Reading { quote: Some(quote), long, ..self }
    }

    /// In no string.
    pub open spec fn outside(self) -> Reading {
        Reading { quote: None, long: false, ..self }
    }
}

/// Where a reader is behind a line that is read from `i` on. A comment says nothing, and a
/// string that is not long ends with its line.
pub open spec fn read_line(line: Seq<char>, i: int, at: Reading) -> Reading
    decreases line.len() + 1 - i,
{
    if i < 0 || i >= line.len() {
        if at.long {
            at
        } else {
            at.outside()
        }
    } else {
        let c = line[i];
        match at.quote {
            Some(q) => if q == '"' && c == '\\' {
                read_line(line, i + 2, at)
            } else if at.long && three_at(line, i, q) {
                read_line(line, i + 3, at.outside())
            } else if !at.long && c == q {
                read_line(line, i + 1, at.outside())
            } else {
                read_line(line, i + 1, at)
            },
            None => if c == '#' {
                at.outside()
            } else if c == '"' || c == '\'' {
                if three_at(line, i, c) {
                    read_line(line, i + 3, at.inside(c, true))
                } else {
                    read_line(line, i + 1, at.inside(c, false))
                }
            } else if c == '[' || c == '{' {
                read_line(line, i + 1, at.deeper())
            } else if c == ']' || c == '}' {
                read_line(line, i + 1, at.back())
            } else {
                read_line(line, i + 1, at)
            },
        }
    }
}

/// Whether a line looks like the header of a table.
pub open spec fn opens_header(line: Seq<char>) -> bool {
    text::begins(text::trim(line, Class::Space), "["@)
}

/// Whether a header is that of the package table: the name between its brackets is
/// `package`, with blanks or quotes around it or without.
pub open spec fn is_package_header(line: Seq<char>) -> bool {
    match text::split_once(text::trim(line, Class::Space).skip(1), ']') {
        Some((name, _)) => text_of_value(name) == "package"@,
        None => false,
    }
}

/// Where a reader is before the line at `i`.
pub open spec fn reading_before(lines: Seq<Seq<char>>, i: int) -> Reading
    decreases i,
{
    if i <= 0 {
        Reading::start()
    } else {
        let at = reading_before(lines, i - 1);
        if at.at_top() && opens_header(lines[i - 1]) {
            at
        } else {
            read_line(lines[i - 1], 0, at)
        }
    }
}

/// Whether the line at `i` is the header of a table. A line of an array or of a string is
/// none.
pub open spec fn is_header(lines: Seq<Seq<char>>, i: int) -> bool {
    reading_before(lines, i).at_top() && opens_header(lines[i])
}

/// Whether the line at `i` belongs to the package table: the last header before it is that
/// of the package.
pub open spec fn in_package(lines: Seq<Seq<char>>, i: int) -> bool
    decreases i,
{
    if i <= 0 {
        false
    } else if is_header(lines, i - 1) {
        is_package_header(lines[i - 1])
    } else {
        in_package(lines, i - 1)
    }
}

/// The package name that the line at `i` gives.
pub open spec fn package_name_at(lines: Seq<Seq<char>>, i: int) -> Option<Seq<char>> {
    if in_package(lines, i) && reading_before(lines, i).at_top() && !opens_header(lines[i]) {
        name_in_line(lines[i])
    } else {
        None
    }
}

/// The package name that the first of the lines from `i` on gives that gives one.
pub open spec fn package_name_from(lines: Seq<Seq<char>>, i: int) -> Option<Seq<char>>
    decreases lines.len() - i,
{
    if i < 0 || i >= lines.len() {
        None
    } else if package_name_at(lines, i) is Some {
        package_name_at(lines, i)
    } else {
        package_name_from(lines, i + 1)
    }
}

/// The package name that a manifest gives: the name in its package table.
pub open spec fn package_name(content: Seq<char>) -> Option<Seq<char>> {
    package_name_from(text::lines(content), 0)
}

/// Tells whether the same quote stands three times at `i`.
fn has_three_at(line: &Vec<char>, i: usize, quote: char) -> (r: bool)
    requires
        i < line@.len(),
    ensures
        r == three_at(line@, i as int, quote),
{
    line.len() - i > 2 && line[i] == quote && line[i + 1] == quote && line[i + 2] == quote
}

/// The text of a value.
fn read_value(value: &str) -> (r: String)
    ensures
        r@ == text_of_value(value@),
{
    let value = strings::trim(value, Class::Space);
    let chars = strings::to_chars(value.as_str());
    if chars.len() > 0 && (chars[0] == '"' || chars[0] == '\'') {
        let from: usize = if has_three_at(&chars, 0, chars[0]) {
            3
        } else {
            1
        };
        let rest = strings::from_chars(&chars, from, chars.len());
        proof {
            assert(rest@ =~= value@.skip(from as int));
        }
        match strings::split_once(rest.as_str(), chars[0]) {
            Some((inside, _)) => inside,
            None => rest,
        }
    } else {
        value
    }
}

/// The name that a line of a table gives.
fn extract_from_line(line: &str) -> (r: Option<String>)
    ensures
        match r {
            Some(name) => name_in_line(line@) == Some(name@),
            None => name_in_line(line@) is None,
        },
{
    match strings::split_once(line, '=') {
        Some((key, value)) => {
            let key = strings::trim(key.as_str(), Class::Space);
            if strings::same(key.as_str(), "name") {
                Some(read_value(value.as_str()))
            } else {
                None
            }
        },
        None => None,
    }
}

impl Reading {
    /// Behind an opening bracket.
    fn into_bracket(self) -> (r: Reading)
        ensures
            r == self.deeper(),
    {
        if self.depth < u64::MAX {
            Reading { depth: self.depth + 1, quote: self.quote, long: self.long }
        } else {
            self
        }
    }

    /// Behind a closing bracket.
    fn out_of_bracket(self) -> (r: Reading)
        ensures
            r == self.back(),
    {
        if self.depth > 0 {
            Reading { depth: self.depth - 1, quote: self.quote, long: self.long }
        } else {
            self
        }
    }

    /// Tells whether a table, or a key of one, can be next.
    fn is_at_top(&self) -> (r: bool)
        ensures
            r == self.at_top(),
    {
        self.depth == 0 && self.quote.is_none()
    }

    /// Reads a line.
    fn over_line(self, line: &str) -> (r: Reading)
        ensures
            r == read_line(line@, 0, self),
    {
        let chars = strings::to_chars(line);
        let mut at = self;
        let mut i: usize = 0;
        while i < chars.len()
            invariant
                chars@ == line@,
                read_line(line@, 0, self) == read_line(line@, i as int, at),
            decreases chars@.len() - i,
        {
            let c = chars[i];
            let mut step: usize = 1;
            match at.quote {
                Some(q) => {
                    if q == '"' && c == '\\' {
                        step = 2;
                    } else if at.long && has_three_at(&chars, i, q) {
                        at = Reading { depth: at.depth, quote: None, long: false };
                        step = 3;
                    } else if !at.long && c == q {
                        at = Reading { depth: at.depth, quote: None, long: false };
                    }
                },
                None => {
                    if c == '#' {
                        return Reading { depth: at.depth, quote: None, long: false };
                    } else if c == '"' || c == '\'' {
                        let long = has_three_at(&chars, i, c);
                        at = Reading { depth: at.depth, quote: Some(c), long };
                        if long {
                            step = 3;
                        }
                    } else if c == '[' || c == '{' {
                        at = at.into_bracket();
                    } else if c == ']' || c == '}' {
                        at = at.out_of_bracket();
                    }
                },
            }
            if chars.len() - i < step {
                i = chars.len();
                proof {
                    assert(read_line(line@, 0, self) == read_line(line@, i + 1, at));
                }
            } else {
                i = i + step;
            }
        }
        if at.long {
            at
        } else {
            Reading { depth: at.depth, quote: None, long: false }
        }
    }
}

/// Tells whether a header is that of the package table.
fn heads_package(header: &str) -> (r: bool)
    requires
        opens_header(header@),
    ensures
        r == is_package_header(header@),
{
    let line = strings::trim(header, Class::Space);
    let chars = strings::to_chars(line.as_str());
    proof {
        reveal_strlit("[");
        assert(line@.len() > 0);
    }
    let rest = strings::from_chars(&chars, 1, chars.len());
    proof {
        assert(rest@ =~= line@.skip(1));
    }
    match strings::split_once(rest.as_str(), ']') {
        Some((name, _)) => strings::same(read_value(name.as_str()).as_str(), "package"),
        None => false,
    }
}

/// Extracts the package name from the content of a `Cargo.toml`.
pub fn extract_package_name(content: &str) -> (r: Option<String>)
    ensures
        match r {
            Some(name) => package_name(content@) == Some(name@),
            None => package_name(content@) is None,
        },
{
    let lines = strings::lines(content);
    let ghost all = text::lines(content@);
    let mut inside = false;
    let mut at = Reading { depth: 0, quote: None, long: false };
    let mut i: usize = 0;
    while i < lines.len()
        invariant
            i <= lines@.len(),
            text::texts(lines@) == all,
            all == text::lines(content@),
            at == reading_before(all, i as int),
            inside == in_package(all, i as int),
            package_name(content@) == package_name_from(all, i as int),
        decreases lines@.len() - i,
    {
        proof {
            assert(all[i as int] == lines@[i as int]@);
        }
        let line = lines[i].as_str();
        let top = at.is_at_top();
        if top && strings::starts_with(strings::trim(line, Class::Space).as_str(), "[") {
            inside = heads_package(line);
        } else {
            if top && inside {
                if let Some(name) = extract_from_line(line) {
                    return Some(name);
                }
            }
            at = at.over_line(line);
        }
        i = i + 1;
    }
    None
}

/// Whether a package of this name makes the binary: hyphens count as underscores.
pub open spec fn makes_binary(name: Seq<char>, binary: Seq<char>) -> bool {
    text::replace(name, '-', '_') == text::replace(binary, '-', '_')
}

/// Tells whether the package of a manifest makes the binary.
fn manifest_makes_binary(content: &str, binary: &str) -> (r: bool)
    ensures
        r == (package_name(content@) matches Some(name) && makes_binary(name, binary@)),
{
    match extract_package_name(content) {
        Some(name) => strings::same(
            strings::replace(name.as_str(), '-', '_').as_str(),
            strings::replace(binary, '-', '_').as_str(),
        ),
        None => false,
    }
}

/// What the manifest at the root of a repository says of the place of a binary.
pub enum Root {
    /// The root is the package.
    Package { is_workspace: bool },
    /// One of the members of the workspace may be the package.
    Members,
    /// There is neither a package nor a workspace.
    Invalid,
}

/// What the manifest at the root of a repository says of the place of a binary. In a
/// workspace the root is the package only if it makes the binary; elsewhere it is in any
/// case.
pub open spec fn root_of(content: Seq<char>, binary: Seq<char>) -> Root {
    let has_package = text::has_text(content, "[package]"@);
    if text::has_text(content, "[workspace]"@) {
        if has_package && (package_name(content) matches Some(name) && makes_binary(name, binary)) {
            Root::Package { is_workspace: true }
        } else {
            Root::Members
        }
    } else if has_package {
        Root::Package { is_workspace: false }
    } else {
        Root::Invalid
    }
}

/// Reads in the manifest at the root of a repository where a binary is made.
pub fn read_root(content: &str, binary: &str) -> (r: Root)
    ensures
        r == root_of(content@, binary@),
{
    if strings::contains(content, "[workspace]") {
        if strings::contains(content, "[package]") && manifest_makes_binary(content, binary) {
            Root::Package { is_workspace: true }
        } else {
            Root::Members
        }
    } else if strings::contains(content, "[package]") {
        Root::Package { is_workspace: false }
    } else {
        Root::Invalid
    }
}

/// Where [`find_package_dir`] is.
#[derive(Debug, PartialEq)]
pub enum PackagePhase {
    Start,
    CheckRoot,
    ReadRoot,
    ListMembers,
    /// The first of the entries is looked at.
    CheckMember(Vec<Entry>),
    /// The manifest of the first of the entries is read.
    ReadMember(Vec<Entry>),
    Over,
}

/// Where [`find_package_dir`] is.
pub enum PackagePhaseView {
    Start,
    CheckRoot,
    ReadRoot,
    ListMembers,
    CheckMember(Seq<EntryView>),
    ReadMember(Seq<EntryView>),
    Over,
}

impl View for PackagePhase {
    type V = PackagePhaseView;

    open spec fn view(&self) -> PackagePhaseView {
        match self {
            PackagePhase::Start => PackagePhaseView::Start,
            PackagePhase::CheckRoot => PackagePhaseView::CheckRoot,
            PackagePhase::ReadRoot => PackagePhaseView::ReadRoot,
            PackagePhase::ListMembers => PackagePhaseView::ListMembers,
            PackagePhase::CheckMember(entries) => PackagePhaseView::CheckMember(
                action::entry_views(entries@),
            ),
            PackagePhase::ReadMember(entries) => PackagePhaseView::ReadMember(
                action::entry_views(entries@),
            ),
            PackagePhase::Over => PackagePhaseView::Over,
        }
    }
}

/// What the search for a package does next.
pub type PackageNext = (PackagePhaseView, StepView<(PathView, bool)>);

/// The manifest in a directory.
pub open spec fn manifest_in(dir: PathView) -> PathView {
    dir.child("Cargo.toml"@)
}

/// The search ends with a failure.
pub open spec fn package_failure(messages: Seq<Seq<char>>) -> PackageNext {
    (PackagePhaseView::Over, StepView::Fail(messages))
}

/// What is said when a repository has no manifest.
pub open spec fn no_manifest(repo: PathView) -> Seq<char> {
    "No Cargo.toml found in "@ + action::shown(repo)
}

/// What is said when no package of a workspace makes the binary.
pub open spec fn no_package(repo: PathView, binary: Seq<char>) -> Seq<char> {
    "No package found for binary '"@ + binary + "' in workspace "@ + action::shown(repo)
}

/// What is said when a manifest has neither a package nor a workspace.
pub open spec fn invalid_manifest(repo: PathView) -> Seq<char> {
    "Invalid Cargo.toml in "@ + action::shown(repo)
}

/// The search among the entries of a workspace: the next directory is looked at.
pub open spec fn search_members(
    repo: PathView,
    binary: Seq<char>,
    entries: Seq<EntryView>,
) -> PackageNext
    decreases entries.len(),
{
    if entries.len() == 0 {
        package_failure(seq![no_package(repo, binary)])
    } else {
        match entries[0].kind {
            EntryKind::Dir => (
                PackagePhaseView::CheckMember(entries),
                StepView::Do(ActionView::Exists(manifest_in(entries[0].path))),
            ),
            EntryKind::Unreadable => package_failure(entries[0].problem),
            _ => search_members(repo, binary, entries.drop_first()),
        }
    }
}

/// How the package that makes a binary is searched for: at the root first, then, in a
/// workspace, in the directories below it.
pub open spec fn package_next(
    repo: PathView,
    binary: Seq<char>,
    phase: PackagePhaseView,
    outcome: OutcomeView,
) -> PackageNext {
    match (phase, outcome) {
        (PackagePhaseView::Start, OutcomeView::Begin) => (
            PackagePhaseView::CheckRoot,
            StepView::Do(ActionView::Exists(manifest_in(repo))),
        ),
        (PackagePhaseView::CheckRoot, OutcomeView::Answer(there)) => if there {
            (PackagePhaseView::ReadRoot, StepView::Do(ActionView::ReadText(manifest_in(repo))))
        } else {
            package_failure(seq![no_manifest(repo)])
        },
        (PackagePhaseView::ReadRoot, OutcomeView::Text(content)) => match root_of(content, binary) {
            Root::Package { is_workspace } => (
                PackagePhaseView::Over,
                StepView::Done((repo, is_workspace)),
            ),
            Root::Members => (
                PackagePhaseView::ListMembers,
                StepView::Do(ActionView::ListDir(repo)),
            ),
            Root::Invalid => package_failure(seq![invalid_manifest(repo)]),
        },
        (PackagePhaseView::ListMembers, OutcomeView::Entries(entries)) => search_members(
            repo,
            binary,
            entries,
        ),
        (PackagePhaseView::CheckMember(entries), OutcomeView::Answer(there)) if entries.len() > 0 =>
        if there {
            (
                PackagePhaseView::ReadMember(entries),
                StepView::Do(ActionView::ReadText(manifest_in(entries[0].path))),
            )
        } else {
            search_members(repo, binary, entries.drop_first())
        },
        (PackagePhaseView::ReadMember(entries), OutcomeView::Text(content)) if entries.len() > 0 =>
        if package_name(content) matches Some(name) && makes_binary(name, binary) {
            (PackagePhaseView::Over, StepView::Done((entries[0].path, true)))
        } else {
            search_members(repo, binary, entries.drop_first())
        },
        _ => package_failure(action::failure_of(outcome)),
    }
}

/// The search among the entries of a workspace.
fn next_member(repo: &PathBuf, binary: &str, entries: Vec<Entry>) -> (r: (
    PackagePhase,
    Step<(PathBuf, bool)>,
))
    ensures
        (r.0@, r.1@) == search_members(repo@, binary@, action::entry_views(entries@)),
{
    let mut left = entries;
    loop
        invariant
            search_members(repo@, binary@, action::entry_views(entries@)) == search_members(
                repo@,
                binary@,
                action::entry_views(left@),
            ),
        decreases left@.len(),
    {
        if left.len() == 0 {
            let mut message = "No package found for binary '".to_owned();
            message.append(binary);
            message.append("' in workspace ");
            message.append(repo.to_string_lossy().as_str());
            return (PackagePhase::Over, Step::Fail(Failure::new(message)));
        }
        let ghost views = action::entry_views(left@);
        proof {
            assert(views[0] == left@[0]@);
        }
        match left[0].kind {
            EntryKind::Dir => {
                let manifest = left[0].path.join("Cargo.toml");
                return (PackagePhase::CheckMember(left), Step::Do(Action::Exists(manifest)));
            },
            EntryKind::Unreadable => {
                return (PackagePhase::Over, Step::Fail(left[0].problem.duplicate()));
            },
            _ => {
                let _ = left.remove(0);
                proof {
                    assert(action::entry_views(left@) =~= views.drop_first());
                }
            },
        }
    }
}

/// Finds the package directory that makes the given binary, and tells whether it belongs
/// to a workspace.
pub fn find_package_dir(
    repo: &PathBuf,
    binary_name: &str,
    phase: PackagePhase,
    outcome: Outcome,
) -> (r: (PackagePhase, Step<(PathBuf, bool)>))
    ensures
        (r.0@, r.1@) == package_next(repo@, binary_name@, phase@, outcome@),
{
    match (phase, outcome) {
        (PackagePhase::Start, Outcome::Begin) => (
            PackagePhase::CheckRoot,
            Step::Do(Action::Exists(repo.join("Cargo.toml"))),
        ),
        (PackagePhase::CheckRoot, Outcome::Answer(there)) => if there {
            (PackagePhase::ReadRoot, Step::Do(Action::ReadText(repo.join("Cargo.toml"))))
        } else {
            let mut message = "No Cargo.toml found in ".to_owned();
            message.append(repo.to_string_lossy().as_str());
            (PackagePhase::Over, Step::Fail(Failure::new(message)))
        },
        (PackagePhase::ReadRoot, Outcome::Text(content)) => match read_root(
            content.as_str(),
            binary_name,
        ) {
            Root::Package { is_workspace } => (
                PackagePhase::Over,
                Step::Done((repo.duplicate(), is_workspace)),
            ),
            Root::Members => (
                PackagePhase::ListMembers,
                Step::Do(Action::ListDir(repo.duplicate())),
            ),
            Root::Invalid => {
                let mut message = "Invalid Cargo.toml in ".to_owned();
                message.append(repo.to_string_lossy().as_str());
                (PackagePhase::Over, Step::Fail(Failure::new(message)))
            },
        },
        (PackagePhase::ListMembers, Outcome::Entries(entries)) => next_member(
            repo,
            binary_name,
            entries,
        ),
        (PackagePhase::CheckMember(entries), Outcome::Answer(there)) if entries.len() > 0 => {
            let ghost views = action::entry_views(entries@);
            proof {
                assert(views[0] == entries@[0]@);
            }
            if there {
                let manifest = entries[0].path.join("Cargo.toml");
                (PackagePhase::ReadMember(entries), Step::Do(Action::ReadText(manifest)))
            } else {
                let mut left = entries;
                let _ = left.remove(0);
                proof {
                    assert(action::entry_views(left@) =~= views.drop_first());
                }
                next_member(repo, binary_name, left)
            }
        },
        (PackagePhase::ReadMember(entries), Outcome::Text(content)) if entries.len() > 0 => {
            let ghost views = action::entry_views(entries@);
            proof {
                assert(views[0] == entries@[0]@);
            }
            if manifest_makes_binary(content.as_str(), binary_name) {
                (PackagePhase::Over, Step::Done((entries[0].path.duplicate(), true)))
            } else {
                let mut left = entries;
                let _ = left.remove(0);
                proof {
                    assert(action::entry_views(left@) =~= views.drop_first());
                }
                next_member(repo, binary_name, left)
            }
        },
        (_, other) => (PackagePhase::Over, Step::Fail(other.into_failure())),
    }
}

/// `name:version` is written `name@version`, and a name alone `name@*`.
pub proof fn law_dependency_is_rewritten(name: Seq<char>, version: Seq<char>)
    requires
        forall|i: int| 0 <= i < name.len() ==> #[trigger] name[i] != ':',
    ensures
        version.len() > 0 ==> cargo_dependency(name + ":"@ + version) == name + "@"@ + version,
        cargo_dependency(name) == name + "@"@ + "*"@,
        cargo_dependency(name + ":"@) == name + "@"@ + "*"@,
{
    reveal_strlit(":");
    let n = name.len() as int;
    let colon = Class::Only(':');
    let dep = name + ":"@ + version;
    assert(dep[n] == ':');
    assert forall|i: int| 0 <= i < n implies !colon.has(#[trigger] dep[i]) by {
        assert(dep[i] == name[i]);
    }
    strings::lemma_first_of(dep, colon, n);
    assert(dep.take(n) =~= name);
    assert(dep.skip(n + 1) =~= version);
    assert forall|i: int| 0 <= i < n implies !colon.has(#[trigger] name[i]) by {}
    strings::lemma_first_of(name, colon, n);
    let bare = name + ":"@;
    assert(bare[n] == ':');
    assert forall|i: int| 0 <= i < n implies !colon.has(#[trigger] bare[i]) by {
        assert(bare[i] == name[i]);
    }
    strings::lemma_first_of(bare, colon, n);
    assert(bare.take(n) =~= name);
    assert(bare.skip(n + 1) =~= Seq::<char>::empty());
}

/// A package makes the binary of its own name, with hyphens or with underscores, and
/// what makes a binary makes it under any such spelling.
pub proof fn law_hyphens_count_as_underscores(name: Seq<char>, binary: Seq<char>)
    ensures
        makes_binary(name, name),
        makes_binary(name, text::replace(name, '-', '_')),
        makes_binary(name, binary) == makes_binary(name, text::replace(binary, '-', '_')),
        makes_binary(name, binary) == makes_binary(binary, name),
{
    let once = text::replace(name, '-', '_');
    assert(text::replace(once, '-', '_') =~= once);
    let other = text::replace(binary, '-', '_');
    assert(text::replace(other, '-', '_') =~= other);
}

/// In a workspace a package is found only where its manifest says that it makes the
/// binary. Elsewhere it is found only at the root, whose manifest has a package.
pub proof fn law_found_package_makes_the_binary(
    repo: PathView,
    binary: Seq<char>,
    phase: PackagePhaseView,
    outcome: OutcomeView,
)
    ensures
        package_next(repo, binary, phase, outcome).1 matches StepView::Done((dir, is_workspace))
            ==> {
            &&& outcome matches OutcomeView::Text(content)
            &&& is_workspace ==> (package_name(content) matches Some(name) && makes_binary(
                name,
                binary,
            ))
            &&& !is_workspace ==> dir == repo && text::has_text(content, "[package]"@)
            &&& phase is ReadRoot ==> dir == repo
            &&& phase is ReadRoot || phase is ReadMember
        },
{
    match (phase, outcome) {
        (PackagePhaseView::ListMembers, OutcomeView::Entries(entries)) => {
            lemma_search_finds_nothing_alone(repo, binary, entries);
        },
        (PackagePhaseView::CheckMember(entries), OutcomeView::Answer(_)) => {
            lemma_search_finds_nothing_alone(repo, binary, entries.drop_first());
        },
        (PackagePhaseView::ReadMember(entries), OutcomeView::Text(_)) => {
            lemma_search_finds_nothing_alone(repo, binary, entries.drop_first());
        },
        _ => {},
    }
}

/// The search among entries does not end before a manifest was read.
proof fn lemma_search_finds_nothing_alone(
    repo: PathView,
    binary: Seq<char>,
    entries: Seq<EntryView>,
)
    ensures
        !(search_members(repo, binary, entries).1 is Done),
    decreases entries.len(),
{
    if entries.len() > 0 {
        lemma_search_finds_nothing_alone(repo, binary, entries.drop_first());
    }
}

/// Names differ for a binary only where one has a hyphen and the other an underscore.
pub proof fn law_only_hyphens_and_underscores_may_differ(name: Seq<char>, binary: Seq<char>)
    ensures
        makes_binary(name, binary) <==> name.len() == binary.len() && forall|i: int|
            0 <= i < name.len() ==> #[trigger] name[i] == binary[i] || ((name[i] == '-' || name[i]
                == '_') && (binary[i] == '-' || binary[i] == '_')),
{
    let a = text::replace(name, '-', '_');
    let b = text::replace(binary, '-', '_');
    if makes_binary(name, binary) {
        assert(a.len() == b.len());
        assert forall|i: int| 0 <= i < name.len() implies #[trigger] name[i] == binary[i] || ((
        name[i] == '-' || name[i] == '_') && (binary[i] == '-' || binary[i] == '_')) by {
            assert(a[i] == b[i]);
        }
    }
    if name.len() == binary.len() && forall|i: int|
        0 <= i < name.len() ==> #[trigger] name[i] == binary[i] || ((name[i] == '-' || name[i]
            == '_') && (binary[i] == '-' || binary[i] == '_')) {
        assert(a =~= b) by {
            assert forall|i: int| 0 <= i < a.len() implies a[i] == b[i] by {
                assert(name[i] == binary[i] || ((name[i] == '-' || name[i] == '_') && (binary[i]
                    == '-' || binary[i] == '_')));
            }
        }
    }
}

/// What there is on a disk, as far as the search for a package looks at it: the text files,
/// and the entries of the repository.
pub struct DiskView {
    pub files: Map<PathView, Seq<char>>,
    pub entries: Seq<EntryView>,
}

impl DiskView {
    /// What truly comes of an action that looks at the disk.
    pub open spec fn answer(self, action: ActionView) -> OutcomeView {
        match action {
            ActionView::Exists(path) => OutcomeView::Answer(self.files.contains_key(path)),
            ActionView::ReadText(path) => if self.files.contains_key(path) {
                OutcomeView::Text(self.files[path])
            } else {
                OutcomeView::Failed(seq!["No such file"@])
            },
            ActionView::ListDir(_) => OutcomeView::Entries(self.entries),
            _ => OutcomeView::Done,
        }
    }

    /// Whether the package in a directory makes the binary.
    pub open spec fn has_package(self, dir: PathView, binary: Seq<char>) -> bool {
        let manifest = dir.child("Cargo.toml"@);
        self.files.contains_key(manifest) && (package_name(self.files[manifest]) matches Some(name)
            && makes_binary(name, binary))
    }

    /// Whether the entry at `k` is a directory with a package that makes the binary.
    pub open spec fn is_member(self, k: int, binary: Seq<char>) -> bool {
        self.entries[k].kind is Dir && self.has_package(self.entries[k].path, binary)
    }

    /// Whether none of the entries before `k` settles where the binary is made: they can be
    /// read, and are no directories with a package that makes it.
    pub open spec fn nothing_before(self, k: int, binary: Seq<char>) -> bool {
        forall|j: int|
            0 <= j < k ==> !((#[trigger] self.entries[j]).kind is Unreadable) && !self.is_member(
                j,
                binary,
            )
    }
}

/// Whether these are the steps of a search from its start, each with what truly came of the
/// action before it.
pub open spec fn is_search(
    repo: PathView,
    binary: Seq<char>,
    disk: DiskView,
    steps: Seq<PackageNext>,
) -> bool {
    &&& steps.len() > 0
    &&& steps[0] == package_next(repo, binary, PackagePhaseView::Start, OutcomeView::Begin)
    &&& forall|i: int|
        0 <= i < steps.len() - 1 ==> ((#[trigger] steps[i]).1 matches StepView::Do(action)
            && steps[i + 1] == package_next(repo, binary, steps[i].0, disk.answer(action)))
}

/// What a search must end with, given what there is on the disk.
pub open spec fn is_right_end(
    repo: PathView,
    binary: Seq<char>,
    disk: DiskView,
    end: StepView<(PathView, bool)>,
) -> bool {
    let manifest = repo.child("Cargo.toml"@);
    let root = disk.files[manifest];
    let workspace = text::has_text(root, "[workspace]"@);
    let package = text::has_text(root, "[package]"@);
    if !disk.files.contains_key(manifest) {
        end == StepView::<(PathView, bool)>::Fail(
            seq!["No Cargo.toml found in "@ + action::shown(repo)],
        )
    } else if !workspace && !package {
        end == StepView::<(PathView, bool)>::Fail(
            seq!["Invalid Cargo.toml in "@ + action::shown(repo)],
        )
    } else if !workspace {
        end == StepView::Done((repo, false))
    } else if package && disk.has_package(repo, binary) {
        end == StepView::Done((repo, true))
    } else {
        &&& forall|k: int|
            0 <= k < disk.entries.len() && disk.nothing_before(k, binary)
                && #[trigger] disk.is_member(k, binary) ==> end == StepView::Done(
                (disk.entries[k].path, true),
            )
        &&& forall|k: int|
            0 <= k < disk.entries.len() && disk.nothing_before(k, binary) && (
            #[trigger] disk.entries[k]).kind is Unreadable ==> end == StepView::<
                (PathView, bool),
            >::Fail(disk.entries[k].problem)
        &&& disk.nothing_before(disk.entries.len() as int, binary) ==> end == StepView::<
            (PathView, bool),
        >::Fail(
            seq![
                "No package found for binary '"@ + binary + "' in workspace "@ + action::shown(
                    repo,
                ),
            ],
        )
    }
}

/// Whether the root is a workspace and not the package that is searched for.
spec fn is_among_members(repo: PathView, binary: Seq<char>, disk: DiskView) -> bool {
    let manifest = repo.child("Cargo.toml"@);
    let root = disk.files[manifest];
    &&& disk.files.contains_key(manifest)
    &&& text::has_text(root, "[workspace]"@)
    &&& !(text::has_text(root, "[package]"@) && disk.has_package(repo, binary))
}

/// Whether the search is at the first of the entries that are left, and at most so many steps
/// were needed for it.
spec fn is_at_entry(
    repo: PathView,
    binary: Seq<char>,
    disk: DiskView,
    left: Seq<EntryView>,
) -> bool {
    let m = disk.entries.len() - left.len();
    &&& is_among_members(repo, binary, disk)
    &&& 0 <= m < disk.entries.len()
    &&& left == disk.entries.skip(m)
    &&& disk.entries[m].kind is Dir
    &&& disk.nothing_before(m, binary)
}

/// What holds of the step at `i` of a search.
spec fn search_goes_well(
    repo: PathView,
    binary: Seq<char>,
    disk: DiskView,
    step: PackageNext,
    i: int,
) -> bool {
    let n = disk.entries.len();
    match step.0 {
        PackagePhaseView::CheckRoot => i == 0 && step.1 == StepView::<(PathView, bool)>::Do(
            ActionView::Exists(repo.child("Cargo.toml"@)),
        ),
        PackagePhaseView::ReadRoot => i == 1 && disk.files.contains_key(repo.child("Cargo.toml"@))
            && step.1 == StepView::<(PathView, bool)>::Do(
            ActionView::ReadText(repo.child("Cargo.toml"@)),
        ),
        PackagePhaseView::ListMembers => i == 2 && is_among_members(repo, binary, disk) && step.1
            == StepView::<(PathView, bool)>::Do(ActionView::ListDir(repo)),
        PackagePhaseView::CheckMember(left) => {
            &&& is_at_entry(repo, binary, disk, left)
            &&& i <= 3 + 2 * (n - left.len())
            &&& step.1 == StepView::<(PathView, bool)>::Do(
                ActionView::Exists(left[0].path.child("Cargo.toml"@)),
            )
        },
        PackagePhaseView::ReadMember(left) => {
            &&& is_at_entry(repo, binary, disk, left)
            &&& disk.files.contains_key(left[0].path.child("Cargo.toml"@))
            &&& i <= 4 + 2 * (n - left.len())
            &&& step.1 == StepView::<(PathView, bool)>::Do(
                ActionView::ReadText(left[0].path.child("Cargo.toml"@)),
            )
        },
        PackagePhaseView::Over => {
            &&& !(step.1 is Do)
            &&& i <= 3 + 2 * n
            &&& is_right_end(repo, binary, disk, step.1)
        },
        PackagePhaseView::Start => false,
    }
}

/// The search goes on well with the entries that are left.
proof fn lemma_entries_are_searched(
    repo: PathView,
    binary: Seq<char>,
    disk: DiskView,
    m: int,
    i: int,
)
    requires
        is_among_members(repo, binary, disk),
        0 <= m <= disk.entries.len(),
        disk.nothing_before(m, binary),
        i <= 3 + 2 * m,
    ensures
        search_goes_well(
            repo,
            binary,
            disk,
            search_members(repo, binary, disk.entries.skip(m)),
            i,
        ),
    decreases disk.entries.len() - m,
{
    let left = disk.entries.skip(m);
    let next = search_members(repo, binary, left);
    if m < disk.entries.len() {
        assert(left[0] == disk.entries[m]);
        assert(left.drop_first() =~= disk.entries.skip(m + 1));
        match left[0].kind {
            EntryKind::Dir => {},
            EntryKind::Unreadable => {
                assert(next.1 == StepView::<(PathView, bool)>::Fail(disk.entries[m].problem));
                lemma_first_that_settles(disk, binary, m);
            },
            _ => {
                assert(disk.nothing_before(m + 1, binary));
                lemma_entries_are_searched(repo, binary, disk, m + 1, i);
            },
        }
    } else {
        assert(left.len() == 0);
        assert forall|k: int|
            0 <= k < disk.entries.len() && disk.nothing_before(k, binary)
                && #[trigger] disk.is_member(k, binary) implies false by {
            assert(!(disk.entries[k].kind is Unreadable) && !disk.is_member(k, binary));
        }
    }
}

/// Where one entry settles the search and none before it does, no other is the first to do so.
proof fn lemma_first_that_settles(disk: DiskView, binary: Seq<char>, m: int)
    requires
        0 <= m < disk.entries.len(),
        disk.nothing_before(m, binary),
        disk.entries[m].kind is Unreadable || disk.is_member(m, binary),
    ensures
        forall|k: int|
            0 <= k < disk.entries.len() && disk.nothing_before(k, binary)
                && #[trigger] disk.is_member(k, binary) ==> k == m,
        forall|k: int|
            0 <= k < disk.entries.len() && disk.nothing_before(k, binary) && (
            #[trigger] disk.entries[k]).kind is Unreadable ==> k == m,
        !disk.nothing_before(disk.entries.len() as int, binary),
{
    let first = disk.entries[m];
    assert forall|k: int|
        0 <= k < disk.entries.len() && disk.nothing_before(k, binary) && #[trigger] disk.is_member(
            k,
            binary,
        ) implies k == m by {
        let here = disk.entries[k];
    }
}

/// A search that goes well does so by its next step too.
proof fn lemma_search_goes_on(
    repo: PathView,
    binary: Seq<char>,
    disk: DiskView,
    step: PackageNext,
    action: ActionView,
    i: int,
)
    requires
        search_goes_well(repo, binary, disk, step, i),
        step.1 == StepView::<(PathView, bool)>::Do(action),
        i >= 0,
    ensures
        search_goes_well(
            repo,
            binary,
            disk,
            package_next(repo, binary, step.0, disk.answer(action)),
            i + 1,
        ),
{
    match step.0 {
        PackagePhaseView::ListMembers => {
            assert(disk.entries.skip(0) =~= disk.entries);
            lemma_entries_are_searched(repo, binary, disk, 0, i + 1);
        },
        PackagePhaseView::CheckMember(left) => {
            let m = disk.entries.len() - left.len();
            assert(left[0] == disk.entries[m]);
            if !disk.files.contains_key(left[0].path.child("Cargo.toml"@)) {
                assert(left.drop_first() =~= disk.entries.skip(m + 1));
                assert(disk.nothing_before(m + 1, binary));
                lemma_entries_are_searched(repo, binary, disk, m + 1, i + 1);
            }
        },
        PackagePhaseView::ReadMember(left) => {
            let m = disk.entries.len() - left.len();
            assert(left[0] == disk.entries[m]);
            if disk.is_member(m, binary) {
                lemma_first_that_settles(disk, binary, m);
            } else {
                assert(left.drop_first() =~= disk.entries.skip(m + 1));
                assert(disk.nothing_before(m + 1, binary));
                lemma_entries_are_searched(repo, binary, disk, m + 1, i + 1);
            }
        },
        _ => {},
    }
}

/// Every step of a search goes well.
proof fn lemma_search_goes_well(
    repo: PathView,
    binary: Seq<char>,
    disk: DiskView,
    steps: Seq<PackageNext>,
    i: int,
)
    requires
        is_search(repo, binary, disk, steps),
        0 <= i < steps.len(),
    ensures
        search_goes_well(repo, binary, disk, steps[i], i),
    decreases i,
{
    if i > 0 {
        lemma_search_goes_well(repo, binary, disk, steps, i - 1);
        let before = steps[i - 1];
        assert(before.1 is Do);
        lemma_search_goes_on(repo, binary, disk, before, before.1->Do_0, i - 1);
    }
}

/// A search that is told the truth finds the package, wherever it is. A root that is no
/// workspace is the package. In a workspace it is the root, if the root makes the binary, and
/// else the first of the listed directories whose manifest says that it does: a directory
/// without a manifest, or with that of another package, is passed over, and so is a file.
/// That there is no package is said only where none of the listed directories has it, and the
/// search ends after two looks at each of them at most.
pub proof fn law_first_package_is_found(
    repo: PathView,
    binary: Seq<char>,
    disk: DiskView,
    steps: Seq<PackageNext>,
)
    requires
        is_search(repo, binary, disk, steps),
    ensures
        steps.len() <= 4 + 2 * disk.entries.len(),
        !(steps.last().1 is Do) ==> is_right_end(repo, binary, disk, steps.last().1),
{
    lemma_search_goes_well(repo, binary, disk, steps, steps.len() - 1);
}

/// A search that is told the truth about a workspace, whose root is not the package, ends in
/// the first of the listed directories that has it, if there is one and every entry up to it
/// can be read.
pub proof fn law_member_of_a_workspace_is_found(
    repo: PathView,
    binary: Seq<char>,
    disk: DiskView,
    steps: Seq<PackageNext>,
    k: int,
)
    requires
        is_search(repo, binary, disk, steps),
        !(steps.last().1 is Do),
        disk.files.contains_key(repo.child("Cargo.toml"@)),
        text::has_text(disk.files[repo.child("Cargo.toml"@)], "[workspace]"@),
        !disk.has_package(repo, binary),
        0 <= k < disk.entries.len(),
        disk.entries[k].kind is Dir,
        disk.files.contains_key(disk.entries[k].path.child("Cargo.toml"@)),
        package_name(disk.files[disk.entries[k].path.child("Cargo.toml"@)]) matches Some(name)
            && makes_binary(name, binary),
        forall|j: int|
            0 <= j < k ==> !((#[trigger] disk.entries[j]).kind is Unreadable)
                && !disk.has_package(disk.entries[j].path, binary),
    ensures
        steps.last().1 == StepView::Done((disk.entries[k].path, true)),
{
    law_first_package_is_found(repo, binary, disk, steps);
    assert(disk.is_member(k, binary));
    assert(disk.nothing_before(k, binary));
}

/// What an action failed with is what the search fails with, wherever it is.
pub proof fn law_failure_ends_the_search(
    repo: PathView,
    binary: Seq<char>,
    phase: PackagePhaseView,
    messages: Seq<Seq<char>>,
)
    ensures
        package_next(repo, binary, phase, OutcomeView::Failed(messages)) == (
            PackagePhaseView::Over,
            StepView::<(PathView, bool)>::Fail(messages),
        ),
{
}

/// A dependency has its name before its first colon and its version behind it.
pub proof fn law_dependency_has_two_parts(name: Seq<char>, version: Seq<char>)
    requires
        !name.contains(':'),
    ensures
        dependency_parts(name) == (name, Seq::<char>::empty()),
        dependency_parts(name + ":"@ + version) == (name, version),
{
    reveal_strlit(":");
    let n = name.len() as int;
    let colon = Class::Only(':');
    let dep = name + ":"@ + version;
    assert(dep[n] == ':');
    assert forall|i: int| 0 <= i < n implies !colon.has(#[trigger] dep[i]) by {
        assert(dep[i] == name[i]);
    }
    strings::lemma_first_of(dep, colon, n);
    assert(dep.take(n) =~= name);
    assert(dep.skip(n + 1) =~= version);
    assert forall|i: int| 0 <= i < n implies !colon.has(#[trigger] name[i]) by {}
    strings::lemma_first_of(name, colon, n);
}

/// A value in quotes says what stands between them, whatever comes behind. One without quotes
/// says all that it is, apart from the space around it.
pub proof fn law_value_says_what_stands_in_quotes(
    before: Seq<char>,
    quote: char,
    inside: Seq<char>,
    after: Seq<char>,
    plain: Seq<char>,
)
    requires
        forall|i: int| 0 <= i < before.len() ==> Class::Space.has(#[trigger] before[i]),
        quote == '"' || quote == '\'',
        !inside.contains(quote),
        after.len() == 0 || (after[0] != quote && !Class::Space.has(after.last())),
        plain.len() > 0,
        plain[0] != '"' && plain[0] != '\'',
        !Class::Space.has(plain[0]) && !Class::Space.has(plain.last()),
    ensures
        text_of_value(before + seq![quote] + inside + seq![quote] + after) == inside,
        text_of_value(before + plain) == plain,
{
    let value = seq![quote] + inside + seq![quote] + after;
    assert(value[0] == quote);
    if after.len() > 0 {
        assert(value.last() == after.last());
    } else {
        assert(value.last() == quote);
    }
    strings::law_trimming_takes_the_ends(before, value, Seq::empty(), Class::Space);
    assert(before + value + Seq::<char>::empty() =~= before + seq![quote] + inside + seq![quote]
        + after);
    if inside.len() > 0 {
        assert(value[1] == inside[0]);
        assert(inside.contains(inside[0]));
    } else {
        if after.len() > 0 {
            assert(value[2] == after[0]);
        }
    }
    assert(!three_at(value, 0, quote));
    assert(value.skip(1) =~= inside + seq![quote] + after);
    strings::law_splitting_at_a_separator(inside, quote, after);
    strings::law_trimming_takes_the_ends(before, plain, Seq::empty(), Class::Space);
    assert(before + plain + Seq::<char>::empty() =~= before + plain);
}

/// A line gives a name if its key is `name`, with or without space around it, and no other key
/// does.
pub proof fn law_name_is_the_value_of_its_key(
    before: Seq<char>,
    key: Seq<char>,
    after: Seq<char>,
    value: Seq<char>,
)
    requires
        forall|i: int| 0 <= i < before.len() ==> Class::Space.has(#[trigger] before[i]),
        forall|i: int| 0 <= i < after.len() ==> Class::Space.has(#[trigger] after[i]),
        key.len() > 0,
        !key.contains('='),
        !Class::Space.has(key[0]) && !Class::Space.has(key.last()),
    ensures
        name_in_line(before + key + after + seq!['='] + value) == (if key == "name"@ {
            Some(text_of_value(value))
        } else {
            None
        }),
{
    let front = before + key + after;
    assert(!front.contains('=')) by {
        assert forall|i: int| 0 <= i < front.len() implies front[i] != '=' by {
            if i < before.len() {
                assert(front[i] == before[i]);
            } else if i < before.len() + key.len() {
                assert(front[i] == key[i - before.len()]);
            } else {
                assert(front[i] == after[i - before.len() - key.len()]);
            }
        }
    }
    strings::law_splitting_at_a_separator(front, '=', value);
    strings::law_trimming_takes_the_ends(before, key, after, Class::Space);
}

/// Where a table of lines is the package table, its header is the last one above.
proof fn lemma_package_header(lines: Seq<Seq<char>>, i: int)
    requires
        0 <= i <= lines.len(),
    ensures
        in_package(lines, i) <==> exists|h: int| #[trigger] is_last_header(lines, h, i)
            && is_package_header(lines[h]),
    decreases i,
{
    if i > 0 {
        lemma_package_header(lines, i - 1);
        if is_header(lines, i - 1) {
            assert(is_last_header(lines, i - 1, i));
            assert forall|h: int| #[trigger] is_last_header(lines, h, i) implies h == i - 1 by {
                if h < i - 1 {
                    assert(!is_header(lines, i - 1));
                }
            }
        } else {
            assert forall|h: int| #[trigger] is_last_header(lines, h, i) implies is_last_header(
                lines,
                h,
                i - 1,
            ) by {}
            assert forall|h: int| #[trigger] is_last_header(lines, h, i - 1) implies is_last_header(
                lines,
                h,
                i,
            ) by {
                assert forall|j: int| h < j < i implies !#[trigger] is_header(lines, j) by {}
            }
        }
    }
}

/// Whether the line at `h` is the last header before the line at `i`.
pub open spec fn is_last_header(lines: Seq<Seq<char>>, h: int, i: int) -> bool {
    0 <= h < i && is_header(lines, h) && forall|j: int|
        h < j < i ==> !#[trigger] is_header(lines, j)
}

/// Whether the line at `i` gives the name of the package: it is a line of the table below the
/// last header above it, which is that of the package, and it is no part of a string or an
/// array.
pub open spec fn gives_package_name(lines: Seq<Seq<char>>, i: int, name: Seq<char>) -> bool {
    &&& 0 <= i < lines.len()
    &&& reading_before(lines, i).at_top()
    &&& !is_header(lines, i)
    &&& exists|h: int| #[trigger] is_last_header(lines, h, i) && is_package_header(lines[h])
    &&& name_in_line(lines[i]) == Some(name)
}

/// The first line from `i` on.
proof fn lemma_first_package_name(lines: Seq<Seq<char>>, i: int)
    requires
        0 <= i <= lines.len(),
    ensures
        match package_name_from(lines, i) {
            Some(name) => exists|k: int|
                i <= k && #[trigger] gives_package_name(lines, k, name) && forall|j: int, n: Seq<char>|
                    i <= j < k ==> !#[trigger] gives_package_name(lines, j, n),
            None => forall|j: int, n: Seq<char>| i <= j ==> !#[trigger] gives_package_name(lines, j, n),
        },
    decreases lines.len() - i,
{
    if i < lines.len() {
        lemma_package_header(lines, i);
        lemma_first_package_name(lines, i + 1);
        match package_name_at(lines, i) {
            Some(name) => {
                assert(gives_package_name(lines, i, name));
            },
            None => {
                assert forall|n: Seq<char>| !#[trigger] gives_package_name(lines, i, n) by {}
                if let Some(name) = package_name_from(lines, i + 1) {
                    let k = choose|k: int|
                        i + 1 <= k && #[trigger] gives_package_name(lines, k, name) && forall|
                            j: int,
                            n: Seq<char>,
                        |
                            i + 1 <= j < k ==> !#[trigger] gives_package_name(lines, j, n);
                    assert forall|j: int, n: Seq<char>| i <= j < k implies !#[trigger] gives_package_name(
                        lines,
                        j,
                        n,
                    ) by {}
                } else {
                    assert forall|j: int, n: Seq<char>| i <= j implies !#[trigger] gives_package_name(
                        lines,
                        j,
                        n,
                    ) by {}
                }
            },
        }
    }
}

/// The name of a package is what the first line gives that gives one in the package table: a
/// `name` of another table does not count, wherever it stands. There is none only where no line
/// of the package table gives one.
pub proof fn law_package_name_stands_in_the_package_table(content: Seq<char>)
    ensures
        match package_name(content) {
            Some(name) => exists|k: int| #[trigger]
                gives_package_name(text::lines(content), k, name) && forall|j: int, n: Seq<char>|
                    j < k ==> !#[trigger] gives_package_name(text::lines(content), j, n),
            None => forall|j: int, n: Seq<char>|
                !#[trigger] gives_package_name(text::lines(content), j, n),
        },
{
    let lines = text::lines(content);
    lemma_first_package_name(lines, 0);
    if let Some(name) = package_name(content) {
        let k = choose|k: int|
            0 <= k && #[trigger] gives_package_name(lines, k, name) && forall|j: int, n: Seq<char>|
                0 <= j < k ==> !#[trigger] gives_package_name(lines, j, n);
        assert forall|j: int, n: Seq<char>| j < k implies !#[trigger] gives_package_name(lines, j, n) by {}
    }
}

/// A manifest that starts with the package table, and the table with its name, has that name,
/// whatever stands below.
pub proof fn law_name_at_the_start_of_a_manifest(name: Seq<char>, rest: Seq<char>)
    requires
        !name.contains('"'),
        !name.contains('\n'),
    ensures
        package_name(
            "[package]"@ + seq!['\n'] + ("name = "@ + seq!['"'] + name + seq!['"'] + seq!['\n']
                + rest),
        ) == Some(name),
{
    reveal_strlit("[package]");
    reveal_strlit("name = ");
    reveal_strlit("name");
    reveal_strlit("package");
    reveal_strlit("[");
    let head = "[package]"@;
    let line = "name = "@ + seq!['"'] + name + seq!['"'];
    let below = line + seq!['\n'] + rest;
    assert("name = "@ + seq!['"'] + name + seq!['"'] + seq!['\n'] + rest =~= below);
    assert(!line.contains('\n')) by {
        assert forall|i: int| 0 <= i < line.len() implies line[i] != '\n' by {
            if 8 <= i < 8 + name.len() {
                assert(line[i] == name[i - 8]);
            }
        }
    }
    assert(line.last() == '"');
    strings::law_lines_end_at_line_feeds(head, below);
    strings::law_lines_end_at_line_feeds(line, rest);
    let lines = text::lines(head + seq!['\n'] + below);
    assert(lines =~= seq![head] + (seq![line] + text::lines(rest)));
    assert(lines[0] == head && lines[1] == line);
    let nothing = Seq::<char>::empty();
    strings::law_trimming_takes_the_ends(nothing, head, nothing, Class::Space);
    assert(nothing + head + nothing =~= head);
    assert(head.take(1) =~= "["@);
    assert(head.skip(1) =~= "package"@ + seq![']'] + nothing);
    strings::law_splitting_at_a_separator("package"@, ']', nothing);
    law_value_says_what_stands_in_quotes(nothing, '"', nothing, nothing, "package"@);
    assert(nothing + "package"@ =~= "package"@);
    assert(is_package_header(head));
    assert(reading_before(lines, 0) == Reading::start());
    assert(is_header(lines, 0));
    assert(reading_before(lines, 1) == Reading::start());
    assert(in_package(lines, 1));
    strings::law_trimming_takes_the_ends(nothing, line, nothing, Class::Space);
    assert(nothing + line + nothing =~= line);
    assert(line.take(1)[0] == 'n');
    assert(!opens_header(line));
    let value = seq![' '] + seq!['"'] + name + seq!['"'] + nothing;
    law_name_is_the_value_of_its_key(nothing, "name"@, seq![' '], value);
    assert(nothing + "name"@ + seq![' '] + seq!['='] + value =~= line);
    law_value_says_what_stands_in_quotes(seq![' '], '"', name, nothing, "package"@);
    assert(package_name_at(lines, 1) == Some(name));
    assert(package_name_at(lines, 0) is None);
    assert(package_name_from(lines, 1) == Some(name));
}

/// How a line of a manifest is read on, character by character. Outside of strings a comment
/// ends the line, an opening bracket or brace leads one level in and a closing one out, and a
/// quote leads into a string, a long one if it stands three times. Inside, only the same quote
/// leads out again, three times out of a long one, and in double quotes a backslash takes the
/// character behind it along. No string that is not long goes on in the next line.
pub proof fn law_line_is_read_on(line: Seq<char>, i: int, at: Reading, quote: char)
    requires
        0 <= i <= line.len(),
        quote == '"' || quote == '\'',
    ensures
        i == line.len() && at.long ==> read_line(line, i, at) == at,
        i == line.len() && !at.long ==> read_line(line, i, at) == (Reading {
            depth: at.depth,
            quote: None,
            long: false,
        }),
        i < line.len() && at.quote is None ==> {
            &&& line[i] == '#' ==> read_line(line, i, at) == (Reading {
                depth: at.depth,
                quote: None,
                long: false,
            })
            &&& (line[i] == '[' || line[i] == '{') && at.depth < u64::MAX ==> read_line(line, i, at)
                == read_line(line, i + 1, Reading { depth: (at.depth + 1) as u64, ..at })
            &&& (line[i] == ']' || line[i] == '}') && at.depth > 0 ==> read_line(line, i, at)
                == read_line(line, i + 1, Reading { depth: (at.depth - 1) as u64, ..at })
            &&& line[i] == quote && three_at(line, i, quote) ==> read_line(line, i, at)
                == read_line(
                line,
                i + 3,
                Reading { depth: at.depth, quote: Some(quote), long: true },
            )
            &&& line[i] == quote && !three_at(line, i, quote) ==> read_line(line, i, at)
                == read_line(
                line,
                i + 1,
                Reading { depth: at.depth, quote: Some(quote), long: false },
            )
            &&& !(line[i] == '#' || line[i] == '[' || line[i] == '{' || line[i] == ']' || line[i]
                == '}' || line[i] == '"' || line[i] == '\'') ==> read_line(line, i, at) == read_line(
                line,
                i + 1,
                at,
            )
        },
        i < line.len() && at.quote == Some(quote) ==> {
            &&& quote == '"' && line[i] == '\\' ==> read_line(line, i, at) == read_line(
                line,
                i + 2,
                at,
            )
            &&& at.long && three_at(line, i, quote) ==> read_line(line, i, at) == read_line(
                line,
                i + 3,
                Reading { depth: at.depth, quote: None, long: false },
            )
            &&& !at.long && line[i] == quote ==> read_line(line, i, at) == read_line(
                line,
                i + 1,
                Reading { depth: at.depth, quote: None, long: false },
            )
            &&& line[i] != quote && !(quote == '"' && line[i] == '\\') ==> read_line(line, i, at)
                == read_line(line, i + 1, at)
            &&& at.long && line[i] == quote && !three_at(line, i, quote) ==> read_line(line, i, at)
                == read_line(line, i + 1, at)
        },
        three_at(line, i, quote) <==> i + 2 < line.len() && line[i] == quote && line[i + 1] == quote
            && line[i + 2] == quote,
{
    reveal_with_fuel(read_line, 2);
}

/// A manifest is read from outside of everything. The header of a table leaves the reader where
/// it is, and any other line is read to its end.
pub proof fn law_lines_are_read_in_turn(lines: Seq<Seq<char>>, i: int)
    requires
        0 <= i < lines.len(),
    ensures
        reading_before(lines, 0) == (Reading { depth: 0, quote: None, long: false }),
        is_header(lines, i) ==> reading_before(lines, i + 1) == reading_before(lines, i),
        !is_header(lines, i) ==> reading_before(lines, i + 1) == read_line(
            lines[i],
            0,
            reading_before(lines, i),
        ),
        is_header(lines, i) <==> reading_before(lines, i).depth == 0 && reading_before(
            lines,
            i,
        ).quote is None && text::begins(text::trim(lines[i], Class::Space), "["@),
{
}

/// The header of the package table has `package` between its brackets, with space around it or
/// without, as it is or in quotes, whatever stands behind it. No other name is taken for it.
pub proof fn law_package_table_is_called_package(
    before: Seq<char>,
    name: Seq<char>,
    after: Seq<char>,
)
    requires
        forall|i: int| 0 <= i < before.len() ==> Class::Space.has(#[trigger] before[i]),
        !name.contains(']'),
        after.len() > 0 ==> !Class::Space.has(after.last()),
    ensures
        is_package_header(before + "["@ + name + "]"@ + after) <==> text_of_value(name)
            == "package"@,
        opens_header(before + "["@ + name + "]"@ + after),
{
    reveal_strlit("[");
    reveal_strlit("]");
    let nothing = Seq::<char>::empty();
    let header = "["@ + name + "]"@ + after;
    assert(header[0] == '[');
    if after.len() > 0 {
        assert(header.last() == after.last());
    } else {
        assert(header.last() == ']');
    }
    strings::law_trimming_takes_the_ends(before, header, nothing, Class::Space);
    assert(before + header + nothing =~= before + "["@ + name + "]"@ + after);
    assert(header.skip(1) =~= name + seq![']'] + after);
    assert(header.take(1) =~= "["@);
    strings::law_splitting_at_a_separator(name, ']', after);
}

/// Whether a manifest was looked for in a directory by a step up to `i`.
pub open spec fn is_looked_at(steps: Seq<PackageNext>, i: int, dir: PathView) -> bool {
    exists|k: int|
        0 <= k <= i && (#[trigger] steps[k]).1 == StepView::<(PathView, bool)>::Do(
            ActionView::Exists(dir.child("Cargo.toml"@)),
        )
}

/// Where a search among entries goes on, no directory is passed over on the way.
proof fn lemma_no_directory_is_passed_over(
    repo: PathView,
    binary: Seq<char>,
    disk: DiskView,
    m: int,
)
    requires
        0 <= m <= disk.entries.len(),
        forall|j: int| 0 <= j < disk.entries.len() ==> !((#[trigger] disk.entries[j]).kind
            is Unreadable),
    ensures
        ({
            let next = search_members(repo, binary, disk.entries.skip(m));
            let reached = match next.0 {
                PackagePhaseView::CheckMember(left) => disk.entries.len() - left.len(),
                _ => disk.entries.len() as int,
            };
            &&& next.0 is CheckMember || next.0 is Over
            &&& next.0 is CheckMember ==> m <= reached < disk.entries.len() && next.1
                == StepView::<(PathView, bool)>::Do(
                ActionView::Exists(disk.entries[reached].path.child("Cargo.toml"@)),
            )
            &&& forall|j: int| m <= j < reached ==> !((#[trigger] disk.entries[j]).kind is Dir)
        }),
    decreases disk.entries.len() - m,
{
    let left = disk.entries.skip(m);
    if m < disk.entries.len() {
        assert(left[0] == disk.entries[m]);
        assert(left.drop_first() =~= disk.entries.skip(m + 1));
        if !(left[0].kind is Dir) {
            lemma_no_directory_is_passed_over(repo, binary, disk, m + 1);
        }
    }
}

/// How many of the entries a search is done with.
spec fn entries_done(disk: DiskView, step: PackageNext) -> int {
    match step.0 {
        PackagePhaseView::CheckMember(left) => disk.entries.len() - left.len() + 1,
        PackagePhaseView::ReadMember(left) => disk.entries.len() - left.len() + 1,
        PackagePhaseView::Over => disk.entries.len() as int,
        _ => 0,
    }
}

/// A directory that a step is done with, and the one before it was not, is looked at by it.
proof fn lemma_next_directory_is_looked_at(
    repo: PathView,
    binary: Seq<char>,
    disk: DiskView,
    before: PackageNext,
    action: ActionView,
    i: int,
)
    requires
        search_goes_well(repo, binary, disk, before, i),
        before.1 == StepView::<(PathView, bool)>::Do(action),
        is_among_members(repo, binary, disk),
        disk.nothing_before(disk.entries.len() as int, binary),
    ensures
        ({
            let next = package_next(repo, binary, before.0, disk.answer(action));
            forall|j: int|
                entries_done(disk, before) <= j < entries_done(disk, next) && (
                #[trigger] disk.entries[j]).kind is Dir ==> next.1 == StepView::<
                    (PathView, bool),
                >::Do(ActionView::Exists(disk.entries[j].path.child("Cargo.toml"@)))
        }),
{
    assert forall|j: int| 0 <= j < disk.entries.len() implies !((
    #[trigger] disk.entries[j]).kind is Unreadable) by {}
    match before.0 {
        PackagePhaseView::ListMembers => {
            assert(disk.entries.skip(0) =~= disk.entries);
            lemma_no_directory_is_passed_over(repo, binary, disk, 0);
        },
        PackagePhaseView::CheckMember(left) => {
            let m = disk.entries.len() - left.len() + 1;
            assert(left.drop_first() =~= disk.entries.skip(m));
            lemma_no_directory_is_passed_over(repo, binary, disk, m);
        },
        PackagePhaseView::ReadMember(left) => {
            let m = disk.entries.len() - left.len() + 1;
            assert(left.drop_first() =~= disk.entries.skip(m));
            assert(left[0] == disk.entries[m - 1]);
            assert(!disk.is_member(m - 1, binary));
            lemma_no_directory_is_passed_over(repo, binary, disk, m);
        },
        _ => {},
    }
}

/// What was looked at stays so.
proof fn lemma_stays_looked_at(steps: Seq<PackageNext>, i: int, dir: PathView)
    requires
        is_looked_at(steps, i - 1, dir),
    ensures
        is_looked_at(steps, i, dir),
{
    let k = choose|k: int|
        0 <= k <= i - 1 && (#[trigger] steps[k]).1 == StepView::<(PathView, bool)>::Do(
            ActionView::Exists(dir.child("Cargo.toml"@)),
        );
    assert(steps[k].1 == StepView::<(PathView, bool)>::Do(
        ActionView::Exists(dir.child("Cargo.toml"@)),
    ));
}

/// Every directory that a search is done with was looked at.
proof fn lemma_directories_so_far(
    repo: PathView,
    binary: Seq<char>,
    disk: DiskView,
    steps: Seq<PackageNext>,
    i: int,
    j: int,
)
    requires
        is_search(repo, binary, disk, steps),
        0 <= i < steps.len(),
        is_among_members(repo, binary, disk),
        disk.nothing_before(disk.entries.len() as int, binary),
        0 <= j < entries_done(disk, steps[i]),
        j < disk.entries.len(),
        disk.entries[j].kind is Dir,
    ensures
        is_looked_at(steps, i, disk.entries[j].path),
    decreases i,
{
    if i > 0 {
        let before = steps[i - 1];
        assert(before.1 is Do);
        if j < entries_done(disk, before) {
            lemma_directories_so_far(repo, binary, disk, steps, i - 1, j);
            lemma_stays_looked_at(steps, i, disk.entries[j].path);
        } else {
            lemma_search_goes_well(repo, binary, disk, steps, i - 1);
            lemma_next_directory_is_looked_at(
                repo,
                binary,
                disk,
                before,
                before.1->Do_0,
                i - 1,
            );
            assert(steps[i] == steps[i - 1 + 1]);
            assert(steps[i].1 == StepView::<(PathView, bool)>::Do(
                ActionView::Exists(disk.entries[j].path.child("Cargo.toml"@)),
            ));
        }
    }
}

/// Where none of the listed directories has the package, a search that is told the truth looks
/// for a manifest in every one of them before it ends, and it ends with a failure.
pub proof fn law_every_directory_is_looked_at(
    repo: PathView,
    binary: Seq<char>,
    disk: DiskView,
    steps: Seq<PackageNext>,
)
    requires
        is_search(repo, binary, disk, steps),
        !(steps.last().1 is Do),
        disk.files.contains_key(repo.child("Cargo.toml"@)),
        text::has_text(disk.files[repo.child("Cargo.toml"@)], "[workspace]"@),
        !disk.has_package(repo, binary),
        forall|j: int|
            0 <= j < disk.entries.len() ==> !((#[trigger] disk.entries[j]).kind is Unreadable)
                && !disk.has_package(disk.entries[j].path, binary),
    ensures
        steps.last().1 is Fail,
        forall|j: int|
            0 <= j < disk.entries.len() && (#[trigger] disk.entries[j]).kind is Dir
                ==> is_looked_at(steps, steps.len() - 1, disk.entries[j].path),
{
    let last = steps.len() - 1;
    assert(disk.nothing_before(disk.entries.len() as int, binary));
    law_first_package_is_found(repo, binary, disk, steps);
    lemma_search_goes_well(repo, binary, disk, steps, last);
    assert forall|j: int|
        0 <= j < disk.entries.len() && (#[trigger] disk.entries[j]).kind is Dir implies is_looked_at(
        steps,
        last,
        disk.entries[j].path,
    ) by {
        lemma_directories_so_far(repo, binary, disk, steps, last, j);
    }
}

} // verus!
