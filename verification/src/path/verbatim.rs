//! What holds of cleaned Windows paths that start with `\\?\`.

use vstd::prelude::*;

use crate::path::clean;
use crate::path::laws;
use crate::path::model;
use crate::path::model::{Comp, PathView};
use crate::path::syntax;
use crate::path::syntax::{BACKSLASH, DOT, Kind, PieceView, Separators};
use crate::path::windows;
use crate::platform::Platform;

verus! {

/// A name between two backslashes: not empty, without a backslash, neither `.` nor `..`.
pub open spec fn verbatim_name(t: Seq<u8>) -> bool {
    &&& t.len() > 0
    &&& forall|k: int| 0 <= k < t.len() ==> #[trigger] t[k] != BACKSLASH
    &&& t != seq![DOT]
    &&& t != seq![DOT, DOT]
}

/// Whether two paths have prefixes of the same kind and length.
pub open spec fn same_start(a: Seq<u8>, b: Seq<u8>) -> bool {
    match (syntax::windows_prefix(a), syntax::windows_prefix(b)) {
        (Some(p), Some(q)) => p.kind == q.kind && p.len == q.len,
        _ => false,
    }
}

/// Whether bytes are a verbatim prefix, and nothing but one, also with a backslash behind
/// them.
pub open spec fn is_whole_verbatim(t: Seq<u8>) -> bool {
    &&& windows::is_verbatim(t)
    &&& syntax::prefix_len(Platform::Windows, t) == t.len()
    &&& same_start(t + seq![BACKSLASH], t)
}

/// Whether a prefix names a share where it names a server.
pub open spec fn has_its_share(t: Seq<u8>) -> bool {
    syntax::windows_prefix(t) matches Some(p) && (p.kind is VerbatimUnc ==> p.second.0 < p.second.1)
}

/// What components a verbatim path with a root can have.
pub open spec fn readable(cs: Seq<Comp>) -> bool {
    &&& cs.len() >= 2
    &&& cs[0] matches Comp::Prefix(t) && is_whole_verbatim(t)
    &&& cs[1] is RootDir
    &&& forall|i: int|
        2 <= i < cs.len() ==> match #[trigger] cs[i] {
            Comp::CurDir => true,
            Comp::ParentDir => true,
            Comp::Normal(t) => verbatim_name(t),
            _ => false,
        }
}

/// What cleaning leaves of them: the prefix, the root and names.
pub open spec fn only_names_follow(cs: Seq<Comp>) -> bool {
    &&& cs.len() >= 2
    &&& cs[0] matches Comp::Prefix(t) && is_whole_verbatim(t)
    &&& cs[1] is RootDir
    &&& forall|i: int|
        2 <= i < cs.len() ==> (#[trigger] cs[i] matches Comp::Normal(t) && verbatim_name(t))
}

/// Cleaning leaves the prefix, the root and names.
proof fn lemma_clean_leaves_names(cs: Seq<Comp>)
    requires
        readable(cs),
    ensures
        only_names_follow(clean::clean_comps(cs)),
        clean::clean_comps(cs)[0] == cs[0],
    decreases cs.len(),
{
    let front = cs.drop_last();
    let next = cs[cs.len() - 1];
    let before = clean::clean_comps(front);
    let after = clean::clean_comps(cs);
    if cs.len() == 2 {
        assert(front.drop_last() =~= Seq::<Comp>::empty());
        assert(clean::clean_comps(front.drop_last()) =~= Seq::<Comp>::empty());
        assert(before =~= seq![cs[0]]);
        assert(after =~= seq![cs[0], cs[1]]);
    } else {
        assert forall|i: int| 2 <= i < front.len() implies match #[trigger] front[i] {
            Comp::CurDir => true,
            Comp::ParentDir => true,
            Comp::Normal(t) => verbatim_name(t),
            _ => false,
        } by {
            assert(front[i] == cs[i]);
        }
        lemma_clean_leaves_names(front);
        assert(before.last() == before[before.len() - 1]);
        assert forall|i: int| 2 <= i < after.len() implies (#[trigger] after[i] matches Comp::Normal(
            t,
        ) && verbatim_name(t)) by {
            if i < before.len() {
                assert(after[i] == before[i]);
            } else {
                assert(after[i] == next);
            }
        }
    }
}

/// A verbatim prefix stays one when a backslash and more is put behind it.
proof fn lemma_prefix_is_stable(t: Seq<u8>, tail: Seq<u8>)
    requires
        is_whole_verbatim(t),
        tail.len() > 0,
        tail[0] == BACKSLASH,
        tail.len() > 1 ==> has_its_share(t),
    ensures
        same_start(t + tail, t),
{
    let seps = Separators::Verbatim;
    let b = t + tail;
    let short = t + seq![BACKSLASH];
    let p = syntax::windows_prefix(t)->0;
    syntax::lemma_prefix_fits(Platform::Windows, t);
    assert forall|k: int| 0 <= k < short.len() implies #[trigger] b[k] == short[k] by {}
    assert forall|k: int| 0 <= k < t.len() implies #[trigger] b[k] == t[k] by {}
    assert(b[t.len() as int] == BACKSLASH);
    if tail.len() == 1 {
        assert(b =~= short);
    } else if p.kind is VerbatimUnc {
        syntax::lemma_segment_end(seps, t, 8);
        let end = syntax::segment_end(seps, t, 8);
        let next = if end < t.len() { end + 1 } else { end };
        syntax::lemma_segment_end(seps, t, next);
        assert(end < t.len());
        syntax::lemma_segment_ends_at(seps, b, 8, end);
        syntax::lemma_segment_ends_at(seps, b, next, t.len() as int);
    } else if p.kind is Verbatim {
        syntax::lemma_segment_end(seps, t, 4);
        syntax::lemma_segment_ends_at(seps, b, 4, t.len() as int);
        assert(short[t.len() as int] == BACKSLASH);
    }
}

/// The prefix of a verbatim path with a root is a whole one.
proof fn lemma_prefix_is_whole(b: Seq<u8>)
    requires
        windows::is_verbatim(b),
        syntax::prefix_len(Platform::Windows, b) < b.len(),
    ensures
        ({
            let p = syntax::windows_prefix(b)->0;
            let t = b.subrange(0, p.len);
            &&& is_whole_verbatim(t)
            &&& same_start(t, b)
            &&& syntax::has_physical_root(Platform::Windows, b)
        }),
{
    let seps = Separators::Verbatim;
    let p = syntax::windows_prefix(b)->0;
    syntax::lemma_prefix_fits(Platform::Windows, b);
    let t = b.subrange(0, p.len);
    let short = t + seq![BACKSLASH];
    assert forall|k: int| 0 <= k < t.len() implies #[trigger] t[k] == b[k] by {}
    assert forall|k: int| 0 <= k < t.len() implies #[trigger] short[k] == b[k] by {}
    assert(short[p.len] == BACKSLASH);
    if p.kind is VerbatimUnc {
        syntax::lemma_segment_end(seps, b, 8);
        let end = syntax::segment_end(seps, b, 8);
        let next = if end < b.len() { end + 1 } else { end };
        syntax::lemma_segment_end(seps, b, next);
        let last = syntax::segment_end(seps, b, next);
        syntax::lemma_segment_ends_at(seps, t, 8, end);
        syntax::lemma_segment_ends_at(seps, short, 8, end);
        if last > next {
            syntax::lemma_segment_ends_at(seps, t, next, last);
            syntax::lemma_segment_ends_at(seps, short, next, last);
        } else {
            assert(p.len == end);
        }
    } else if p.kind is Verbatim {
        syntax::lemma_segment_end(seps, b, 4);
        syntax::lemma_segment_ends_at(seps, t, 4, p.len);
        syntax::lemma_segment_ends_at(seps, short, 4, p.len);
    }
}

/// The names in the body of a verbatim path are such.
proof fn lemma_body_names(b: Seq<u8>, i: int)
    requires
        0 <= i,
    ensures
        forall|k: int|
            0 <= k < syntax::body(Separators::Verbatim, b, i).len() ==> match #[trigger] model::comp_of(
                b,
                syntax::body(Separators::Verbatim, b, i)[k],
            ) {
                Comp::CurDir => true,
                Comp::ParentDir => true,
                Comp::Normal(t) => verbatim_name(t),
                _ => false,
            },
    decreases b.len() - i,
{
    let seps = Separators::Verbatim;
    if i < b.len() {
        if seps.has(b[i]) {
            lemma_body_names(b, i + 1);
        } else {
            let end = syntax::segment_end(seps, b, i);
            syntax::lemma_segment_end(seps, b, i);
            assert(i < end);
            lemma_body_names(b, end);
            let rest = syntax::body(seps, b, end);
            let segment = b.subrange(i, end);
            let kind = syntax::segment_kind(seps, segment)->0;
            let whole = syntax::body(seps, b, i);
            assert(whole =~= seq![PieceView { kind, start: i, end }] + rest);
            assert forall|k: int| 0 <= k < segment.len() implies #[trigger] segment[k] != BACKSLASH by {
                assert(segment[k] == b[i + k]);
            }
            assert forall|k: int| 0 <= k < whole.len() implies match #[trigger] model::comp_of(
                b,
                whole[k],
            ) {
                Comp::CurDir => true,
                Comp::ParentDir => true,
                Comp::Normal(t) => verbatim_name(t),
                _ => false,
            } by {
                if k > 0 {
                    assert(whole[k] == rest[k - 1]);
                }
            }
        }
    }
}

/// The components of a verbatim path with a root are readable.
proof fn lemma_comps_readable(b: Seq<u8>)
    requires
        windows::is_verbatim(b),
        syntax::prefix_len(Platform::Windows, b) < b.len(),
    ensures
        readable(model::comps(Platform::Windows, b)),
{
    let windows = Platform::Windows;
    let (first, start) = syntax::head(windows, b);
    syntax::lemma_prefix_fits(windows, b);
    lemma_prefix_is_whole(b);
    lemma_body_names(b, start);
    let rest = syntax::body(Separators::Verbatim, b, start);
    let cs = model::comps(windows, b);
    let whole = syntax::pieces(windows, b);
    assert(whole =~= first + rest);
    assert(first.len() == 2);
    assert(whole[0] == first[0] && whole[1] == first[1]);
    assert(cs[0] == model::comp_of(b, whole[0]));
    assert(cs[1] == model::comp_of(b, whole[1]));
    assert forall|i: int| 2 <= i < cs.len() implies match #[trigger] cs[i] {
        Comp::CurDir => true,
        Comp::ParentDir => true,
        Comp::Normal(t) => verbatim_name(t),
        _ => false,
    } by {
        assert(cs[i] == model::comp_of(b, whole[i]));
        assert(whole[i] == rest[i - 2]);
    }
}

/// Whether each name is one for a path that is not verbatim too, and opens unlike a drive.
pub open spec fn names_are_plain(cs: Seq<Comp>) -> bool {
    forall|i: int|
        0 <= i < cs.len() ==> (#[trigger] cs[i] matches Comp::Normal(t) ==> windows::plain_name(t)
            && !syntax::drive_at(t, 0))
}

/// Whether `b` is read as the components.
spec fn reads_as(b: Seq<u8>, cs: Seq<Comp>) -> bool {
    let t = cs[0]->Prefix_0;
    &&& t.len() < b.len()
    &&& b.take(t.len() as int) == t
    &&& b[t.len() as int] == BACKSLASH
    &&& same_start(b, t)
    &&& b == model::verbatim_text(cs)
    &&& model::comps(Platform::Windows, b) == cs
    &&& cs.len() == 2 ==> b.len() == t.len() + 1
}

/// A name alone is read as one component.
proof fn lemma_name_alone(t: Seq<u8>)
    requires
        windows::plain_name(t),
        !syntax::drive_at(t, 0),
    ensures
        syntax::windows_prefix(t) is None,
        model::comps(Platform::Windows, t) == seq![Comp::Normal(t)],
{
    let seps = Separators::Both;
    assert(!seps.has(t[0]));
    syntax::lemma_segment_ends_at(seps, t, 0, t.len() as int);
    assert(t.subrange(0, t.len() as int) =~= t);
    assert(syntax::body(seps, t, t.len() as int) =~= Seq::<PieceView>::empty());
    if t[0] == DOT {
        if t.len() == 1 {
            assert(t =~= seq![DOT]);
        }
        assert(!seps.has(t[1]));
    }
    assert(syntax::body(seps, t, 0) =~= seq![
        PieceView { kind: Kind::Normal, start: 0, end: t.len() as int },
    ]);
    assert(syntax::pieces(Platform::Windows, t) =~= syntax::body(seps, t, 0));
    assert(model::comps(Platform::Windows, t) =~= seq![Comp::Normal(t)]);
}

/// A name at the end of a verbatim path is read as one component.
proof fn lemma_last_segment(b: Seq<u8>, i: int, t: Seq<u8>)
    requires
        0 <= i < b.len(),
        verbatim_name(t),
        b.skip(i) == t,
    ensures
        syntax::body(Separators::Verbatim, b, i).len() == 1,
        model::comp_of(b, syntax::body(Separators::Verbatim, b, i)[0]) == Comp::Normal(t),
{
    let seps = Separators::Verbatim;
    assert forall|k: int| i <= k < b.len() implies !seps.has(#[trigger] b[k]) by {
        assert(b[k] == b.skip(i)[k - i]);
        assert(t[k - i] != BACKSLASH);
    }
    syntax::lemma_segment_ends_at(seps, b, i, b.len() as int);
    assert(b.subrange(i, b.len() as int) =~= t);
    assert(syntax::body(seps, b, b.len() as int) =~= Seq::<PieceView>::empty());
}

/// What is read of the text of a verbatim path with one more name.
#[verifier::rlimit(40)]
proof fn lemma_longer_text_is_read(b: Seq<u8>, front: Seq<Comp>, n: Seq<u8>)
    requires
        only_names_follow(front),
        reads_as(b, front),
        has_its_share(front[0]->Prefix_0),
        verbatim_name(n),
    ensures
        reads_as(model::verbatim_text(front.push(Comp::Normal(n))), front.push(Comp::Normal(n))),
{
    let windows = Platform::Windows;
    let seps = Separators::Verbatim;
    let t = front[0]->Prefix_0;
    let cs = front.push(Comp::Normal(n));
    assert(cs.drop_last() =~= front);
    let whole = model::verbatim_text(cs);
    let needs = !(front.last() is RootDir);
    assert(needs <==> front.len() > 2) by {
        assert(front.last() == front[front.len() - 1]);
    }
    let tail = if needs {
        seq![BACKSLASH] + n
    } else {
        n
    };
    assert(whole =~= b + tail);
    let more = b.skip(t.len() as int) + tail;
    assert(whole =~= t + more) by {
        assert(b =~= b.take(t.len() as int) + b.skip(t.len() as int));
    }
    assert(more[0] == b[t.len() as int]);
    lemma_prefix_is_stable(t, more);
    assert(whole.take(t.len() as int) =~= t);
    assert(whole[t.len() as int] == b[t.len() as int]);
    let (first, start) = syntax::head(windows, b);
    assert(syntax::head(windows, whole) == (first, start));
    assert(start == t.len() + 1);
    let added = if needs {
        syntax::body(seps, whole, b.len() as int + 1)
    } else {
        syntax::body(seps, whole, b.len() as int)
    };
    if needs {
        laws::lemma_body_of_concat(seps, b, tail, start);
        assert(whole[b.len() as int] == BACKSLASH);
        assert(whole.skip(b.len() as int + 1) =~= n);
        lemma_last_segment(whole, b.len() as int + 1, n);
    } else {
        assert(whole.skip(b.len() as int) =~= n);
        lemma_last_segment(whole, b.len() as int, n);
        assert(syntax::body(seps, b, b.len() as int) =~= Seq::<PieceView>::empty());
    }
    assert(syntax::pieces(windows, whole) =~= syntax::pieces(windows, b) + added);
    laws::lemma_one_more_piece(windows, b, tail, added, Comp::Normal(n));
}

/// What is read of a verbatim path when a name is put behind it.
proof fn lemma_added_name_is_read(b: Seq<u8>, front: Seq<Comp>, n: Seq<u8>)
    requires
        only_names_follow(front),
        reads_as(b, front),
        has_its_share(front[0]->Prefix_0),
        windows::plain_name(n),
        verbatim_name(n),
        !syntax::drive_at(n, 0),
    ensures
        reads_as(model::push(Platform::Windows, b, n), front.push(Comp::Normal(n))),
{
    reveal(model::push);
    let cs = front.push(Comp::Normal(n));
    lemma_name_alone(n);
    let one = seq![Comp::Normal(n)];
    assert(one.drop_last() =~= Seq::<Comp>::empty());
    assert(one.last() == Comp::Normal(n));
    assert(model::verbatim_join(front, one.drop_last()) == front);
    assert(model::verbatim_join(front, one) == cs);
    assert(model::push(Platform::Windows, b, n) == model::verbatim_text(cs));
    lemma_longer_text_is_read(b, front, n);
}

/// The components of a path that was made of a verbatim prefix and a root are these.
proof fn lemma_opening_is_read_back(cs: Seq<Comp>)
    requires
        only_names_follow(cs),
        cs.len() == 2,
    ensures
        reads_as(model::collect(Platform::Windows, cs), cs),
{
    reveal(model::push);
    let windows = Platform::Windows;
    let seps = Separators::Verbatim;
    let t = cs[0]->Prefix_0;
    let front = cs.drop_last();
    let root = seq![BACKSLASH];
    let nothing = Seq::<u8>::empty();
    let b = t + root;
    assert(front =~= seq![cs[0]]);
    assert(front.drop_last() =~= Seq::<Comp>::empty());
    assert(front.last() == cs[0]);
    assert(cs.last() == cs[1]);
    assert(model::collect(windows, front.drop_last()) =~= nothing);
    assert(model::collect(windows, front) == t);
    assert(syntax::body(seps, t, t.len() as int) =~= Seq::<PieceView>::empty());
    assert(t.subrange(0, t.len() as int) =~= t);
    assert(model::comps(windows, t) =~= front);
    assert(syntax::windows_prefix(root) is None);
    assert(syntax::body(Separators::Both, root, 1) =~= Seq::<PieceView>::empty());
    let one = seq![Comp::RootDir];
    assert(model::comps(windows, root) =~= one);
    assert(one.drop_last() =~= Seq::<Comp>::empty());
    assert(one.last() == Comp::RootDir);
    assert(model::verbatim_join(front, one.drop_last()) == front);
    assert(front.take(1) =~= front);
    assert(model::verbatim_join(front, one) =~= cs);
    assert(model::verbatim_text(front.drop_last()) =~= nothing);
    assert(model::verbatim_text(front) =~= t);
    assert(model::verbatim_text(cs) =~= b);
    assert(model::collect(windows, cs) == b);
    assert(b.take(t.len() as int) =~= t);
    assert(b.subrange(0, t.len() as int) =~= t);
    assert(b[t.len() as int] == BACKSLASH);
    assert(syntax::body(seps, b, b.len() as int) =~= Seq::<PieceView>::empty());
    assert(model::comps(windows, b) =~= cs);
}

/// The components of a verbatim path that was made of a prefix, a root and names are these.
proof fn lemma_collected_is_read_back(cs: Seq<Comp>)
    requires
        only_names_follow(cs),
        names_are_plain(cs),
        cs.len() > 2 ==> has_its_share(cs[0]->Prefix_0),
    ensures
        reads_as(model::collect(Platform::Windows, cs), cs),
    decreases cs.len(),
{
    if cs.len() == 2 {
        lemma_opening_is_read_back(cs);
    } else {
        let front = cs.drop_last();
        let last = cs[cs.len() - 1];
        assert forall|i: int| 2 <= i < front.len() implies (#[trigger] front[i] matches Comp::Normal(
            t,
        ) && verbatim_name(t)) by {
            assert(front[i] == cs[i]);
        }
        assert forall|i: int| 0 <= i < front.len() implies (#[trigger] front[i] matches Comp::Normal(
            t,
        ) ==> windows::plain_name(t) && !syntax::drive_at(t, 0)) by {
            assert(front[i] == cs[i]);
        }
        lemma_collected_is_read_back(front);
        lemma_added_name_is_read(
            model::collect(Platform::Windows, front),
            front,
            last->Normal_0,
        );
        assert(front.push(last) =~= cs);
        assert(cs.last() == last);
    }
}

/// The components of a cleaned verbatim path are the cleaned components of the path. This
/// holds where each name that is left is one for other paths too, without a `/` and unlike a
/// drive, since it is added as such; and, where names are left behind `\\?\UNC\server`,
/// where it names a share, since the first name would become the share.
pub proof fn law_cleaned_components(p: PathView)
    requires
        p.platform is Windows,
        windows::is_verbatim(p.bytes),
        names_are_plain(clean::clean_comps(p.comps())),
        clean::clean_comps(p.comps()).len() > 2 ==> has_its_share(p.comps()[0]->Prefix_0),
    ensures
        p.cleaned().comps() == clean::clean_comps(p.comps()),
{
    let cs = p.comps();
    let left = clean::clean_comps(cs);
    let b = p.bytes;
    let windows = Platform::Windows;
    syntax::lemma_prefix_fits(windows, b);
    if syntax::prefix_len(windows, b) < b.len() {
        lemma_comps_readable(b);
        lemma_clean_leaves_names(cs);
        lemma_collected_is_read_back(left);
    } else {
        reveal(model::push);
        let nothing = Seq::<u8>::empty();
        assert(syntax::body(Separators::Verbatim, b, b.len() as int) =~= Seq::<PieceView>::empty());
        assert(b.subrange(0, b.len() as int) =~= b);
        assert(cs =~= seq![Comp::Prefix(b)]);
        assert(cs.drop_last() =~= Seq::<Comp>::empty());
        assert(cs.last() == Comp::Prefix(b));
        assert(clean::clean_comps(cs.drop_last()) =~= Seq::<Comp>::empty());
        assert(left =~= cs);
        assert(model::collect(windows, cs.drop_last()) =~= nothing);
        assert(model::collect(windows, cs) == b);
    }
}

/// The text of a verbatim prefix, a root and names is read as these.
proof fn lemma_text_is_read(cs: Seq<Comp>)
    requires
        only_names_follow(cs),
        cs.len() > 2 ==> has_its_share(cs[0]->Prefix_0),
    ensures
        reads_as(model::verbatim_text(cs), cs),
    decreases cs.len(),
{
    if cs.len() == 2 {
        lemma_opening_is_read_back(cs);
    } else {
        let front = cs.drop_last();
        let last = cs[cs.len() - 1];
        assert forall|i: int| 2 <= i < front.len() implies (#[trigger] front[i] matches Comp::Normal(
            t,
        ) && verbatim_name(t)) by {
            assert(front[i] == cs[i]);
        }
        lemma_text_is_read(front);
        lemma_longer_text_is_read(model::verbatim_text(front), front, last->Normal_0);
        assert(front.push(last) =~= cs);
    }
}

/// What adding plain names to a verbatim path gives: a prefix, perhaps a root, and names.
spec fn is_joined(cs: Seq<Comp>) -> bool {
    &&& cs.len() > 0
    &&& cs[0] matches Comp::Prefix(t) && is_whole_verbatim(t)
    &&& forall|i: int|
        1 <= i < cs.len() ==> match #[trigger] cs[i] {
            Comp::RootDir => i == 1,
            Comp::Normal(t) => windows::plain_name(t),
            _ => false,
        }
}

/// Whether a verbatim path is written as its components are: a prefix alone, or a prefix, the
/// root and plain names.
spec fn is_settled(b: Seq<u8>) -> bool {
    let cs = model::comps(Platform::Windows, b);
    &&& windows::is_verbatim(b)
    &&& is_joined(cs)
    &&& b == model::verbatim_text(cs)
    &&& cs.len() > 1 ==> cs[1] is RootDir
    &&& cs.len() > 2 ==> has_its_share(cs[0]->Prefix_0)
}

/// The root makes no difference to the text of a path with names.
proof fn lemma_text_with_root(prefix: Comp, names: Seq<Comp>)
    requires
        prefix is Prefix,
        names.len() > 0,
        forall|i: int| 0 <= i < names.len() ==> #[trigger] names[i] is Normal,
    ensures
        model::verbatim_text(seq![prefix] + names) == model::verbatim_text(
            seq![prefix, Comp::RootDir] + names,
        ),
    decreases names.len(),
{
    let short = seq![prefix];
    let long = seq![prefix, Comp::RootDir];
    let front = names.drop_last();
    let last = names[names.len() - 1];
    assert((short + names).drop_last() =~= short + front);
    assert((long + names).drop_last() =~= long + front);
    assert((short + names).last() == last);
    assert((long + names).last() == last);
    if front.len() == 0 {
        assert(short + front =~= short);
        assert(long + front =~= long);
        assert(long.drop_last() =~= short);
        assert(long.last() == Comp::RootDir);
        assert(short.last() == prefix);
        let t = model::verbatim_text(short);
        assert(model::verbatim_text(long) == t + seq![BACKSLASH]);
        assert(t.push(BACKSLASH) =~= t + seq![BACKSLASH]);
    } else {
        assert forall|i: int| 0 <= i < front.len() implies #[trigger] front[i] is Normal by {
            assert(front[i] == names[i]);
        }
        lemma_text_with_root(prefix, front);
        assert((short + front).last() == front[front.len() - 1]);
        assert((long + front).last() == front[front.len() - 1]);
        assert(front[front.len() - 1] is Normal);
    }
}

/// A server without a share takes the first name behind it for the share.
proof fn lemma_name_becomes_share(t: Seq<u8>, n: Seq<u8>)
    requires
        is_whole_verbatim(t),
        !has_its_share(t),
        verbatim_name(n),
    ensures
        is_whole_verbatim(t + seq![BACKSLASH] + n),
        has_its_share(t + seq![BACKSLASH] + n),
{
    let seps = Separators::Verbatim;
    let p = syntax::windows_prefix(t)->0;
    let b = t + seq![BACKSLASH] + n;
    let more = b + seq![BACKSLASH];
    syntax::lemma_segment_end(seps, t, 8);
    let end = syntax::segment_end(seps, t, 8);
    let next = if end < t.len() { end + 1 } else { end };
    syntax::lemma_segment_end(seps, t, next);
    assert(end == t.len());
    assert forall|k: int| 0 <= k < t.len() implies #[trigger] b[k] == t[k] by {}
    assert forall|k: int| 0 <= k < b.len() implies #[trigger] more[k] == b[k] by {}
    assert(b[end] == BACKSLASH);
    assert forall|k: int| end < k < b.len() implies #[trigger] b[k] != BACKSLASH by {
        assert(b[k] == n[k - end - 1]);
    }
    assert(more[b.len() as int] == BACKSLASH);
    syntax::lemma_segment_ends_at(seps, b, 8, end);
    syntax::lemma_segment_ends_at(seps, b, end + 1, b.len() as int);
    syntax::lemma_segment_ends_at(seps, more, 8, end);
    syntax::lemma_segment_ends_at(seps, more, end + 1, b.len() as int);
}

/// The text of a path whose first name becomes the share.
proof fn lemma_text_with_share(t: Seq<u8>, n: Seq<u8>, names: Seq<Comp>)
    requires
        forall|i: int| 0 <= i < names.len() ==> #[trigger] names[i] is Normal,
    ensures
        model::verbatim_text(seq![Comp::Prefix(t), Comp::RootDir, Comp::Normal(n)] + names)
            == model::verbatim_text(seq![Comp::Prefix(t + seq![BACKSLASH] + n)] + names),
    decreases names.len(),
{
    let long = seq![Comp::Prefix(t), Comp::RootDir, Comp::Normal(n)];
    let short = seq![Comp::Prefix(t + seq![BACKSLASH] + n)];
    if names.len() == 0 {
        let two = long.drop_last();
        let one = two.drop_last();
        let nothing = Seq::<Comp>::empty();
        assert(long + names =~= long);
        assert(short + names =~= short);
        assert(two =~= seq![Comp::Prefix(t), Comp::RootDir]);
        assert(one =~= seq![Comp::Prefix(t)]);
        assert(one.drop_last() =~= nothing);
        assert(short.drop_last() =~= nothing);
        assert(model::verbatim_text(nothing) =~= Seq::<u8>::empty());
        assert(model::verbatim_text(one) =~= t);
        assert(model::verbatim_text(two) =~= t + seq![BACKSLASH]);
        assert(model::verbatim_text(long) =~= t + seq![BACKSLASH] + n);
        assert(model::verbatim_text(short) =~= t + seq![BACKSLASH] + n);
    } else {
        let front = names.drop_last();
        let last = names[names.len() - 1];
        assert forall|i: int| 0 <= i < front.len() implies #[trigger] front[i] is Normal by {
            assert(front[i] == names[i]);
        }
        lemma_text_with_share(t, n, front);
        assert((short + names).drop_last() =~= short + front);
        assert((long + names).drop_last() =~= long + front);
        assert((short + names).last() == last);
        assert((long + names).last() == last);
        if front.len() > 0 {
            assert((short + front).last() == front[front.len() - 1]);
            assert((long + front).last() == front[front.len() - 1]);
            assert(front[front.len() - 1] is Normal);
        } else {
            assert((short + front).last() == short[0]);
            assert((long + front).last() == long[2]);
        }
    }
}

/// A verbatim prefix alone is read as such.
proof fn lemma_prefix_alone(t: Seq<u8>)
    requires
        is_whole_verbatim(t),
    ensures
        is_settled(t),
        model::comps(Platform::Windows, t) == seq![Comp::Prefix(t)],
{
    let cs = seq![Comp::Prefix(t)];
    assert(syntax::body(Separators::Verbatim, t, t.len() as int) =~= Seq::<PieceView>::empty());
    assert(t.subrange(0, t.len() as int) =~= t);
    assert(model::comps(Platform::Windows, t) =~= cs);
    assert(cs.drop_last() =~= Seq::<Comp>::empty());
    assert(cs.last() == Comp::Prefix(t));
    assert(model::verbatim_text(cs.drop_last()) =~= Seq::<u8>::empty());
    assert(model::verbatim_text(cs) =~= t);
}

/// The text of a verbatim prefix, a root and plain names is settled, whether the prefix names
/// a share or not.
proof fn lemma_rooted_text_is_settled(cs: Seq<Comp>)
    requires
        is_joined(cs),
        cs.len() > 1,
        cs[1] is RootDir,
    ensures
        is_settled(model::verbatim_text(cs)),
    decreases cs.len(),
{
    let t = cs[0]->Prefix_0;
    assert forall|i: int| 2 <= i < cs.len() implies (#[trigger] cs[i] matches Comp::Normal(n)
        && windows::plain_name(n) && verbatim_name(n)) by {
        let n = cs[i]->Normal_0;
        assert forall|k: int| 0 <= k < n.len() implies #[trigger] n[k] != BACKSLASH by {
            assert(!Separators::Both.has(n[k]));
        }
    }
    if cs.len() == 2 || has_its_share(t) {
        lemma_text_is_read(cs);
    } else {
        let n = cs[2]->Normal_0;
        let names = cs.skip(3);
        let whole = t + seq![BACKSLASH] + n;
        assert(cs[2] is Normal);
        lemma_name_becomes_share(t, n);
        assert forall|i: int| 0 <= i < names.len() implies #[trigger] names[i] is Normal by {
            assert(names[i] == cs[i + 3]);
        }
        lemma_text_with_share(t, n, names);
        assert(seq![Comp::Prefix(t), Comp::RootDir, Comp::Normal(n)] + names =~= cs);
        let short = seq![Comp::Prefix(whole)];
        if names.len() == 0 {
            assert(short + names =~= short);
            lemma_prefix_alone(whole);
        } else {
            let next = seq![Comp::Prefix(whole), Comp::RootDir] + names;
            lemma_text_with_root(Comp::Prefix(whole), names);
            assert forall|i: int| 1 <= i < next.len() implies match #[trigger] next[i] {
                Comp::RootDir => i == 1,
                Comp::Normal(m) => windows::plain_name(m),
                _ => false,
            } by {
                if i >= 2 {
                    assert(next[i] == cs[i + 1]);
                }
            }
            assert(next[0] == Comp::Prefix(whole));
            lemma_rooted_text_is_settled(next);
        }
    }
}

/// What adding plain names to a verbatim path gives is settled.
proof fn lemma_joined_text_is_settled(cs: Seq<Comp>)
    requires
        is_joined(cs),
    ensures
        is_settled(model::verbatim_text(cs)),
{
    let t = cs[0]->Prefix_0;
    if cs.len() == 1 {
        lemma_prefix_alone(t);
        assert(cs =~= seq![Comp::Prefix(t)]);
    } else if cs[1] is RootDir {
        lemma_rooted_text_is_settled(cs);
    } else {
        let names = cs.skip(1);
        let next = seq![cs[0], Comp::RootDir] + names;
        assert forall|i: int| 0 <= i < names.len() implies #[trigger] names[i] is Normal by {
            assert(names[i] == cs[i + 1]);
        }
        lemma_text_with_root(cs[0], names);
        assert(seq![cs[0]] + names =~= cs);
        assert forall|i: int| 1 <= i < next.len() implies match #[trigger] next[i] {
            Comp::RootDir => i == 1,
            Comp::Normal(m) => windows::plain_name(m),
            _ => false,
        } by {
            if i >= 2 {
                assert(next[i] == cs[i - 1]);
            }
        }
        assert(next[0] == cs[0]);
        lemma_rooted_text_is_settled(next);
    }
}

/// Adding the components of a path without a prefix keeps to a prefix, a root and plain names.
proof fn lemma_join_keeps_form(base: Seq<Comp>, added: Seq<Comp>)
    requires
        is_joined(base),
        forall|i: int|
            0 <= i < added.len() ==> (#[trigger] added[i] !is Prefix && (added[i] matches Comp::Normal(
                t,
            ) ==> windows::plain_name(t))),
    ensures
        is_joined(model::verbatim_join(base, added)),
    decreases added.len(),
{
    if added.len() > 0 {
        let front = added.drop_last();
        let last = added[added.len() - 1];
        assert forall|i: int| 0 <= i < front.len() implies (#[trigger] front[i] !is Prefix && (
        front[i] matches Comp::Normal(t) ==> windows::plain_name(t))) by {
            assert(front[i] == added[i]);
        }
        lemma_join_keeps_form(base, front);
        let before = model::verbatim_join(base, front);
        let after = model::verbatim_join(base, added);
        assert(added.last() == last);
        assert forall|i: int| 1 <= i < after.len() implies match #[trigger] after[i] {
            Comp::RootDir => i == 1,
            Comp::Normal(t) => windows::plain_name(t),
            _ => false,
        } by {
            if i < before.len() && last !is RootDir {
                assert(after[i] == before[i]);
            }
        }
        assert(before.last() == before[before.len() - 1]);
        assert(after[0] == before[0]);
    }
}

/// The components of a name without a prefix of its own, which may hold a `/`.
proof fn lemma_comps_without_prefix(n: Seq<u8>)
    requires
        syntax::windows_prefix(n) is None,
    ensures
        forall|i: int|
            0 <= i < model::comps(Platform::Windows, n).len() ==> (#[trigger] model::comps(
                Platform::Windows,
                n,
            )[i] !is Prefix && (model::comps(Platform::Windows, n)[i] matches Comp::Normal(t)
                ==> windows::plain_name(t))),
{
    let windows = Platform::Windows;
    let cs = model::comps(windows, n);
    let whole = syntax::pieces(windows, n);
    let (first, start) = syntax::head(windows, n);
    let rest = syntax::body(Separators::Both, n, start);
    windows::lemma_comps_readable(n);
    model::lemma_body_fits(Separators::Both, n, start);
    assert(whole =~= first + rest);
    assert forall|i: int| 0 <= i < cs.len() implies (#[trigger] cs[i] !is Prefix && (
    cs[i] matches Comp::Normal(t) ==> windows::plain_name(t))) by {
        assert(windows::fits_at(cs, i));
        assert(cs[i] == model::comp_of(n, whole[i]));
        if i >= first.len() {
            assert(whole[i] == rest[i - first.len()]);
        } else {
            assert(whole[i] == first[i]);
        }
    }
}

/// Whether a component is a name that opens with a prefix of its own.
pub open spec fn has_own_prefix(c: Comp) -> bool {
    c matches Comp::Normal(t) && syntax::windows_prefix(t) is Some
}

/// Whether none of the names opens with a prefix of its own.
pub open spec fn no_name_has_a_prefix(cs: Seq<Comp>) -> bool {
    forall|i: int| 0 <= i < cs.len() ==> !has_own_prefix(#[trigger] cs[i])
}

/// A verbatim path that is made of a prefix, a root and names without prefixes is settled.
proof fn lemma_collected_is_settled(cs: Seq<Comp>)
    requires
        only_names_follow(cs),
        no_name_has_a_prefix(cs),
    ensures
        is_settled(model::collect(Platform::Windows, cs)),
    decreases cs.len(),
{
    let windows = Platform::Windows;
    if cs.len() == 2 {
        lemma_opening_is_read_back(cs);
    } else {
        let front = cs.drop_last();
        let last = cs[cs.len() - 1];
        let n = last->Normal_0;
        assert forall|i: int| 2 <= i < front.len() implies (#[trigger] front[i] matches Comp::Normal(
            t,
        ) && verbatim_name(t)) by {
            assert(front[i] == cs[i]);
        }
        assert forall|i: int| 0 <= i < front.len() implies !has_own_prefix(#[trigger] front[i]) by {
            assert(front[i] == cs[i]);
        }
        lemma_collected_is_settled(front);
        let b = model::collect(windows, front);
        assert(!has_own_prefix(last));
        lemma_comps_without_prefix(n);
        reveal(model::push);
        assert(cs.last() == last);
        let joined = model::verbatim_join(model::comps(windows, b), model::comps(windows, n));
        lemma_join_keeps_form(model::comps(windows, b), model::comps(windows, n));
        assert(model::collect(windows, cs) == model::verbatim_text(joined));
        lemma_joined_text_is_settled(joined);
    }
}

/// A settled path is clean, unless a name in it opens like a drive.
proof fn lemma_settled_is_clean(b: Seq<u8>)
    requires
        is_settled(b),
        windows::no_name_is_a_drive(model::comps(Platform::Windows, b)),
    ensures
        (PathView { platform: Platform::Windows, bytes: b }).cleaned().bytes == b,
{
    let windows = Platform::Windows;
    let cs = model::comps(windows, b);
    assert(clean::is_clean(cs)) by {
        assert forall|i: int| 0 <= i < cs.len() implies {
            &&& #[trigger] cs[i] !is CurDir
            &&& cs[i] is ParentDir && i > 0 ==> cs[i - 1] is ParentDir || cs[i - 1] is Prefix
        } by {}
    }
    clean::law_clean_components_stay(cs);
    if cs.len() == 1 {
        reveal(model::push);
        let t = cs[0]->Prefix_0;
        assert(cs.drop_last() =~= Seq::<Comp>::empty());
        assert(cs.last() == cs[0]);
        assert(model::collect(windows, cs.drop_last()) =~= Seq::<u8>::empty());
        assert(model::verbatim_text(cs.drop_last()) =~= Seq::<u8>::empty());
        assert(model::verbatim_text(cs) =~= t);
        assert(model::collect(windows, cs) == t);
    } else {
        assert forall|i: int| 2 <= i < cs.len() implies (#[trigger] cs[i] matches Comp::Normal(n)
            && verbatim_name(n)) by {
            let n = cs[i]->Normal_0;
            assert forall|k: int| 0 <= k < n.len() implies #[trigger] n[k] != BACKSLASH by {
                assert(!Separators::Both.has(n[k]));
            }
        }
        lemma_collected_is_read_back(cs);
    }
}

/// Whether the component at `k` is the last name that opens with a prefix of its own.
pub open spec fn is_last_start(cs: Seq<Comp>, k: int) -> bool {
    &&& 0 <= k < cs.len()
    &&& has_own_prefix(cs[k])
    &&& forall|j: int| k < j < cs.len() ==> !has_own_prefix(#[trigger] cs[j])
}

/// Whether the path that starts at the name at `k` is written as it is read again: plain names
/// follow, and the name is a drive with what can stay behind it, or a share or a device, with
/// a name behind it and nothing else.
pub open spec fn start_stays(cs: Seq<Comp>, k: int) -> bool {
    let t = cs[k]->Normal_0;
    &&& forall|j: int|
        k < j < cs.len() ==> (#[trigger] cs[j] matches Comp::Normal(n) && windows::plain_name(n))
    &&& if syntax::drive_at(t, 0) {
        windows::plain_name(t) && windows::drive_stays(t)
    } else {
        &&& windows::is_whole_prefix(t)
        &&& cs.len() > k + 1
        &&& Separators::Both.has(t.last()) ==> cs.len() > k + 2
    }
}

/// The last name that opens with a prefix of its own, if there is one.
proof fn lemma_last_start(cs: Seq<Comp>) -> (k: int)
    requires
        !no_name_has_a_prefix(cs),
    ensures
        is_last_start(cs, k),
    decreases cs.len(),
{
    let n = cs.len() - 1;
    if cs.len() > 0 && has_own_prefix(cs[n]) {
        n
    } else {
        let front = cs.drop_last();
        assert(!no_name_has_a_prefix(front)) by {
            let i = choose|i: int| 0 <= i < cs.len() && has_own_prefix(#[trigger] cs[i]);
            assert(front[i] == cs[i]);
            assert(has_own_prefix(front[i]));
        }
        let k = lemma_last_start(front);
        assert(cs[k] == front[k]);
        assert forall|j: int| k < j < cs.len() implies !has_own_prefix(#[trigger] cs[j]) by {
            if j < n {
                assert(front[j] == cs[j]);
            }
        }
        k
    }
}

/// A device without a name takes the first name behind it.
proof fn lemma_name_becomes_device(t: Seq<u8>, n: Seq<u8>)
    requires
        windows::is_whole_prefix(t),
        !windows::is_drive(t),
        Separators::Both.has(t.last()),
        windows::plain_name(n),
        !syntax::drive_at(n, 0),
    ensures
        model::push(Platform::Windows, t, n) == t + n,
        windows::is_whole_prefix(t + n),
        !windows::is_drive(t + n),
        !Separators::Both.has((t + n).last()),
{
    reveal(model::push);
    let seps = Separators::Both;
    let b = t + n;
    syntax::lemma_prefix_fits(Platform::Windows, t);
    let p = syntax::windows_prefix(t)->0;
    if p.kind is Unc {
        syntax::lemma_segment_end(seps, t, 2);
        let end = syntax::segment_end(seps, t, 2);
        let next = if end < t.len() { end + 1 } else { end };
        syntax::lemma_segment_end(seps, t, next);
        assert(!seps.has(t[t.len() - 1]));
    } else {
        syntax::lemma_segment_end(seps, t, 4);
        assert(t.len() == 4) by {
            if t.len() > 4 {
                assert(!seps.has(t[t.len() - 1]));
            }
        }
        assert forall|k: int| 0 <= k < 4 implies #[trigger] b[k] == t[k] by {}
        assert forall|k: int| 4 <= k < b.len() implies !seps.has(#[trigger] b[k]) by {
            assert(b[k] == n[k - 4]);
        }
        syntax::lemma_segment_ends_at(seps, b, 4, b.len() as int);
        assert(b.last() == b[b.len() - 1]);
        assert(!seps.has(n[0]));
    }
}

/// A path that starts at the name at `k` is clean where the name and those behind it stay.
proof fn lemma_start_is_clean(left: Seq<Comp>, k: int)
    requires
        is_last_start(left, k),
        start_stays(left, k),
    ensures
        (PathView {
            platform: Platform::Windows,
            bytes: model::collect(Platform::Windows, left),
        }).cleaned().bytes == model::collect(Platform::Windows, left),
{
    reveal(model::push);
    let windows = Platform::Windows;
    let t = left[k]->Normal_0;
    assert forall|j: int| k < j < left.len() implies (#[trigger] left[j] matches Comp::Normal(n)
        && windows::plain_name(n) && !syntax::drive_at(n, 0)) by {
        let n = left[j]->Normal_0;
        assert(!has_own_prefix(left[j]));
        assert(!Separators::Both.has(n[0]));
    }
    if syntax::drive_at(t, 0) {
        windows::lemma_drive_name_is_clean(left, k);
    } else {
        let start = left.take(k + 1);
        let rest = left.skip(k + 1);
        assert(start.last() == left[k]);
        assert(model::collect(windows, start) == t);
        assert(start + rest =~= left);
        assert forall|j: int| -1 < j < rest.len() implies (#[trigger] rest[j] matches Comp::Normal(n)
            && windows::plain_name(n) && !syntax::drive_at(n, 0)) by {
            assert(rest[j] == left[j + k + 1]);
        }
        assert(!windows::is_drive(t));
        if Separators::Both.has(t.last()) {
            let n = rest[0]->Normal_0;
            let longer = left.take(k + 2);
            let fewer = left.skip(k + 2);
            lemma_name_becomes_device(t, n);
            assert(longer.drop_last() =~= start);
            assert(longer.last() == rest[0]);
            assert(model::collect(windows, longer) == t + n);
            assert forall|j: int| -1 < j < fewer.len() implies (
            #[trigger] fewer[j] matches Comp::Normal(m) && windows::plain_name(m)
                && !syntax::drive_at(m, 0)) by {
                assert(fewer[j] == rest[j + 1]);
            }
            assert(longer + fewer =~= left);
            windows::lemma_names_behind_share_are_clean(longer, fewer, t + n);
        } else {
            windows::lemma_names_behind_share_are_clean(start, rest, t);
        }
    }
}

/// Cleaning a cleaned path that starts with `\\?\` changes nothing, not even a byte. Behind
/// that mark a name may hold a `/` or a colon, and is read anew when it is added. So this
/// holds unless a name in the cleaned path opens like a drive, as `c:y` that is left of
/// `x/c:y`; and, where a name has a prefix of its own and so starts a path of its own, only
/// if that path stays: `c:a/b` is cleaned to `c:a\b`.
pub proof fn law_clean_is_idempotent(p: PathView)
    requires
        p.platform is Windows,
        windows::is_verbatim(p.bytes),
        no_name_has_a_prefix(clean::clean_comps(p.comps())) ==> windows::no_name_is_a_drive(
            p.cleaned().comps(),
        ),
        forall|k: int| #[trigger]
            is_last_start(clean::clean_comps(p.comps()), k) ==> start_stays(
                clean::clean_comps(p.comps()),
                k,
            ),
    ensures
        p.cleaned().cleaned() == p.cleaned(),
{
    let cs = p.comps();
    let left = clean::clean_comps(cs);
    let b = p.bytes;
    let windows = Platform::Windows;
    syntax::lemma_prefix_fits(windows, b);
    if syntax::prefix_len(windows, b) < b.len() {
        lemma_comps_readable(b);
        lemma_clean_leaves_names(cs);
        if no_name_has_a_prefix(left) {
            lemma_collected_is_settled(left);
            lemma_settled_is_clean(model::collect(windows, left));
        } else {
            let k = lemma_last_start(left);
            lemma_start_is_clean(left, k);
        }
    } else {
        assert(syntax::body(Separators::Verbatim, b, b.len() as int) =~= Seq::<PieceView>::empty());
        assert(b.subrange(0, b.len() as int) =~= b);
        assert(cs =~= seq![Comp::Prefix(b)]);
        assert(cs.drop_last() =~= Seq::<Comp>::empty());
        assert(cs.last() == Comp::Prefix(b));
        assert(clean::clean_comps(cs.drop_last()) =~= Seq::<Comp>::empty());
        assert(left =~= cs);
        assert(names_are_plain(left));
        law_cleaned_components(p);
    }
}

} // verus!
