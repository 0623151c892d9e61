//! What holds of Windows paths: when they are cleaned, and between drives.

use vstd::prelude::*;

use crate::path::clean;
use crate::path::laws;
use crate::path::model;
use crate::path::model::{Comp, PathView};
use crate::path::relative;
use crate::path::syntax;
use crate::path::syntax::{BACKSLASH, DOT, PieceView, Separators};
use crate::platform::Platform;

verus! {

/// A name between two separators: not empty, without a separator, neither `.` nor `..`.
pub open spec fn plain_name(t: Seq<u8>) -> bool {
    &&& t.len() > 0
    &&& forall|k: int| 0 <= k < t.len() ==> !Separators::Both.has(#[trigger] t[k])
    &&& t != seq![DOT]
    &&& t != seq![DOT, DOT]
}

/// Whether bytes are a prefix, and nothing but a prefix, that is not verbatim.
pub open spec fn is_whole_prefix(t: Seq<u8>) -> bool {
    syntax::windows_prefix(t) matches Some(p) && p.len == t.len() && !p.kind.verbatim()
}

/// Whether bytes are the prefix of a drive.
pub open spec fn is_drive(t: Seq<u8>) -> bool {
    syntax::windows_prefix(t) matches Some(p) && p.kind is Disk
}

/// What can stand at place `i` among the components of a Windows path that is not verbatim.
pub open spec fn fits_at(cs: Seq<Comp>, i: int) -> bool {
    match cs[i] {
        Comp::Prefix(t) => i == 0 && is_whole_prefix(t),
        Comp::RootDir => i == 0 || (i == 1 && cs[0] is Prefix),
        Comp::CurDir => i == 0,
        Comp::ParentDir => true,
        Comp::Normal(t) => plain_name(t),
    }
}

/// Whether a prefix other than that of a drive has the root behind it.
pub open spec fn has_its_root(cs: Seq<Comp>) -> bool {
    cs.len() > 0 && cs[0] is Prefix && !is_drive(cs[0]->Prefix_0) ==> cs.len() > 1
        && cs[1] is RootDir
}

/// What components a Windows path that is not verbatim can have.
pub open spec fn readable(cs: Seq<Comp>) -> bool {
    &&& forall|i: int| 0 <= i < cs.len() ==> #[trigger] fits_at(cs, i)
    &&& has_its_root(cs)
}

/// The names in the body of a Windows path that is not verbatim are plain.
proof fn lemma_body_names(b: Seq<u8>, i: int)
    requires
        0 <= i,
    ensures
        forall|k: int|
            0 <= k < syntax::body(Separators::Both, b, i).len() ==> match #[trigger] model::comp_of(
                b,
                syntax::body(Separators::Both, b, i)[k],
            ) {
                Comp::ParentDir => true,
                Comp::Normal(t) => plain_name(t),
                _ => false,
            },
    decreases b.len() - i,
{
    let seps = Separators::Both;
    if i < b.len() {
        if seps.has(b[i]) {
            lemma_body_names(b, i + 1);
        } else {
            let end = syntax::segment_end(seps, b, i);
            syntax::lemma_segment_end(seps, b, i);
            assert(i < end);
            lemma_body_names(b, end);
            let rest = syntax::body(seps, b, end);
            let segment = b.subrange(i, end);
            if let Some(kind) = syntax::segment_kind(seps, segment) {
                let whole = syntax::body(seps, b, i);
                assert(whole =~= seq![PieceView { kind, start: i, end }] + rest);
                assert forall|k: int| 0 <= k < segment.len() implies !seps.has(
                    #[trigger] segment[k],
                ) by {
                    assert(segment[k] == b[i + k]);
                }
                assert forall|k: int| 0 <= k < whole.len() implies match #[trigger] model::comp_of(
                    b,
                    whole[k],
                ) {
                    Comp::ParentDir => true,
                    Comp::Normal(t) => plain_name(t),
                    _ => false,
                } by {
                    if k > 0 {
                        assert(whole[k] == rest[k - 1]);
                    }
                }
            }
        }
    }
}

/// Bytes that start with a prefix which is not verbatim, cut off behind it, are the prefix;
/// and a prefix stays one when more is put behind it, a separator first unless it is the
/// prefix of a drive.
pub proof fn lemma_prefix_is_stable(t: Seq<u8>, tail: Seq<u8>)
    requires
        is_whole_prefix(t),
        tail.len() > 0 ==> is_drive(t) || Separators::Both.has(tail[0]),
    ensures
        syntax::windows_prefix(t + tail) == syntax::windows_prefix(t),
{
    let seps = Separators::Both;
    let b = t + tail;
    let p = syntax::windows_prefix(t)->0;
    assert forall|k: int| 0 <= k < t.len() implies #[trigger] b[k] == t[k] by {}
    syntax::lemma_prefix_fits(Platform::Windows, t);
    if syntax::opens_with_two(t) {
        if p.kind is Device {
            syntax::lemma_segment_end(seps, t, 4);
            assert(t.len() >= 4);
            syntax::lemma_segment_ends_at(seps, b, 4, t.len() as int);
        } else {
            syntax::lemma_segment_end(seps, t, 2);
            let end = syntax::segment_end(seps, t, 2);
            let next = if end < t.len() { end + 1 } else { end };
            syntax::lemma_segment_end(seps, t, next);
            assert(end < t.len());
            syntax::lemma_segment_ends_at(seps, b, 2, end);
            syntax::lemma_segment_ends_at(seps, b, next, t.len() as int);
            assert(t.len() >= 5);
        }
    }
}

/// The prefix of a Windows path that is not verbatim is a whole prefix.
pub proof fn lemma_prefix_is_whole(b: Seq<u8>)
    requires
        syntax::windows_prefix(b) matches Some(p) && !p.kind.verbatim(),
    ensures
        ({
            let p = syntax::windows_prefix(b)->0;
            let t = b.subrange(0, p.len);
            &&& is_whole_prefix(t)
            &&& syntax::windows_prefix(t) == Some(p)
        }),
{
    let seps = Separators::Both;
    let p = syntax::windows_prefix(b)->0;
    syntax::lemma_prefix_fits(Platform::Windows, b);
    let t = b.subrange(0, p.len);
    assert forall|k: int| 0 <= k < t.len() implies #[trigger] t[k] == b[k] by {}
    if syntax::opens_with_two(b) {
        if p.kind is Device {
            syntax::lemma_segment_end(seps, b, 4);
            syntax::lemma_segment_ends_at(seps, t, 4, t.len() as int);
        } else {
            syntax::lemma_segment_end(seps, b, 2);
            let end = syntax::segment_end(seps, b, 2);
            let next = if end < b.len() { end + 1 } else { end };
            syntax::lemma_segment_end(seps, b, next);
            assert(end < t.len());
            syntax::lemma_segment_ends_at(seps, t, 2, end);
            syntax::lemma_segment_ends_at(seps, t, next, t.len() as int);
        }
    }
}

/// Whether a Windows path starts with `\\?\`.
pub open spec fn is_verbatim(b: Seq<u8>) -> bool {
    syntax::windows_prefix(b) matches Some(p) && p.kind.verbatim()
}

/// The components of a Windows path that is not verbatim are readable.
pub proof fn lemma_comps_readable(b: Seq<u8>)
    requires
        !is_verbatim(b),
    ensures
        readable(model::comps(Platform::Windows, b)),
{
    let windows = Platform::Windows;
    let (first, start) = syntax::head(windows, b);
    syntax::lemma_prefix_fits(windows, b);
    lemma_body_names(b, start);
    let rest = syntax::body(Separators::Both, b, start);
    let cs = model::comps(windows, b);
    let whole = syntax::pieces(windows, b);
    assert(whole =~= first + rest);
    if syntax::windows_prefix(b) is Some {
        lemma_prefix_is_whole(b);
        assert(cs[0] == model::comp_of(b, whole[0]));
        if first.len() > 1 {
            assert(whole[1] == first[1]);
            assert(cs[1] == model::comp_of(b, whole[1]));
        }
    }
    assert forall|i: int| 0 <= i < cs.len() implies #[trigger] fits_at(cs, i) by {
        assert(cs[i] == model::comp_of(b, whole[i]));
        if i >= first.len() {
            assert(whole[i] == rest[i - first.len()]);
        } else {
            assert(whole[i] == first[i]);
        }
    }
}

/// What cleaning leaves of readable components fits, and a prefix in it is the one that was
/// there.
proof fn lemma_clean_fits(cs: Seq<Comp>)
    requires
        forall|i: int| 0 <= i < cs.len() ==> #[trigger] fits_at(cs, i),
    ensures
        ({
            let left = clean::clean_comps(cs);
            &&& forall|i: int| 0 <= i < left.len() ==> #[trigger] fits_at(left, i)
            &&& forall|i: int|
                0 <= i < left.len() ==> (#[trigger] left[i] is Prefix ==> left[i] == cs[0])
        }),
    decreases cs.len(),
{
    if cs.len() > 0 {
        let front = cs.drop_last();
        assert forall|i: int| 0 <= i < front.len() implies #[trigger] fits_at(front, i) by {
            assert(fits_at(cs, i));
        }
        lemma_clean_fits(front);
        let before = clean::clean_comps(front);
        let after = clean::clean_comps(cs);
        let next = cs[cs.len() - 1];
        assert(fits_at(cs, cs.len() - 1));
        if cs.len() == 2 {
            assert(front.drop_last() =~= Seq::<Comp>::empty());
            assert(clean::clean_comps(front.drop_last()) =~= Seq::<Comp>::empty());
        }
        assert forall|i: int| 0 <= i < after.len() implies #[trigger] fits_at(after, i) by {
            if i < before.len() {
                assert(fits_at(before, i));
                assert(after[i] == before[i]);
                assert(after[0] == before[0]);
            } else {
                assert(after[i] == next);
                if next is RootDir && cs.len() == 2 {
                    assert(front[0] == cs[0]);
                    assert(before =~= seq![cs[0]]);
                    assert(after[0] == before[0]);
                }
            }
        }
        assert forall|i: int| 0 <= i < after.len() && #[trigger] after[i] is Prefix implies after[i]
            == cs[0] by {
            if i < before.len() {
                assert(after[i] == before[i]);
            }
        }
    }
}

/// Readable components without a `.`, and without a name that opens like a drive.
pub open spec fn canonical(cs: Seq<Comp>) -> bool {
    &&& readable(cs)
    &&& forall|i: int| 0 <= i < cs.len() ==> #[trigger] cs[i] !is CurDir
    &&& no_name_is_a_drive(cs)
}

/// Whether none of the names opens like a drive, as `c:name` does.
pub open spec fn no_name_is_a_drive(cs: Seq<Comp>) -> bool {
    forall|i: int|
        0 <= i < cs.len() ==> (#[trigger] cs[i] matches Comp::Normal(t) ==> !syntax::drive_at(t, 0))
}

/// What cleaning leaves of readable components is canonical, unless a name opens like a
/// drive.
proof fn lemma_clean_is_canonical(cs: Seq<Comp>)
    requires
        readable(cs),
        no_name_is_a_drive(clean::clean_comps(cs)),
    ensures
        canonical(clean::clean_comps(cs)),
{
    let left = clean::clean_comps(cs);
    lemma_clean_fits(cs);
    clean::law_result_is_clean(cs);
    if left.len() > 0 && left[0] is Prefix && !is_drive(left[0]->Prefix_0) {
        assert(left[0] == cs[0]);
        if cs.len() == 0 {
            assert(left =~= Seq::<Comp>::empty());
        }
        let opening = cs.take(2);
        assert(cs[1] is RootDir);
        assert(clean::is_clean(opening));
        clean::law_start_stays(cs, 2);
        assert(left[1] == left.take(2)[1]);
    }
}

/// What [`model::push`] does with a name, or with `..`.
proof fn lemma_push_name(b: Seq<u8>, c: Comp)
    requires
        !is_verbatim(b),
        c is Normal || c is ParentDir,
        c matches Comp::Normal(t) ==> plain_name(t) && !syntax::drive_at(t, 0),
    ensures
        ({
            let t = model::comp_text(Platform::Windows, c);
            &&& t.len() > 0
            &&& forall|k: int| 0 <= k < t.len() ==> !Separators::Both.has(#[trigger] t[k])
            &&& t != seq![DOT]
            &&& !syntax::drive_at(t, 0)
            &&& model::push(Platform::Windows, b, t) == (if model::needs_separator(b) {
                b + (seq![BACKSLASH] + t)
            } else {
                b + t
            })
        }),
{
    reveal(model::push);
    let t = model::comp_text(Platform::Windows, c);
    assert(seq![DOT].len() == 1);
    assert(!Separators::Both.has(t[0]));
    assert(syntax::windows_prefix(t) is None);
    assert(!syntax::has_root(Platform::Windows, t));
    assert(b.push(BACKSLASH) + t =~= b + (seq![BACKSLASH] + t));
}

/// A name at the end of a path is read as one component.
proof fn lemma_last_segment(b: Seq<u8>, i: int, c: Comp)
    requires
        0 <= i < b.len(),
        c is Normal || c is ParentDir,
        c matches Comp::Normal(t) ==> plain_name(t),
        b.skip(i) == model::comp_text(Platform::Windows, c),
    ensures
        syntax::body(Separators::Both, b, i).len() == 1,
        model::comp_of(b, syntax::body(Separators::Both, b, i)[0]) == c,
{
    let seps = Separators::Both;
    let t = model::comp_text(Platform::Windows, c);
    if c is ParentDir {
        assert(t =~= seq![DOT, DOT]);
    }
    assert forall|k: int| i <= k < b.len() implies !seps.has(#[trigger] b[k]) by {
        assert(b[k] == b.skip(i)[k - i]);
        assert(!seps.has(t[k - i]));
    }
    syntax::lemma_segment_ends_at(seps, b, i, b.len() as int);
    assert(b.subrange(i, b.len() as int) =~= t);
    assert(seq![DOT].len() == 1);
    assert(seq![DOT, DOT].len() == 2);
    assert(syntax::body(seps, b, b.len() as int) =~= Seq::<PieceView>::empty());
}

/// Whether `b` has a prefix where the components do, and opens neither with a prefix nor
/// like one where they do not.
pub open spec fn opens_like(b: Seq<u8>, cs: Seq<Comp>) -> bool {
    if cs[0] is Prefix {
        let t = cs[0]->Prefix_0;
        &&& is_whole_prefix(t)
        &&& t.len() <= b.len()
        &&& b.take(t.len() as int) == t
        &&& is_drive(t) || (t.len() < b.len() && Separators::Both.has(b[t.len() as int]))
        &&& syntax::windows_prefix(b) == syntax::windows_prefix(t)
    } else {
        &&& !syntax::opens_with_two(b)
        &&& !syntax::drive_at(b, 0)
        &&& !syntax::opens_with_dot(Separators::Both, b)
    }
}

/// Whether the components end before any name: with the root or with the prefix of a drive.
pub open spec fn ends_early(cs: Seq<Comp>) -> bool {
    cs.last() is RootDir || (cs.len() == 1 && cs[0] is Prefix)
}

/// Whether `b` is read as the components.
pub open spec fn reads_as(b: Seq<u8>, cs: Seq<Comp>) -> bool {
    &&& b.len() > 0
    &&& opens_like(b, cs)
    &&& model::comps(Platform::Windows, b) == cs
    &&& Separators::Both.has(b.last()) <==> cs.last() is RootDir
    &&& model::needs_separator(b) <==> !ends_early(cs)
    &&& ends_early(cs) ==> syntax::head(Platform::Windows, b).1 == b.len()
}

/// A name that is put behind what opens like the components changes nothing in how it opens.
proof fn lemma_opening_stays(b: Seq<u8>, tail: Seq<u8>, cs: Seq<Comp>)
    requires
        cs.len() > 0,
        reads_as(b, cs),
        tail.len() > 0,
        Separators::Both.has(tail[0]) <==> !ends_early(cs),
    ensures
        opens_like(b + tail, cs),
        syntax::head(Platform::Windows, b + tail) == syntax::head(Platform::Windows, b),
        syntax::windows_prefix(b + tail) == syntax::windows_prefix(b),
{
    let whole = b + tail;
    assert forall|k: int| 0 <= k < b.len() implies #[trigger] whole[k] == b[k] by {}
    if cs[0] is Prefix {
        let t = cs[0]->Prefix_0;
        let more = b.skip(t.len() as int) + tail;
        assert(whole =~= t + more) by {
            assert(b =~= b.take(t.len() as int) + b.skip(t.len() as int));
        }
        if t.len() < b.len() {
            assert(more[0] == b[t.len() as int]);
        } else {
            assert(more[0] == tail[0]);
        }
        lemma_prefix_is_stable(t, more);
        assert(whole.take(t.len() as int) =~= t);
        assert(whole[t.len() as int] == more[0]);
    } else {
        assert(whole[b.len() as int] == tail[0]);
        if b.len() == 1 {
            assert(b[0] == b.last());
        }
    }
}

/// What is read of a path when a name is put behind it.
#[verifier::rlimit(40)]
proof fn lemma_added_name_is_read(b: Seq<u8>, front: Seq<Comp>, c: Comp)
    requires
        front.len() > 0,
        reads_as(b, front),
        c is Normal || c is ParentDir,
        c matches Comp::Normal(t) ==> plain_name(t) && !syntax::drive_at(t, 0),
        !is_verbatim(b),
    ensures
        reads_as(
            model::push(Platform::Windows, b, model::comp_text(Platform::Windows, c)),
            front.push(c),
        ),
{
    let windows = Platform::Windows;
    let seps = Separators::Both;
    let t = model::comp_text(windows, c);
    let cs = front.push(c);
    lemma_push_name(b, c);
    let tail = if model::needs_separator(b) {
        seq![BACKSLASH] + t
    } else {
        t
    };
    let whole = b + tail;
    assert(!seps.has(t[0]));
    lemma_opening_stays(b, tail, front);
    assert(cs[0] == front[0]);
    let (first, start) = syntax::head(windows, b);
    syntax::lemma_prefix_fits(windows, b);
    let added = if model::needs_separator(b) {
        syntax::body(seps, whole, b.len() as int + 1)
    } else {
        syntax::body(seps, whole, b.len() as int)
    };
    if model::needs_separator(b) {
        laws::lemma_body_of_concat(seps, b, tail, start);
        assert(whole[b.len() as int] == BACKSLASH);
        assert(whole.skip(b.len() as int + 1) =~= t);
        lemma_last_segment(whole, b.len() as int + 1, c);
    } else {
        assert(whole.skip(b.len() as int) =~= t);
        lemma_last_segment(whole, b.len() as int, c);
        assert(syntax::body(seps, b, b.len() as int) =~= Seq::<PieceView>::empty());
    }
    assert(syntax::pieces(windows, whole) =~= syntax::pieces(windows, b) + added);
    laws::lemma_one_more_piece(windows, b, tail, added, c);
    assert(whole.last() == t[t.len() - 1]);
}

/// A path that starts with a prefix which is not verbatim, or with none, is not verbatim.
proof fn lemma_not_verbatim(b: Seq<u8>, cs: Seq<Comp>)
    requires
        cs.len() > 0,
        opens_like(b, cs),
    ensures
        !is_verbatim(b),
{
}

/// The components of a path that was made of the canonical components before any name are
/// these.
proof fn lemma_opening_is_read_back(cs: Seq<Comp>)
    requires
        canonical(cs),
        0 < cs.len() <= 2,
        cs.len() == 2 ==> cs[1] is RootDir,
    ensures
        reads_as(model::collect(Platform::Windows, cs), cs),
{
    reveal(model::push);
    let windows = Platform::Windows;
    let seps = Separators::Both;
    let b = model::collect(windows, cs);
    let front = cs.drop_last();
    let nothing = Seq::<u8>::empty();
    assert(fits_at(cs, 0));
    assert(cs[0] !is CurDir);
    if cs.len() == 1 {
        let t = model::comp_text(windows, cs[0]);
        assert(cs.last() == cs[0]);
        assert(model::collect(windows, front) =~= nothing);
        assert(syntax::windows_prefix(nothing) is None);
        match cs[0] {
            Comp::Prefix(text) => {
                assert(b =~= t);
                assert(is_drive(t));
                assert(b.take(t.len() as int) =~= t);
                assert(b.subrange(0, 2) =~= t);
                assert(syntax::body(seps, b, 2) =~= Seq::<PieceView>::empty());
                assert(model::comps(windows, b) =~= cs);
            },
            Comp::RootDir => {
                assert(nothing.take(0) + t =~= t);
                assert(b =~= seq![BACKSLASH]);
                assert(syntax::body(seps, b, 1) =~= Seq::<PieceView>::empty());
                assert(model::comps(windows, b) =~= cs);
            },
            _ => {
                lemma_push_name(nothing, cs[0]);
                assert(b =~= t);
                assert(b.skip(0) =~= t);
                lemma_last_segment(b, 0, cs[0]);
                assert(!seps.has(t[0]));
                if t[0] == DOT {
                    if t.len() == 1 {
                        assert(t =~= seq![DOT]);
                    }
                    assert(!seps.has(t[1]));
                }
                assert(syntax::pieces(windows, b) =~= syntax::body(seps, b, 0));
                assert(model::comps(windows, b) =~= cs);
                assert(!seps.has(t[t.len() - 1]));
            },
        }
    } else {
        assert(fits_at(cs, 1));
        let t = cs[0]->Prefix_0;
        let root = seq![BACKSLASH];
        assert(front =~= seq![cs[0]]);
        assert(front.drop_last() =~= Seq::<Comp>::empty());
        assert(model::collect(windows, front.drop_last()) =~= nothing);
        assert(front.last() == cs[0]);
        assert(model::collect(windows, front) == t);
        assert(cs.last() == cs[1]);
        assert(syntax::windows_prefix(root) is None);
        assert(t.take(t.len() as int) =~= t);
        assert(b =~= t + root);
        lemma_prefix_is_stable(t, root);
        assert(b.take(t.len() as int) =~= t);
        assert(b.subrange(0, t.len() as int) =~= t);
        assert(b[t.len() as int] == BACKSLASH);
        assert(syntax::body(seps, b, b.len() as int) =~= Seq::<PieceView>::empty());
        assert(model::comps(windows, b) =~= cs);
    }
}

/// The components of a path that was made of canonical components are these.
pub proof fn lemma_collected_is_read_back(cs: Seq<Comp>)
    requires
        canonical(cs),
        cs.len() > 0,
    ensures
        reads_as(model::collect(Platform::Windows, cs), cs),
    decreases cs.len(),
{
    if cs.len() == 1 || (cs.len() == 2 && cs[1] is RootDir) {
        lemma_opening_is_read_back(cs);
    } else {
        let front = cs.drop_last();
        let last = cs[cs.len() - 1];
        assert(fits_at(cs, cs.len() - 1));
        assert(cs[cs.len() - 1] !is CurDir);
        assert forall|i: int| 0 <= i < front.len() implies #[trigger] fits_at(front, i) by {
            assert(fits_at(cs, i));
        }
        assert forall|i: int| 0 <= i < front.len() implies #[trigger] front[i] !is CurDir by {
            assert(cs[i] !is CurDir);
        }
        assert forall|i: int| 0 <= i < front.len() implies (#[trigger] front[i] matches Comp::Normal(
            t,
        ) ==> !syntax::drive_at(t, 0)) by {
            assert(front[i] == cs[i]);
        }
        lemma_collected_is_read_back(front);
        let b = model::collect(Platform::Windows, front);
        lemma_not_verbatim(b, front);
        assert(last matches Comp::Normal(t) ==> plain_name(t) && !syntax::drive_at(t, 0));
        lemma_added_name_is_read(b, front, last);
        assert(front.push(last) =~= cs);
        assert(cs.last() == last);
    }
}

/// The components of a cleaned Windows path are the cleaned components of the path, or a
/// single `.` where none are left. This holds of paths that do not start with `\\?\`, and
/// where no name that is left opens like a drive: such a name, as in `a\c:b`, becomes the
/// start of a path of its own when it is added.
pub proof fn law_cleaned_components(p: PathView)
    requires
        p.platform is Windows,
        !is_verbatim(p.bytes),
        no_name_is_a_drive(clean::clean_comps(p.comps())),
    ensures
        clean::clean_comps(p.comps()).len() > 0 ==> p.cleaned().comps() == clean::clean_comps(
            p.comps(),
        ),
        clean::clean_comps(p.comps()).len() == 0 ==> p.cleaned().comps() == seq![Comp::CurDir],
{
    lemma_comps_readable(p.bytes);
    lemma_clean_is_canonical(p.comps());
    let left = clean::clean_comps(p.comps());
    if left.len() > 0 {
        lemma_collected_is_read_back(left);
    } else {
        let b = seq![DOT];
        assert(b.len() == 1);
        assert(syntax::body(Separators::Both, b, 1) =~= Seq::<PieceView>::empty());
        assert(p.cleaned().comps() =~= seq![Comp::CurDir]);
    }
}

/// Whether a component is a name that opens like a drive.
pub open spec fn opens_like_drive(c: Comp) -> bool {
    c matches Comp::Normal(t) && syntax::drive_at(t, 0)
}

/// Whether the component at `k` is the last name that opens like a drive.
pub open spec fn is_last_drive(cs: Seq<Comp>, k: int) -> bool {
    &&& 0 <= k < cs.len()
    &&& opens_like_drive(cs[k])
    &&& forall|j: int| k < j < cs.len() ==> !opens_like_drive(#[trigger] cs[j])
}

/// Whether a name that opens like a drive can be read as what it opens like and then be
/// written as it was: behind the drive stands neither a `.` alone nor another drive.
pub open spec fn drive_stays(t: Seq<u8>) -> bool {
    t.skip(2) != seq![DOT] && !syntax::drive_at(t, 2)
}

/// The last name that opens like a drive, if there is one.
proof fn lemma_last_drive(cs: Seq<Comp>) -> (k: int)
    requires
        !no_name_is_a_drive(cs),
    ensures
        is_last_drive(cs, k),
    decreases cs.len(),
{
    let n = cs.len() - 1;
    if cs.len() > 0 && opens_like_drive(cs[n]) {
        n
    } else {
        let front = cs.drop_last();
        assert(!no_name_is_a_drive(front)) by {
            let i = choose|i: int| 0 <= i < cs.len() && opens_like_drive(#[trigger] cs[i]);
            assert(front[i] == cs[i]);
            assert(opens_like_drive(front[i]));
        }
        let k = lemma_last_drive(front);
        assert(cs[k] == front[k]);
        assert forall|j: int| k < j < cs.len() implies !opens_like_drive(#[trigger] cs[j]) by {
            if j < n {
                assert(front[j] == cs[j]);
            }
        }
        k
    }
}

/// What a name that opens like a drive is read as.
spec fn drive_parts(t: Seq<u8>) -> Seq<Comp> {
    let rest = t.skip(2);
    let drive = seq![Comp::Prefix(t.take(2))];
    if rest.len() == 0 {
        drive
    } else if rest == seq![DOT, DOT] {
        drive.push(Comp::ParentDir)
    } else {
        drive.push(Comp::Normal(rest))
    }
}

/// A name that opens like a drive is made of what it is read as.
proof fn lemma_drive_parts(t: Seq<u8>)
    requires
        plain_name(t),
        syntax::drive_at(t, 0),
        drive_stays(t),
    ensures
        model::collect(Platform::Windows, drive_parts(t)) == t,
        forall|i: int| 0 <= i < drive_parts(t).len() ==> #[trigger] fits_at(drive_parts(t), i),
        is_drive(t.take(2)),
        no_name_is_a_drive(drive_parts(t)),
        syntax::windows_prefix(t) is Some,
{
    reveal(model::push);
    let windows = Platform::Windows;
    let cs = drive_parts(t);
    let d = t.take(2);
    let rest = t.skip(2);
    let drive = seq![Comp::Prefix(d)];
    let nothing = Seq::<u8>::empty();
    assert(d[0] == t[0] && d[1] == t[1]);
    assert(syntax::windows_prefix(d) is Some);
    assert(drive.drop_last() =~= Seq::<Comp>::empty());
    assert(drive.last() == Comp::Prefix(d));
    assert(model::collect(windows, drive.drop_last()) =~= nothing);
    assert(model::collect(windows, drive) == d);
    assert(t =~= d + rest);
    assert(seq![DOT].len() == 1);
    assert(seq![DOT, DOT].len() == 2);
    if rest.len() == 0 {
        assert(t =~= d);
        assert(cs[0] == Comp::Prefix(d));
    } else {
        let last = cs.last();
        assert(cs.drop_last() =~= drive);
        assert forall|k: int| 0 <= k < rest.len() implies !Separators::Both.has(
            #[trigger] rest[k],
        ) by {
            assert(rest[k] == t[k + 2]);
        }
        if syntax::drive_at(rest, 0) {
            assert(rest[0] == t[2] && rest[1] == t[3]);
        }
        assert(!is_verbatim(d));
        lemma_push_name(d, last);
        assert(model::comp_text(windows, last) =~= rest);
        assert(!model::needs_separator(d));
        assert(cs[0] == Comp::Prefix(d));
        assert(cs[1] == last);
    }
}

/// Paths that are made of two lists of components are equal if the first parts make equal
/// paths and the rest is the same.
proof fn lemma_collect_from_same(a: Seq<Comp>, b: Seq<Comp>, rest: Seq<Comp>)
    requires
        model::collect(Platform::Windows, a) == model::collect(Platform::Windows, b),
    ensures
        model::collect(Platform::Windows, a + rest) == model::collect(Platform::Windows, b + rest),
    decreases rest.len(),
{
    if rest.len() == 0 {
        assert(a + rest =~= a);
        assert(b + rest =~= b);
    } else {
        lemma_collect_from_same(a, b, rest.drop_last());
        assert((a + rest).drop_last() =~= a + rest.drop_last());
        assert((b + rest).drop_last() =~= b + rest.drop_last());
        assert((a + rest).last() == rest.last());
        assert((b + rest).last() == rest.last());
    }
}

/// Behind a name only names are left.
proof fn lemma_names_follow_names(cs: Seq<Comp>, k: int, j: int)
    requires
        clean::is_clean(cs),
        forall|i: int| 0 <= i < cs.len() ==> #[trigger] fits_at(cs, i),
        0 <= k < j < cs.len(),
        cs[k] is Normal,
    ensures
        cs[j] is Normal,
    decreases j - k,
{
    if j > k + 1 {
        lemma_names_follow_names(cs, k, j - 1);
    }
    assert(fits_at(cs, j));
    assert(cs[j] !is CurDir);
    if j == 1 {
        assert(cs[0] is Normal);
    }
}

/// Whether only names follow behind `k` that are plain and open unlike a drive.
pub open spec fn plain_names_follow(cs: Seq<Comp>, k: int) -> bool {
    forall|j: int|
        k < j < cs.len() ==> (#[trigger] cs[j] matches Comp::Normal(n) && plain_name(n)
            && !syntax::drive_at(n, 0))
}

/// What is left of a path whose last name like a drive is at `k` makes the same path as the
/// components that follow from it, and these are clean and canonical.
proof fn lemma_from_last_drive(left: Seq<Comp>, k: int)
    requires
        0 <= k < left.len(),
        left[k] matches Comp::Normal(t) && plain_name(t) && syntax::drive_at(t, 0)
            && drive_stays(t),
        plain_names_follow(left, k),
    ensures
        ({
            let cs = drive_parts(left[k]->Normal_0) + left.skip(k + 1);
            &&& model::collect(Platform::Windows, cs) == model::collect(Platform::Windows, left)
            &&& canonical(cs)
            &&& clean::is_clean(cs)
            &&& cs.len() > 0
        }),
{
    reveal(model::push);
    let windows = Platform::Windows;
    let t = left[k]->Normal_0;
    let parts = drive_parts(t);
    let rest = left.skip(k + 1);
    let cs = parts + rest;
    lemma_drive_parts(t);
    let start = left.take(k + 1);
    assert(start.last() == left[k]);
    assert(model::collect(windows, start) == t);
    assert(start + rest =~= left);
    lemma_collect_from_same(parts, start, rest);
    assert forall|i: int| parts.len() <= i < cs.len() implies #[trigger] cs[i] == left[i
        - parts.len() + k + 1] && cs[i] is Normal by {
        assert(left[i - parts.len() + k + 1] is Normal);
    }
    assert forall|i: int| 0 <= i < cs.len() implies #[trigger] fits_at(cs, i) by {
        if i < parts.len() {
            assert(fits_at(parts, i));
            assert(cs[i] == parts[i]);
        } else {
            assert(cs[i] == left[i - parts.len() + k + 1]);
        }
    }
    assert(cs[0] == parts[0]);
    assert forall|i: int| 0 <= i < cs.len() implies {
        &&& #[trigger] cs[i] !is CurDir
        &&& cs[i] is ParentDir && i > 0 ==> cs[i - 1] is ParentDir || cs[i - 1] is Prefix
    } by {
        if i < parts.len() {
            assert(cs[i] == parts[i]);
        } else {
            assert(cs[i] is Normal);
        }
    }
    assert forall|i: int| 0 <= i < cs.len() implies (#[trigger] cs[i] matches Comp::Normal(n)
        ==> !syntax::drive_at(n, 0)) by {
        if i < parts.len() {
            assert(cs[i] == parts[i]);
        } else {
            assert(cs[i] == left[i - parts.len() + k + 1]);
        }
    }
}

/// A path that is made of components whose last name like a drive is at `k` is clean.
pub proof fn lemma_drive_name_is_clean(left: Seq<Comp>, k: int)
    requires
        0 <= k < left.len(),
        left[k] matches Comp::Normal(t) && plain_name(t) && syntax::drive_at(t, 0)
            && drive_stays(t),
        plain_names_follow(left, k),
    ensures
        ({
            let made = PathView {
                platform: Platform::Windows,
                bytes: model::collect(Platform::Windows, left),
            };
            made.cleaned() == made
        }),
{
    lemma_from_last_drive(left, k);
    let cs = drive_parts(left[k]->Normal_0) + left.skip(k + 1);
    lemma_collected_is_read_back(cs);
    clean::law_clean_components_stay(cs);
}

/// A path that is made of a prefix which implies a root, and of names behind it, is clean.
pub proof fn lemma_names_behind_share_are_clean(a: Seq<Comp>, rest: Seq<Comp>, t: Seq<u8>)
    requires
        model::collect(Platform::Windows, a) == t,
        is_whole_prefix(t),
        !is_drive(t),
        !Separators::Both.has(t.last()),
        rest.len() > 0,
        plain_names_follow(rest, -1),
    ensures
        ({
            let made = PathView {
                platform: Platform::Windows,
                bytes: model::collect(Platform::Windows, a + rest),
            };
            made.cleaned() == made
        }),
{
    let windows = Platform::Windows;
    let opening = seq![Comp::Prefix(t), Comp::RootDir];
    let cs = opening + rest;
    let x = rest[0];
    assert(x matches Comp::Normal(n) && plain_name(n) && !syntax::drive_at(n, 0));
    assert(opening[0] == Comp::Prefix(t) && opening[1] == Comp::RootDir);
    assert forall|i: int| 0 <= i < opening.len() implies #[trigger] fits_at(opening, i) by {}
    assert(canonical(opening));
    lemma_opening_is_read_back(opening);
    let b = model::collect(windows, opening);
    lemma_not_verbatim(b, opening);
    lemma_share_and_root(t);
    assert(b == t + seq![BACKSLASH]);
    let one = seq![x];
    let name = model::comp_text(windows, x);
    assert(!is_verbatim(t));
    lemma_push_name(t, x);
    lemma_push_name(b, x);
    assert(b.last() == BACKSLASH);
    assert(model::needs_separator(t));
    assert(!model::needs_separator(b));
    assert(t + (seq![BACKSLASH] + name) =~= b + name);
    assert((a + one).drop_last() =~= a);
    assert((a + one).last() == x);
    assert((opening + one).drop_last() =~= opening);
    assert((opening + one).last() == x);
    let more = rest.skip(1);
    lemma_collect_from_same(a + one, opening + one, more);
    assert(a + one + more =~= a + rest);
    assert(opening + one + more =~= cs);
    assert forall|i: int| 2 <= i < cs.len() implies #[trigger] cs[i] == rest[i - 2] && (
    cs[i] matches Comp::Normal(n) && plain_name(n) && !syntax::drive_at(n, 0)) by {
        assert(rest[i - 2] is Normal);
    }
    assert(cs[0] == Comp::Prefix(t) && cs[1] == Comp::RootDir);
    assert forall|i: int| 0 <= i < cs.len() implies #[trigger] fits_at(cs, i) by {
        if i >= 2 {
            assert(cs[i] == rest[i - 2]);
        }
    }
    assert forall|i: int| 0 <= i < cs.len() implies #[trigger] cs[i] !is CurDir by {
        if i >= 2 {
            assert(cs[i] == rest[i - 2]);
        }
    }
    assert forall|i: int| 0 <= i < cs.len() implies (#[trigger] cs[i] matches Comp::Normal(n)
        ==> !syntax::drive_at(n, 0)) by {
        if i >= 2 {
            assert(cs[i] == rest[i - 2]);
        }
    }
    assert(clean::is_clean(cs)) by {
        assert forall|i: int| 0 <= i < cs.len() implies {
            &&& #[trigger] cs[i] !is CurDir
            &&& cs[i] is ParentDir && i > 0 ==> cs[i - 1] is ParentDir || cs[i - 1] is Prefix
        } by {
            if i >= 2 {
                assert(cs[i] == rest[i - 2]);
            }
        }
    }
    lemma_collected_is_read_back(cs);
    clean::law_clean_components_stay(cs);
}

/// The root behind a prefix is written as a backslash.
proof fn lemma_share_and_root(t: Seq<u8>)
    requires
        is_whole_prefix(t),
    ensures
        model::collect(Platform::Windows, seq![Comp::Prefix(t), Comp::RootDir]) == t
            + seq![BACKSLASH],
{
    reveal(model::push);
    let windows = Platform::Windows;
    let cs = seq![Comp::Prefix(t), Comp::RootDir];
    let front = cs.drop_last();
    let root = seq![BACKSLASH];
    assert(front =~= seq![Comp::Prefix(t)]);
    assert(front.drop_last() =~= Seq::<Comp>::empty());
    assert(model::collect(windows, front.drop_last()) =~= Seq::<u8>::empty());
    assert(front.last() == Comp::Prefix(t));
    assert(model::collect(windows, front) == t);
    assert(cs.last() == Comp::RootDir);
    assert(syntax::windows_prefix(root) is None);
    assert(t.take(t.len() as int) =~= t);
}

/// Cleaning a cleaned Windows path that does not start with `\\?\` changes nothing, not even
/// a byte. This holds unless the last name that is left and opens like a drive has a `.`
/// alone or another drive behind it: `a\c:.` is cleaned to `c:.`, and that to `c:`.
pub proof fn law_clean_is_idempotent(p: PathView)
    requires
        p.platform is Windows,
        !is_verbatim(p.bytes),
        forall|k: int| #[trigger]
            is_last_drive(clean::clean_comps(p.comps()), k) ==> drive_stays(
                clean::clean_comps(p.comps())[k]->Normal_0,
            ),
    ensures
        p.cleaned().cleaned() == p.cleaned(),
{
    let left = clean::clean_comps(p.comps());
    clean::law_result_is_clean(p.comps());
    if !no_name_is_a_drive(left) {
        let k = lemma_last_drive(left);
        lemma_comps_readable(p.bytes);
        lemma_clean_fits(p.comps());
        assert(fits_at(left, k));
        assert forall|j: int| k < j < left.len() implies (#[trigger] left[j] matches Comp::Normal(n)
            && plain_name(n) && !syntax::drive_at(n, 0)) by {
            lemma_names_follow_names(left, k, j);
            assert(fits_at(left, j));
            assert(!opens_like_drive(left[j]));
        }
        lemma_drive_name_is_clean(left, k);
    } else {
        law_cleaned_components(p);
        if left.len() > 0 {
            clean::law_clean_components_stay(left);
        } else {
            let dot = seq![Comp::CurDir];
            assert(dot.drop_last() =~= Seq::<Comp>::empty());
            assert(clean::clean_comps(dot.drop_last()) =~= Seq::<Comp>::empty());
            assert(dot.last() == Comp::CurDir);
            assert(clean::clean_comps(dot) =~= Seq::<Comp>::empty());
        }
    }
}

/// Behind a prefix other than that of a drive stands a separator, if anything.
pub proof fn lemma_separator_follows(b: Seq<u8>)
    requires
        syntax::windows_prefix(b) matches Some(p) && !p.kind.verbatim() && !(p.kind is Disk)
            && p.len < b.len(),
    ensures
        Separators::Both.has(b[syntax::windows_prefix(b)->0.len]),
{
    let seps = Separators::Both;
    let p = syntax::windows_prefix(b)->0;
    if p.kind is Device {
        syntax::lemma_segment_end(seps, b, 4);
    } else {
        syntax::lemma_segment_end(seps, b, 2);
        let end = syntax::segment_end(seps, b, 2);
        let next = if end < b.len() { end + 1 } else { end };
        syntax::lemma_segment_end(seps, b, next);
    }
}

/// A path above another has the same prefix.
proof fn lemma_parent_keeps_prefix(p: PathView)
    requires
        p.platform is Windows,
        syntax::windows_prefix(p.bytes) is Some,
        !is_verbatim(p.bytes),
    ensures
        p.comps().len() > 0,
        p.comps()[0] is Prefix,
        p.parent() matches Some(next) ==> {
            &&& syntax::windows_prefix(next.bytes) is Some
            &&& !is_verbatim(next.bytes)
            &&& next.comps().len() > 0
            &&& next.comps()[0] == p.comps()[0]
        },
{
    let windows = Platform::Windows;
    let b = p.bytes;
    let found = syntax::windows_prefix(b)->0;
    let t = b.subrange(0, found.len);
    let pieces = p.pieces();
    let (first, start) = syntax::head(windows, b);
    assert(pieces[0] == first[0]);
    assert(p.comps()[0] == model::comp_of(b, pieces[0]));
    assert(p.comps()[0] == Comp::Prefix(t));
    if let Some(next) = p.parent() {
        let n = pieces.len() as int;
        syntax::lemma_prefix_fits(windows, b);
        model::lemma_pieces_fit(windows, b);
        model::lemma_pieces_in_order(windows, b);
        assert(n >= 2);
        let e = pieces[n - 2].end;
        assert(e >= found.len) by {
            if n > 2 {
                assert(pieces[0].end <= pieces[n - 2].start);
            }
        }
        assert(next.bytes =~= b.take(e));
        lemma_prefix_is_whole(b);
        let tail = b.take(e).skip(found.len);
        assert(next.bytes =~= t + tail);
        if tail.len() > 0 {
            assert(tail[0] == b[found.len]);
            if !(found.kind is Disk) {
                lemma_separator_follows(b);
            }
        }
        lemma_prefix_is_stable(t, tail);
        let (above, from) = syntax::head(windows, next.bytes);
        assert(next.pieces()[0] == above[0]);
        assert(next.comps()[0] == model::comp_of(next.bytes, next.pieces()[0]));
        assert(next.bytes.subrange(0, found.len) =~= t);
    }
}

/// There is no way from an ancestor with a prefix to a path without it.
proof fn lemma_no_way(path: PathView, base: PathView, ancestor: PathView)
    requires
        ancestor.platform is Windows,
        syntax::windows_prefix(ancestor.bytes) is Some,
        !is_verbatim(ancestor.bytes),
        path.comps().len() > 0 ==> !model::same_comp(path.comps()[0], ancestor.comps()[0]),
    ensures
        relative::way(path, base, ancestor) is None,
    decreases ancestor.bytes.len(),
{
    lemma_parent_keeps_prefix(ancestor);
    let n = ancestor.comps().len() as int;
    if path.starts_with(ancestor) {
        assert(model::same_comp(path.comps().take(n)[0], ancestor.comps()[0]));
    }
    if let Some(next) = ancestor.parent() {
        if next.bytes.len() < ancestor.bytes.len() {
            lemma_no_way(path, base, next);
        }
    }
}

/// There is no relative path from one drive, or one share, to a path that is not on it.
pub proof fn law_no_relative_path_between_drives(path: PathView, base: PathView)
    requires
        base.platform is Windows,
        syntax::windows_prefix(base.bytes) is Some,
        !is_verbatim(base.bytes),
        path.comps().len() > 0 ==> !model::same_comp(path.comps()[0], base.comps()[0]),
    ensures
        relative::relative(path, base) is None,
{
    lemma_no_way(path, base, base);
}

} // verus!
