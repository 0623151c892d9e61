//! What holds of cleaned Unix paths as texts.

use vstd::prelude::*;

use crate::path::clean;
use crate::path::model;
use crate::path::model::{Comp, PathView};
use crate::path::syntax;
use crate::path::syntax::{DOT, PieceView, SLASH, Separators};
use crate::platform::Platform;

verus! {

/// A name between two slashes: not empty, without a slash, neither `.` nor `..`.
pub open spec fn plain_name(t: Seq<u8>) -> bool {
    &&& t.len() > 0
    &&& forall|k: int| 0 <= k < t.len() ==> #[trigger] t[k] != SLASH
    &&& t != seq![DOT]
    &&& t != seq![DOT, DOT]
}

/// What components a Unix path can have: the root and `.` come first, and each
/// name is one.
pub open spec fn readable(cs: Seq<Comp>) -> bool {
    forall|i: int|
        0 <= i < cs.len() ==> match #[trigger] cs[i] {
            Comp::Prefix(_) => false,
            Comp::RootDir => i == 0,
            Comp::CurDir => i == 0,
            Comp::ParentDir => true,
            Comp::Normal(t) => plain_name(t),
        }
}

/// Readable components without a `.`.
pub open spec fn canonical(cs: Seq<Comp>) -> bool {
    readable(cs) && forall|i: int| 0 <= i < cs.len() ==> #[trigger] cs[i] !is CurDir
}

/// The names in the body of a Unix path are plain.
proof fn lemma_body_names(b: Seq<u8>, i: int)
    requires
        0 <= i,
    ensures
        forall|k: int|
            0 <= k < syntax::body(Separators::Slash, b, i).len() ==> match #[trigger] model::comp_of(
                b,
                syntax::body(Separators::Slash, b, i)[k],
            ) {
                Comp::ParentDir => true,
                Comp::Normal(t) => plain_name(t),
                _ => false,
            },
    decreases b.len() - i,
{
    let seps = Separators::Slash;
    if i < b.len() {
        if seps.has(b[i]) {
            lemma_body_names(b, i + 1);
        } else {
            let end = syntax::segment_end(seps, b, i);
            syntax::lemma_segment_end(seps, b, i);
            assert(i < end);
            lemma_body_names(b, end);
            let rest = syntax::body(seps, b, end);
            let segment = b.subrange(i, end);
            if let Some(kind) = syntax::segment_kind(seps, segment) {
                let whole = syntax::body(seps, b, i);
                assert(whole =~= seq![PieceView { kind, start: i, end }] + rest);
                assert forall|k: int| 0 <= k < segment.len() implies #[trigger] segment[k] != SLASH by {
                    assert(segment[k] == b[i + k]);
                }
                assert forall|k: int| 0 <= k < whole.len() implies match #[trigger] model::comp_of(
                    b,
                    whole[k],
                ) {
                    Comp::ParentDir => true,
                    Comp::Normal(t) => plain_name(t),
                    _ => false,
                } by {
                    if k > 0 {
                        assert(whole[k] == rest[k - 1]);
                    }
                }
            }
        }
    }
}

/// The components of a Unix path are readable.
pub proof fn lemma_comps_readable(b: Seq<u8>)
    ensures
        readable(model::comps(Platform::Unix, b)),
{
    let (first, start) = syntax::head(Platform::Unix, b);
    lemma_body_names(b, start);
    let rest = syntax::body(Separators::Slash, b, start);
    let cs = model::comps(Platform::Unix, b);
    let whole = syntax::pieces(Platform::Unix, b);
    assert(whole =~= first + rest);
    assert forall|i: int| 0 <= i < cs.len() implies match #[trigger] cs[i] {
        Comp::Prefix(_) => false,
        Comp::RootDir => i == 0,
        Comp::CurDir => i == 0,
        Comp::ParentDir => true,
        Comp::Normal(t) => plain_name(t),
    } by {
        assert(cs[i] == model::comp_of(b, whole[i]));
        if i >= first.len() {
            assert(whole[i] == rest[i - first.len()]);
        } else {
            assert(whole[i] == first[i]);
        }
    }
}

/// What cleaning leaves of readable components is canonical.
proof fn lemma_clean_is_canonical(cs: Seq<Comp>)
    requires
        readable(cs),
    ensures
        canonical(clean::clean_comps(cs)),
    decreases cs.len(),
{
    if cs.len() > 0 {
        let front = cs.drop_last();
        assert forall|i: int| 0 <= i < front.len() implies match #[trigger] front[i] {
            Comp::Prefix(_) => false,
            Comp::RootDir => i == 0,
            Comp::CurDir => i == 0,
            Comp::ParentDir => true,
            Comp::Normal(t) => plain_name(t),
        } by {
            assert(front[i] == cs[i]);
        }
        lemma_clean_is_canonical(front);
        let before = clean::clean_comps(front);
        let after = clean::clean_comps(cs);
        let next = cs[cs.len() - 1];
        assert forall|i: int| 0 <= i < after.len() implies match #[trigger] after[i] {
            Comp::Prefix(_) => false,
            Comp::RootDir => i == 0,
            Comp::CurDir => false,
            Comp::ParentDir => true,
            Comp::Normal(t) => plain_name(t),
        } by {
            if i < before.len() {
                assert(after[i] == before[i]);
            } else {
                assert(after[i] == next);
                if next is RootDir {
                    assert(cs.len() == 1);
                    assert(before.len() == 0);
                }
            }
        }
    }
}

/// A separator behind `b` ends the last segment of `b`: what follows is read on
/// its own.
pub proof fn lemma_body_of_concat(seps: Separators, b: Seq<u8>, tail: Seq<u8>, i: int)
    requires
        0 <= i <= b.len(),
        tail.len() > 0,
        seps.has(tail[0]),
    ensures
        syntax::body(seps, b + tail, i) == syntax::body(seps, b, i) + syntax::body(
            seps,
            b + tail,
            b.len() as int,
        ),
    decreases b.len() - i,
{
    let whole = b + tail;
    let last = syntax::body(seps, whole, b.len() as int);
    if i == b.len() {
        assert(syntax::body(seps, b, i) + last =~= last);
    } else {
        assert(whole[i] == b[i]);
        if seps.has(b[i]) {
            lemma_body_of_concat(seps, b, tail, i + 1);
        } else {
            let end = syntax::segment_end(seps, b, i);
            syntax::lemma_segment_end(seps, b, i);
            assert(i < end);
            assert forall|k: int| i <= k < end implies !seps.has(#[trigger] whole[k]) by {
                assert(whole[k] == b[k]);
            }
            if end < b.len() {
                assert(whole[end] == b[end]);
            } else {
                assert(whole[end] == tail[0]);
            }
            syntax::lemma_segment_ends_at(seps, whole, i, end);
            lemma_body_of_concat(seps, b, tail, end);
            assert(whole.subrange(i, end) =~= b.subrange(i, end));
            if let Some(kind) = syntax::segment_kind(seps, b.subrange(i, end)) {
                let piece = seq![PieceView { kind, start: i, end }];
                assert(piece + (syntax::body(seps, b, end) + last) =~= (piece + syntax::body(
                    seps,
                    b,
                    end,
                )) + last);
            }
        }
    }
}

/// What is read of a path that has one more piece than another, at its end.
pub proof fn lemma_one_more_piece(
    platform: Platform,
    b: Seq<u8>,
    tail: Seq<u8>,
    added: Seq<PieceView>,
    c: Comp,
)
    requires
        syntax::pieces(platform, b + tail) == syntax::pieces(platform, b) + added,
        added.len() == 1,
        model::comp_of(b + tail, added[0]) == c,
    ensures
        model::comps(platform, b + tail) == model::comps(platform, b).push(c),
{
    let whole = b + tail;
    let before = syntax::pieces(platform, b);
    let after = syntax::pieces(platform, whole);
    let cs = model::comps(platform, b).push(c);
    model::lemma_pieces_fit(platform, b);
    assert forall|k: int| 0 <= k < cs.len() implies #[trigger] model::comps(platform, whole)[k]
        == cs[k] by {
        if k < before.len() {
            assert(after[k] == before[k]);
            assert(whole.subrange(before[k].start, before[k].end) =~= b.subrange(
                before[k].start,
                before[k].end,
            ));
        } else {
            assert(after[k] == added[0]);
        }
    }
    assert(model::comps(platform, whole) =~= cs);
}

/// A name at the end of a path is read as one component.
proof fn lemma_last_segment(b: Seq<u8>, i: int, c: Comp)
    requires
        0 <= i < b.len(),
        c matches Comp::Normal(t) ==> plain_name(t),
        c is Normal || c is ParentDir,
        b.skip(i) == model::comp_text(Platform::Unix, c),
    ensures
        syntax::body(Separators::Slash, b, i).len() == 1,
        model::comp_of(b, syntax::body(Separators::Slash, b, i)[0]) == c,
{
    let seps = Separators::Slash;
    let t = model::comp_text(Platform::Unix, c);
    if c is ParentDir {
        assert(t =~= seq![DOT, DOT]);
    }
    assert forall|k: int| i <= k < b.len() implies !seps.has(#[trigger] b[k]) by {
        assert(b[k] == b.skip(i)[k - i]);
        assert(t[k - i] != SLASH);
    }
    syntax::lemma_segment_ends_at(seps, b, i, b.len() as int);
    assert(b.subrange(i, b.len() as int) =~= t);
    assert(seq![DOT].len() == 1);
    assert(seq![DOT, DOT].len() == 2);
    assert(syntax::body(seps, b, b.len() as int) =~= Seq::<PieceView>::empty());
}

/// The components of a path that was made of canonical components are these.
pub proof fn lemma_collected_is_read_back(cs: Seq<Comp>)
    requires
        canonical(cs),
        cs.len() > 0,
    ensures
        ({
            let b = model::collect(Platform::Unix, cs);
            &&& b.len() > 0
            &&& model::comps(Platform::Unix, b) == cs
            &&& b[0] == SLASH <==> cs[0] is RootDir
            &&& b.last() == SLASH <==> (cs.len() == 1 && cs[0] is RootDir)
            &&& cs.len() == 1 && cs[0] is RootDir ==> b == seq![SLASH]
            &&& !syntax::opens_with_dot(Separators::Slash, b)
        }),
    decreases cs.len(),
{
    let unix = Platform::Unix;
    let seps = Separators::Slash;
    let front = cs.drop_last();
    let last = cs[cs.len() - 1];
    let t = model::comp_text(unix, last);
    let b = model::collect(unix, cs);
    model::lemma_push_on_unix(model::collect(unix, front), t);
    assert(cs.last() == last);
    assert(seq![DOT].len() == 1);
    assert(seq![DOT, DOT].len() == 2);
    if last is Normal {
        assert(plain_name(t));
        assert(t[0] != SLASH);
    }
    if cs.len() == 1 {
        assert(model::collect(unix, front) =~= Seq::<u8>::empty());
        assert(b =~= t);
        if last is RootDir {
            assert(b =~= seq![SLASH]);
            assert(syntax::body(seps, b, 1) =~= Seq::<PieceView>::empty());
            assert(model::comps(unix, b) =~= cs);
        } else {
            assert(b.skip(0) =~= t);
            lemma_last_segment(b, 0, last);
            if t[0] == DOT && last is Normal {
                if t.len() == 1 {
                    assert(t =~= seq![DOT]);
                }
                assert(t[1] != SLASH);
            }
            assert(syntax::pieces(unix, b) =~= syntax::body(seps, b, 0));
            assert(model::comps(unix, b) =~= cs);
            assert(b.last() == t[t.len() - 1]);
        }
    } else {
        assert forall|i: int| 0 <= i < front.len() implies match #[trigger] front[i] {
            Comp::Prefix(_) => false,
            Comp::RootDir => i == 0,
            Comp::CurDir => false,
            Comp::ParentDir => true,
            Comp::Normal(t) => plain_name(t),
        } by {
            assert(front[i] == cs[i]);
        }
        lemma_collected_is_read_back(front);
        let a = model::collect(unix, front);
        assert(last is Normal || last is ParentDir);
        assert(!syntax::has_root(unix, t));
        let (first, start) = syntax::head(unix, a);
        if a.last() != SLASH {
            let tail = seq![SLASH] + t;
            assert(b =~= a + tail);
            lemma_body_of_concat(seps, a, tail, start);
            assert(b[a.len() as int] == SLASH);
            assert(b.skip(a.len() as int + 1) =~= t);
            lemma_last_segment(b, a.len() as int + 1, last);
        } else {
            assert(b =~= a + t);
            assert(b.skip(1) =~= t);
            lemma_last_segment(b, 1, last);
            assert(syntax::body(seps, a, 1) =~= Seq::<PieceView>::empty());
        }
        assert(b[0] == a[0]);
        if a.len() > 1 {
            assert(b[1] == a[1]);
        }
        assert(syntax::head(unix, b) == (first, start));
        let added = if a.last() != SLASH {
            syntax::body(seps, b, a.len() as int + 1)
        } else {
            syntax::body(seps, b, 1)
        };
        assert(syntax::pieces(unix, b) =~= syntax::pieces(unix, a) + added);
        let tail = b.skip(a.len() as int);
        assert(b =~= a + tail);
        lemma_one_more_piece(unix, a, tail, added, last);
        assert(front.push(last) =~= cs);
        assert(b.last() == t[t.len() - 1]);
        assert(t[t.len() - 1] != SLASH);
    }
}

/// The components of a cleaned Unix path are the cleaned components of the path,
/// or a single `.` where none are left.
pub proof fn law_cleaned_components(p: PathView)
    requires
        p.platform is Unix,
    ensures
        clean::clean_comps(p.comps()).len() > 0 ==> p.cleaned().comps() == clean::clean_comps(
            p.comps(),
        ),
        clean::clean_comps(p.comps()).len() == 0 ==> p.cleaned().comps() == seq![Comp::CurDir],
{
    lemma_comps_readable(p.bytes);
    lemma_clean_is_canonical(p.comps());
    let left = clean::clean_comps(p.comps());
    if left.len() > 0 {
        lemma_collected_is_read_back(left);
    } else {
        let b = seq![DOT];
        assert(b.len() == 1);
        assert(syntax::body(Separators::Slash, b, 1) =~= Seq::<PieceView>::empty());
        assert(p.cleaned().comps() =~= seq![Comp::CurDir]);
    }
}

/// Cleaning a cleaned Unix path changes nothing, not even a byte.
pub proof fn law_clean_is_idempotent(p: PathView)
    requires
        p.platform is Unix,
    ensures
        p.cleaned().cleaned() == p.cleaned(),
{
    law_cleaned_components(p);
    let left = clean::clean_comps(p.comps());
    clean::law_result_is_clean(p.comps());
    if left.len() > 0 {
        clean::law_clean_components_stay(left);
    } else {
        let dot = seq![Comp::CurDir];
        assert(dot.drop_last() =~= Seq::<Comp>::empty());
        assert(clean::clean_comps(dot.drop_last()) =~= Seq::<Comp>::empty());
        assert(dot.last() == Comp::CurDir);
        assert(clean::clean_comps(dot) =~= Seq::<Comp>::empty());
    }
}

/// A cleaned Unix path starts at the root if and only if the path did.
pub proof fn law_clean_keeps_the_root(p: PathView)
    requires
        p.platform is Unix,
    ensures
        syntax::has_root(p.platform, p.cleaned().bytes) <==> syntax::has_root(p.platform, p.bytes),
{
    let cs = p.comps();
    let left = clean::clean_comps(cs);
    lemma_comps_readable(p.bytes);
    lemma_clean_is_canonical(cs);
    let (first, start) = syntax::head(p.platform, p.bytes);
    if syntax::has_root(p.platform, p.bytes) {
        assert(p.pieces()[0] == first[0]);
        assert(cs[0] == Comp::RootDir);
        assert(clean::is_clean(cs.take(1)));
        clean::law_start_stays(cs, 1);
        assert(left[0] == left.take(1)[0]);
        lemma_collected_is_read_back(left);
    } else {
        lemma_root_comes_from_path(p);
        if left.len() > 0 {
            lemma_collected_is_read_back(left);
        }
    }
}

/// Without a root in the path, cleaning leaves none.
proof fn lemma_root_comes_from_path(p: PathView)
    requires
        p.platform is Unix,
        !syntax::has_root(p.platform, p.bytes),
    ensures
        forall|i: int|
            0 <= i < clean::clean_comps(p.comps()).len() ==> !(#[trigger] clean::clean_comps(
                p.comps(),
            )[i] is RootDir),
{
    let cs = p.comps();
    let (first, start) = syntax::head(p.platform, p.bytes);
    lemma_body_names(p.bytes, start);
    let rest = syntax::body(Separators::Slash, p.bytes, start);
    assert(p.pieces() =~= first + rest);
    assert forall|i: int| 0 <= i < cs.len() implies !(#[trigger] cs[i] is RootDir) by {
        if i < first.len() {
            assert(p.pieces()[i] == first[i]);
        } else {
            assert(p.pieces()[i] == rest[i - first.len()]);
            assert(cs[i] == model::comp_of(p.bytes, rest[i - first.len()]));
        }
    }
    lemma_no_root_appears(cs);
}

/// Cleaning puts no root among components without one.
proof fn lemma_no_root_appears(cs: Seq<Comp>)
    requires
        forall|i: int| 0 <= i < cs.len() ==> !(#[trigger] cs[i] is RootDir),
    ensures
        forall|i: int|
            0 <= i < clean::clean_comps(cs).len() ==> !(#[trigger] clean::clean_comps(cs)[i] is RootDir),
    decreases cs.len(),
{
    if cs.len() > 0 {
        let front = cs.drop_last();
        assert forall|i: int| 0 <= i < front.len() implies !(#[trigger] front[i] is RootDir) by {
            assert(front[i] == cs[i]);
        }
        lemma_no_root_appears(front);
        assert(!(cs[cs.len() - 1] is RootDir));
    }
}

/// A cleaned Unix path has no two slashes in a row, and no slash at its end
/// unless it is the root alone.
pub proof fn law_cleaned_has_single_slashes(p: PathView)
    requires
        p.platform is Unix,
    ensures
        ({
            let b = p.cleaned().bytes;
            &&& forall|i: int|
                0 <= i < b.len() - 1 ==> !(#[trigger] b[i] == SLASH && b[i + 1] == SLASH)
            &&& b.len() > 1 ==> b.last() != SLASH
            &&& b.len() > 0
        }),
{
    lemma_comps_readable(p.bytes);
    lemma_clean_is_canonical(p.comps());
    let left = clean::clean_comps(p.comps());
    if left.len() > 0 {
        lemma_collected_is_read_back(left);
        lemma_collected_has_single_slashes(left);
        let b = p.cleaned().bytes;
        if b.last() == SLASH {
            assert(b == seq![SLASH]);
        }
    } else {
        assert(p.cleaned().bytes =~= seq![DOT]);
    }
}

/// The slashes of a path that was made of canonical components.
proof fn lemma_collected_has_single_slashes(cs: Seq<Comp>)
    requires
        canonical(cs),
        cs.len() > 0,
    ensures
        ({
            let b = model::collect(Platform::Unix, cs);
            forall|i: int| 0 <= i < b.len() - 1 ==> !(#[trigger] b[i] == SLASH && b[i + 1] == SLASH)
        }),
    decreases cs.len(),
{
    let unix = Platform::Unix;
    let front = cs.drop_last();
    let last = cs[cs.len() - 1];
    let t = model::comp_text(unix, last);
    let b = model::collect(unix, cs);
    model::lemma_push_on_unix(model::collect(unix, front), t);
    assert(cs.last() == last);
    lemma_collected_is_read_back(cs);
    if last is Normal {
        assert(plain_name(t));
    }
    if cs.len() == 1 {
        assert(model::collect(unix, front) =~= Seq::<u8>::empty());
        assert(b =~= t);
        if !(last is RootDir) {
            assert forall|i: int| 0 <= i < b.len() - 1 implies !(#[trigger] b[i] == SLASH && b[i + 1]
                == SLASH) by {
                assert(t[i] != SLASH);
            }
        }
    } else {
        assert forall|i: int| 0 <= i < front.len() implies match #[trigger] front[i] {
            Comp::Prefix(_) => false,
            Comp::RootDir => i == 0,
            Comp::CurDir => false,
            Comp::ParentDir => true,
            Comp::Normal(t) => plain_name(t),
        } by {
            assert(front[i] == cs[i]);
        }
        lemma_collected_has_single_slashes(front);
        lemma_collected_is_read_back(front);
        let a = model::collect(unix, front);
        assert(last is Normal || last is ParentDir);
        assert(t[0] != SLASH);
        assert(!syntax::has_root(unix, t));
        let joined = if a.last() != SLASH { a.push(SLASH) } else { a };
        assert(b =~= joined + t);
        assert forall|i: int| 0 <= i < b.len() - 1 implies !(#[trigger] b[i] == SLASH && b[i + 1]
            == SLASH) by {
            if i >= joined.len() {
                assert(b[i] == t[i - joined.len()]);
            } else if i == joined.len() - 1 {
                assert(b[i + 1] == t[0]);
            } else {
                assert(b[i] == joined[i] && b[i + 1] == joined[i + 1]);
                if i < a.len() - 1 {
                    assert(joined[i] == a[i] && joined[i + 1] == a[i + 1]);
                } else {
                    assert(joined[i] == a.last());
                }
            }
        }
    }
}

} // verus!
