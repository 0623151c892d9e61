//! What holds of relative Windows paths.

use vstd::prelude::*;

use crate::path::clean;
use crate::path::laws;
use crate::path::model;
use crate::path::model::{Comp, PathView};
use crate::path::parts;
use crate::path::relative;
use crate::path::syntax;
use crate::path::syntax::{BACKSLASH, DOT, PieceView, Separators};
use crate::path::ways;
use crate::path::windows;
use crate::platform::Platform;

verus! {

/// The components of a Windows path that is added to another: a leading `.` is none.
pub open spec fn segments(b: Seq<u8>) -> Seq<Comp> {
    parts::parts(Separators::Both, b)
}

/// Whether a Windows path does not start with `\\?\`.
pub open spec fn is_unmarked(p: PathView) -> bool {
    p.platform is Windows && !windows::is_verbatim(p.bytes)
}

/// Whether the prefix of a path stays when another is added: `\\server` has none, and becomes
/// one with a share behind it.
pub open spec fn keeps_prefix(base: PathView, added: Seq<u8>) -> bool {
    syntax::windows_prefix(base.join(added).bytes) == syntax::windows_prefix(base.bytes)
}

/// What begins a path that was cut off has the prefix of the path.
proof fn lemma_prefix_of_cut(b: Seq<u8>, e: int)
    requires
        !windows::is_verbatim(b),
        0 <= e <= b.len(),
        syntax::windows_prefix(b) matches Some(p) ==> p.len <= e,
    ensures
        syntax::windows_prefix(b.take(e)) == syntax::windows_prefix(b),
{
    let seps = Separators::Both;
    let cut = b.take(e);
    if let Some(p) = syntax::windows_prefix(b) {
        syntax::lemma_prefix_fits(Platform::Windows, b);
        windows::lemma_prefix_is_whole(b);
        let t = b.subrange(0, p.len);
        let tail = b.subrange(p.len, e);
        assert(cut =~= t + tail);
        if tail.len() > 0 {
            assert(tail[0] == b[p.len]);
            if !(p.kind is Disk) {
                windows::lemma_separator_follows(b);
            }
        }
        windows::lemma_prefix_is_stable(t, tail);
    } else if syntax::opens_with_two(cut) {
        assert(cut[0] == b[0] && cut[1] == b[1]);
        syntax::lemma_segment_end(seps, b, 2);
        syntax::lemma_segment_end(seps, cut, 2);
        let end = syntax::segment_end(seps, b, 2);
        let next = if end < b.len() { end + 1 } else { end };
        syntax::lemma_segment_end(seps, b, next);
        let cut_end = syntax::segment_end(seps, cut, 2);
        let cut_next = if cut_end < cut.len() { cut_end + 1 } else { cut_end };
        syntax::lemma_segment_end(seps, cut, cut_next);
        if cut_end < cut.len() {
            assert(cut[cut_end] == b[cut_end]);
            assert forall|k: int| 2 <= k < cut_end implies !seps.has(#[trigger] b[k]) by {
                assert(cut[k] == b[k]);
            }
            syntax::lemma_segment_ends_at(seps, b, 2, cut_end);
            if cut_next < cut.len() {
                assert(cut[cut_next] == b[cut_next]);
            }
        }
    }
}

/// Cutting a Windows path behind its component `m - 1` keeps the components before.
proof fn lemma_cut_pieces(b: Seq<u8>, m: int)
    requires
        !windows::is_verbatim(b),
        0 < m <= syntax::pieces(Platform::Windows, b).len(),
        m == 1 ==> (syntax::windows_prefix(b) matches Some(p) ==> p.kind is Disk),
    ensures
        ({
            let all = syntax::pieces(Platform::Windows, b);
            let e = all[m - 1].end;
            &&& 0 <= e <= b.len()
            &&& syntax::pieces(Platform::Windows, b.take(e)) == all.take(m)
            &&& !windows::is_verbatim(b.take(e))
        }),
{
    let windows = Platform::Windows;
    let seps = Separators::Both;
    let all = syntax::pieces(windows, b);
    model::lemma_pieces_fit(windows, b);
    model::lemma_pieces_in_order(windows, b);
    syntax::lemma_prefix_fits(windows, b);
    let e = all[m - 1].end;
    assert(0 <= e <= b.len());
    let cut = b.take(e);
    let (first, start) = syntax::head(windows, b);
    let rest = syntax::body(seps, b, start);
    assert(all =~= first + rest);
    model::lemma_body_fits(seps, b, start);
    if let Some(p) = syntax::windows_prefix(b) {
        assert(all[0] == first[0]);
        if m > 1 {
            assert(all[0].end <= all[m - 1].start);
        }
        if !(p.kind is Disk) && p.len < b.len() {
            windows::lemma_separator_follows(b);
        }
    }
    lemma_prefix_of_cut(b, e);
    if m <= first.len() {
        assert(all[m - 1] == first[m - 1]);
        if e > 0 {
            assert(cut[0] == b[0]);
        }
        assert(syntax::body(seps, cut, e) =~= Seq::<PieceView>::empty());
        let (kept, from) = syntax::head(windows, cut);
        assert(kept =~= first.take(m));
        assert(from == e);
    } else {
        let j = m - 1 - first.len();
        assert(all[m - 1] == rest[j]);
        parts::lemma_body_cut(seps, b, start, j);
        assert(e > start);
        assert(cut[0] == b[0]);
        if e > 1 {
            assert(cut[1] == b[1]);
        } else {
            assert(start == 0);
            assert(first.len() == 0);
            if j > 0 {
                assert(rest[0].end <= rest[j].start);
                assert(rest[0].start < rest[0].end);
            }
            lemma_one_byte_segment(b);
        }
        let p = syntax::prefix_len(windows, b);
        if p < e {
            assert(cut[p] == b[p]);
        }
        assert(syntax::head(windows, cut) == (first, start));
    }
    assert(syntax::pieces(windows, cut) =~= all.take(m));
}

/// A path without a prefix and a root whose first name is one byte long does not open with a
/// dot.
proof fn lemma_one_byte_segment(b: Seq<u8>)
    requires
        b.len() > 0,
        syntax::head(Platform::Windows, b).0.len() == 0,
        syntax::body(Separators::Both, b, 0).len() > 0,
        syntax::body(Separators::Both, b, 0)[0].end == 1,
    ensures
        b[0] != DOT,
{
    let seps = Separators::Both;
    let end = syntax::segment_end(seps, b, 0);
    syntax::lemma_segment_end(seps, b, 0);
    assert(!seps.has(b[0]));
    if b[0] == DOT {
        if b.len() > 1 {
            assert(!seps.has(b[1]));
            assert(end > 1);
            let segment = b.subrange(0, end);
            assert(segment.len() == end);
            assert(segment != seq![DOT]) by {
                assert(seq![DOT].len() == 1);
            }
        }
    }
}

/// The components of a Windows path that was cut behind its component `m - 1`.
proof fn lemma_cut_components(b: Seq<u8>, m: int)
    requires
        !windows::is_verbatim(b),
        0 < m <= syntax::pieces(Platform::Windows, b).len(),
        m == 1 ==> (syntax::windows_prefix(b) matches Some(p) ==> p.kind is Disk),
    ensures
        ({
            let e = syntax::pieces(Platform::Windows, b)[m - 1].end;
            model::comps(Platform::Windows, b.take(e)) == model::comps(Platform::Windows, b).take(m)
        }),
{
    let windows = Platform::Windows;
    let all = syntax::pieces(windows, b);
    model::lemma_pieces_fit(windows, b);
    model::lemma_pieces_in_order(windows, b);
    lemma_cut_pieces(b, m);
    let e = all[m - 1].end;
    let cut = b.take(e);
    let kept = syntax::pieces(windows, cut);
    let cs = model::comps(windows, cut);
    let want = model::comps(windows, b).take(m);
    assert(cs.len() == m);
    assert forall|k: int| 0 <= k < m implies #[trigger] cs[k] == want[k] by {
        assert(kept[k] == all[k]);
        if k < m - 1 {
            assert(all[k].end <= all[m - 1].start);
        }
        assert(all[k].end <= e);
        parts::lemma_cut_component(b, e, all[k]);
    }
    assert(cs =~= want);
}

/// The empty path has no components.
proof fn lemma_empty_path()
    ensures
        syntax::pieces(Platform::Windows, Seq::<u8>::empty()) == Seq::<PieceView>::empty(),
        model::comps(Platform::Windows, Seq::<u8>::empty()) == Seq::<Comp>::empty(),
        segments(Seq::<u8>::empty()) == Seq::<Comp>::empty(),
{
    let b = Seq::<u8>::empty();
    assert(syntax::pieces(Platform::Windows, b) =~= Seq::<PieceView>::empty());
    assert(model::comps(Platform::Windows, b) =~= Seq::<Comp>::empty());
    assert(segments(b) =~= Seq::<Comp>::empty());
}

/// What [`model::push`] makes of a Windows path and a relative path.
proof fn lemma_push_relative(a: Seq<u8>, t: Seq<u8>)
    requires
        !windows::is_verbatim(a),
        syntax::windows_prefix(t) is None,
        !syntax::has_root(Platform::Windows, t),
    ensures
        model::push(Platform::Windows, a, t) == (if model::needs_separator(a) {
            a.push(BACKSLASH) + t
        } else {
            a + t
        }),
{
    reveal(model::push);
}

/// How a Windows path opens when a relative path is added to it and it keeps its prefix.
proof fn lemma_head_stays(a: Seq<u8>, t: Seq<u8>)
    requires
        a.len() > 0,
        !windows::is_verbatim(a),
        syntax::windows_prefix(t) is None,
        !syntax::has_root(Platform::Windows, t),
        syntax::windows_prefix(model::push(Platform::Windows, a, t)) == syntax::windows_prefix(a),
        syntax::prefix_len(Platform::Windows, a) < a.len() || windows::is_drive(a),
    ensures
        syntax::head(Platform::Windows, model::push(Platform::Windows, a, t)) == syntax::head(
            Platform::Windows,
            a,
        ),
{
    let windows = Platform::Windows;
    let w = model::push(windows, a, t);
    lemma_push_relative(a, t);
    syntax::lemma_prefix_fits(windows, a);
    let p = syntax::prefix_len(windows, a);
    assert forall|k: int| 0 <= k < a.len() implies #[trigger] w[k] == a[k] by {}
    if p == a.len() && t.len() > 0 {
        assert(!model::needs_separator(a));
        assert(w[p] == t[0]);
        assert(!Separators::Both.has(t[0]));
    }
    if a.len() == 1 {
        if model::needs_separator(a) {
            assert(w[1] == BACKSLASH);
        } else {
            assert(Separators::Both.has(a[0]));
        }
    }
}

/// The components of a Windows path that was extended by a relative path.
#[verifier::rlimit(40)]
proof fn lemma_joined(a: Seq<u8>, t: Seq<u8>)
    requires
        a.len() > 0,
        !windows::is_verbatim(a),
        syntax::windows_prefix(t) is None,
        !syntax::has_root(Platform::Windows, t),
        syntax::windows_prefix(model::push(Platform::Windows, a, t)) == syntax::windows_prefix(a),
    ensures
        model::comps(Platform::Windows, model::push(Platform::Windows, a, t)) == model::comps(
            Platform::Windows,
            a,
        ) + segments(t),
{
    let windows = Platform::Windows;
    let seps = Separators::Both;
    let w = model::push(windows, a, t);
    lemma_push_relative(a, t);
    let pre = if model::needs_separator(a) {
        a.push(BACKSLASH)
    } else {
        a
    };
    assert(w =~= pre + t);
    let n = pre.len() as int;
    parts::lemma_parts_shift(seps, pre, t);
    syntax::lemma_prefix_fits(windows, a);
    let (first, start) = syntax::head(windows, a);
    let added = syntax::body(seps, w, n);
    let inner = syntax::body(seps, a, start);
    let before = syntax::pieces(windows, a);
    let after = syntax::pieces(windows, w);
    assert(before =~= first + inner);
    model::lemma_pieces_fit(windows, a);
    if syntax::prefix_len(windows, a) < a.len() || windows::is_drive(a) {
        lemma_head_stays(a, t);
        assert(syntax::body(seps, w, start) =~= inner + added) by {
            lemma_body_of_joined(a, t, start);
        }
        assert(after =~= before + added);
    } else {
        lemma_prefix_alone(a, t);
    }
    let cs = model::comps(windows, w);
    let want = model::comps(windows, a) + segments(t);
    let moved = added.map_values(|p: PieceView| model::comp_of(pre + t, p));
    assert(after.len() == before.len() + added.len());
    assert forall|k: int| 0 <= k < want.len() implies #[trigger] cs[k] == want[k] by {
        if k < before.len() {
            assert(after[k].kind == before[k].kind);
            assert(before[k].kind is RootDir || after[k] == before[k]);
            if after[k] == before[k] {
                assert(w.subrange(before[k].start, before[k].end) =~= a.subrange(
                    before[k].start,
                    before[k].end,
                ));
            }
        } else {
            assert(after[k] == added[k - before.len()]);
            assert(segments(t)[k - before.len()] == moved[k - before.len()]);
        }
    }
    assert(cs =~= want);
}

/// What is read behind the root of a path to which a relative path was added.
proof fn lemma_body_of_joined(a: Seq<u8>, t: Seq<u8>, start: int)
    requires
        a.len() > 0,
        !windows::is_verbatim(a),
        syntax::windows_prefix(t) is None,
        !syntax::has_root(Platform::Windows, t),
        start == syntax::head(Platform::Windows, a).1,
    ensures
        ({
            let seps = Separators::Both;
            let w = model::push(Platform::Windows, a, t);
            let n = if model::needs_separator(a) {
                a.len() as int + 1
            } else {
                a.len() as int
            };
            syntax::body(seps, w, start) == syntax::body(seps, a, start) + syntax::body(seps, w, n)
        }),
{
    let windows = Platform::Windows;
    let seps = Separators::Both;
    let w = model::push(windows, a, t);
    lemma_push_relative(a, t);
    syntax::lemma_prefix_fits(windows, a);
    let inner = syntax::body(seps, a, start);
    if model::needs_separator(a) {
        let tail = seq![BACKSLASH] + t;
        assert(w =~= a + tail);
        laws::lemma_body_of_concat(seps, a, tail, start);
        assert(w[a.len() as int] == BACKSLASH);
    } else if start == a.len() {
        assert(inner =~= Seq::<PieceView>::empty());
        assert(inner + syntax::body(seps, w, start) =~= syntax::body(seps, w, start));
    } else {
        let front = a.drop_last();
        let end = seq![a.last()];
        let tail = end + t;
        assert(w =~= front + tail);
        laws::lemma_body_of_concat(seps, front, tail, start);
        assert(w[front.len() as int] == a.last());
        assert(a =~= front + end);
        laws::lemma_body_of_concat(seps, front, end, start);
        assert(a[front.len() as int] == a.last());
        assert(syntax::body(seps, a, a.len() as int) =~= Seq::<PieceView>::empty());
        assert(syntax::body(seps, a, front.len() as int) =~= Seq::<PieceView>::empty());
        assert(inner =~= syntax::body(seps, front, start));
    }
}

/// What is read of a prefix that implies a root when a relative path is added to it.
proof fn lemma_prefix_alone(a: Seq<u8>, t: Seq<u8>)
    requires
        a.len() > 0,
        !windows::is_verbatim(a),
        syntax::windows_prefix(t) is None,
        !syntax::has_root(Platform::Windows, t),
        syntax::windows_prefix(model::push(Platform::Windows, a, t)) == syntax::windows_prefix(a),
        syntax::prefix_len(Platform::Windows, a) == a.len(),
        !windows::is_drive(a),
    ensures
        ({
            let w = model::push(Platform::Windows, a, t);
            let n = if model::needs_separator(a) {
                a.len() as int + 1
            } else {
                a.len() as int
            };
            let before = syntax::pieces(Platform::Windows, a);
            let after = syntax::pieces(Platform::Windows, w);
            let added = syntax::body(Separators::Both, w, n);
            &&& before.len() == 2
            &&& before[1].kind is RootDir
            &&& after.len() == 2 + added.len()
            &&& after[0] == before[0]
            &&& after[1].kind is RootDir
            &&& forall|k: int| 2 <= k < after.len() ==> #[trigger] after[k] == added[k - 2]
        }),
{
    let windows = Platform::Windows;
    let seps = Separators::Both;
    let w = model::push(windows, a, t);
    lemma_push_relative(a, t);
    let p = a.len() as int;
    assert(syntax::body(seps, a, p) =~= Seq::<PieceView>::empty());
    if model::needs_separator(a) {
        assert(w[p] == BACKSLASH);
    } else if t.len() > 0 {
        // A device without a name would take the added name.
        lemma_unnamed_device(a);
        syntax::lemma_segment_end(seps, w, 4);
        assert(w[4] == t[0]);
    } else {
        assert(w =~= a);
    }
    let after = syntax::pieces(windows, w);
    let (first, start) = syntax::head(windows, w);
    let added = syntax::body(seps, w, start);
    assert(after =~= first + added);
    assert(first.len() == 2);
    assert(after[0] == first[0] && after[1] == first[1]);
    assert forall|k: int| 2 <= k < after.len() implies #[trigger] after[k] == added[k - 2] by {}
}

/// A prefix that implies a root and ends in a separator is a device without a name.
proof fn lemma_unnamed_device(a: Seq<u8>)
    requires
        syntax::windows_prefix(a) matches Some(p) && p.len == a.len() && !p.kind.verbatim()
            && !(p.kind is Disk),
        Separators::Both.has(a.last()),
    ensures
        syntax::windows_prefix(a)->0.kind is Device,
        a.len() == 4,
{
    let seps = Separators::Both;
    let p = syntax::windows_prefix(a)->0;
    syntax::lemma_prefix_fits(Platform::Windows, a);
    if p.kind is Unc {
        syntax::lemma_segment_end(seps, a, 2);
        let end = syntax::segment_end(seps, a, 2);
        let next = if end < a.len() { end + 1 } else { end };
        syntax::lemma_segment_end(seps, a, next);
        assert(!seps.has(a[a.len() - 1]));
    } else {
        syntax::lemma_segment_end(seps, a, 4);
        if a.len() > 4 {
            assert(!seps.has(a[a.len() - 1]));
        }
    }
}

/// How many components two paths have in common from the start, where a drive counts in either
/// case.
pub open spec fn alike(a: Seq<Comp>, b: Seq<Comp>) -> nat
    decreases a.len(),
{
    if a.len() > 0 && b.len() > 0 && model::same_comp(a[0], b[0]) {
        1 + alike(a.drop_first(), b.drop_first())
    } else {
        0
    }
}

/// The first components are the same as far as they are alike.
proof fn lemma_alike(a: Seq<Comp>, b: Seq<Comp>, m: int)
    requires
        0 <= m <= b.len(),
    ensures
        alike(a, b) <= a.len(),
        alike(a, b) <= b.len(),
        m <= alike(a, b) <==> (m <= a.len() && model::same_comps(a.take(m), b.take(m))),
    decreases a.len(),
{
    if a.len() > 0 && b.len() > 0 && model::same_comp(a[0], b[0]) {
        let x = a.drop_first();
        let y = b.drop_first();
        if m > 0 {
            lemma_alike(x, y, m - 1);
            if m <= a.len() {
                assert(a.take(m).drop_first() =~= x.take(m - 1));
                assert(b.take(m).drop_first() =~= y.take(m - 1));
                if model::same_comps(x.take(m - 1), y.take(m - 1)) {
                    assert forall|i: int| 0 <= i < m implies model::same_comp(
                        #[trigger] a.take(m)[i],
                        b.take(m)[i],
                    ) by {
                        if i > 0 {
                            assert(a.take(m)[i] == x.take(m - 1)[i - 1]);
                            assert(b.take(m)[i] == y.take(m - 1)[i - 1]);
                            assert(model::same_comp(x.take(m - 1)[i - 1], y.take(m - 1)[i - 1]));
                        }
                    }
                }
                if model::same_comps(a.take(m), b.take(m)) {
                    assert forall|i: int| 0 <= i < m - 1 implies model::same_comp(
                        #[trigger] x.take(m - 1)[i],
                        y.take(m - 1)[i],
                    ) by {
                        assert(model::same_comp(a.take(m)[i + 1], b.take(m)[i + 1]));
                    }
                }
            }
        } else {
            lemma_alike(x, y, 0);
        }
    } else if 0 < m <= a.len() {
        assert(a.take(m)[0] == a[0]);
        assert(b.take(m)[0] == b[0]);
    }
}

/// How many components cannot be gone up from: the prefix and the root.
pub open spec fn floor(cs: Seq<Comp>) -> nat {
    if cs.len() > 0 && cs[0] is Prefix {
        if cs.len() > 1 && cs[1] is RootDir {
            2
        } else {
            1
        }
    } else if cs.len() > 0 && cs[0] is RootDir {
        1
    } else {
        0
    }
}

/// The prefix and the root of a Windows path are its first components.
proof fn lemma_floor(p: PathView)
    requires
        is_unmarked(p),
    ensures
        floor(p.comps()) <= p.comps().len(),
        forall|i: int|
            floor(p.comps()) <= i < p.comps().len() ==> !(#[trigger] p.comps()[i] is Prefix) && !(
            p.comps()[i] is RootDir),
        floor(p.comps()) == syntax::head(p.platform, p.bytes).0.len() || (floor(p.comps()) == 0
            && p.comps().len() > 0 && p.comps()[0] is CurDir && syntax::head(
            p.platform,
            p.bytes,
        ).0.len() == 1),
        syntax::windows_prefix(p.bytes) is Some <==> p.comps().len() > 0 && p.comps()[0] is Prefix,
        syntax::windows_prefix(p.bytes) matches Some(found) ==> {
            &&& p.comps()[0] == Comp::Prefix(p.bytes.subrange(0, found.len))
            &&& floor(p.comps()) == 1 ==> found.kind is Disk
        },
{
    let windows = Platform::Windows;
    let b = p.bytes;
    let cs = p.comps();
    let (first, start) = syntax::head(windows, b);
    syntax::lemma_prefix_fits(windows, b);
    windows::lemma_comps_readable(b);
    let rest = syntax::body(Separators::Both, b, start);
    let whole = p.pieces();
    model::lemma_body_fits(Separators::Both, b, start);
    assert(whole =~= first + rest);
    assert forall|i: int| 0 <= i < cs.len() implies {
        &&& #[trigger] cs[i] == model::comp_of(b, whole[i])
        &&& i < first.len() ==> whole[i] == first[i]
        &&& i >= first.len() ==> whole[i] == rest[i - first.len()]
    } by {}
    if cs.len() > 0 {
        assert(cs[0] == model::comp_of(b, whole[0]));
    }
    if cs.len() > 1 {
        assert(cs[1] == model::comp_of(b, whole[1]));
    }
    if let Some(found) = syntax::windows_prefix(b) {
        windows::lemma_prefix_is_whole(b);
    }
    assert forall|i: int| floor(cs) <= i < cs.len() implies !(#[trigger] cs[i] is Prefix) && !(
    cs[i] is RootDir) by {
        assert(windows::fits_at(cs, i));
        if i == 0 {
            assert(whole[0].kind is Prefix ==> cs[0] is Prefix);
        }
    }
}

/// The first components of a Windows path are a path of their own, if the prefix and the root
/// are among them.
proof fn lemma_first_components(p: PathView, m: int)
    requires
        is_unmarked(p),
        floor(p.comps()) <= m <= p.comps().len(),
    ensures
        p.between(0, m).pieces() == p.pieces().take(m),
        p.between(0, m).comps() == p.comps().take(m),
        is_unmarked(p.between(0, m)),
        m > 0 ==> p.between(0, m).bytes == p.bytes.take(p.pieces()[m - 1].end),
        m > 0 ==> 0 <= p.pieces()[m - 1].end <= p.bytes.len(),
        m == 0 ==> p.between(0, m).bytes == Seq::<u8>::empty(),
{
    let q = p.between(0, m);
    lemma_floor(p);
    if m == 0 {
        lemma_empty_path();
        assert(q.pieces() =~= p.pieces().take(0));
        assert(q.comps() =~= p.comps().take(0));
    } else {
        lemma_cut_pieces(p.bytes, m);
        lemma_cut_components(p.bytes, m);
        model::lemma_first_piece_opens(p.platform, p.bytes);
        let e = p.pieces()[m - 1].end;
        assert(p.bytes.subrange(0, e) =~= p.bytes.take(e));
    }
}

/// An ancestor of a Windows path that is made of its first `m` components.
spec fn is_start(ancestor: PathView, base: PathView, m: int) -> bool {
    &&& is_unmarked(ancestor)
    &&& floor(base.comps()) <= m <= base.comps().len()
    &&& ancestor.pieces() == base.pieces().take(m)
    &&& ancestor.comps() == base.comps().take(m)
    &&& m > 0 ==> base.pieces()[m - 1].end <= ancestor.bytes.len()
    &&& ancestor.bytes.len() <= base.bytes.len()
    &&& ancestor.bytes == base.bytes.take(ancestor.bytes.len() as int)
}

/// The parent of the first `m` components is made of the first `m - 1`, unless the last is the
/// prefix or the root.
proof fn lemma_parent_of_start(ancestor: PathView, base: PathView, m: int)
    requires
        is_unmarked(base),
        is_start(ancestor, base, m),
        m > 0,
    ensures
        match ancestor.parent() {
            Some(next) => m > floor(base.comps()) && is_start(next, base, m - 1),
            None => m == floor(base.comps()),
        },
{
    lemma_floor(base);
    let cs = base.comps();
    let pieces = base.pieces();
    assert(ancestor.pieces()[m - 1] == pieces[m - 1]);
    assert(cs[m - 1] == model::comp_of(base.bytes, pieces[m - 1]));
    if let Some(next) = ancestor.parent() {
        lemma_first_components(base, m - 1);
        let q = base.between(0, m - 1);
        if m > 1 {
            model::lemma_first_piece_opens(base.platform, base.bytes);
            model::lemma_pieces_fit(base.platform, base.bytes);
            model::lemma_pieces_in_order(base.platform, base.bytes);
            let e = pieces[m - 2].end;
            assert(ancestor.pieces()[m - 2] == pieces[m - 2]);
            assert(ancestor.pieces()[0] == pieces[0]);
            assert(e <= pieces[m - 1].start);
            assert(pieces[m - 1].start <= pieces[m - 1].end);
            assert(ancestor.bytes.subrange(0, e) =~= base.bytes.take(e));
        }
        assert(next.bytes == q.bytes);
        assert(q.bytes =~= base.bytes.take(q.bytes.len() as int));
    }
}

/// The way down from the last of the components that are alike.
pub open spec fn below_alike(path: PathView, base: PathView) -> PathView {
    path.between(alike(path.comps(), base.comps()) as int, path.comps().len() as int)
}

/// Which way [`relative::way`] takes from the first `m` components of a Windows path on.
proof fn lemma_way(path: PathView, base: PathView, ancestor: PathView, m: int)
    requires
        is_unmarked(path),
        is_unmarked(base),
        is_start(ancestor, base, m),
        m >= alike(path.comps(), base.comps()),
    ensures
        ({
            let s = alike(path.comps(), base.comps());
            let r = relative::way(path, base, ancestor);
            if s < floor(base.comps()) {
                r is None
            } else {
                r == Some(
                    PathView {
                        platform: base.platform,
                        bytes: model::collect(
                            base.platform,
                            relative::ups((base.comps().len() - s) as nat),
                        ),
                    }.join(below_alike(path, base).bytes),
                )
            }
        }),
    decreases m,
{
    let a = path.comps();
    let b = base.comps();
    let s = alike(a, b) as int;
    lemma_alike(a, b, m);
    assert(ancestor.comps().len() == m);
    assert(path.starts_with(ancestor) <==> m <= s);
    if m == s {
        assert(path.strip_prefix(ancestor) == Some(below_alike(path, base)));
        assert(relative::levels(base, ancestor) == b.len() - s);
    } else {
        assert(path.strip_prefix(ancestor) is None);
        lemma_parent_of_start(ancestor, base, m);
        relative::lemma_parent_is_shorter(ancestor);
        if let Some(next) = ancestor.parent() {
            lemma_way(path, base, next, m - 1);
        }
    }
}

/// Which way [`relative::way`] takes from a Windows path.
proof fn lemma_way_from_base(path: PathView, base: PathView)
    requires
        is_unmarked(path),
        is_unmarked(base),
    ensures
        ({
            let s = alike(path.comps(), base.comps());
            let r = relative::way(path, base, base);
            if s < floor(base.comps()) {
                r is None
            } else {
                r == Some(
                    PathView {
                        platform: base.platform,
                        bytes: model::collect(
                            base.platform,
                            relative::ups((base.comps().len() - s) as nat),
                        ),
                    }.join(below_alike(path, base).bytes),
                )
            }
        }),
{
    let n = base.comps().len() as int;
    assert(base.pieces().take(n) =~= base.pieces());
    assert(base.comps().take(n) =~= base.comps());
    assert(base.bytes.take(base.bytes.len() as int) =~= base.bytes);
    model::lemma_pieces_fit(base.platform, base.bytes);
    lemma_alike(path.comps(), base.comps(), 0);
    lemma_floor(base);
    assert(is_start(base, base, n));
    lemma_way(path, base, base, n);
}

/// The last components of a Windows path behind its prefix and its root, as a path to add.
proof fn lemma_last_components(p: PathView, k: int)
    requires
        is_unmarked(p),
        floor(p.comps()) <= k <= p.comps().len(),
        0 < k,
    ensures
        segments(p.between(k, p.comps().len() as int).bytes) == p.comps().skip(k),
{
    let windows = Platform::Windows;
    let seps = Separators::Both;
    let b = p.bytes;
    let n = p.comps().len() as int;
    let t = p.between(k, n).bytes;
    if k == n {
        lemma_empty_path();
        assert(p.comps().skip(k) =~= Seq::<Comp>::empty());
    } else {
        let all = p.pieces();
        let (first, start) = syntax::head(windows, b);
        syntax::lemma_prefix_fits(windows, b);
        let rest = syntax::body(seps, b, start);
        assert(all =~= first + rest);
        lemma_floor(p);
        let j = k - first.len();
        assert(all[k] == rest[j]);
        parts::lemma_body_from(seps, b, start, j);
        let s = all[k].start;
        let behind = syntax::body(seps, b, s);
        assert(behind =~= all.skip(k));
        assert(all[n - 1] == behind[n - 1 - k]);
        let e = all[n - 1].end;
        parts::lemma_body_cut(seps, b, s, n - 1 - k);
        assert(behind.take(n - k) =~= behind);
        model::lemma_body_fits(seps, b, s);
        assert(s < e <= b.len());
        assert(b.take(e) =~= b.take(s) + t);
        parts::lemma_parts_shift(seps, b.take(s), t);
        let found = segments(t);
        let want = p.comps().skip(k);
        assert(found.len() == want.len());
        assert forall|i: int| 0 <= i < want.len() implies #[trigger] found[i] == want[i] by {
            assert(behind[i] == all[k + i]);
            if i < n - 1 - k {
                assert(behind[i].end <= behind[n - 1 - k].start);
            }
            parts::lemma_cut_component(b, e, behind[i]);
        }
        assert(found =~= want);
    }
}

/// A Windows path whose first component is the root has one.
proof fn lemma_root_component(p: PathView)
    requires
        is_unmarked(p),
        p.comps().len() > 0,
        p.comps()[0] is RootDir,
    ensures
        syntax::has_root(p.platform, p.bytes),
{
    let (first, start) = syntax::head(p.platform, p.bytes);
    syntax::lemma_prefix_fits(p.platform, p.bytes);
    let rest = syntax::body(Separators::Both, p.bytes, start);
    model::lemma_body_fits(Separators::Both, p.bytes, start);
    assert(p.comps()[0] == model::comp_of(p.bytes, p.pieces()[0]));
    if first.len() > 0 {
        assert(p.pieces()[0] == first[0]);
    } else {
        assert(p.pieces()[0] == rest[0]);
    }
}

/// A path that goes up from another and comes to a prefix or a root is not relative.
proof fn lemma_relative_goes_down(path: PathView, base: PathView, r: PathView)
    requires
        is_unmarked(path),
        is_unmarked(base),
        relative::relative(path, base) == Some(r),
    ensures
        ({
            let s = alike(path.comps(), base.comps());
            let t = below_alike(path, base).bytes;
            let up = model::collect(
                Platform::Windows,
                relative::ups((base.comps().len() - s) as nat),
            );
            &&& floor(base.comps()) <= s <= base.comps().len()
            &&& s <= path.comps().len()
            &&& r.platform is Windows
            &&& r.bytes == model::push(Platform::Windows, up, t)
            &&& syntax::windows_prefix(up) is None
            &&& syntax::windows_prefix(t) is None
            &&& !syntax::has_root(Platform::Windows, t)
        }),
{
    let windows = Platform::Windows;
    let s = alike(path.comps(), base.comps());
    let t = below_alike(path, base).bytes;
    let d = (base.comps().len() - s) as nat;
    let up = model::collect(windows, relative::ups(d));
    lemma_way_from_base(path, base);
    lemma_alike(path.comps(), base.comps(), 0);
    relative::lemma_climb_is_ascii(windows, d);
    reveal(model::push);
    assert(up.take(0) + t =~= t);
}

/// Where a relative path leads down, it leads down from behind the prefix and the root.
proof fn lemma_alike_covers_floor(path: PathView, base: PathView)
    requires
        is_unmarked(path),
        is_unmarked(base),
        floor(base.comps()) <= alike(path.comps(), base.comps()),
        syntax::windows_prefix(below_alike(path, base).bytes) is None,
        !syntax::has_root(Platform::Windows, below_alike(path, base).bytes),
    ensures
        floor(path.comps()) <= alike(path.comps(), base.comps()),
{
    let windows = Platform::Windows;
    let (a, b) = (path.comps(), base.comps());
    let s = alike(a, b) as int;
    let n = a.len() as int;
    let t = below_alike(path, base);
    lemma_alike(a, b, 0);
    lemma_alike(a, b, s);
    lemma_floor(path);
    lemma_floor(base);
    if s == 0 && floor(a) > 0 {
        lemma_first_components(path, n);
        assert(a.take(n) =~= a);
        lemma_floor(t);
        if a[0] is RootDir {
            lemma_root_component(t);
        }
    } else if s == 1 && floor(a) == 2 {
        assert(model::same_comp(a.take(1)[0], b.take(1)[0]));
        let found = syntax::windows_prefix(path.bytes)->0;
        let other = syntax::windows_prefix(base.bytes)->0;
        windows::lemma_prefix_is_whole(path.bytes);
        windows::lemma_prefix_is_whole(base.bytes);
        assert(found.kind is Disk);
        let (first, start) = syntax::head(windows, path.bytes);
        assert(path.pieces()[1] == first[1]);
        syntax::lemma_prefix_fits(windows, path.bytes);
        model::lemma_pieces_fit(windows, path.bytes);
        assert(path.pieces()[1].start <= path.pieces()[n - 1].end);
        assert(path.pieces()[1].start < path.pieces()[n - 1].end) by {
            if n > 2 {
                model::lemma_pieces_in_order(windows, path.bytes);
                assert(path.pieces()[1].end <= path.pieces()[n - 1].start);
            }
        }
        assert(t.bytes[0] == path.bytes[found.len]);
    }
}

/// A relative Windows path that is added to another loses a leading `.`.
proof fn lemma_segments_of_path(t: Seq<u8>)
    requires
        syntax::windows_prefix(t) is None,
        !syntax::has_root(Platform::Windows, t),
    ensures
        model::comps(Platform::Windows, t) == (if syntax::opens_with_dot(Separators::Both, t) {
            seq![Comp::CurDir] + segments(t)
        } else {
            segments(t)
        }),
{
    let windows = Platform::Windows;
    let seps = Separators::Both;
    if syntax::opens_with_dot(seps, t) {
        assert(syntax::segment_end(seps, t, 0) == 1) by {
            syntax::lemma_segment_ends_at(seps, t, 0, 1);
        }
        assert(t.subrange(0, 1) =~= seq![DOT]);
        assert(syntax::body(seps, t, 0) == syntax::body(seps, t, 1));
        assert(model::comps(windows, t) =~= seq![Comp::CurDir] + segments(t));
    } else {
        assert(model::comps(windows, t) =~= segments(t));
    }
}

/// The components of so many `..` in a row.
proof fn lemma_climb(n: nat)
    requires
        n > 0,
    ensures
        ({
            let b = model::collect(Platform::Windows, relative::ups(n));
            &&& b.len() > 1
            &&& b[0] == DOT
            &&& !syntax::opens_with_dot(Separators::Both, b)
            &&& model::comps(Platform::Windows, b) == relative::ups(n)
            &&& syntax::windows_prefix(b) is None
        }),
{
    let cs = relative::ups(n);
    let b = model::collect(Platform::Windows, cs);
    assert(windows::canonical(cs)) by {
        assert forall|i: int| 0 <= i < cs.len() implies #[trigger] windows::fits_at(cs, i) by {}
    }
    windows::lemma_collected_is_read_back(cs);
    relative::lemma_climb_is_ascii(Platform::Windows, n);
    assert(cs[0] is ParentDir);
}

/// The components that a relative path adds to a Windows path.
proof fn lemma_relative_adds(path: PathView, base: PathView, r: PathView)
    requires
        is_unmarked(path),
        is_unmarked(base),
        base.comps().len() > 0,
        relative::relative(path, base) == Some(r),
        keeps_prefix(base, r.bytes),
    ensures
        base.join(r.bytes).comps() == base.comps() + relative::ups(
            (base.comps().len() - alike(path.comps(), base.comps())) as nat,
        ) + segments(below_alike(path, base).bytes),
{
    let windows = Platform::Windows;
    let s = alike(path.comps(), base.comps());
    lemma_relative_goes_down(path, base, r);
    let d = (base.comps().len() - s) as nat;
    let up = model::collect(windows, relative::ups(d));
    let t = below_alike(path, base).bytes;
    assert(base.bytes.len() > 0) by {
        if base.bytes.len() == 0 {
            assert(base.bytes =~= Seq::<u8>::empty());
            lemma_empty_path();
        }
    }
    if d == 0 {
        reveal(model::push);
        assert(relative::ups(0) =~= Seq::<Comp>::empty());
        assert(up =~= Seq::<u8>::empty());
        assert(r.bytes =~= t);
        assert(base.comps() + relative::ups(0) =~= base.comps());
    } else {
        lemma_climb(d);
        lemma_joined(up, t);
        lemma_push_relative(up, t);
        assert(r.bytes[0] == up[0] && r.bytes[1] == up[1]);
        lemma_segments_of_path(r.bytes);
        assert(segments(r.bytes) == relative::ups(d) + segments(t));
        assert(base.comps() + (relative::ups(d) + segments(t)) =~= base.comps() + relative::ups(d)
            + segments(t));
    }
    lemma_joined(base.bytes, r.bytes);
}

/// A Windows path without components is empty.
proof fn lemma_no_components_no_bytes(p: PathView)
    requires
        is_unmarked(p),
        p.comps().len() == 0,
    ensures
        p.bytes == Seq::<u8>::empty(),
{
    let b = p.bytes;
    let seps = Separators::Both;
    if b.len() > 0 {
        let (first, start) = syntax::head(p.platform, b);
        assert(p.pieces().len() == 0);
        assert(first.len() == 0);
        assert(!seps.has(b[0]));
        let end = syntax::segment_end(seps, b, 0);
        syntax::lemma_segment_end(seps, b, 0);
        assert(end > 0);
        let segment = b.subrange(0, end);
        if segment == seq![DOT] {
            assert(segment.len() == 1);
            assert(segment[0] == b[0]);
            assert(syntax::opens_with_dot(seps, b));
        }
    }
    assert(b =~= Seq::<u8>::empty());
}

/// Components that are the same stay so when more are read.
proof fn lemma_same_from(a: Seq<Comp>, b: Seq<Comp>, cs: Seq<Comp>)
    requires
        model::same_comps(a, b),
    ensures
        model::same_comps(ways::clean_from(a, cs), ways::clean_from(b, cs)),
    decreases cs.len(),
{
    if cs.len() > 0 {
        lemma_same_from(a, b, cs.drop_last());
        lemma_same_step(
            ways::clean_from(a, cs.drop_last()),
            ways::clean_from(b, cs.drop_last()),
            cs.last(),
            cs.last(),
        );
    }
}

/// Components that are the same stay so when one more is read.
proof fn lemma_same_step(a: Seq<Comp>, b: Seq<Comp>, c: Comp, d: Comp)
    requires
        model::same_comps(a, b),
        model::same_comp(c, d),
    ensures
        model::same_comps(clean::clean_step(a, c), clean::clean_step(b, d)),
{
    let x = clean::clean_step(a, c);
    let y = clean::clean_step(b, d);
    if a.len() > 0 {
        assert(model::same_comp(a[a.len() - 1], b[b.len() - 1]));
    }
    assert forall|i: int| 0 <= i < x.len() implies model::same_comp(#[trigger] x[i], y[i]) by {
        if i < a.len() {
            assert(model::same_comp(a[i], b[i]));
        }
    }
}

/// Components that are the same are cleaned to the same.
proof fn lemma_same_cleaned(a: Seq<Comp>, b: Seq<Comp>)
    requires
        model::same_comps(a, b),
    ensures
        model::same_comps(clean::clean_comps(a), clean::clean_comps(b)),
    decreases a.len(),
{
    if a.len() > 0 {
        let (x, y) = (a.drop_last(), b.drop_last());
        assert forall|i: int| 0 <= i < x.len() implies model::same_comp(#[trigger] x[i], y[i]) by {
            assert(model::same_comp(a[i], b[i]));
        }
        lemma_same_cleaned(x, y);
        assert(model::same_comp(a[a.len() - 1], b[b.len() - 1]));
        lemma_same_step(clean::clean_comps(x), clean::clean_comps(y), a.last(), b.last());
    }
}

/// What is left of a path, and of the way to it from another, when both are cleaned.
proof fn lemma_relative_leads_back(path: PathView, base: PathView, r: PathView)
    requires
        is_unmarked(path),
        is_unmarked(base),
        relative::relative(path, base) == Some(r),
        keeps_prefix(base, r.bytes),
        ways::leads_up(base.comps(), alike(path.comps(), base.comps()) as int),
    ensures
        model::same_comps(
            clean::clean_comps(base.join(r.bytes).comps()),
            clean::clean_comps(path.comps()),
        ),
        path.comps().len() > 0 && base.comps().len() > 0 && path.comps()[0] is Prefix
            ==> path.comps()[0] == base.comps()[0] ==> clean::clean_comps(
            base.join(r.bytes).comps(),
        ) == clean::clean_comps(path.comps()),
        path.comps().len() > 0 && path.comps()[0] is Prefix || clean::clean_comps(
            base.join(r.bytes).comps(),
        ) == clean::clean_comps(path.comps()),
{
    let windows = Platform::Windows;
    let (whole, b) = (path.comps(), base.comps());
    let s = alike(whole, b) as int;
    let below = below_alike(path, base);
    let t = below.bytes;
    let n = whole.len() as int;
    lemma_relative_goes_down(path, base, r);
    lemma_alike_covers_floor(path, base);
    lemma_alike(whole, b, s);
    assert(whole =~= whole.take(s) + whole.skip(s));
    let joined = base.join(r.bytes).comps();
    if b.len() == 0 {
        reveal(model::push);
        lemma_no_components_no_bytes(base);
        assert(relative::ups(0) =~= Seq::<Comp>::empty());
        assert(model::collect(windows, relative::ups(0)) =~= Seq::<u8>::empty());
        assert(r.bytes =~= t);
        assert(base.join(r.bytes).bytes =~= t);
        lemma_first_components(path, n);
        assert(whole.take(n) =~= whole);
        assert(joined == whole);
        lemma_same_as_itself(clean::clean_comps(whole));
    } else {
        lemma_relative_adds(path, base, r);
        let up = b + relative::ups((b.len() - s) as nat);
        let (x, y) = (whole.take(s), b.take(s));
        let (p, q) = (clean::clean_comps(x), clean::clean_comps(y));
        ways::lemma_clean_in_turn(up, segments(t));
        ways::lemma_clean_in_turn(x, whole.skip(s));
        assert(clean::clean_comps(up) == q);
        lemma_same_as_itself(x);
        lemma_same_reversed(x, y);
        lemma_same_cleaned(y, x);
        lemma_same_from(q, p, whole.skip(s));
        if s == 0 {
            lemma_first_components(path, n);
            assert(whole.take(n) =~= whole);
            assert(whole.skip(0) =~= whole);
            lemma_segments_of_path(t);
            ways::lemma_dot_is_dropped(q, segments(t));
            assert(x =~= y);
        } else {
            lemma_last_components(path, s);
            windows::lemma_comps_readable(path.bytes);
            assert forall|i: int| 1 <= i < x.len() implies !(#[trigger] x[i] is Prefix) by {
                assert(x[i] == whole[i]);
                assert(windows::fits_at(whole, i));
            }
            lemma_same_without_prefix(x, y);
        }
    }
}

/// Components are the same as themselves.
proof fn lemma_same_as_itself(cs: Seq<Comp>)
    ensures
        model::same_comps(cs, cs),
{
}

/// Sameness of components goes both ways.
proof fn lemma_same_reversed(a: Seq<Comp>, b: Seq<Comp>)
    requires
        model::same_comps(a, b),
    ensures
        model::same_comps(b, a),
{
    assert forall|i: int| 0 <= i < b.len() implies model::same_comp(#[trigger] b[i], a[i]) by {
        assert(model::same_comp(a[i], b[i]));
    }
}

/// Only prefixes can be the same and not equal.
proof fn lemma_same_without_prefix(a: Seq<Comp>, b: Seq<Comp>)
    requires
        model::same_comps(a, b),
        a.len() > 0,
        forall|i: int| 1 <= i < a.len() ==> !(#[trigger] a[i] is Prefix),
    ensures
        a[0] == b[0] || !(a[0] is Prefix) ==> a == b,
{
    if a[0] == b[0] || !(a[0] is Prefix) {
        assert forall|i: int| 0 <= i < a.len() implies #[trigger] a[i] == b[i] by {
            assert(model::same_comp(a[i], b[i]));
        }
        assert(a =~= b);
    }
}

/// Whether two paths write their prefix in the same way, where the first has one.
pub open spec fn same_prefix_text(path: PathView, base: PathView) -> bool {
    path.comps().len() > 0 && path.comps()[0] is Prefix ==> base.comps().len() > 0
        && path.comps()[0] == base.comps()[0]
}

/// A relative path leads from `base` to `path`, wherever going up from `base` leads to what
/// the two paths share: added to `base` and cleaned, it is the cleaned `path`. A drive counts
/// in either case, and a share with either separator, so the prefix may be written as in
/// `base`; where the two write it in the same way, every byte is the same. This holds of paths
/// that do not start with `\\?\`, where adding the relative path leaves `base` its prefix.
pub proof fn law_relative_path_leads_back(path: PathView, base: PathView, r: PathView)
    requires
        is_unmarked(path),
        is_unmarked(base),
        relative::relative(path, base) == Some(r),
        keeps_prefix(base, r.bytes),
        ways::leads_up(base.comps(), alike(path.comps(), base.comps()) as int),
    ensures
        same_prefix_text(path, base) ==> base.join(r.bytes).cleaned() == path.cleaned(),
        model::same_comps(
            clean::clean_comps(base.join(r.bytes).comps()),
            clean::clean_comps(path.comps()),
        ),
        windows::no_name_is_a_drive(clean::clean_comps(path.comps())) ==> base.join(
            r.bytes,
        ).cleaned().same(path.cleaned()),
{
    lemma_relative_leads_back(path, base, r);
    let joined = base.join(r.bytes);
    let left = clean::clean_comps(joined.comps());
    let want = clean::clean_comps(path.comps());
    if windows::no_name_is_a_drive(want) {
        assert forall|i: int| 0 <= i < left.len() implies (#[trigger] left[i] matches Comp::Normal(t)
            ==> !syntax::drive_at(t, 0)) by {
            assert(model::same_comp(left[i], want[i]));
            if left[i] is Normal {
                assert(left[i] == want[i]);
            }
        }
        windows::law_cleaned_components(joined);
        windows::law_cleaned_components(path);
        lemma_same_as_itself(seq![Comp::CurDir]);
    }
}

/// Whether a path awaits a name that would belong to its prefix: `\\server` awaits a share, and
/// `\\.\` a device.
pub open spec fn awaits_name(b: Seq<u8>) -> bool {
    syntax::opens_with_two(b) && match syntax::windows_prefix(b) {
        Some(p) => p.kind is Device && b.len() == 4,
        None => true,
    }
}

/// Adding a relative path leaves the prefix as it is, unless a name is awaited.
pub proof fn law_joining_keeps_the_prefix(base: PathView, added: PathView)
    requires
        is_unmarked(base),
        added.platform is Windows,
        relative::is_relative(added),
        !awaits_name(base.bytes),
    ensures
        keeps_prefix(base, added.bytes),
{
    let windows = Platform::Windows;
    let seps = Separators::Both;
    let (b, t) = (base.bytes, added.bytes);
    let w = base.join(t).bytes;
    lemma_push_relative(b, t);
    assert forall|k: int| 0 <= k < b.len() implies #[trigger] w[k] == b[k] by {}
    if t.len() > 0 {
        assert(!seps.has(t[0]));
    }
    if let Some(p) = syntax::windows_prefix(b) {
        syntax::lemma_prefix_fits(windows, b);
        windows::lemma_prefix_is_whole(b);
        let whole = b.subrange(0, p.len);
        let tail = w.skip(p.len);
        assert(w =~= whole + tail);
        if tail.len() > 0 && !(p.kind is Disk) {
            if p.len < b.len() {
                windows::lemma_separator_follows(b);
                assert(tail[0] == b[p.len]);
            } else {
                if seps.has(b.last()) {
                    lemma_unnamed_device(b);
                }
                assert(w[b.len() as int] == BACKSLASH);
                assert(tail[0] == w[p.len]);
            }
        }
        windows::lemma_prefix_is_stable(whole, tail);
    } else if b.len() == 0 {
        assert(w =~= t);
    } else if b.len() == 1 {
        if w.len() > 1 {
            assert(w[1] == BACKSLASH || w[1] == t[0]);
        }
    }
}

/// Whether two paths have the same prefix and the same root, or both lack them.
pub open spec fn start_alike(path: PathView, base: PathView) -> bool {
    let n = floor(base.comps()) as int;
    &&& floor(path.comps()) == n
    &&& model::same_comps(path.comps().take(n), base.comps().take(n))
}

/// Between two Windows paths that do not start with `\\?\` there is a relative path if and only
/// if they have the same prefix and the same root or lack them, and the way down does not
/// open like a drive, as a path of its own does.
pub proof fn law_relative_path_exists(path: PathView, base: PathView)
    requires
        is_unmarked(path),
        is_unmarked(base),
    ensures
        relative::relative(path, base) is Some <==> start_alike(path, base) && !syntax::drive_at(
            below_alike(path, base).bytes,
            0,
        ),
{
    let windows = Platform::Windows;
    let (a, b) = (path.comps(), base.comps());
    let s = alike(a, b) as int;
    let n = a.len() as int;
    let t = below_alike(path, base);
    let k = floor(b) as int;
    lemma_alike(a, b, 0);
    lemma_alike(a, b, s);
    lemma_floor(path);
    lemma_floor(base);
    lemma_alike(a, b, k);
    if let Some(r) = relative::relative(path, base) {
        lemma_relative_goes_down(path, base, r);
        lemma_alike_covers_floor(path, base);
        if floor(a) < k {
            let i = floor(a) as int;
            assert(model::same_comp(a.take(s)[i], b.take(s)[i]));
            assert(b[i] is Prefix || b[i] is RootDir);
        } else if floor(a) > k {
            assert(model::same_comp(a.take(s)[k], b.take(s)[k]));
            assert(a[k] is Prefix || a[k] is RootDir);
        }
        if syntax::drive_at(t.bytes, 0) {
            assert(syntax::windows_prefix(t.bytes) is Some);
        }
    } else if start_alike(path, base) && !syntax::drive_at(t.bytes, 0) {
        lemma_way_from_base(path, base);
        let d = (b.len() - s) as nat;
        let up = model::collect(windows, relative::ups(d));
        lemma_way_down_is_relative(path, s);
        relative::lemma_climb_is_ascii(windows, d);
        lemma_push_relative(up, t.bytes);
        let r = model::push(windows, up, t.bytes);
        if d == 0 {
            assert(relative::ups(0) =~= Seq::<Comp>::empty());
            assert(up =~= Seq::<u8>::empty());
            assert(r =~= t.bytes);
        } else {
            lemma_climb(d);
            assert(r[0] == up[0]);
        }
        assert(relative::is_relative(PathView { platform: windows, bytes: r }));
    }
}

/// What lies behind the prefix and the root is a relative path, unless it opens like a drive.
proof fn lemma_way_down_is_relative(path: PathView, s: int)
    requires
        is_unmarked(path),
        floor(path.comps()) <= s <= path.comps().len(),
        !syntax::drive_at(path.between(s, path.comps().len() as int).bytes, 0),
    ensures
        ({
            let t = path.between(s, path.comps().len() as int).bytes;
            syntax::windows_prefix(t) is None && !syntax::has_root(Platform::Windows, t)
        }),
{
    let n = path.comps().len() as int;
    let b = path.bytes;
    let t = path.between(s, n).bytes;
    lemma_floor(path);
    if s < n {
        let all = path.pieces();
        model::lemma_pieces_fit(path.platform, b);
        model::lemma_pieces_in_order(path.platform, b);
        assert(path.comps()[s] == model::comp_of(b, all[s]));
        assert(all[s].start < all[s].end);
        assert(all[s].end <= all[n - 1].end) by {
            if s < n - 1 {
                assert(all[s].end <= all[n - 1].start);
            }
        }
        assert(t[0] == b[all[s].start]);
        windows::lemma_comps_readable(b);
        assert(windows::fits_at(path.comps(), s));
        let text = b.subrange(all[s].start, all[s].end);
        assert(text[0] == t[0]);
        assert(!Separators::Both.has(t[0])) by {
            lemma_piece_is_no_separator(path, s);
        }
    }
}

/// A name, a `.` and a `..` do not start with a separator.
proof fn lemma_piece_is_no_separator(p: PathView, k: int)
    requires
        is_unmarked(p),
        floor(p.comps()) <= k < p.comps().len(),
    ensures
        0 <= p.pieces()[k].start < p.bytes.len(),
        !Separators::Both.has(p.bytes[p.pieces()[k].start]),
{
    let (first, start) = syntax::head(p.platform, p.bytes);
    syntax::lemma_prefix_fits(p.platform, p.bytes);
    let rest = syntax::body(Separators::Both, p.bytes, start);
    assert(p.pieces() =~= first + rest);
    lemma_floor(p);
    if k >= first.len() {
        assert(p.pieces()[k] == rest[k - first.len()]);
        parts::lemma_body_from(Separators::Both, p.bytes, start, k - first.len());
    } else {
        assert(p.pieces()[0] == first[0]);
        assert(p.comps()[0] == model::comp_of(p.bytes, p.pieces()[0]));
    }
}

/// Whether a Windows path has neither a `.` nor a `..` among its components, and no name that
/// opens like a drive.
pub open spec fn has_only_names(p: PathView) -> bool {
    &&& windows::no_name_is_a_drive(p.comps())
    &&& forall|i: int|
        0 <= i < p.comps().len() ==> !(#[trigger] p.comps()[i] is CurDir) && !(
        p.comps()[i] is ParentDir)
}

/// Cleaning leaves the components of a path with nothing but names.
proof fn lemma_only_names_is_clean(p: PathView)
    requires
        has_only_names(p),
    ensures
        clean::clean_comps(p.comps()) == p.comps(),
{
    let cs = p.comps();
    assert forall|i: int| 0 <= i < cs.len() implies {
        &&& #[trigger] cs[i] !is CurDir
        &&& cs[i] is ParentDir && i > 0 ==> cs[i - 1] is ParentDir || cs[i - 1] is Prefix
    } by {
        assert(!(cs[i] is CurDir) && !(cs[i] is ParentDir));
    }
    clean::law_clean_components_stay(cs);
}

/// Cleaning makes no names.
proof fn lemma_no_drive_appears(cs: Seq<Comp>)
    requires
        windows::no_name_is_a_drive(cs),
    ensures
        windows::no_name_is_a_drive(clean::clean_comps(cs)),
    decreases cs.len(),
{
    if cs.len() > 0 {
        let front = cs.drop_last();
        assert forall|i: int| 0 <= i < front.len() implies (#[trigger] front[i] matches Comp::Normal(
            t,
        ) ==> !syntax::drive_at(t, 0)) by {
            assert(front[i] == cs[i]);
        }
        lemma_no_drive_appears(front);
        let before = clean::clean_comps(front);
        let after = clean::clean_comps(cs);
        let last = cs[cs.len() - 1];
        assert forall|i: int| 0 <= i < after.len() implies (#[trigger] after[i] matches Comp::Normal(
            t,
        ) ==> !syntax::drive_at(t, 0)) by {
            if i < before.len() {
                assert(after[i] == before[i]);
            } else {
                assert(after[i] == last);
            }
        }
    }
}

/// Two Windows paths that are cleaned to the same path have the same components left.
proof fn lemma_cleaned_alike(p: PathView, q: PathView)
    requires
        is_unmarked(p),
        is_unmarked(q),
        windows::no_name_is_a_drive(p.comps()),
        windows::no_name_is_a_drive(q.comps()),
        p.cleaned() == q.cleaned(),
    ensures
        clean::clean_comps(p.comps()) == clean::clean_comps(q.comps()),
{
    let a = clean::clean_comps(p.comps());
    let b = clean::clean_comps(q.comps());
    lemma_no_drive_appears(p.comps());
    lemma_no_drive_appears(q.comps());
    windows::law_cleaned_components(p);
    windows::law_cleaned_components(q);
    clean::law_result_is_clean(p.comps());
    clean::law_result_is_clean(q.comps());
    if a.len() > 0 {
        assert(a[0] !is CurDir);
    }
    if b.len() > 0 {
        assert(b[0] !is CurDir);
    }
    assert(seq![Comp::CurDir][0] is CurDir);
    if a.len() == 0 && b.len() == 0 {
        assert(a =~= b);
    }
}

/// Components that are alike are shared where the prefix is written in the same way.
proof fn lemma_alike_is_shared(a: Seq<Comp>, b: Seq<Comp>)
    requires
        forall|i: int| 1 <= i < a.len() ==> !(#[trigger] a[i] is Prefix),
        a.len() > 0 && a[0] is Prefix && b.len() > 0 ==> a[0] == b[0],
    ensures
        alike(a, b) == ways::shared(a, b),
    decreases a.len(),
{
    if a.len() > 0 && b.len() > 0 && a[0] == b[0] {
        let (x, y) = (a.drop_first(), b.drop_first());
        assert forall|i: int| 0 <= i < x.len() implies !(#[trigger] x[i] is Prefix) by {
            assert(x[i] == a[i + 1]);
        }
        lemma_alike_is_shared(x, y);
    }
}

/// What stands at a name does not open with a `.` of its own.
proof fn lemma_not_a_dot(path: PathView, s: int)
    requires
        is_unmarked(path),
        has_only_names(path),
        floor(path.comps()) <= s <= path.comps().len(),
    ensures
        !syntax::opens_with_dot(
            Separators::Both,
            path.between(s, path.comps().len() as int).bytes,
        ),
{
    let n = path.comps().len() as int;
    let t = path.between(s, n).bytes;
    if s < n {
        let b = path.bytes;
        let pieces = path.pieces();
        lemma_floor(path);
        windows::lemma_comps_readable(b);
        model::lemma_pieces_fit(path.platform, b);
        model::lemma_pieces_in_order(path.platform, b);
        assert(windows::fits_at(path.comps(), s));
        assert(path.comps()[s] == model::comp_of(b, pieces[s]));
        assert(path.comps()[s] is Normal);
        let name = b.subrange(pieces[s].start, pieces[s].end);
        assert(windows::plain_name(name));
        assert(pieces[s].end <= pieces[n - 1].end) by {
            if s < n - 1 {
                assert(pieces[s].end <= pieces[n - 1].start);
            }
        }
        assert(t[0] == name[0]);
        if name.len() > 1 {
            assert(t[1] == name[1]);
            assert(!Separators::Both.has(name[1]));
        } else if t[0] == DOT {
            assert(name =~= seq![DOT]);
        }
    }
}

/// The components of a relative path between two paths with nothing but names.
proof fn lemma_relative_components(path: PathView, base: PathView, r: PathView)
    requires
        is_unmarked(path),
        is_unmarked(base),
        has_only_names(path),
        relative::relative(path, base) == Some(r),
    ensures
        ({
            let s = alike(path.comps(), base.comps()) as int;
            r.comps() == relative::ups((base.comps().len() - s) as nat) + path.comps().skip(s)
        }),
{
    let windows = Platform::Windows;
    let (p, b) = (path.comps(), base.comps());
    let s = alike(p, b) as int;
    let n = p.len() as int;
    let t = below_alike(path, base);
    lemma_relative_goes_down(path, base, r);
    lemma_alike_covers_floor(path, base);
    lemma_not_a_dot(path, s);
    lemma_segments_of_path(t.bytes);
    let d = (b.len() - s) as nat;
    let up = model::collect(windows, relative::ups(d));
    assert(segments(t.bytes) == p.skip(s)) by {
        if s == 0 {
            lemma_first_components(path, n);
            assert(p.take(n) =~= p);
            assert(p.skip(0) =~= p);
        } else {
            lemma_last_components(path, s);
        }
    }
    if d == 0 {
        reveal(model::push);
        assert(relative::ups(0) =~= Seq::<Comp>::empty());
        assert(up =~= Seq::<u8>::empty());
        assert(r.bytes =~= t.bytes);
        assert(r.comps() =~= relative::ups(0) + p.skip(s));
    } else {
        lemma_climb(d);
        lemma_joined(up, t.bytes);
    }
}

/// From one Windows path with nothing but names to another the relative path goes up from
/// `base` to what the two have in common and down from there, and leads to the path. No
/// relative path with fewer components does, among those with names unlike a drive that leave
/// `base` its prefix. The two paths write their prefix in the same way.
pub proof fn law_relative_path_is_shortest(
    path: PathView,
    base: PathView,
    r: PathView,
    other: PathView,
)
    requires
        is_unmarked(path),
        is_unmarked(base),
        has_only_names(path),
        has_only_names(base),
        same_prefix_text(path, base),
        relative::relative(path, base) == Some(r),
        keeps_prefix(base, r.bytes),
        other.platform is Windows,
        relative::is_relative(other),
        windows::no_name_is_a_drive(other.comps()),
        keeps_prefix(base, other.bytes),
    ensures
        ({
            let s = alike(path.comps(), base.comps()) as int;
            r.comps() == relative::ups((base.comps().len() - s) as nat) + path.comps().skip(s)
        }),
        base.join(r.bytes).cleaned() == path.cleaned(),
        base.join(other.bytes).cleaned() == path.cleaned() ==> r.comps().len()
            <= other.comps().len(),
{
    let windows = Platform::Windows;
    let (p, b) = (path.comps(), base.comps());
    let s = alike(p, b) as int;
    lemma_relative_components(path, base, r);
    lemma_relative_goes_down(path, base, r);
    lemma_floor(base);
    assert forall|i: int| s <= i < b.len() implies #[trigger] b[i] is Normal by {
        assert(!(b[i] is CurDir) && !(b[i] is ParentDir));
        assert(!(b[i] is Prefix) && !(b[i] is RootDir));
    }
    ways::law_names_lead_up(b, s);
    law_relative_path_leads_back(path, base, r);
    if base.join(other.bytes).cleaned() == path.cleaned() {
        let joined = base.join(other.bytes);
        let t = other.bytes;
        lemma_segments_of_path(t);
        let added = if base.bytes.len() > 0 {
            lemma_joined(base.bytes, t);
            segments(t)
        } else {
            reveal(model::push);
            assert(base.bytes =~= Seq::<u8>::empty());
            lemma_empty_path();
            assert(joined.bytes =~= t);
            other.comps()
        };
        assert(joined.comps() =~= b + added);
        assert(added.len() <= other.comps().len());
        assert forall|i: int| 0 <= i < added.len() implies (#[trigger] added[i] matches Comp::Normal(
            n,
        ) ==> !syntax::drive_at(n, 0)) by {
            let k = i + other.comps().len() - added.len();
            assert(added[i] == other.comps()[k]);
        }
        assert forall|i: int| 0 <= i < joined.comps().len() implies (
        #[trigger] joined.comps()[i] matches Comp::Normal(n) ==> !syntax::drive_at(n, 0)) by {
            if i < b.len() {
                assert(joined.comps()[i] == b[i]);
            } else {
                assert(joined.comps()[i] == added[i - b.len()]);
            }
        }
        lemma_cleaned_alike(joined, path);
        lemma_only_names_is_clean(path);
        lemma_only_names_is_clean(base);
        ways::lemma_clean_in_turn(b, added);
        ways::lemma_many_steps(b, added, p);
        ways::lemma_shared(p, p, p.len() as int);
        assert(ways::distance(p, p) == 0);
        windows::lemma_comps_readable(path.bytes);
        assert forall|i: int| 1 <= i < p.len() implies !(#[trigger] p[i] is Prefix) by {
            assert(windows::fits_at(p, i));
        }
        lemma_alike_is_shared(p, b);
    }
}

} // verus!
