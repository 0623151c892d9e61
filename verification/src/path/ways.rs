//! What holds of relative Unix paths.

use vstd::prelude::*;

use crate::path::clean;
use crate::path::laws;
use crate::path::model;
use crate::path::model::{Comp, PathView};
use crate::path::parts;
use crate::path::relative;
use crate::path::syntax;
use crate::path::syntax::{DOT, PieceView, SLASH, Separators};
use crate::platform::Platform;

verus! {

/// The components of a Unix path that is added to another: a leading `.` is none.
pub open spec fn segments(b: Seq<u8>) -> Seq<Comp> {
    parts::parts(Separators::Slash, b)
}

/// The components of a path that was extended by one without a root.
proof fn lemma_joined(a: Seq<u8>, t: Seq<u8>)
    requires
        a.len() > 0,
        !syntax::has_root(Platform::Unix, t),
    ensures
        model::comps(Platform::Unix, model::push(Platform::Unix, a, t)) == model::comps(
            Platform::Unix,
            a,
        ) + segments(t),
        model::push(Platform::Unix, a, t).len() > 0,
        model::push(Platform::Unix, a, t)[0] == a[0],
{
    reveal(model::push);
    let unix = Platform::Unix;
    let seps = Separators::Slash;
    let w = model::push(unix, a, t);
    let pre = if a.last() != SLASH {
        a.push(SLASH)
    } else {
        a
    };
    assert(w =~= pre + t);
    let n = pre.len() as int;
    parts::lemma_parts_shift(Separators::Slash, pre, t);
    let (first, start) = syntax::head(unix, a);
    let added = syntax::body(seps, w, n);
    let inner = syntax::body(seps, a, start);
    assert(w[0] == a[0]);
    if a.len() > 1 {
        assert(w[1] == a[1]);
    }
    assert(syntax::head(unix, w) == (first, start));
    assert(syntax::body(seps, w, start) =~= inner + added) by {
        if a.last() != SLASH {
            let tail = seq![SLASH] + t;
            assert(w =~= a + tail);
            laws::lemma_body_of_concat(Separators::Slash, a, tail, start);
            assert(w[a.len() as int] == SLASH);
        } else if a.len() == 1 {
            assert(inner =~= Seq::<PieceView>::empty());
        } else {
            let front = a.drop_last();
            let tail = seq![SLASH] + t;
            assert(w =~= front + tail);
            laws::lemma_body_of_concat(Separators::Slash, front, tail, start);
            assert(w[front.len() as int] == SLASH);
            assert(a =~= front + seq![SLASH]);
            laws::lemma_body_of_concat(Separators::Slash, front, seq![SLASH], start);
            assert(a[front.len() as int] == SLASH);
            assert(syntax::body(seps, a, a.len() as int) =~= Seq::<PieceView>::empty());
            assert(syntax::body(seps, a, front.len() as int) =~= Seq::<PieceView>::empty());
            assert(inner =~= syntax::body(seps, front, start));
        }
    }
    let before = syntax::pieces(unix, a);
    let after = syntax::pieces(unix, w);
    assert(after =~= before + added);
    model::lemma_pieces_fit(unix, a);
    let cs = model::comps(unix, w);
    let want = model::comps(unix, a) + segments(t);
    assert forall|k: int| 0 <= k < want.len() implies #[trigger] cs[k] == want[k] by {
        if k < before.len() {
            assert(after[k] == before[k]);
            assert(w.subrange(before[k].start, before[k].end) =~= a.subrange(
                before[k].start,
                before[k].end,
            ));
        } else {
            assert(after[k] == added[k - before.len()]);
            assert(segments(t)[k - before.len()] == added.map_values(
                |p: PieceView| model::comp_of(pre + t, p),
            )[k - before.len()]);
        }
    }
    assert(cs =~= want);
}

/// Cutting a Unix path behind its component `m - 1` keeps the components before.
proof fn lemma_cut_pieces(b: Seq<u8>, m: int)
    requires
        0 < m <= syntax::pieces(Platform::Unix, b).len(),
    ensures
        ({
            let all = syntax::pieces(Platform::Unix, b);
            syntax::pieces(Platform::Unix, b.take(all[m - 1].end)) == all.take(m)
        }),
{
    let unix = Platform::Unix;
    let seps = Separators::Slash;
    let all = syntax::pieces(unix, b);
    model::lemma_pieces_fit(unix, b);
    let e = all[m - 1].end;
    assert(0 <= e <= b.len());
    let cut = b.take(e);
    let (first, start) = syntax::head(unix, b);
    let rest = syntax::body(seps, b, start);
    assert(all =~= first + rest);
    model::lemma_body_fits(seps, b, start);
    if m <= first.len() {
        assert(first.len() == 1 && m == 1);
        assert(all[0] == first[0]);
        assert(e == 1);
        assert(cut[0] == b[0]);
        assert(syntax::body(seps, cut, 1) =~= Seq::<PieceView>::empty());
        assert(syntax::head(unix, cut) == (first, start));
    } else {
        let j = m - 1 - first.len();
        assert(all[m - 1] == rest[j]);
        parts::lemma_body_cut(seps, b, start, j);
        assert(e > start);
        assert(cut[0] == b[0]);
        if e > 1 {
            assert(cut[1] == b[1]);
        } else {
            assert(start == 0);
            assert(first.len() == 0);
            if j > 0 {
                assert(rest[0].end <= rest[j].start);
                assert(rest[0].start < rest[0].end);
            }
            lemma_one_byte_segment(b);
        }
        assert(syntax::head(unix, cut) == (first, start));
    }
    assert(syntax::pieces(unix, cut) =~= all.take(m));
}

/// The components of a Unix path that was cut behind its component `m - 1`.
proof fn lemma_cut_components(b: Seq<u8>, m: int)
    requires
        0 < m <= syntax::pieces(Platform::Unix, b).len(),
    ensures
        ({
            let e = syntax::pieces(Platform::Unix, b)[m - 1].end;
            &&& 0 <= e <= b.len()
            &&& model::comps(Platform::Unix, b.take(e)) == model::comps(Platform::Unix, b).take(m)
        }),
{
    let unix = Platform::Unix;
    let all = syntax::pieces(unix, b);
    model::lemma_pieces_fit(unix, b);
    model::lemma_pieces_in_order(unix, b);
    lemma_cut_pieces(b, m);
    let e = all[m - 1].end;
    assert(0 <= e <= b.len());
    let cut = b.take(e);
    let kept = syntax::pieces(unix, cut);
    let cs = model::comps(unix, cut);
    let want = model::comps(unix, b).take(m);
    assert(cs.len() == m);
    assert forall|k: int| 0 <= k < m implies #[trigger] cs[k] == want[k] by {
        assert(kept[k] == all[k]);
        if k < m - 1 {
            assert(all[k].end <= all[m - 1].start);
        }
        assert(all[k].end <= e);
        parts::lemma_cut_component(b, e, all[k]);
    }
    assert(cs =~= want);
}

/// The first components of a Unix path are a path of their own.
proof fn lemma_first_components(p: PathView, m: int)
    requires
        p.platform is Unix,
        0 <= m <= p.pieces().len(),
    ensures
        p.between(0, m).pieces() == p.pieces().take(m),
        p.between(0, m).comps() == p.comps().take(m),
        m > 0 ==> p.between(0, m).bytes == p.bytes.take(p.pieces()[m - 1].end),
        m > 0 ==> 0 <= p.pieces()[m - 1].end <= p.bytes.len(),
        m == 0 ==> p.between(0, m).bytes == Seq::<u8>::empty(),
{
    let q = p.between(0, m);
    if m == 0 {
        lemma_empty_path();
        assert(q.pieces() =~= p.pieces().take(0));
        assert(q.comps() =~= p.comps().take(0));
    } else {
        lemma_cut_pieces(p.bytes, m);
        lemma_cut_components(p.bytes, m);
        model::lemma_first_piece_opens(p.platform, p.bytes);
        let e = p.pieces()[m - 1].end;
        assert(p.bytes.subrange(0, e) =~= p.bytes.take(e));
    }
}

/// The empty path has no components.
proof fn lemma_empty_path()
    ensures
        syntax::pieces(Platform::Unix, Seq::<u8>::empty()) == Seq::<PieceView>::empty(),
        model::comps(Platform::Unix, Seq::<u8>::empty()) == Seq::<Comp>::empty(),
        segments(Seq::<u8>::empty()) == Seq::<Comp>::empty(),
{
    let b = Seq::<u8>::empty();
    assert(syntax::pieces(Platform::Unix, b) =~= Seq::<PieceView>::empty());
    assert(model::comps(Platform::Unix, b) =~= Seq::<Comp>::empty());
    assert(segments(b) =~= Seq::<Comp>::empty());
}

/// A Unix path without a root whose first name is one byte long does not open
/// with a dot.
proof fn lemma_one_byte_segment(b: Seq<u8>)
    requires
        b.len() > 0,
        syntax::head(Platform::Unix, b).0.len() == 0,
        syntax::pieces(Platform::Unix, b).len() > 0,
        syntax::body(Separators::Slash, b, 0).len() > 0,
        syntax::body(Separators::Slash, b, 0)[0].end == 1,
    ensures
        b[0] != DOT,
{
    let seps = Separators::Slash;
    let end = syntax::segment_end(seps, b, 0);
    syntax::lemma_segment_end(seps, b, 0);
    assert(!seps.has(b[0]));
    if b[0] == DOT {
        if b.len() > 1 {
            assert(!seps.has(b[1]));
            assert(end > 1);
            let segment = b.subrange(0, end);
            assert(segment.len() == end);
            assert(segment != seq![DOT]) by {
                assert(seq![DOT].len() == 1);
            }
        }
    }
}

/// The last components of a Unix path, from the second on, as a path to add.
proof fn lemma_last_components(p: PathView, k: int)
    requires
        p.platform is Unix,
        0 < k <= p.comps().len(),
    ensures
        ({
            let t = p.between(k, p.comps().len() as int).bytes;
            &&& !syntax::has_root(Platform::Unix, t)
            &&& segments(t) == p.comps().skip(k)
        }),
{
    let unix = Platform::Unix;
    let seps = Separators::Slash;
    let b = p.bytes;
    let n = p.comps().len() as int;
    let t = p.between(k, n).bytes;
    if k == n {
        lemma_empty_path();
        assert(p.comps().skip(k) =~= Seq::<Comp>::empty());
    } else {
        let all = p.pieces();
        let (first, start) = syntax::head(unix, b);
        let rest = syntax::body(seps, b, start);
        assert(all =~= first + rest);
        let j = k - first.len();
        assert(all[k] == rest[j]);
        parts::lemma_body_from(seps, b, start, j);
        let s = all[k].start;
        let behind = syntax::body(seps, b, s);
        assert(behind =~= all.skip(k));
        assert(all[n - 1] == behind[n - 1 - k]);
        let e = all[n - 1].end;
        parts::lemma_body_cut(seps, b, s, n - 1 - k);
        assert(behind.take(n - k) =~= behind);
        model::lemma_body_fits(seps, b, s);
        assert(s < e <= b.len());
        assert(b.take(e) =~= b.take(s) + t);
        parts::lemma_parts_shift(Separators::Slash, b.take(s), t);
        assert(t[0] == b[s]);
        let found = segments(t);
        let want = p.comps().skip(k);
        assert(found.len() == want.len());
        assert forall|i: int| 0 <= i < want.len() implies #[trigger] found[i] == want[i] by {
            assert(behind[i] == all[k + i]);
            if i < n - 1 - k {
                assert(behind[i].end <= behind[n - 1 - k].start);
            }
            parts::lemma_cut_component(b, e, behind[i]);
        }
        assert(found =~= want);
    }
}

/// A path without a root that is added to another loses a leading `.`.
proof fn lemma_segments_of_path(t: Seq<u8>)
    requires
        !syntax::has_root(Platform::Unix, t),
    ensures
        model::comps(Platform::Unix, t) == segments(t) || model::comps(Platform::Unix, t) == seq![
            Comp::CurDir,
        ] + segments(t),
        t.len() > 1 && t[0] == DOT && t[1] == DOT ==> model::comps(Platform::Unix, t) == segments(
            t,
        ),
{
    let unix = Platform::Unix;
    let seps = Separators::Slash;
    if syntax::opens_with_dot(seps, t) {
        assert(syntax::segment_end(seps, t, 0) == 1) by {
            syntax::lemma_segment_ends_at(seps, t, 0, 1);
        }
        assert(t.subrange(0, 1) =~= seq![DOT]);
        assert(syntax::body(seps, t, 0) == syntax::body(seps, t, 1));
        assert(model::comps(unix, t) =~= seq![Comp::CurDir] + segments(t));
    } else {
        assert(model::comps(unix, t) =~= segments(t));
    }
}

/// How many components two paths have in common from the start.
pub open spec fn shared(a: Seq<Comp>, b: Seq<Comp>) -> nat
    decreases a.len(),
{
    if a.len() > 0 && b.len() > 0 && a[0] == b[0] {
        1 + shared(a.drop_first(), b.drop_first())
    } else {
        0
    }
}

/// The first components are equal as far as they are shared.
pub proof fn lemma_shared(a: Seq<Comp>, b: Seq<Comp>, m: int)
    requires
        0 <= m <= b.len(),
    ensures
        shared(a, b) <= a.len(),
        shared(a, b) <= b.len(),
        m <= shared(a, b) <==> (m <= a.len() && a.take(m) == b.take(m)),
    decreases a.len(),
{
    if m == 0 {
        assert(a.take(0) =~= b.take(0));
    }
    if a.len() > 0 && b.len() > 0 && a[0] == b[0] {
        let x = a.drop_first();
        let y = b.drop_first();
        if m > 0 {
            lemma_shared(x, y, m - 1);
            if m <= a.len() {
                assert(a.take(m) =~= seq![a[0]] + x.take(m - 1));
                assert(b.take(m) =~= seq![b[0]] + y.take(m - 1));
                assert(x.take(m - 1) =~= a.take(m).drop_first());
                assert(y.take(m - 1) =~= b.take(m).drop_first());
            }
        } else {
            lemma_shared(x, y, 0);
        }
    } else if 0 < m <= a.len() {
        assert(a.take(m)[0] == a[0]);
        assert(b.take(m)[0] == b[0]);
    }
}

/// Equality of components without prefixes is plain equality.
proof fn lemma_same_without_prefix(a: Seq<Comp>, b: Seq<Comp>)
    requires
        laws::readable(a),
    ensures
        model::same_comps(a, b) <==> a == b,
{
    if model::same_comps(a, b) {
        assert forall|i: int| 0 <= i < a.len() implies #[trigger] a[i] == b[i] by {
            assert(model::same_comp(a[i], b[i]));
        }
        assert(a =~= b);
    }
}

/// The way down from the last of the shared components.
pub open spec fn below_shared(path: PathView, base: PathView) -> PathView {
    path.between(shared(path.comps(), base.comps()) as int, path.comps().len() as int)
}

/// An ancestor of a Unix path that is made of its first `m` components.
pub open spec fn is_start(ancestor: PathView, base: PathView, m: int) -> bool {
    &&& ancestor.platform is Unix
    &&& 0 <= m <= base.pieces().len()
    &&& ancestor.pieces() == base.pieces().take(m)
    &&& ancestor.comps() == base.comps().take(m)
    &&& m > 0 ==> base.pieces()[m - 1].end <= ancestor.bytes.len() <= base.bytes.len()
    &&& ancestor.bytes.len() <= base.bytes.len()
    &&& ancestor.bytes == base.bytes.take(ancestor.bytes.len() as int)
}

/// The parent of the first `m` components is made of the first `m - 1`.
proof fn lemma_parent_of_start(ancestor: PathView, base: PathView, m: int)
    requires
        base.platform is Unix,
        is_start(ancestor, base, m),
        m > 0,
    ensures
        match ancestor.parent() {
            Some(next) => next == base.between(0, m - 1) && is_start(next, base, m - 1)
                && !(base.comps()[m - 1] is RootDir),
            None => base.comps()[m - 1] is RootDir,
        },
{
    let kind = base.pieces()[m - 1].kind;
    laws::lemma_comps_readable(base.bytes);
    assert(ancestor.pieces()[m - 1] == base.pieces()[m - 1]);
    assert(base.comps()[m - 1] == model::comp_of(base.bytes, base.pieces()[m - 1]));
    if let Some(next) = ancestor.parent() {
        lemma_first_components(base, m - 1);
        let q = base.between(0, m - 1);
        if m > 1 {
            model::lemma_first_piece_opens(base.platform, base.bytes);
            model::lemma_pieces_fit(base.platform, base.bytes);
            model::lemma_pieces_in_order(base.platform, base.bytes);
            let e = base.pieces()[m - 2].end;
            assert(ancestor.pieces()[m - 2] == base.pieces()[m - 2]);
            assert(ancestor.pieces()[0] == base.pieces()[0]);
            assert(e <= base.pieces()[m - 1].start);
            assert(base.pieces()[m - 1].start <= base.pieces()[m - 1].end);
            assert(ancestor.bytes.subrange(0, e) =~= base.bytes.take(e));
        }
        assert(next.bytes == q.bytes);
        assert(q.bytes =~= base.bytes.take(q.bytes.len() as int));
    }
}

/// Which way [`relative::way`] takes from the first `m` components of a Unix path on.
proof fn lemma_way(path: PathView, base: PathView, ancestor: PathView, m: int)
    requires
        path.platform is Unix,
        base.platform is Unix,
        is_start(ancestor, base, m),
        m >= shared(path.comps(), base.comps()),
    ensures
        ({
            let s = shared(path.comps(), base.comps());
            let r = relative::way(path, base, ancestor);
            if s == 0 && m > 0 && base.comps()[0] is RootDir {
                r is None
            } else {
                r == Some(
                    PathView {
                        platform: base.platform,
                        bytes: model::collect(
                            base.platform,
                            relative::ups((base.comps().len() - s) as nat),
                        ),
                    }.join(below_shared(path, base).bytes),
                )
            }
        }),
    decreases m,
{
    let s = shared(path.comps(), base.comps()) as int;
    let a = path.comps();
    let b = base.comps();
    lemma_shared(a, b, m);
    laws::lemma_comps_readable(path.bytes);
    assert(base.comps().len() == base.pieces().len());
    assert(ancestor.comps().len() == m);
    if m <= a.len() {
        let front = a.take(m);
        assert(laws::readable(front)) by {
            assert forall|i: int| 0 <= i < front.len() implies match #[trigger] front[i] {
                Comp::Prefix(_) => false,
                Comp::RootDir => i == 0,
                Comp::CurDir => i == 0,
                Comp::ParentDir => true,
                Comp::Normal(t) => laws::plain_name(t),
            } by {
                assert(front[i] == a[i]);
            }
        }
        lemma_same_without_prefix(front, b.take(m));
    }
    assert(path.starts_with(ancestor) <==> m <= s);
    if m == s {
        assert(path.strip_prefix(ancestor) == Some(below_shared(path, base)));
        assert(relative::levels(base, ancestor) == b.len() - s);
        if m > 0 {
            assert(s > 0);
        }
    } else {
        assert(path.strip_prefix(ancestor) is None);
        lemma_parent_of_start(ancestor, base, m);
        laws::lemma_comps_readable(base.bytes);
        relative::lemma_parent_is_shorter(ancestor);
        if let Some(next) = ancestor.parent() {
            lemma_way(path, base, next, m - 1);
            if m == 1 {
                assert(!(b[0] is RootDir));
            }
        } else {
            assert(b[m - 1] is RootDir);
            assert(m == 1);
        }
    }
}

/// A way between two Unix paths is a relative path if and only if both start at the root or
/// neither does.
proof fn lemma_way_is_relative(path: PathView, base: PathView, r: PathView)
    requires
        path.platform is Unix,
        base.platform is Unix,
        relative::way(path, base, base) == Some(r),
    ensures
        relative::is_relative(r) <==> syntax::has_root(path.platform, path.bytes)
            == syntax::has_root(base.platform, base.bytes),
{
    reveal(model::push);
    let unix = Platform::Unix;
    let s = shared(path.comps(), base.comps()) as int;
    let below = below_shared(path, base);
    let t = below.bytes;
    let n = path.comps().len() as int;
    lemma_way_from_base(path, base);
    lemma_root_component(path);
    lemma_root_component(base);
    lemma_shared(path.comps(), base.comps(), 0);
    let d = (base.comps().len() - s) as nat;
    let up = model::collect(unix, relative::ups(d));
    assert(r.bytes == model::push(unix, up, t));
    if s == 0 {
        lemma_first_components(path, n);
        assert(path.comps().take(n) =~= path.comps());
        lemma_root_component(below);
        if path.comps().len() > 0 && base.comps().len() > 0 && path.comps()[0] is RootDir
            && base.comps()[0] is RootDir {
            assert(path.comps()[0] == base.comps()[0]);
        }
    } else {
        lemma_last_components(path, s);
        lemma_shared(path.comps(), base.comps(), 1);
        assert(path.comps().take(1)[0] == base.comps().take(1)[0]);
    }
    if !syntax::has_root(unix, t) {
        if d == 0 {
            assert(relative::ups(0) =~= Seq::<Comp>::empty());
            assert(up =~= Seq::<u8>::empty());
            assert(r.bytes =~= t);
        } else {
            lemma_climb(d);
            assert(r.bytes[0] == up[0]);
        }
    }
}

/// Between two Unix paths there is a relative path if and only if both start at the root or
/// neither does.
pub proof fn law_relative_path_exists(path: PathView, base: PathView)
    requires
        path.platform is Unix,
        base.platform is Unix,
    ensures
        relative::relative(path, base) is Some <==> syntax::has_root(path.platform, path.bytes)
            == syntax::has_root(base.platform, base.bytes),
{
    lemma_way_from_base(path, base);
    lemma_root_component(path);
    lemma_root_component(base);
    lemma_shared(path.comps(), base.comps(), 0);
    if path.comps().len() > 0 && base.comps().len() > 0 {
        if path.comps()[0] is RootDir && base.comps()[0] is RootDir {
            assert(path.comps()[0] == base.comps()[0]);
            assert(shared(path.comps(), base.comps()) > 0);
        }
    }
    if let Some(r) = relative::way(path, base, base) {
        lemma_way_is_relative(path, base, r);
    }
}

/// A Unix path has a root if and only if its first component is one.
proof fn lemma_root_component(p: PathView)
    requires
        p.platform is Unix,
    ensures
        syntax::has_root(p.platform, p.bytes) <==> p.comps().len() > 0 && p.comps()[0] is RootDir,
{
    let (first, start) = syntax::head(p.platform, p.bytes);
    let rest = syntax::body(Separators::Slash, p.bytes, start);
    model::lemma_body_fits(Separators::Slash, p.bytes, start);
    if p.comps().len() > 0 {
        assert(p.comps()[0] == model::comp_of(p.bytes, p.pieces()[0]));
        if first.len() > 0 {
            assert(p.pieces()[0] == first[0]);
        } else {
            assert(p.pieces()[0] == rest[0]);
        }
    }
    if syntax::has_root(p.platform, p.bytes) {
        assert(p.pieces()[0] == first[0]);
        assert(p.comps().len() > 0);
    }
}

/// Which way [`relative::way`] takes from a Unix path.
proof fn lemma_way_from_base(path: PathView, base: PathView)
    requires
        path.platform is Unix,
        base.platform is Unix,
    ensures
        ({
            let s = shared(path.comps(), base.comps());
            let r = relative::way(path, base, base);
            if s == 0 && base.comps().len() > 0 && base.comps()[0] is RootDir {
                r is None
            } else {
                r == Some(
                    PathView {
                        platform: base.platform,
                        bytes: model::collect(
                            base.platform,
                            relative::ups((base.comps().len() - s) as nat),
                        ),
                    }.join(below_shared(path, base).bytes),
                )
            }
        }),
{
    let n = base.comps().len() as int;
    assert(base.pieces().take(n) =~= base.pieces());
    assert(base.comps().take(n) =~= base.comps());
    assert(base.bytes.take(base.bytes.len() as int) =~= base.bytes);
    model::lemma_pieces_fit(base.platform, base.bytes);
    lemma_shared(path.comps(), base.comps(), 0);
    assert(is_start(base, base, n));
    lemma_way(path, base, base, n);
}

/// The cleaned components after more components were read.
pub open spec fn clean_from(out: Seq<Comp>, cs: Seq<Comp>) -> Seq<Comp>
    decreases cs.len(),
{
    if cs.len() == 0 {
        out
    } else {
        clean::clean_step(clean_from(out, cs.drop_last()), cs.last())
    }
}

/// Cleaning reads one list of components after another.
pub proof fn lemma_clean_in_turn(a: Seq<Comp>, b: Seq<Comp>)
    ensures
        clean::clean_comps(a + b) == clean_from(clean::clean_comps(a), b),
    decreases b.len(),
{
    if b.len() == 0 {
        assert(a + b =~= a);
    } else {
        lemma_clean_in_turn(a, b.drop_last());
        assert((a + b).drop_last() =~= a + b.drop_last());
        assert((a + b).last() == b.last());
    }
}

/// A leading `.` changes nothing.
pub proof fn lemma_dot_is_dropped(out: Seq<Comp>, cs: Seq<Comp>)
    ensures
        clean_from(out, seq![Comp::CurDir] + cs) == clean_from(out, cs),
    decreases cs.len(),
{
    let dot = seq![Comp::CurDir];
    if cs.len() == 0 {
        assert((dot + cs).drop_last() =~= Seq::<Comp>::empty());
        assert((dot + cs).last() == Comp::CurDir);
        assert(clean_from(out, (dot + cs).drop_last()) == out);
    } else {
        lemma_dot_is_dropped(out, cs.drop_last());
        assert((dot + cs).drop_last() =~= dot + cs.drop_last());
        assert((dot + cs).last() == cs.last());
    }
}

/// Whether going up from the end of `cs` comes to its first `m` components, as far as
/// cleaning tells.
pub open spec fn leads_up(cs: Seq<Comp>, m: int) -> bool {
    clean::clean_comps(cs + relative::ups((cs.len() - m) as nat)) == clean::clean_comps(cs.take(m))
}

/// Going up over names leads to what stands before them.
pub proof fn law_names_lead_up(cs: Seq<Comp>, m: int)
    requires
        0 <= m <= cs.len(),
        forall|i: int| m <= i < cs.len() ==> #[trigger] cs[i] is Normal,
    ensures
        leads_up(cs, m),
    decreases cs.len() - m,
{
    let d = (cs.len() - m) as nat;
    if d == 0 {
        assert(cs + relative::ups(0) =~= cs.take(m));
    } else {
        let front = cs.drop_last();
        assert forall|i: int| m <= i < front.len() implies #[trigger] front[i] is Normal by {
            assert(front[i] == cs[i]);
        }
        law_names_lead_up(front, m);
        assert(front.take(m) =~= cs.take(m));
        let one = seq![cs[cs.len() - 1], Comp::ParentDir];
        let more = relative::ups((d - 1) as nat);
        assert(cs + relative::ups(d) =~= (front + one) + more);
        lemma_clean_in_turn(front + one, more);
        lemma_clean_in_turn(front, more);
        let name = front.push(cs[cs.len() - 1]);
        assert((front + one).drop_last() =~= name);
        assert((front + one).last() == Comp::ParentDir);
        assert(name.drop_last() =~= front);
        assert(clean::clean_comps(name) == clean::clean_comps(front).push(cs[cs.len() - 1]));
        assert(clean::clean_comps(front + one) =~= clean::clean_comps(front));
    }
}

/// The components of so many `..` in a row.
proof fn lemma_climb(n: nat)
    requires
        n > 0,
    ensures
        ({
            let b = model::collect(Platform::Unix, relative::ups(n));
            &&& b.len() > 1
            &&& b[0] == DOT
            &&& b[1] == DOT
            &&& model::comps(Platform::Unix, b) == relative::ups(n)
        }),
    decreases n,
{
    reveal(model::push);
    let cs = relative::ups(n);
    let b = model::collect(Platform::Unix, cs);
    laws::lemma_collected_is_read_back(cs);
    assert(cs.drop_last() =~= relative::ups((n - 1) as nat));
    assert(cs.last() == Comp::ParentDir);
    let two = model::comp_text(Platform::Unix, Comp::ParentDir);
    assert(two.len() == 2 && two[0] == DOT && two[1] == DOT);
    if n == 1 {
        assert(model::collect(Platform::Unix, cs.drop_last()) =~= Seq::<u8>::empty());
        assert(b =~= two);
    } else {
        lemma_climb((n - 1) as nat);
    }
}

/// The components that a relative path adds to `base`.
proof fn lemma_relative_adds(path: PathView, base: PathView, r: PathView)
    requires
        path.platform is Unix,
        base.platform is Unix,
        base.comps().len() > 0,
        relative::relative(path, base) == Some(r),
        !syntax::has_root(Platform::Unix, below_shared(path, base).bytes),
    ensures
        base.join(r.bytes).comps() == base.comps() + relative::ups(
            (base.comps().len() - shared(path.comps(), base.comps())) as nat,
        ) + segments(below_shared(path, base).bytes),
{
    reveal(model::push);
    let unix = Platform::Unix;
    let s = shared(path.comps(), base.comps());
    lemma_way_from_base(path, base);
    lemma_shared(path.comps(), base.comps(), 0);
    let d = (base.comps().len() - s) as nat;
    let up = model::collect(unix, relative::ups(d));
    let t = below_shared(path, base).bytes;
    assert(r.bytes == model::push(unix, up, t));
    assert(base.bytes.len() > 0) by {
        if base.bytes.len() == 0 {
            assert(base.bytes =~= Seq::<u8>::empty());
            lemma_empty_path();
        }
    }
    if d == 0 {
        assert(relative::ups(0) =~= Seq::<Comp>::empty());
        assert(up =~= Seq::<u8>::empty());
        assert(r.bytes =~= t);
        assert(base.comps() + relative::ups(0) =~= base.comps());
    } else {
        lemma_climb(d);
        lemma_joined(up, t);
        assert(r.bytes[0] == DOT);
        assert(r.bytes[1] == up[1]);
        assert(!syntax::has_root(unix, r.bytes));
        lemma_segments_of_path(r.bytes);
        assert(segments(r.bytes) == relative::ups(d) + segments(t));
        assert(base.comps() + (relative::ups(d) + segments(t)) =~= base.comps() + relative::ups(d)
            + segments(t));
    }
    lemma_joined(base.bytes, r.bytes);
}

/// A relative path leads from `base` to `path`: added to `base` and cleaned, it is the
/// cleaned `path`, wherever going up from `base` leads to what the two paths share.
pub proof fn law_relative_path_leads_back(path: PathView, base: PathView, r: PathView)
    requires
        path.platform is Unix,
        base.platform is Unix,
        relative::relative(path, base) == Some(r),
        leads_up(base.comps(), shared(path.comps(), base.comps()) as int),
    ensures
        base.join(r.bytes).cleaned() == path.cleaned(),
{
    reveal(model::push);
    let unix = Platform::Unix;
    let s = shared(path.comps(), base.comps()) as int;
    let below = below_shared(path, base);
    let t = below.bytes;
    let n = path.comps().len() as int;
    lemma_way_from_base(path, base);
    lemma_shared(path.comps(), base.comps(), 0);
    lemma_shared(path.comps(), base.comps(), s);
    let whole = path.comps();
    assert(whole =~= whole.take(s) + whole.skip(s));
    if s == 0 {
        lemma_first_components(path, n);
        assert(whole.take(n) =~= whole);
        assert(whole.skip(0) =~= whole);
        assert(below.comps() == whole);
        lemma_root_component(below);
    } else {
        lemma_last_components(path, s);
    }
    if syntax::has_root(unix, t) {
        assert(r.bytes == t);
        assert(base.join(r.bytes).bytes == t);
        assert(base.join(r.bytes).comps() == whole);
    } else if base.comps().len() == 0 {
        assert(relative::ups(0) =~= Seq::<Comp>::empty());
        assert(model::collect(unix, relative::ups(0)) =~= Seq::<u8>::empty());
        assert(r.bytes =~= t);
        lemma_no_components_no_bytes(base);
        assert(base.join(r.bytes).bytes =~= t);
        assert(base.join(r.bytes).comps() == whole);
    } else {
        lemma_relative_adds(path, base, r);
        let up = base.comps() + relative::ups((base.comps().len() - s) as nat);
        lemma_clean_in_turn(up, segments(t));
        lemma_clean_in_turn(whole.take(s), whole.skip(s));
        let out = clean::clean_comps(whole.take(s));
        assert(clean::clean_comps(up) == out);
        if s == 0 {
            lemma_segments_of_path(t);
            lemma_dot_is_dropped(out, segments(t));
        }
    }
}

/// A Unix path without components is empty.
proof fn lemma_no_components_no_bytes(p: PathView)
    requires
        p.platform is Unix,
        p.comps().len() == 0,
    ensures
        p.bytes == Seq::<u8>::empty(),
{
    let b = p.bytes;
    let seps = Separators::Slash;
    if b.len() > 0 {
        let (first, start) = syntax::head(p.platform, b);
        assert(p.pieces().len() == 0);
        assert(first.len() == 0);
        assert(!seps.has(b[0]));
        let end = syntax::segment_end(seps, b, 0);
        syntax::lemma_segment_end(seps, b, 0);
        assert(end > 0);
        let segment = b.subrange(0, end);
        if segment == seq![DOT] {
            assert(segment.len() == 1);
            assert(segment[0] == b[0]);
            assert(syntax::opens_with_dot(seps, b));
        }
    }
    assert(b =~= Seq::<u8>::empty());
}

/// How a single name, `..` and `.` are read behind something else.
proof fn lemma_segments_of_name(x: Seq<u8>)
    ensures
        laws::plain_name(x) ==> segments(x) == seq![Comp::Normal(x)],
        x == seq![DOT, DOT] ==> segments(x) == seq![Comp::ParentDir],
        x == seq![DOT] ==> segments(x) == Seq::<Comp>::empty(),
        laws::plain_name(x) || x == seq![DOT, DOT] || x == seq![DOT] ==> !syntax::has_root(
            Platform::Unix,
            x,
        ),
{
    let seps = Separators::Slash;
    assert(seq![DOT].len() == 1);
    assert(seq![DOT, DOT].len() == 2);
    if laws::plain_name(x) || x == seq![DOT, DOT] || x == seq![DOT] {
        assert(!seps.has(x[0]));
        assert forall|k: int| 0 <= k < x.len() implies !seps.has(#[trigger] x[k]) by {}
        syntax::lemma_segment_ends_at(seps, x, 0, x.len() as int);
        assert(x.subrange(0, x.len() as int) =~= x);
        let none = syntax::body(seps, x, x.len() as int);
        assert(none =~= Seq::<PieceView>::empty());
        if x == seq![DOT] {
            assert(syntax::body(seps, x, 0) =~= none);
            assert(segments(x) =~= Seq::<Comp>::empty());
        } else if x == seq![DOT, DOT] {
            assert(segments(x) =~= seq![Comp::ParentDir]);
        } else {
            assert(segments(x) =~= seq![Comp::Normal(x)]);
        }
    }
}

/// The components of a path that is joined with a name, with `..` or with `.`, apart from a
/// `.` at its start.
proof fn lemma_joined_name(p: PathView, x: Seq<u8>)
    requires
        p.platform is Unix,
        laws::plain_name(x) || x == seq![DOT, DOT] || x == seq![DOT],
    ensures
        p.join(x).comps() == p.comps() + segments(x) || (p.comps().len() == 0 && x == seq![DOT]
            && p.join(x).comps() == seq![Comp::CurDir]),
        p.join(x).bytes.len() > 0,
        p.join(x).platform is Unix,
{
    lemma_segments_of_name(x);
    if p.bytes.len() > 0 {
        lemma_joined(p.bytes, x);
    } else {
        reveal(model::push);
        assert(p.bytes =~= Seq::<u8>::empty());
        lemma_empty_path();
        assert(p.join(x).bytes =~= x);
        lemma_segments_of_path(x);
        assert(p.comps() + segments(x) =~= segments(x));
        if syntax::opens_with_dot(Separators::Slash, x) {
            if x.len() == 1 {
                assert(x =~= seq![DOT]);
                assert(seq![Comp::CurDir] + segments(x) =~= seq![Comp::CurDir]);
            } else {
                assert(x[1] == SLASH);
            }
        }
        let (first, start) = syntax::head(Platform::Unix, x);
        if !syntax::opens_with_dot(Separators::Slash, x) {
            assert(model::comps(Platform::Unix, x) =~= segments(x));
        }
    }
}

/// Cleaning a path that is joined with a name gives the cleaned path joined with the name,
/// or the name alone where the cleaned path is `.`. Joined with `.`, or with a name and then
/// with `..`, a path is cleaned as it is without them.
pub proof fn law_clean_of_joined_paths(p: PathView, name: Seq<u8>)
    requires
        p.platform is Unix,
        laws::plain_name(name),
    ensures
        p.join(name).cleaned() == (if p.cleaned().bytes == seq![DOT] {
            PathView { platform: p.platform, bytes: name }
        } else {
            p.cleaned().join(name)
        }),
        p.join(name).join(seq![DOT, DOT]).cleaned() == p.cleaned(),
        p.join(seq![DOT]).cleaned() == p.cleaned(),
{
    let left = clean::clean_comps(p.comps());
    let below = p.join(name);
    let up = below.join(seq![DOT, DOT]);
    let stay = p.join(seq![DOT]);
    lemma_joined_name(p, name);
    lemma_joined_name(below, seq![DOT, DOT]);
    lemma_joined_name(p, seq![DOT]);
    lemma_segments_of_name(name);
    lemma_segments_of_name(seq![DOT, DOT]);
    lemma_segments_of_name(seq![DOT]);
    assert(seq![DOT].len() == 1);
    if name == seq![DOT] {
        assert(!laws::plain_name(name));
    }
    let named = p.comps().push(Comp::Normal(name));
    assert(below.comps() =~= named);
    assert(named.drop_last() =~= p.comps());
    assert(clean::clean_comps(named) == left.push(Comp::Normal(name)));
    assert(left.push(Comp::Normal(name)).drop_last() =~= left);
    assert(left.push(Comp::Normal(name)).last() == Comp::Normal(name));
    let risen = named.push(Comp::ParentDir);
    assert(up.comps() =~= risen);
    assert(risen.drop_last() =~= named);
    assert(clean::clean_comps(risen) == left);
    if stay.comps() == p.comps() + segments(seq![DOT]) {
        assert(stay.comps() =~= p.comps());
    } else {
        let dot = seq![Comp::CurDir];
        assert(p.comps() =~= Seq::<Comp>::empty());
        assert(dot.drop_last() =~= Seq::<Comp>::empty());
        assert(dot.last() == Comp::CurDir);
        assert(clean::clean_comps(dot.drop_last()) =~= Seq::<Comp>::empty());
        assert(clean::clean_comps(dot) =~= left);
    }
    assert(clean::clean_comps(stay.comps()) == left);
    laws::law_cleaned_components(p);
    if left.len() == 0 {
        assert(left =~= Seq::<Comp>::empty());
        model::lemma_push_on_unix(Seq::<u8>::empty(), name);
        assert(model::collect(Platform::Unix, left) =~= Seq::<u8>::empty());
        assert(Seq::<u8>::empty() + name =~= name);
    } else {
        clean::law_result_is_clean(p.comps());
        assert(left[0] !is CurDir);
        if p.cleaned().bytes == seq![DOT] {
            let b = seq![DOT];
            assert(syntax::body(Separators::Slash, b, 1) =~= Seq::<PieceView>::empty());
            assert(model::comps(Platform::Unix, b) =~= seq![Comp::CurDir]);
        }
    }
}

/// How many steps lie between two lists of components: up to what they share, and down.
pub open spec fn distance(from: Seq<Comp>, to: Seq<Comp>) -> int {
    from.len() + to.len() - 2 * shared(to, from)
}

/// Reading one component comes nearer by one step at most.
proof fn lemma_one_step(out: Seq<Comp>, next: Comp, to: Seq<Comp>)
    ensures
        distance(clean::clean_step(out, next), to) >= distance(out, to) - 1,
{
    let after = clean::clean_step(out, next);
    let s = shared(to, out) as int;
    let m = shared(to, after) as int;
    lemma_shared(to, out, 0);
    lemma_shared(to, after, 0);
    lemma_shared(to, after, m);
    if after != out {
        if after.len() > out.len() {
            let k = if m <= out.len() {
                m
            } else {
                m - 1
            };
            assert(out.take(k) =~= after.take(m).take(k));
            assert(to.take(k) =~= to.take(m).take(k));
            lemma_shared(to, out, k);
        } else {
            assert(out.take(m) =~= after.take(m));
            lemma_shared(to, out, m);
        }
    }
}

/// Reading components comes nearer by as many steps at most.
pub proof fn lemma_many_steps(out: Seq<Comp>, cs: Seq<Comp>, to: Seq<Comp>)
    ensures
        distance(clean_from(out, cs), to) >= distance(out, to) - cs.len(),
    decreases cs.len(),
{
    if cs.len() > 0 {
        lemma_many_steps(out, cs.drop_last(), to);
        lemma_one_step(clean_from(out, cs.drop_last()), cs.last(), to);
    }
}

/// Whether a path has neither a `.` nor a `..` among its components.
pub open spec fn has_no_dots(p: PathView) -> bool {
    forall|i: int|
        0 <= i < p.comps().len() ==> #[trigger] p.comps()[i] is Normal || p.comps()[i] is RootDir
}

/// Cleaning leaves the components of a path without dots.
proof fn lemma_no_dots_is_clean(p: PathView)
    requires
        has_no_dots(p),
    ensures
        clean::clean_comps(p.comps()) == p.comps(),
{
    let cs = p.comps();
    assert forall|i: int| 0 <= i < cs.len() implies {
        &&& #[trigger] cs[i] !is CurDir
        &&& cs[i] is ParentDir && i > 0 ==> cs[i - 1] is ParentDir || cs[i - 1] is Prefix
    } by {
        assert(cs[i] is Normal || cs[i] is RootDir);
    }
    clean::law_clean_components_stay(cs);
}

/// Two Unix paths that are cleaned to the same path have the same components left.
proof fn lemma_same_cleaned(p: PathView, q: PathView)
    requires
        p.platform is Unix,
        q.platform is Unix,
        p.cleaned() == q.cleaned(),
    ensures
        clean::clean_comps(p.comps()) == clean::clean_comps(q.comps()),
{
    let a = clean::clean_comps(p.comps());
    let b = clean::clean_comps(q.comps());
    laws::law_cleaned_components(p);
    laws::law_cleaned_components(q);
    clean::law_result_is_clean(p.comps());
    clean::law_result_is_clean(q.comps());
    if a.len() > 0 {
        assert(a[0] !is CurDir);
    }
    if b.len() > 0 {
        assert(b[0] !is CurDir);
    }
    assert(seq![Comp::CurDir][0] is CurDir);
    if a.len() == 0 && b.len() == 0 {
        assert(a =~= b);
    }
}

/// The components of the way down, where none of them is a dot.
proof fn lemma_way_down(path: PathView, s: int)
    requires
        path.platform is Unix,
        has_no_dots(path),
        0 <= s <= path.comps().len(),
        s == 0 ==> !syntax::has_root(Platform::Unix, path.bytes),
    ensures
        ({
            let t = path.between(s, path.comps().len() as int);
            &&& !syntax::has_root(Platform::Unix, t.bytes)
            &&& segments(t.bytes) == path.comps().skip(s)
            &&& t.comps() == path.comps().skip(s)
        }),
{
    let n = path.comps().len() as int;
    let t = path.between(s, n);
    if s == 0 {
        lemma_first_components(path, n);
        assert(path.comps().take(n) =~= path.comps());
        assert(path.comps().skip(0) =~= path.comps());
        lemma_root_component(path);
        lemma_root_component(t);
        lemma_segments_of_path(t.bytes);
        if t.comps().len() > 0 {
            assert(path.comps()[0] is Normal || path.comps()[0] is RootDir);
            assert((seq![Comp::CurDir] + segments(t.bytes))[0] is CurDir);
        }
        if t.comps() != segments(t.bytes) {
            assert((seq![Comp::CurDir] + segments(t.bytes))[0] is CurDir);
        }
    } else {
        lemma_last_components(path, s);
        lemma_segments_of_path(t.bytes);
        if syntax::opens_with_dot(Separators::Slash, t.bytes) {
            lemma_not_a_dot(path, s);
        } else {
            let (first, start) = syntax::head(Platform::Unix, t.bytes);
            assert(t.comps() =~= segments(t.bytes));
        }
    }
}

/// What stands at a name does not open with a `.` of its own.
proof fn lemma_not_a_dot(path: PathView, s: int)
    requires
        path.platform is Unix,
        has_no_dots(path),
        0 < s <= path.comps().len(),
    ensures
        !syntax::opens_with_dot(
            Separators::Slash,
            path.between(s, path.comps().len() as int).bytes,
        ),
{
    let n = path.comps().len() as int;
    let t = path.between(s, n).bytes;
    if s < n {
        let b = path.bytes;
        let pieces = path.pieces();
        laws::lemma_comps_readable(b);
        model::lemma_pieces_fit(path.platform, b);
        model::lemma_pieces_in_order(path.platform, b);
        assert(path.comps()[s] == model::comp_of(b, pieces[s]));
        assert(path.comps()[s] is Normal);
        let name = b.subrange(pieces[s].start, pieces[s].end);
        assert(laws::plain_name(name));
        assert(pieces[s].end <= pieces[n - 1].end) by {
            if s < n - 1 {
                assert(pieces[s].end <= pieces[n - 1].start);
            }
        }
        assert(t[0] == name[0]);
        if name.len() > 1 {
            assert(t[1] == name[1]);
        } else if t[0] == DOT {
            assert(name =~= seq![DOT]);
        }
    }
}

/// From one path without dots to another the relative path goes up from `base` to what the
/// two share and down from there, leads to the path, and no relative path with fewer
/// components does.
pub proof fn law_relative_path_is_shortest(
    path: PathView,
    base: PathView,
    r: PathView,
    other: PathView,
)
    requires
        path.platform is Unix,
        base.platform is Unix,
        other.platform is Unix,
        has_no_dots(path),
        has_no_dots(base),
        relative::relative(path, base) == Some(r),
        relative::is_relative(other),
    ensures
        ({
            let s = shared(path.comps(), base.comps()) as int;
            r.comps() == relative::ups((base.comps().len() - s) as nat) + path.comps().skip(s)
        }),
        base.join(r.bytes).cleaned() == path.cleaned(),
        base.join(other.bytes).cleaned() == path.cleaned() ==> r.comps().len()
            <= other.comps().len(),
{
    reveal(model::push);
    let unix = Platform::Unix;
    let (p, b) = (path.comps(), base.comps());
    let s = shared(p, b) as int;
    let d = (b.len() - s) as nat;
    let up = model::collect(unix, relative::ups(d));
    let t = below_shared(path, base);
    lemma_shared(p, b, 0);
    lemma_shared(p, b, s);
    lemma_way_from_base(path, base);
    lemma_way_is_relative(path, base, r);
    lemma_root_component(path);
    lemma_root_component(base);
    if s == 0 && p.len() > 0 && b.len() > 0 && p[0] is RootDir && b[0] is RootDir {
        assert(p[0] == b[0]);
    }
    lemma_way_down(path, s);
    if d == 0 {
        assert(relative::ups(0) =~= Seq::<Comp>::empty());
        assert(up =~= Seq::<u8>::empty());
        assert(r.bytes =~= t.bytes);
        assert(r.comps() =~= relative::ups(0) + p.skip(s));
    } else {
        lemma_climb(d);
        lemma_joined(up, t.bytes);
        assert(r.comps() == relative::ups(d) + p.skip(s));
    }
    assert forall|i: int| s <= i < b.len() implies #[trigger] b[i] is Normal by {
        assert(b[i] is Normal || b[i] is RootDir);
        laws::lemma_comps_readable(base.bytes);
        if b[i] is RootDir {
            assert(i == 0);
        }
    }
    law_names_lead_up(b, s);
    law_relative_path_leads_back(path, base, r);
    if base.join(other.bytes).cleaned() == path.cleaned() {
        let joined = base.join(other.bytes);
        lemma_same_cleaned(joined, path);
        lemma_no_dots_is_clean(path);
        lemma_no_dots_is_clean(base);
        lemma_segments_of_path(other.bytes);
        let added = if base.bytes.len() > 0 {
            lemma_joined(base.bytes, other.bytes);
            segments(other.bytes)
        } else {
            assert(base.bytes =~= Seq::<u8>::empty());
            lemma_empty_path();
            assert(joined.bytes =~= other.bytes);
            other.comps()
        };
        assert(joined.comps() =~= b + added);
        lemma_clean_in_turn(b, added);
        lemma_many_steps(b, added, p);
        lemma_shared(p, p, p.len() as int);
        assert(distance(p, p) == 0);
        assert(added.len() <= other.comps().len());
    }
}

/// A name that a path is joined with is its last component and its file name, and what is above
/// it are the components of the path.
pub proof fn law_name_lies_in_its_directory(p: PathView, name: Seq<u8>)
    requires
        p.platform is Unix,
        laws::plain_name(name),
    ensures
        p.join(name).comps() == p.comps().push(Comp::Normal(name)),
        p.join(name).file_name() == Some(name),
        p.join(name).parent() matches Some(dir) && dir.platform is Unix && dir.comps()
            == p.comps() && dir.file_name() == p.file_name(),
        p.join(name).starts_with(p),
{
    let below = p.join(name);
    lemma_joined_name(p, name);
    lemma_segments_of_name(name);
    if name == seq![DOT] {
        assert(!laws::plain_name(name));
    }
    assert(below.comps() =~= p.comps().push(Comp::Normal(name)));
    let n = below.comps().len() as int;
    assert(below.comps()[n - 1] == Comp::Normal(name));
    assert(below.comps()[n - 1] == model::comp_of(below.bytes, below.pieces()[n - 1]));
    lemma_first_components(below, n - 1);
    assert(below.comps().take(n - 1) =~= p.comps());
}

/// Unix paths are the same if and only if their components are, and one lies below another if
/// and only if the components of the other come first.
pub proof fn law_paths_are_compared_by_components(p: PathView, q: PathView)
    requires
        p.platform is Unix,
        q.platform is Unix,
    ensures
        p.same(q) <==> p.comps() == q.comps(),
        p.starts_with(q) <==> q.comps().len() <= p.comps().len() && p.comps().take(
            q.comps().len() as int,
        ) == q.comps(),
        p.same(q) ==> p.starts_with(q) && q.starts_with(p),
        p.starts_with(q) <==> p.strip_prefix(q) is Some,
        p.parent() matches Some(dir) ==> dir.comps() == p.comps().drop_last() && p.starts_with(dir),
        p.parent() is Some <==> p.comps().len() > 0 && !(p.comps().last() is RootDir),
{
    laws::lemma_comps_readable(p.bytes);
    laws::lemma_comps_readable(q.bytes);
    lemma_same_without_prefix(p.comps(), q.comps());
    let n = q.comps().len() as int;
    if n <= p.comps().len() {
        let front = p.comps().take(n);
        assert(laws::readable(front)) by {
            assert forall|i: int| 0 <= i < front.len() implies front[i] == p.comps()[i] by {}
        }
        lemma_same_without_prefix(front, q.comps());
    }
    if p.same(q) {
        assert(p.comps().take(n) =~= p.comps());
        assert(q.comps().take(n) =~= q.comps());
    }
    let m = p.comps().len() as int;
    if m > 0 {
        assert(p.comps()[m - 1] == model::comp_of(p.bytes, p.pieces()[m - 1]));
        lemma_first_components(p, m - 1);
        assert(p.comps().take(m - 1) =~= p.comps().drop_last());
        if let Some(dir) = p.parent() {
            assert(p.comps().take(dir.comps().len() as int) =~= dir.comps());
        }
    }
}

/// What is left of a path below a directory, when the directory is taken off, is the name.
pub proof fn law_name_is_left_below_its_directory(p: PathView, name: Seq<u8>)
    requires
        p.platform is Unix,
        laws::plain_name(name),
    ensures
        p.join(name).strip_prefix(p) == Some(PathView { platform: p.platform, bytes: name }),
{
    let below = p.join(name);
    law_name_lies_in_its_directory(p, name);
    let n = p.comps().len() as int;
    assert(below.comps()[n] == Comp::Normal(name));
    assert(below.comps()[n] == model::comp_of(below.bytes, below.pieces()[n]));
}

} // verus!
