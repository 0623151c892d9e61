//! How the parts of a path behind its root are read: behind something else, cut off, and from
//! one of them on.

use vstd::prelude::*;

use crate::path::model;
use crate::path::model::Comp;
use crate::path::syntax;
use crate::path::syntax::{PieceView, Separators};

verus! {

/// The components of a path that is added to another: a leading `.` is none.
pub open spec fn parts(seps: Separators, b: Seq<u8>) -> Seq<Comp> {
    syntax::body(seps, b, 0).map_values(|p: PieceView| model::comp_of(b, p))
}

/// What stands behind `pre` is read as it is read alone.
pub proof fn lemma_body_shifts(seps: Separators, pre: Seq<u8>, t: Seq<u8>, i: int)
    requires
        0 <= i <= t.len(),
    ensures
        syntax::body(seps, pre + t, pre.len() + i).len() == syntax::body(
            seps,
            t,
            i,
        ).len(),
        forall|k: int|
            0 <= k < syntax::body(seps, t, i).len() ==> {
                let moved = #[trigger] syntax::body(seps, pre + t, pre.len() + i)[k];
                let piece = syntax::body(seps, t, i)[k];
                moved == PieceView {
                    kind: piece.kind,
                    start: pre.len() + piece.start,
                    end: pre.len() + piece.end,
                }
            },
    decreases t.len() - i,
{
    let w = pre + t;
    let n = pre.len() as int;
    if i < t.len() {
        assert(w[n + i] == t[i]);
        if seps.has(t[i]) {
            lemma_body_shifts(seps, pre, t, i + 1);
        } else {
            let end = syntax::segment_end(seps, t, i);
            syntax::lemma_segment_end(seps, t, i);
            assert(i < end);
            assert forall|k: int| n + i <= k < n + end implies !seps.has(#[trigger] w[k]) by {
                assert(w[k] == t[k - n]);
            }
            if end < t.len() {
                assert(w[n + end] == t[end]);
            }
            syntax::lemma_segment_ends_at(seps, w, n + i, n + end);
            lemma_body_shifts(seps, pre, t, end);
            assert(w.subrange(n + i, n + end) =~= t.subrange(i, end));
            if let Some(kind) = syntax::segment_kind(seps, t.subrange(i, end)) {
                let old_rest = syntax::body(seps, t, end);
                let new_rest = syntax::body(seps, w, n + end);
                let old_all = syntax::body(seps, t, i);
                let new_all = syntax::body(seps, w, n + i);
                assert(old_all =~= seq![PieceView { kind, start: i, end }] + old_rest);
                assert(new_all =~= seq![PieceView { kind, start: n + i, end: n + end }]
                    + new_rest);
                assert forall|k: int| 0 <= k < old_all.len() implies {
                    let moved = #[trigger] new_all[k];
                    moved == PieceView {
                        kind: old_all[k].kind,
                        start: n + old_all[k].start,
                        end: n + old_all[k].end,
                    }
                } by {
                    if k > 0 {
                        assert(new_all[k] == new_rest[k - 1]);
                        assert(old_all[k] == old_rest[k - 1]);
                    }
                }
            }
        }
    }
}

/// The components that are read behind `pre`.
pub proof fn lemma_parts_shift(seps: Separators, pre: Seq<u8>, t: Seq<u8>)
    ensures
        syntax::body(seps, pre + t, pre.len() as int).map_values(
            |p: PieceView| model::comp_of(pre + t, p),
        ) == parts(seps, t),
{
    lemma_body_shifts(seps, pre, t, 0);
    model::lemma_body_fits(seps, t, 0);
    let w = pre + t;
    let n = pre.len() as int;
    let moved = syntax::body(seps, w, n);
    let pieces = syntax::body(seps, t, 0);
    let left = moved.map_values(|p: PieceView| model::comp_of(w, p));
    assert forall|k: int| 0 <= k < pieces.len() implies #[trigger] left[k] == parts(seps, t)[k] by {
        let piece = pieces[k];
        assert(moved[k].start == n + piece.start);
        assert(w.subrange(n + piece.start, n + piece.end) =~= t.subrange(piece.start, piece.end));
    }
    assert(left =~= parts(seps, t));
}

/// Cutting a path behind one of its components drops those that follow.
pub proof fn lemma_body_cut(seps: Separators, b: Seq<u8>, i: int, j: int)
    requires
        0 <= i,
        0 <= j < syntax::body(seps, b, i).len(),
    ensures
        ({
            let e = syntax::body(seps, b, i)[j].end;
            syntax::body(seps, b.take(e), i) == syntax::body(
                seps,
                b,
                i,
            ).take(j + 1)
        }),
    decreases b.len() - i,
{
    let all = syntax::body(seps, b, i);
    let e = all[j].end;
    let cut = b.take(e);
    model::lemma_body_fits(seps, b, i);
    if seps.has(b[i]) {
        lemma_body_cut(seps, b, i + 1, j);
        model::lemma_body_fits(seps, b, i + 1);
        assert(cut[i] == b[i]);
    } else {
        let end = syntax::segment_end(seps, b, i);
        syntax::lemma_segment_end(seps, b, i);
        assert(i < end);
        let rest = syntax::body(seps, b, end);
        model::lemma_body_fits(seps, b, end);
        let segment = b.subrange(i, end);
        match syntax::segment_kind(seps, segment) {
            Some(kind) => {
                let piece = PieceView { kind, start: i, end };
                assert(all =~= seq![piece] + rest);
                if j > 0 {
                    assert(all[j] == rest[j - 1]);
                    lemma_body_cut(seps, b, end, j - 1);
                }
                assert(end <= e);
                lemma_cut_segment(seps, b, i, end, e);
                if j == 0 {
                    assert(syntax::body(seps, cut, end) =~= Seq::<PieceView>::empty());
                    assert(syntax::body(seps, cut, i) =~= all.take(1));
                } else {
                    assert(syntax::body(seps, cut, i) =~= all.take(j + 1));
                }
            },
            None => {
                assert(all == rest);
                lemma_body_cut(seps, b, end, j);
                assert(end <= e);
                lemma_cut_segment(seps, b, i, end, e);
            },
        }
    }
}

/// A segment is still there when the path is cut behind it.
proof fn lemma_cut_segment(seps: Separators, b: Seq<u8>, i: int, end: int, e: int)
    requires
        0 <= i < end <= e <= b.len(),
        syntax::segment_end(seps, b, i) == end,
    ensures
        syntax::segment_end(seps, b.take(e), i) == end,
        b.take(e).subrange(i, end) == b.subrange(i, end),
{
    let cut = b.take(e);
    syntax::lemma_segment_end(seps, b, i);
    assert forall|k: int| i <= k < end implies !seps.has(#[trigger] cut[k]) by {
        assert(cut[k] == b[k]);
    }
    syntax::lemma_segment_ends_at(seps, cut, i, end);
    assert(cut.subrange(i, end) =~= b.subrange(i, end));
}

/// A piece of a path is the same component of the path cut behind it.
pub proof fn lemma_cut_component(b: Seq<u8>, e: int, piece: PieceView)
    requires
        0 <= piece.start <= piece.end <= e <= b.len(),
    ensures
        model::comp_of(b.take(e), piece) == model::comp_of(b, piece),
{
    assert(b.take(e).subrange(piece.start, piece.end) =~= b.subrange(piece.start, piece.end));
}

/// Reading from where a component starts gives that component and those behind it.
pub proof fn lemma_body_from(seps: Separators, b: Seq<u8>, i: int, j: int)
    requires
        0 <= i,
        0 <= j < syntax::body(seps, b, i).len(),
    ensures
        ({
            let all = syntax::body(seps, b, i);
            &&& 0 <= all[j].start < b.len()
            &&& !seps.has(b[all[j].start])
            &&& syntax::body(seps, b, all[j].start) == all.skip(j)
        }),
    decreases b.len() - i,
{
    let all = syntax::body(seps, b, i);
    if seps.has(b[i]) {
        lemma_body_from(seps, b, i + 1, j);
    } else {
        let end = syntax::segment_end(seps, b, i);
        syntax::lemma_segment_end(seps, b, i);
        assert(i < end);
        let rest = syntax::body(seps, b, end);
        match syntax::segment_kind(seps, b.subrange(i, end)) {
            Some(kind) => {
                assert(all =~= seq![PieceView { kind, start: i, end }] + rest);
                if j == 0 {
                    assert(all.skip(0) =~= all);
                } else {
                    assert(all[j] == rest[j - 1]);
                    lemma_body_from(seps, b, end, j - 1);
                    assert(rest.skip(j - 1) =~= all.skip(j));
                }
            },
            None => {
                lemma_body_from(seps, b, end, j);
            },
        }
    }
}

} // verus!
