//! One path described from the place of another.

use vstd::prelude::*;

use crate::path::buf;
use crate::path::buf::PathBuf;
use crate::path::model;
use crate::path::model::{Comp, PathView};
use crate::path::ops;
use crate::path::parse;
use crate::path::simplified;
use crate::path::syntax;
use crate::path::syntax::DOT;
use crate::path::utf8;
use crate::path::utf8::{IntoUtf8PathBuf, Utf8PathBuf};
use crate::path::ways;
use crate::platform::Platform;

verus! {

/// So many `..` in a row.
pub open spec fn ups(n: nat) -> Seq<Comp> {
    Seq::new(n, |i: int| Comp::ParentDir)
}

/// How many levels lie between a path and one of its ancestors.
pub open spec fn levels(base: PathView, ancestor: PathView) -> nat {
    if ancestor.comps().len() <= base.comps().len() {
        (base.comps().len() - ancestor.comps().len()) as nat
    } else {
        0
    }
}

/// From `base` up to its ancestor and down to what lies below the ancestor.
pub open spec fn up_and_down(base: PathView, ancestor: PathView, below: PathView) -> PathView {
    PathView {
        platform: base.platform,
        bytes: model::collect(base.platform, ups(levels(base, ancestor))),
    }.join(below.bytes)
}

/// The way from `base` to `path` by the nearest of the ancestors of `base`, from
/// `ancestor` on, below which `path` lies.
pub open spec fn way(path: PathView, base: PathView, ancestor: PathView) -> Option<PathView>
    decreases ancestor.bytes.len(),
{
    match path.strip_prefix(ancestor) {
        Some(below) => Some(up_and_down(base, ancestor, below)),
        None => match ancestor.parent() {
            Some(next) => if next.bytes.len() < ancestor.bytes.len() {
                way(path, base, next)
            } else {
                None
            },
            None => None,
        },
    }
}

/// Whether a path is relative: it has neither a prefix nor a root.
pub open spec fn is_relative(p: PathView) -> bool {
    syntax::prefix(p.platform, p.bytes) is None && !syntax::has_root(p.platform, p.bytes)
}

/// A way that is a relative path, if there is one.
pub open spec fn if_relative(way: Option<PathView>) -> Option<PathView> {
    match way {
        Some(p) if is_relative(p) => Some(p),
        _ => None,
    }
}

/// The path that describes `path` from the place of `base`.
pub open spec fn relative(path: PathView, base: PathView) -> Option<PathView> {
    if_relative(way(path, base, base))
}

/// What [`way`] can be when each ancestor is simplified first.
pub open spec fn simplified_way(
    path: PathView,
    base: PathView,
    ancestor: PathView,
    r: Option<PathView>,
) -> bool
    decreases ancestor.bytes.len(),
{
    exists|simple: PathView|
        {
            &&& #[trigger] simplified::simplified_to(ancestor, simple)
            &&& match path.strip_prefix(simple) {
                Some(below) => r == Some(up_and_down(base, ancestor, below)),
                None => match ancestor.parent() {
                    Some(next) => if next.bytes.len() < ancestor.bytes.len() {
                        simplified_way(path, base, next, r)
                    } else {
                        r is None
                    },
                    None => r is None,
                },
            }
        }
}

/// What [`relative`] can be when the path and each ancestor are simplified first.
pub open spec fn relative_can_be(path: PathView, base: PathView, r: Option<PathView>) -> bool {
    exists|simple: PathView, way: Option<PathView>|
        #[trigger] simplified::simplified_to(path, simple) && #[trigger] simplified_way(
            simple,
            base,
            base,
            way,
        ) && r == if_relative(way)
}

/// Whether simplifying can change the path.
pub open spec fn can_change(p: PathView) -> bool {
    p.platform is Windows && syntax::opens_verbatim(p.bytes)
}

/// So many `..` in a row.
fn climb(platform: Platform, n: usize) -> (r: PathBuf)
    ensures
        r@ == (PathView { platform, bytes: model::collect(platform, ups(n as nat)) }),
{
    let two_dots: Vec<u8> = vec![DOT, DOT];
    let mut bytes: Vec<u8> = Vec::new();
    let mut i: usize = 0;
    proof {
        assert(two_dots@ =~= model::comp_text(platform, Comp::ParentDir));
    }
    while i < n
        invariant
            i <= n,
            two_dots@ == model::comp_text(platform, Comp::ParentDir),
            bytes@ == model::collect(platform, ups(i as nat)),
        decreases n - i,
    {
        bytes = buf::push_bytes(platform, &bytes, &two_dots);
        proof {
            assert(ups((i + 1) as nat).drop_last() =~= ups(i as nat));
        }
        i = i + 1;
    }
    PathBuf { platform, bytes }
}

/// A path has fewer bytes above its last component.
pub proof fn lemma_parent_is_shorter(p: PathView)
    ensures
        p.parent() matches Some(next) ==> next.bytes.len() < p.bytes.len(),
{
    if let Some(next) = p.parent() {
        model::lemma_pieces_fit(p.platform, p.bytes);
        let n = p.pieces().len() as int;
        model::lemma_pieces_in_order(p.platform, p.bytes);
        assert(p.pieces()[n - 1].start < p.pieces()[n - 1].end);
        if n > 1 {
            assert(p.pieces()[0].start <= p.pieces()[n - 2].end);
            assert(p.pieces()[n - 2].end <= p.pieces()[n - 1].start);
        }
    }
}

/// The way from `base` to a simplified path, by the nearest ancestor of `base` that
/// the path lies below once it is simplified too.
fn find_way(path: &PathBuf, base: &PathBuf) -> (r: Option<PathBuf>)
    ensures
        simplified_way(path@, base@, base@, buf::optional_view(r)),
{
    let mut ancestor = base.duplicate();
    loop
        invariant
            forall|r: Option<PathView>| #[trigger]
                simplified_way(path@, base@, ancestor@, r) ==> simplified_way(
                    path@,
                    base@,
                    base@,
                    r,
                ),
        decreases ancestor@.bytes.len(),
    {
        let simple = simplified::simplify(&ancestor);
        proof {
            assert(simplified::simplified_to(ancestor@, simple@));
            lemma_parent_is_shorter(ancestor@);
        }
        if let Some(below) = path.strip_prefix(&simple) {
            let from = base.count_components();
            let to = ancestor.count_components();
            let n: usize = if to <= from {
                from - to
            } else {
                0
            };
            let found = climb(base.platform, n).join_path(&below);
            proof {
                assert(found@ == up_and_down(base@, ancestor@, below@));
                assert(simplified_way(path@, base@, ancestor@, Some(found@)));
            }
            return Some(found);
        }
        match ancestor.parent() {
            Some(next) => {
                proof {
                    assert forall|r: Option<PathView>| #[trigger]
                        simplified_way(path@, base@, next@, r) implies simplified_way(
                        path@,
                        base@,
                        base@,
                        r,
                    ) by {
                        assert(simplified_way(path@, base@, ancestor@, r));
                    }
                }
                ancestor = next;
            },
            None => {
                proof {
                    assert(simplified_way(path@, base@, ancestor@, None));
                }
                return None;
            },
        }
    }
}

/// Whether one of two Unix paths starts at the root and the other does not.
pub open spec fn one_has_a_root(path: PathView, base: PathView) -> bool {
    &&& path.platform is Unix
    &&& base.platform is Unix
    &&& syntax::has_root(path.platform, path.bytes) != syntax::has_root(base.platform, base.bytes)
}

/// There is no relative path between two paths, for example because they lie on
/// different drives.
#[derive(Debug)]
pub struct NoRelativePath {
    pub message: String,
}

/// What is said when there is no relative path.
pub open spec fn strip_failed(path: PathView, base: PathView) -> Seq<char> {
    "Trivial strip failed: "@ + ops::lossy_text(path.bytes) + " vs. "@ + ops::lossy_text(base.bytes)
}

/// A path that describes `path` relative to `base`, as bytes: up from `base` to the nearest
/// ancestor that `path` lies below, and from there down to `path`. It fails if there is no
/// such ancestor, or if what is found is no relative path.
pub fn relative_path(path: &PathBuf, base: &PathBuf) -> (r: Result<PathBuf, NoRelativePath>)
    ensures
        relative_can_be(
            path@,
            base@,
            match r {
                Ok(p) => Some(p@),
                Err(_) => None,
            },
        ),
        !can_change(path@) && !can_change(base@) ==> match r {
            Ok(p) => relative(path@, base@) == Some(p@),
            Err(_) => relative(path@, base@) is None,
        },
        r matches Ok(p) ==> is_relative(p@),
        one_has_a_root(path@, base@) ==> r is Err,
        r matches Err(e) ==> e.message@ == strip_failed(path@, base@),
{
    let simple = simplified::simplify(path);
    let found = find_way(&simple, base);
    let ghost way = buf::optional_view(found);
    proof {
        assert(simplified::simplified_to(path@, simple@));
        assert(simplified_way(simple@, base@, base@, way));
        assert(relative_can_be(path@, base@, if_relative(way)));
        if !can_change(path@) && !can_change(base@) {
            law_without_marks_the_way_is_fixed(path@, base@, base@, way);
        }
        if one_has_a_root(path@, base@) {
            ways::law_relative_path_exists(path@, base@);
        }
    }
    if let Some(p) = found {
        if parse::read_prefix(p.platform, &p.bytes).is_none() && !buf::is_rooted(
            p.platform,
            &p.bytes,
        ) {
            return Ok(p);
        }
    }
    let mut message = "Trivial strip failed: ".to_owned();
    message.append(path.to_string_lossy().as_str());
    message.append(" vs. ");
    message.append(base.to_string_lossy().as_str());
    Err(NoRelativePath { message })
}

/// Computes a path that describes `path` relative to `base`:
///
/// - `lib/python/site-packages/foo/__init__.py` and `lib/python/site-packages` give
///   `foo/__init__.py`
/// - `lib/marker.txt` and `lib/python/site-packages` give `../../marker.txt`
/// - `bin/foo_launcher` and `lib/python/site-packages` give
///   `../../../bin/foo_launcher`
///
/// It fails if there is no relative path between them, as between a path from the root and
/// one from elsewhere. The result has to be UTF-8.
pub fn relative_to(path: &PathBuf, base: &PathBuf) -> (r: Result<Utf8PathBuf, NoRelativePath>)
    requires
        forall|q: PathView| #[trigger]
            relative_can_be(path@, base@, Some(q)) ==> vstd::utf8::valid_utf8(q.bytes),
    ensures
        relative_can_be(
            path@,
            base@,
            match r {
                Ok(p) => Some(p@),
                Err(_) => None,
            },
        ),
        !can_change(path@) && !can_change(base@) ==> match r {
            Ok(p) => relative(path@, base@) == Some(p@),
            Err(_) => relative(path@, base@) is None,
        },
        r matches Ok(p) ==> is_relative(p@),
        one_has_a_root(path@, base@) ==> r is Err,
        r matches Err(e) ==> e.message@ == strip_failed(path@, base@),
{
    match relative_path(path, base) {
        Ok(way) => Ok(way.into_utf8_path_buf()),
        Err(e) => Err(e),
    }
}

/// Where simplifying changes nothing, there is one way: always on Unix, and on
/// Windows where `base` does not start with `\\?\`.
pub proof fn law_without_marks_the_way_is_fixed(
    path: PathView,
    base: PathView,
    ancestor: PathView,
    r: Option<PathView>,
)
    requires
        !can_change(ancestor),
        simplified_way(path, base, ancestor, r),
    ensures
        r == way(path, base, ancestor),
    decreases ancestor.bytes.len(),
{
    if path.strip_prefix(ancestor) is None {
        if let Some(next) = ancestor.parent() {
            lemma_parent_is_shorter(ancestor);
            lemma_parent_keeps_start(ancestor);
            law_without_marks_the_way_is_fixed(path, base, next, r);
        }
    }
}

/// An ancestor starts with the mark `\\?\` only where its path does.
proof fn lemma_parent_keeps_start(p: PathView)
    requires
        !can_change(p),
    ensures
        p.parent() matches Some(next) ==> !can_change(next),
{
    if let Some(next) = p.parent() {
        let n = p.pieces().len() as int;
        if n > 1 {
            model::lemma_pieces_fit(p.platform, p.bytes);
            model::lemma_first_piece_opens(p.platform, p.bytes);
            let end = p.pieces()[n - 2].end;
            assert(p.pieces()[0].start <= end);
            assert(next.bytes =~= p.bytes.take(end));
        }
    }
}

/// So many `..` in a row are ASCII and have no prefix.
pub proof fn lemma_climb_is_ascii(platform: Platform, n: nat)
    ensures
        ({
            let b = model::collect(platform, ups(n));
            &&& forall|i: int| 0 <= i < b.len() ==> #[trigger] b[i] <= 0x7f
            &&& b.len() > 0 ==> b[0] == DOT
            &&& syntax::windows_prefix(b) is None
        }),
    decreases n,
{
    reveal(model::push);
    let b = model::collect(platform, ups(n));
    if n > 0 {
        lemma_climb_is_ascii(platform, (n - 1) as nat);
        assert(ups(n).drop_last() =~= ups((n - 1) as nat));
        assert(ups(n).last() == Comp::ParentDir);
        let two = model::comp_text(platform, Comp::ParentDir);
        assert(two.len() == 2 && two[0] == DOT && two[1] == DOT);
        assert(syntax::windows_prefix(two) is None);
        assert(!syntax::has_root(platform, two));
        let before = model::collect(platform, ups((n - 1) as nat));
        assert forall|i: int| 0 <= i < b.len() implies #[trigger] b[i] <= 0x7f by {
            if i < before.len() {
                assert(b[i] == before[i]);
            }
        }
        assert(b[0] == DOT);
    } else {
        assert(b =~= Seq::<u8>::empty());
    }
}

/// Going up from somewhere and down along a text is a text.
proof fn lemma_up_and_down_is_text(base: PathView, ancestor: PathView, below: PathView)
    requires
        vstd::utf8::valid_utf8(below.bytes),
    ensures
        vstd::utf8::valid_utf8(up_and_down(base, ancestor, below).bytes),
{
    reveal(model::push);
    let platform = base.platform;
    let n = levels(base, ancestor);
    let up = model::collect(platform, ups(n));
    let t = below.bytes;
    let r = model::push(platform, up, t);
    lemma_climb_is_ascii(platform, n);
    utf8::lemma_ascii_is_text(up);
    vstd::utf8::valid_utf8_concat(up, t);
    let behind = up.push(syntax::main_separator(platform));
    assert forall|i: int| 0 <= i < behind.len() implies #[trigger] behind[i] <= 0x7f by {
        if i < up.len() {
            assert(behind[i] == up[i]);
        }
    }
    utf8::lemma_ascii_is_text(behind);
    vstd::utf8::valid_utf8_concat(behind, t);
    assert(up.take(0) + t =~= t);
}

/// Every way to a path that is a text is a text.
proof fn lemma_way_is_text(path: PathView, base: PathView, ancestor: PathView, r: PathView)
    requires
        vstd::utf8::valid_utf8(path.bytes),
        simplified_way(path, base, ancestor, Some(r)),
    ensures
        vstd::utf8::valid_utf8(r.bytes),
    decreases ancestor.bytes.len(),
{
    let simple = choose|simple: PathView|
        {
            &&& #[trigger] simplified::simplified_to(ancestor, simple)
            &&& match path.strip_prefix(simple) {
                Some(below) => Some(r) == Some(up_and_down(base, ancestor, below)),
                None => match ancestor.parent() {
                    Some(next) => if next.bytes.len() < ancestor.bytes.len() {
                        simplified_way(path, base, next, Some(r))
                    } else {
                        false
                    },
                    None => false,
                },
            }
        };
    match path.strip_prefix(simple) {
        Some(below) => {
            utf8::lemma_between_is_text(
                path,
                simple.comps().len() as int,
                path.comps().len() as int,
            );
            lemma_up_and_down_is_text(base, ancestor, below);
        },
        None => {
            if let Some(next) = ancestor.parent() {
                lemma_way_is_text(path, base, next, r);
            }
        },
    }
}

/// A relative path to a path that is UTF-8 is UTF-8, whatever `base` is.
pub proof fn law_relative_path_of_text_is_text(path: PathView, base: PathView)
    requires
        vstd::utf8::valid_utf8(path.bytes),
    ensures
        forall|q: PathView| #[trigger]
            relative_can_be(path, base, Some(q)) ==> vstd::utf8::valid_utf8(q.bytes),
{
    assert forall|q: PathView| #[trigger] relative_can_be(path, base, Some(q)) implies vstd::utf8::valid_utf8(
        q.bytes,
    ) by {
        let (simple, way) = choose|simple: PathView, way: Option<PathView>| #[trigger]
            simplified::simplified_to(path, simple) && #[trigger] simplified_way(
                simple,
                base,
                base,
                way,
            ) && Some(q) == if_relative(way);
        if simple != path {
            utf8::lemma_text_behind_ascii(path.bytes, 3);
        }
        lemma_way_is_text(simple, base, base, q);
    }
}

} // verus!
