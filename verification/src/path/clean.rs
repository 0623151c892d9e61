//! Cleaning a path without looking at the file system.

use vstd::prelude::*;

use crate::path::buf;
use crate::path::buf::{Component, PathBuf};
use crate::path::model;
use crate::path::model::{Comp, PathView};
use crate::path::syntax::{DOT, Kind};
use crate::platform::Platform;

verus! {

/// The cleaned components after one more component was read.
pub open spec fn clean_step(out: Seq<Comp>, next: Comp) -> Seq<Comp> {
    match next {
        Comp::CurDir => out,
        Comp::ParentDir => if out.len() > 0 && out.last() is RootDir {
            out
        } else if out.len() > 0 && out.last() is Normal {
            out.drop_last()
        } else {
            out.push(next)
        },
        _ => out.push(next),
    }
}

/// The components that are left of `cs`: no `.`, and no `..` behind a name or
/// behind the root.
pub open spec fn clean_comps(cs: Seq<Comp>) -> Seq<Comp>
    decreases cs.len(),
{
    if cs.len() == 0 {
        Seq::empty()
    } else {
        clean_step(clean_comps(cs.drop_last()), cs.last())
    }
}

impl PathView {
    /// The path made of the components that cleaning leaves, or `.` where it
    /// leaves none.
    pub open spec fn cleaned(self) -> PathView {
        let left = clean_comps(self.comps());
        PathView {
            platform: self.platform,
            bytes: if left.len() == 0 {
                seq![DOT]
            } else {
                model::collect(self.platform, left)
            },
        }
    }
}

/// The components that cleaning leaves.
fn clean_components(components: &Vec<Component>) -> (r: Vec<Component>)
    ensures
        buf::component_views(r@) == clean_comps(buf::component_views(components@)),
{
    let ghost cs = buf::component_views(components@);
    let mut out: Vec<Component> = Vec::new();
    let mut i: usize = 0;
    proof {
        assert(cs.take(0) =~= Seq::<Comp>::empty());
        assert(buf::component_views(out@) =~= Seq::<Comp>::empty());
    }
    while i < components.len()
        invariant
            i <= components@.len(),
            cs == buf::component_views(components@),
            buf::component_views(out@) == clean_comps(cs.take(i as int)),
        decreases components@.len() - i,
    {
        let next = &components[i];
        let ghost before = buf::component_views(out@);
        let n = out.len();
        proof {
            assert(cs.take(i + 1).drop_last() =~= cs.take(i as int));
            assert(cs.take(i + 1).last() == next@);
            if n > 0 {
                assert(before.last() == out@[n - 1]@);
            }
        }
        let mut keep = true;
        if next.kind == Kind::CurDir {
            keep = false;
        } else if next.kind == Kind::ParentDir && n > 0 {
            if out[n - 1].kind == Kind::RootDir {
                keep = false;
            } else if out[n - 1].kind == Kind::Normal {
                let _ = out.pop();
                keep = false;
                proof {
                    assert(buf::component_views(out@) =~= before.drop_last());
                }
            }
        }
        if keep {
            out.push(next.duplicate());
            proof {
                assert(buf::component_views(out@) =~= before.push(next@));
            }
        }
        i = i + 1;
    }
    proof {
        assert(cs.take(i as int) =~= cs);
    }
    out
}

/// The path that the components make when they are added one by one.
fn collect_components(platform: Platform, components: &Vec<Component>) -> (r: Vec<u8>)
    ensures
        r@ == model::collect(platform, buf::component_views(components@)),
{
    let ghost cs = buf::component_views(components@);
    let mut bytes: Vec<u8> = Vec::new();
    let mut i: usize = 0;
    proof {
        assert(cs.take(0) =~= Seq::<Comp>::empty());
    }
    while i < components.len()
        invariant
            i <= components@.len(),
            cs == buf::component_views(components@),
            bytes@ == model::collect(platform, cs.take(i as int)),
        decreases components@.len() - i,
    {
        proof {
            assert(cs.take(i + 1).drop_last() =~= cs.take(i as int));
            assert(cs.take(i + 1).last() == components@[i as int]@);
        }
        bytes = buf::push_bytes(platform, &bytes, &components[i].written(platform));
        i = i + 1;
    }
    proof {
        assert(cs.take(i as int) =~= cs);
    }
    bytes
}

/// Cleans a path lexically:
/// 1. Several separators in a row count as one.
/// 2. `.` is dropped.
/// 3. `..` is dropped together with the name before it.
/// 4. `..` is dropped behind the root.
/// 5. `..` stays at the start of a path without a root.
///
/// A path of which nothing is left becomes `.`.
pub fn clean(path: &PathBuf) -> (r: PathBuf)
    ensures
        r@ == path@.cleaned(),
{
    let platform = path.platform;
    let left = clean_components(&buf::read_components(platform, &path.bytes));
    let bytes: Vec<u8> = if left.len() == 0 {
        vec![DOT]
    } else {
        collect_components(platform, &left)
    };
    proof {
        assert(buf::component_views(left@).len() == left@.len());
        assert(bytes@ =~= path@.cleaned().bytes);
    }
    PathBuf { platform, bytes }
}

/// A value that has a cleaned path.
pub trait PathClean {
    /// The path that is cleaned.
    spec fn path(&self) -> PathView;

    /// The cleaned path.
    fn clean(&self) -> (r: PathBuf)
        ensures
            r@ == self.path().cleaned(),
    ;
}

impl PathClean for PathBuf {
    open spec fn path(&self) -> PathView {
        self@
    }

    fn clean(&self) -> (r: PathBuf) {
        clean(self)
    }
}

/// Whether nothing is left to clean: no `.`, and `..` only at the start of the
/// path, behind other `..` or behind a prefix.
pub open spec fn is_clean(cs: Seq<Comp>) -> bool {
    forall|i: int|
        0 <= i < cs.len() ==> {
            &&& #[trigger] cs[i] !is CurDir
            &&& cs[i] is ParentDir && i > 0 ==> cs[i - 1] is ParentDir || cs[i - 1] is Prefix
        }
}

/// What cleaning leaves is clean: it has no `.`, no `..` behind a name, and no
/// `..` behind the root.
pub proof fn law_result_is_clean(cs: Seq<Comp>)
    ensures
        is_clean(clean_comps(cs)),
    decreases cs.len(),
{
    if cs.len() > 0 {
        law_result_is_clean(cs.drop_last());
        let before = clean_comps(cs.drop_last());
        let after = clean_comps(cs);
        assert forall|i: int| 0 <= i < after.len() implies {
            &&& #[trigger] after[i] !is CurDir
            &&& after[i] is ParentDir && i > 0 ==> after[i - 1] is ParentDir
                || after[i - 1] is Prefix
        } by {
            if i < before.len() {
                assert(after[i] == before[i]);
                if i > 0 {
                    assert(after[i - 1] == before[i - 1]);
                }
            } else {
                if i > 0 {
                    assert(before[i - 1] !is CurDir);
                }
            }
        }
    }
}

/// Cleaning leaves clean components as they are.
pub proof fn law_clean_components_stay(cs: Seq<Comp>)
    requires
        is_clean(cs),
    ensures
        clean_comps(cs) == cs,
    decreases cs.len(),
{
    if cs.len() > 0 {
        let front = cs.drop_last();
        assert forall|i: int| 0 <= i < front.len() implies {
            &&& #[trigger] front[i] !is CurDir
            &&& front[i] is ParentDir && i > 0 ==> front[i - 1] is ParentDir
                || front[i - 1] is Prefix
        } by {
            assert(front[i] == cs[i]);
            if i > 0 {
                assert(front[i - 1] == cs[i - 1]);
            }
        }
        law_clean_components_stay(front);
        assert(cs[cs.len() - 1] !is CurDir);
        assert(front.push(cs.last()) =~= cs);
    }
}

/// A leading prefix, a root and leading `..` of a path without a root survive.
pub proof fn law_start_stays(cs: Seq<Comp>, n: int)
    requires
        0 <= n <= cs.len(),
        is_clean(cs.take(n)),
        forall|i: int| 0 <= i < n ==> !(#[trigger] cs[i] is Normal),
    ensures
        n <= clean_comps(cs).len(),
        clean_comps(cs).take(n) == cs.take(n),
    decreases cs.len(),
{
    if n == cs.len() {
        assert(cs.take(n) =~= cs);
        law_clean_components_stay(cs);
    } else {
        let front = cs.drop_last();
        assert(front.take(n) =~= cs.take(n));
        assert forall|i: int| 0 <= i < n implies !(#[trigger] front[i] is Normal) by {
            assert(front[i] == cs[i]);
        }
        law_start_stays(front, n);
        let before = clean_comps(front);
        if before.len() == n && n > 0 {
            assert(before.last() == before.take(n)[n - 1]);
            assert(!(cs[n - 1] is Normal));
        }
        assert(clean_comps(cs).take(n) =~= before.take(n));
    }
}

/// What cleaning does with one more component: `.` is left out, a name is kept, and `..` takes
/// away the name before it, is left out behind the root, and is kept where nothing, another `..`
/// or a prefix is before it.
pub proof fn law_each_component_is_cleaned(cs: Seq<Comp>, name: Seq<u8>)
    ensures
        clean_comps(Seq::empty()) == Seq::<Comp>::empty(),
        clean_comps(cs.push(Comp::CurDir)) == clean_comps(cs),
        clean_comps(cs.push(Comp::Normal(name))) == clean_comps(cs).push(Comp::Normal(name)),
        clean_comps(cs.push(Comp::Normal(name)).push(Comp::ParentDir)) == clean_comps(cs),
        clean_comps(cs).len() > 0 && clean_comps(cs).last() is RootDir ==> clean_comps(
            cs.push(Comp::ParentDir),
        ) == clean_comps(cs),
        clean_comps(cs).len() == 0 || clean_comps(cs).last() is ParentDir || clean_comps(
            cs,
        ).last() is Prefix ==> clean_comps(cs.push(Comp::ParentDir)) == clean_comps(cs).push(
            Comp::ParentDir,
        ),
{
    assert(cs.push(Comp::CurDir).drop_last() =~= cs);
    assert(cs.push(Comp::ParentDir).drop_last() =~= cs);
    let named = cs.push(Comp::Normal(name));
    assert(named.drop_last() =~= cs);
    assert(named.push(Comp::ParentDir).drop_last() =~= named);
    assert(clean_comps(cs).push(Comp::Normal(name)).drop_last() =~= clean_comps(cs));
}

} // verus!
