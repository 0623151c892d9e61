//! An owned path and the operations on it.

use vstd::prelude::*;

use crate::path::model;
use crate::path::model::{Comp, PathView};
use crate::path::parse;
use crate::path::syntax;
use crate::path::syntax::{BACKSLASH, DOT, Kind, PrefixKind, SLASH, Separators};
use crate::platform::Platform;

verus! {

/// A path as the operating system holds it: bytes, which need not be UTF-8.
#[derive(Debug)]
pub struct PathBuf {
    pub platform: Platform,
    pub bytes: Vec<u8>,
}

impl View for PathBuf {
    type V = PathView;

    open spec fn view(&self) -> PathView {
        PathView { platform: self.platform, bytes: self.bytes@ }
    }
}

/// The paths that a list holds.
pub open spec fn path_views(paths: Seq<PathBuf>) -> Seq<PathView> {
    paths.map_values(|p: PathBuf| p@)
}

/// The path that may be there.
pub open spec fn optional_view(path: Option<PathBuf>) -> Option<PathView> {
    match path {
        Some(p) => Some(p@),
        None => None,
    }
}

/// The path that may be pointed at.
pub open spec fn optional_path(path: Option<&PathBuf>) -> Option<PathView> {
    match path {
        Some(p) => Some(p@),
        None => None,
    }
}

/// The bytes of `b` from `from` up to `to`.
pub fn copy_bytes(b: &Vec<u8>, from: usize, to: usize) -> (r: Vec<u8>)
    requires
        from <= to <= b@.len(),
    ensures
        r@ == b@.subrange(from as int, to as int),
{
    let mut out: Vec<u8> = Vec::new();
    let mut i: usize = from;
    while i < to
        invariant
            from <= i <= to <= b@.len(),
            out@ == b@.subrange(from as int, i as int),
        decreases to - i,
    {
        out.push(b[i]);
        proof {
            assert(b@.subrange(from as int, i + 1) =~= b@.subrange(from as int, i as int).push(
                b@[i as int],
            ));
        }
        i = i + 1;
    }
    out
}

/// Appends the bytes of `added`.
fn append_bytes(b: &mut Vec<u8>, added: &Vec<u8>)
    ensures
        final(b)@ == old(b)@ + added@,
{
    let mut copy = copy_bytes(added, 0, added.len());
    proof {
        assert(added@.subrange(0, added@.len() as int) =~= added@);
    }
    b.append(&mut copy);
}

/// Tells whether two sequences of bytes are equal.
pub fn same_bytes(a: &Vec<u8>, b: &Vec<u8>) -> (r: bool)
    ensures
        r == (a@ == b@),
{
    if a.len() != b.len() {
        return false;
    }
    let mut i: usize = 0;
    while i < a.len()
        invariant
            i <= a@.len(),
            a@.len() == b@.len(),
            forall|k: int| 0 <= k < i ==> a@[k] == #[trigger] b@[k],
        decreases a@.len() - i,
    {
        if a[i] != b[i] {
            return false;
        }
        i = i + 1;
    }
    proof {
        assert(a@ =~= b@);
    }
    true
}

/// A component with its text.
pub struct Component {
    pub kind: Kind,
    pub text: Vec<u8>,
}

impl View for Component {
    type V = Comp;

    open spec fn view(&self) -> Comp {
        match self.kind {
            Kind::Prefix => Comp::Prefix(self.text@),
            Kind::RootDir => Comp::RootDir,
            Kind::CurDir => Comp::CurDir,
            Kind::ParentDir => Comp::ParentDir,
            Kind::Normal => Comp::Normal(self.text@),
        }
    }
}

/// The components that a list holds.
pub open spec fn component_views(components: Seq<Component>) -> Seq<Comp> {
    components.map_values(|c: Component| c@)
}

impl Component {
    /// The component as it is written.
    pub fn written(&self, platform: Platform) -> (r: Vec<u8>)
        ensures
            r@ == model::comp_text(platform, self@),
    {
        let text: Vec<u8> = match self.kind {
            Kind::Prefix | Kind::Normal => copy_bytes(&self.text, 0, self.text.len()),
            Kind::RootDir => vec![parse::main_separator_of(platform)],
            Kind::CurDir => vec![DOT],
            Kind::ParentDir => vec![DOT, DOT],
        };
        proof {
            assert(text@ =~= model::comp_text(platform, self@));
        }
        text
    }

    /// A copy of the component.
    pub fn duplicate(&self) -> (r: Component)
        ensures
            r@ == self@,
    {
        let text = copy_bytes(&self.text, 0, self.text.len());
        proof {
            assert(text@ =~= self.text@);
        }
        Component { kind: self.kind, text }
    }
}

/// Reads a path into its components.
pub fn read_components(platform: Platform, b: &Vec<u8>) -> (r: Vec<Component>)
    ensures
        component_views(r@) == model::comps(platform, b@),
{
    let pieces = parse::read_pieces(platform, b);
    let ghost all = syntax::pieces(platform, b@);
    let mut out: Vec<Component> = Vec::new();
    let mut i: usize = 0;
    proof {
        model::lemma_pieces_fit(platform, b@);
    }
    while i < pieces.len()
        invariant
            i <= pieces@.len(),
            parse::piece_views(pieces@) == all,
            all == syntax::pieces(platform, b@),
            forall|k: int|
                0 <= k < all.len() ==> {
                    let piece = #[trigger] all[k];
                    0 <= piece.start <= piece.end <= b@.len()
                },
            component_views(out@) == model::comps(platform, b@).take(i as int),
        decreases pieces@.len() - i,
    {
        let piece = pieces[i];
        proof {
            assert(all[i as int] == piece@);
        }
        let component = Component {
            kind: piece.kind,
            text: copy_bytes(b, piece.start, piece.end),
        };
        let ghost before = out@;
        out.push(component);
        proof {
            assert(component@ == model::comp_of(b@, piece@));
            assert(component_views(out@) =~= component_views(before).push(component@));
            assert(component_views(out@) =~= model::comps(platform, b@).take(i + 1));
        }
        i = i + 1;
    }
    proof {
        assert(model::comps(platform, b@).take(i as int) =~= model::comps(platform, b@));
    }
    out
}

/// The components of a verbatim path with those of another path added.
fn join_verbatim(base: Vec<Component>, added: Vec<Component>) -> (r: Vec<Component>)
    ensures
        component_views(r@) == model::verbatim_join(
            component_views(base@),
            component_views(added@),
        ),
{
    let ghost first = component_views(base@);
    let ghost second = component_views(added@);
    let mut out = base;
    let mut i: usize = 0;
    proof {
        assert(second.take(0) =~= Seq::<Comp>::empty());
    }
    while i < added.len()
        invariant
            i <= added@.len(),
            second == component_views(added@),
            component_views(out@) == model::verbatim_join(first, second.take(i as int)),
        decreases added@.len() - i,
    {
        let component = &added[i];
        let ghost before = out@;
        let ghost upto = second.take(i + 1);
        proof {
            assert(upto.drop_last() =~= second.take(i as int));
            assert(upto.last() == component@);
        }
        match component.kind {
            Kind::RootDir => {
                out.truncate(1);
                let ghost cut = out@;
                out.push(Component { kind: Kind::RootDir, text: Vec::new() });
                proof {
                    assert(component_views(out@) =~= component_views(cut).push(Comp::RootDir));
                    if before.len() > 0 {
                        assert(component_views(cut) =~= component_views(before).take(1));
                    } else {
                        assert(component_views(cut) =~= component_views(before));
                    }
                }
            },
            Kind::CurDir => {},
            Kind::ParentDir => {
                if out.len() > 0 && out[out.len() - 1].kind == Kind::Normal {
                    let _ = out.pop();
                    proof {
                        assert(component_views(out@) =~= component_views(before).drop_last());
                        assert(component_views(before).last() == before.last()@);
                    }
                } else if out.len() > 0 {
                    proof {
                        assert(component_views(before).last() == before.last()@);
                    }
                }
            },
            Kind::Prefix | Kind::Normal => {
                out.push(component.duplicate());
                proof {
                    assert(component_views(out@) =~= component_views(before).push(component@));
                }
            },
        }
        i = i + 1;
    }
    proof {
        assert(second.take(i as int) =~= second);
    }
    out
}

/// The text of a verbatim path.
fn write_verbatim(components: &Vec<Component>) -> (r: Vec<u8>)
    ensures
        r@ == model::verbatim_text(component_views(components@)),
{
    let ghost cs = component_views(components@);
    let mut out: Vec<u8> = Vec::new();
    let mut i: usize = 0;
    proof {
        assert(cs.take(0) =~= Seq::<Comp>::empty());
    }
    while i < components.len()
        invariant
            i <= components@.len(),
            cs == component_views(components@),
            out@ == model::verbatim_text(cs.take(i as int)),
        decreases components@.len() - i,
    {
        let component = &components[i];
        proof {
            assert(cs.take(i + 1).drop_last() =~= cs.take(i as int));
            assert(cs.take(i + 1).last() == component@);
            if i > 0 {
                assert(cs.take(i as int).last() == components@[i - 1]@);
            }
        }
        if i > 0 && components[i - 1].kind != Kind::RootDir && component.kind != Kind::RootDir {
            out.push(BACKSLASH);
        }
        append_bytes(&mut out, &component.written(Platform::Windows));
        i = i + 1;
    }
    proof {
        assert(cs.take(i as int) =~= cs);
    }
    out
}

/// Tells whether a path starts at a root.
pub fn is_rooted(platform: Platform, b: &Vec<u8>) -> (r: bool)
    ensures
        r == syntax::has_root(platform, b@),
{
    proof {
        syntax::lemma_prefix_fits(platform, b@);
    }
    let found = parse::read_prefix(platform, b);
    let p: usize = match found {
        Some(pre) => pre.len,
        None => 0,
    };
    if p < b.len() && parse::separators_of(platform).contains(b[p]) {
        return true;
    }
    match found {
        Some(pre) => pre.kind != PrefixKind::Disk,
        None => false,
    }
}

/// Extends the path `b` by the path `added`.
pub fn push_bytes(platform: Platform, b: &Vec<u8>, added: &Vec<u8>) -> (r: Vec<u8>)
    ensures
        r@ == model::push(platform, b@, added@),
{
    proof {
        reveal(model::push);
    }
    let mut out = copy_bytes(b, 0, b.len());
    proof {
        assert(b@.subrange(0, b@.len() as int) =~= b@);
        assert(added@.subrange(0, added@.len() as int) =~= added@);
        syntax::lemma_prefix_fits(platform, b@);
    }
    match platform {
        Platform::Unix => {
            if is_rooted(platform, added) {
                return copy_bytes(added, 0, added.len());
            }
            if b.len() > 0 && b[b.len() - 1] != SLASH {
                out.push(SLASH);
            }
            append_bytes(&mut out, added);
            out
        },
        Platform::Windows => {
            if parse::read_prefix(platform, added).is_some() {
                return copy_bytes(added, 0, added.len());
            }
            let own = parse::read_prefix(platform, b);
            if let Some(pre) = own {
                if parse::is_verbatim(pre.kind) && added.len() > 0 {
                    let joined = join_verbatim(
                        read_components(platform, b),
                        read_components(platform, added),
                    );
                    return write_verbatim(&joined);
                }
            }
            if is_rooted(platform, added) {
                let p: usize = match own {
                    Some(pre) => pre.len,
                    None => 0,
                };
                let mut rooted = copy_bytes(b, 0, p);
                proof {
                    assert(b@.subrange(0, p as int) =~= b@.take(p as int));
                }
                append_bytes(&mut rooted, added);
                return rooted;
            }
            let bare_drive = match own {
                Some(pre) => pre.kind == PrefixKind::Disk && pre.len == b.len(),
                None => false,
            };
            if b.len() > 0 && !Separators::Both.contains(b[b.len() - 1]) && !bare_drive {
                out.push(BACKSLASH);
            }
            append_bytes(&mut out, added);
            out
        },
    }
}

} // verus!
