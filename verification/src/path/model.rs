//! What the operations on paths compute, stated over the bytes of a path.

use vstd::prelude::*;

use crate::path::syntax;
use crate::path::syntax::{BACKSLASH, DOT, Kind, PieceView, PrefixKind, SLASH, Separators};
use crate::platform::Platform;

verus! {

/// A component of a path with its text.
pub enum Comp {
    Prefix(Seq<u8>),
    RootDir,
    CurDir,
    ParentDir,
    Normal(Seq<u8>),
}

/// The component that stands at a piece of `b`.
pub open spec fn comp_of(b: Seq<u8>, piece: PieceView) -> Comp {
    let text = b.subrange(piece.start, piece.end);
    match piece.kind {
        Kind::Prefix => Comp::Prefix(text),
        Kind::RootDir => Comp::RootDir,
        Kind::CurDir => Comp::CurDir,
        Kind::ParentDir => Comp::ParentDir,
        Kind::Normal => Comp::Normal(text),
    }
}

/// The components of a path, in order.
pub open spec fn comps(platform: Platform, b: Seq<u8>) -> Seq<Comp> {
    syntax::pieces(platform, b).map_values(|p: PieceView| comp_of(b, p))
}

/// A component as it is written.
pub open spec fn comp_text(platform: Platform, c: Comp) -> Seq<u8> {
    match c {
        Comp::Prefix(text) => text,
        Comp::RootDir => seq![syntax::main_separator(platform)],
        Comp::CurDir => seq![DOT],
        Comp::ParentDir => seq![DOT, DOT],
        Comp::Normal(text) => text,
    }
}

/// An ASCII capital for an ASCII letter.
pub open spec fn upper(byte: u8) -> u8 {
    if 0x61 <= byte <= 0x7a {
        (byte - 32) as u8
    } else {
        byte
    }
}

/// What two prefixes have in common when they are equal: the kind and the names,
/// where the letter of a drive counts in either case.
pub open spec fn prefix_key(b: Seq<u8>) -> Option<(PrefixKind, Seq<u8>, Seq<u8>)> {
    match syntax::windows_prefix(b) {
        Some(p) => {
            let first = b.subrange(p.first.0, p.first.1);
            let drive = p.kind is Disk || p.kind is VerbatimDisk;
            Some((
                p.kind,
                if drive { first.map_values(|x: u8| upper(x)) } else { first },
                b.subrange(p.second.0, p.second.1),
            ))
        },
        None => None,
    }
}

/// Equality of components.
pub open spec fn same_comp(a: Comp, b: Comp) -> bool {
    match (a, b) {
        (Comp::Prefix(s), Comp::Prefix(t)) => prefix_key(s) == prefix_key(t),
        _ => a == b,
    }
}

/// Equality of lists of components.
pub open spec fn same_comps(a: Seq<Comp>, b: Seq<Comp>) -> bool {
    a.len() == b.len() && forall|i: int| 0 <= i < a.len() ==> same_comp(#[trigger] a[i], b[i])
}

/// The components of a verbatim path after those of another path were added.
pub open spec fn verbatim_join(base: Seq<Comp>, added: Seq<Comp>) -> Seq<Comp>
    decreases added.len(),
{
    if added.len() == 0 {
        base
    } else {
        let so_far = verbatim_join(base, added.drop_last());
        match added.last() {
            Comp::RootDir => (if so_far.len() > 0 { so_far.take(1) } else { so_far }).push(
                Comp::RootDir,
            ),
            Comp::CurDir => so_far,
            Comp::ParentDir => if so_far.len() > 0 && so_far.last() is Normal {
                so_far.drop_last()
            } else {
                so_far
            },
            other => so_far.push(other),
        }
    }
}

/// The text of a verbatim path: a separator between any two components, but none
/// around the root.
pub open spec fn verbatim_text(cs: Seq<Comp>) -> Seq<u8>
    decreases cs.len(),
{
    if cs.len() == 0 {
        Seq::empty()
    } else {
        let before = cs.drop_last();
        let text = comp_text(Platform::Windows, cs.last());
        if before.len() > 0 && before.last() !is RootDir && cs.last() !is RootDir {
            verbatim_text(before).push(BACKSLASH) + text
        } else {
            verbatim_text(before) + text
        }
    }
}

/// Whether a Windows path needs a separator before a name is added to it.
pub open spec fn needs_separator(b: Seq<u8>) -> bool {
    &&& b.len() > 0
    &&& !Separators::Both.has(b.last())
    &&& !(syntax::windows_prefix(b) matches Some(p) && p.kind is Disk && p.len == b.len())
}

/// The path `b` extended by the path `added`.
#[verifier::opaque]
pub open spec fn push(platform: Platform, b: Seq<u8>, added: Seq<u8>) -> Seq<u8> {
    match platform {
        Platform::Unix => if syntax::has_root(platform, added) {
            added
        } else if b.len() > 0 && b.last() != SLASH {
            b.push(SLASH) + added
        } else {
            b + added
        },
        Platform::Windows => if syntax::windows_prefix(added) is Some {
            added
        } else if syntax::windows_prefix(b) matches Some(p) && p.kind.verbatim() && added.len() > 0 {
            verbatim_text(verbatim_join(comps(platform, b), comps(platform, added)))
        } else if syntax::has_root(platform, added) {
            b.take(syntax::prefix_len(platform, b)) + added
        } else if needs_separator(b) {
            b.push(BACKSLASH) + added
        } else {
            b + added
        },
    }
}

/// The path that the components make when they are added one by one.
pub open spec fn collect(platform: Platform, cs: Seq<Comp>) -> Seq<u8>
    decreases cs.len(),
{
    if cs.len() == 0 {
        Seq::empty()
    } else {
        push(platform, collect(platform, cs.drop_last()), comp_text(platform, cs.last()))
    }
}

/// A path: its bytes and the platform whose syntax they follow.
pub struct PathView {
    pub platform: Platform,
    pub bytes: Seq<u8>,
}

impl PathView {
    /// The components of the path.
    pub open spec fn comps(self) -> Seq<Comp> {
        comps(self.platform, self.bytes)
    }

    /// The components of the path with their positions.
    pub open spec fn pieces(self) -> Seq<PieceView> {
        syntax::pieces(self.platform, self.bytes)
    }

    /// The path extended by another.
    pub open spec fn join(self, added: Seq<u8>) -> PathView {
        PathView { platform: self.platform, bytes: push(self.platform, self.bytes, added) }
    }

    /// The path extended by a name.
    pub open spec fn child(self, name: Seq<char>) -> PathView {
        self.join(vstd::utf8::encode_utf8(name))
    }

    /// The path of an executable file in the directory.
    pub open spec fn program(self, name: Seq<char>) -> PathView {
        self.child(name + self.platform.exe_suffix())
    }

    /// Equality of paths: that of their components.
    pub open spec fn same(self, other: PathView) -> bool {
        self.platform == other.platform && same_comps(self.comps(), other.comps())
    }

    /// Whether the components of `base` come first.
    pub open spec fn starts_with(self, base: PathView) -> bool {
        &&& self.platform == base.platform
        &&& base.comps().len() <= self.comps().len()
        &&& same_comps(self.comps().take(base.comps().len() as int), base.comps())
    }

    /// The bytes from component `from` up to the end of component `to - 1`.
    pub open spec fn between(self, from: int, to: int) -> PathView {
        PathView {
            platform: self.platform,
            bytes: if from < to {
                self.bytes.subrange(self.pieces()[from].start, self.pieces()[to - 1].end)
            } else {
                Seq::empty()
            },
        }
    }

    /// The path without its last component, unless that is the root or a prefix.
    pub open spec fn parent(self) -> Option<PathView> {
        let n = self.pieces().len() as int;
        if n > 0 && (self.pieces()[n - 1].kind is Normal || self.pieces()[n - 1].kind is CurDir
            || self.pieces()[n - 1].kind is ParentDir) {
            Some(self.between(0, n - 1))
        } else {
            None
        }
    }

    /// The last component, when it is a name.
    pub open spec fn file_name(self) -> Option<Seq<u8>> {
        let cs = self.comps();
        if cs.len() > 0 {
            match cs.last() {
                Comp::Normal(text) => Some(text),
                _ => None,
            }
        } else {
            None
        }
    }

    /// What is left of the path when the components of `base` are taken off.
    pub open spec fn strip_prefix(self, base: PathView) -> Option<PathView> {
        if self.starts_with(base) {
            Some(self.between(base.comps().len() as int, self.comps().len() as int))
        } else {
            None
        }
    }
}

/// The pieces of the body lie behind one another within the path.
pub proof fn lemma_body_fits(seps: Separators, b: Seq<u8>, i: int)
    requires
        0 <= i,
    ensures
        forall|k: int|
            0 <= k < syntax::body(seps, b, i).len() ==> {
                let piece = #[trigger] syntax::body(seps, b, i)[k];
                i <= piece.start < piece.end <= b.len()
            },
        forall|k: int, m: int|
            0 <= k < m < syntax::body(seps, b, i).len() ==> (#[trigger] syntax::body(
                seps,
                b,
                i,
            )[k]).end <= (#[trigger] syntax::body(seps, b, i)[m]).start,
        forall|k: int|
            0 <= k < syntax::body(seps, b, i).len() ==> {
                let piece = #[trigger] syntax::body(seps, b, i)[k];
                piece.kind is Normal || piece.kind is CurDir || piece.kind is ParentDir
            },
    decreases b.len() - i,
{
    if i < b.len() {
        if seps.has(b[i]) {
            lemma_body_fits(seps, b, i + 1);
        } else {
            let end = syntax::segment_end(seps, b, i);
            syntax::lemma_segment_end(seps, b, i);
            assert(i < end);
            lemma_body_fits(seps, b, end);
            let rest = syntax::body(seps, b, end);
            if let Some(kind) = syntax::segment_kind(seps, b.subrange(i, end)) {
                let whole = syntax::body(seps, b, i);
                assert(whole =~= seq![PieceView { kind, start: i, end }] + rest);
                assert forall|k: int| 0 <= k < whole.len() implies {
                    let piece = #[trigger] whole[k];
                    i <= piece.start < piece.end <= b.len() && (piece.kind is Normal
                        || piece.kind is CurDir || piece.kind is ParentDir)
                } by {
                    if k > 0 {
                        assert(whole[k] == rest[k - 1]);
                    }
                }
                assert forall|k: int, m: int| 0 <= k < m < whole.len() implies (
                #[trigger] whole[k]).end <= (#[trigger] whole[m]).start by {
                    assert(whole[m] == rest[m - 1]);
                    if k > 0 {
                        assert(whole[k] == rest[k - 1]);
                    }
                }
            }
        }
    }
}

/// The pieces of a path lie behind one another within the path.
pub proof fn lemma_pieces_fit(platform: Platform, b: Seq<u8>)
    ensures
        forall|k: int|
            0 <= k < syntax::pieces(platform, b).len() ==> {
                let piece = #[trigger] syntax::pieces(platform, b)[k];
                0 <= piece.start <= piece.end <= b.len()
            },
        forall|k: int, m: int|
            0 <= k <= m < syntax::pieces(platform, b).len() ==> (#[trigger] syntax::pieces(
                platform,
                b,
            )[k]).start <= (#[trigger] syntax::pieces(platform, b)[m]).end,
{
    syntax::lemma_prefix_fits(platform, b);
    let (first, start) = syntax::head(platform, b);
    let seps = syntax::body_separators(platform, b);
    lemma_body_fits(seps, b, start);
    let rest = syntax::body(seps, b, start);
    let whole = syntax::pieces(platform, b);
    assert(whole =~= first + rest);
    assert forall|k: int| 0 <= k < first.len() implies {
        let piece = #[trigger] first[k];
        0 <= piece.start <= piece.end <= start
    } by {}
    assert forall|k: int| 0 <= k < whole.len() implies {
        let piece = #[trigger] whole[k];
        0 <= piece.start <= piece.end <= b.len()
    } by {
        if k < first.len() {
            assert(whole[k] == first[k]);
        } else {
            assert(whole[k] == rest[k - first.len()]);
        }
    }
    assert forall|k: int, m: int| 0 <= k <= m < whole.len() implies (#[trigger] whole[k]).start
        <= (#[trigger] whole[m]).end by {
        if m < first.len() {
            assert(whole[k] == first[k] && whole[m] == first[m]);
        } else if k < first.len() {
            assert(whole[k] == first[k] && whole[m] == rest[m - first.len()]);
        } else {
            assert(whole[k] == rest[k - first.len()] && whole[m] == rest[m - first.len()]);
        }
    }
}

/// The pieces of a path do not overlap, and each name and each dot takes up bytes.
pub proof fn lemma_pieces_in_order(platform: Platform, b: Seq<u8>)
    ensures
        forall|k: int, m: int|
            0 <= k < m < syntax::pieces(platform, b).len() ==> (#[trigger] syntax::pieces(
                platform,
                b,
            )[k]).end <= (#[trigger] syntax::pieces(platform, b)[m]).start,
        forall|k: int|
            0 <= k < syntax::pieces(platform, b).len() ==> {
                let piece = #[trigger] syntax::pieces(platform, b)[k];
                piece.kind is Normal || piece.kind is CurDir || piece.kind is ParentDir
                    ==> piece.start < piece.end
            },
{
    syntax::lemma_prefix_fits(platform, b);
    let (first, start) = syntax::head(platform, b);
    let seps = syntax::body_separators(platform, b);
    lemma_body_fits(seps, b, start);
    let rest = syntax::body(seps, b, start);
    let whole = syntax::pieces(platform, b);
    assert(whole =~= first + rest);
    assert forall|k: int, m: int| 0 <= k < m < whole.len() implies (#[trigger] whole[k]).end <= (
    #[trigger] whole[m]).start by {
        if m < first.len() {
            assert(whole[k] == first[k] && whole[m] == first[m]);
        } else if k < first.len() {
            assert(whole[k] == first[k] && whole[m] == rest[m - first.len()]);
        } else {
            assert(whole[k] == rest[k - first.len()] && whole[m] == rest[m - first.len()]);
        }
    }
    assert forall|k: int| 0 <= k < whole.len() implies {
        let piece = #[trigger] whole[k];
        piece.kind is Normal || piece.kind is CurDir || piece.kind is ParentDir ==> piece.start
            < piece.end
    } by {
        if k < first.len() {
            assert(whole[k] == first[k]);
        } else {
            assert(whole[k] == rest[k - first.len()]);
        }
    }
}

/// The first piece stands at the start of the path.
pub proof fn lemma_first_piece_opens(platform: Platform, b: Seq<u8>)
    requires
        syntax::pieces(platform, b).len() > 0,
    ensures
        syntax::pieces(platform, b)[0].start == 0,
{
    let (first, start) = syntax::head(platform, b);
    let seps = syntax::body_separators(platform, b);
    let rest = syntax::body(seps, b, start);
    if first.len() > 0 {
        assert(syntax::pieces(platform, b)[0] == first[0]);
    } else {
        assert(start == 0);
        assert(syntax::pieces(platform, b)[0] == rest[0]);
        assert(!seps.has(b[0]));
        syntax::lemma_segment_end(seps, b, 0);
        let end = syntax::segment_end(seps, b, 0);
        let segment = b.subrange(0, end);
        assert(0 < end);
        if segment == seq![DOT] {
            assert(segment.len() == 1);
            assert(segment[0] == DOT);
            assert(syntax::opens_with_dot(seps, b));
        }
    }
}

/// What [`push`] is on Unix.
pub proof fn lemma_push_on_unix(b: Seq<u8>, added: Seq<u8>)
    ensures
        push(Platform::Unix, b, added) == (if syntax::has_root(Platform::Unix, added) {
            added
        } else if b.len() > 0 && b.last() != SLASH {
            b.push(SLASH) + added
        } else {
            b + added
        }),
{
    reveal(push);
}

/// The bytes of two paths that are joined. A path from the root takes the place of the other,
/// on Windows behind its drive, and so does one with a prefix. Any other is put behind the
/// other, with one separator between them where there is none and the other is neither empty
/// nor a drive alone.
pub proof fn law_bytes_of_joined_paths(b: Seq<u8>, added: Seq<u8>)
    ensures
        ({
            let joined = push(Platform::Unix, b, added);
            let rooted = added.len() > 0 && added[0] == 47;
            let ended = b.len() == 0 || b[b.len() - 1] == 47;
            &&& rooted ==> joined == added
            &&& !rooted && ended ==> joined == b + added
            &&& !rooted && !ended ==> joined == b + seq![47u8] + added
        }),
        !syntax::opens_verbatim(b) ==> ({
            let joined = push(Platform::Windows, b, added);
            let rooted = added.len() > 0 && (added[0] == 47 || added[0] == 92);
            let ended = b.len() == 0 || b[b.len() - 1] == 47 || b[b.len() - 1] == 92;
            let drive = b.len() == 2 && syntax::is_letter(b[0]) && b[1] == 58;
            let prefix = syntax::windows_prefix(added) is Some;
            &&& prefix ==> joined == added
            &&& !prefix && rooted ==> joined == b.take(syntax::prefix_len(Platform::Windows, b))
                + added
            &&& !prefix && !rooted && (ended || drive) ==> joined == b + added
            &&& !prefix && !rooted && !ended && !drive ==> joined == b + seq![92u8] + added
        }),
{
    reveal(push);
    assert(b.push(SLASH) + added =~= b + seq![47u8] + added);
    assert(b.push(BACKSLASH) + added =~= b + seq![92u8] + added);
}

/// A drive is a letter with a colon, and its letter counts in either case.
pub proof fn law_drives_count_in_either_case(a: u8, b: u8, rest: Seq<u8>)
    requires
        0x41 <= a <= 0x5a || 0x61 <= a <= 0x7a,
        0x41 <= b <= 0x5a || 0x61 <= b <= 0x7a,
    ensures
        syntax::windows_prefix(seq![a, 58u8] + rest) matches Some(p) && p.kind is Disk && p.len == 2,
        same_comp(Comp::Prefix(seq![a, 58u8]), Comp::Prefix(seq![b, 58u8])) <==> a == b || a == b + 32
            || b == a + 32,
{
    let all = seq![a, 58u8] + rest;
    assert(all[0] == a && all[1] == 58);
    let one = seq![a, 58u8];
    let two = seq![b, 58u8];
    assert(one[0] == a && two[0] == b);
    let first = one.subrange(0, 1).map_values(|x: u8| upper(x));
    let second = two.subrange(0, 1).map_values(|x: u8| upper(x));
    assert(first[0] == upper(a));
    assert(second[0] == upper(b));
    if upper(a) == upper(b) {
        assert(first =~= second);
    }
    assert(one.subrange(2, 2) =~= two.subrange(2, 2));
}

/// Names and dots are equal only to themselves.
pub proof fn law_names_are_equal_only_to_themselves(a: Comp, b: Comp)
    requires
        !(a is Prefix),
    ensures
        same_comp(a, b) <==> a == b,
        same_comp(b, a) <==> a == b,
{
}

} // verus!
