//! Reading the bytes of a path into its components.

use vstd::prelude::*;

use crate::path::syntax;
use crate::path::syntax::{
    BACKSLASH, COLON, DOT, Kind, PieceView, PrefixKind, PrefixView, QUESTION, SLASH, Separators,
};
use crate::platform::Platform;

verus! {

/// A Windows prefix as found in the bytes of a path.
#[derive(Debug, Clone, Copy)]
pub struct Prefix {
    pub kind: PrefixKind,
    pub len: usize,
    pub first: (usize, usize),
    pub second: (usize, usize),
}

impl View for Prefix {
    type V = PrefixView;

    open spec fn view(&self) -> PrefixView {
        PrefixView {
            kind: self.kind,
            len: self.len as int,
            first: (self.first.0 as int, self.first.1 as int),
            second: (self.second.0 as int, self.second.1 as int),
        }
    }
}

/// A component as found in the bytes of a path.
#[derive(Debug, Clone, Copy)]
pub struct Piece {
    pub kind: Kind,
    pub start: usize,
    pub end: usize,
}

impl View for Piece {
    type V = PieceView;

    open spec fn view(&self) -> PieceView {
        PieceView { kind: self.kind, start: self.start as int, end: self.end as int }
    }
}

/// What a list of components stands for.
pub open spec fn piece_views(pieces: Seq<Piece>) -> Seq<PieceView> {
    pieces.map_values(|p: Piece| p@)
}

/// The separators of a platform.
pub fn separators_of(platform: Platform) -> (r: Separators)
    ensures
        r == syntax::separators(platform),
{
    match platform {
        Platform::Unix => Separators::Slash,
        Platform::Windows => Separators::Both,
    }
}

/// The separator that a platform puts between components.
pub fn main_separator_of(platform: Platform) -> (r: u8)
    ensures
        r == syntax::main_separator(platform),
{
    match platform {
        Platform::Unix => SLASH,
        Platform::Windows => BACKSLASH,
    }
}

/// The first position at or behind `from` that holds a separator, or the length.
pub fn find_end(seps: Separators, b: &Vec<u8>, from: usize) -> (r: usize)
    requires
        from <= b@.len(),
    ensures
        r == syntax::segment_end(seps, b@, from as int),
        from <= r <= b@.len(),
{
    let mut i: usize = from;
    while i < b.len() && !seps.contains(b[i])
        invariant
            from <= i <= b@.len(),
            forall|k: int| from <= k < i ==> !seps.has(#[trigger] b@[k]),
        decreases b@.len() - i,
    {
        i = i + 1;
    }
    proof {
        syntax::lemma_segment_ends_at(seps, b@, from as int, i as int);
    }
    i
}

/// Reads a prefix with one name.
fn read_one_name(kind: PrefixKind, seps: Separators, b: &Vec<u8>, from: usize) -> (r: Prefix)
    requires
        from <= b@.len(),
    ensures
        r@ == syntax::one_name(kind, seps, b@, from as int),
{
    let end = find_end(seps, b, from);
    Prefix { kind, len: end, first: (from, end), second: (end, end) }
}

/// Reads a prefix with two names.
fn read_two_names(kind: PrefixKind, seps: Separators, b: &Vec<u8>, from: usize) -> (r: Prefix)
    requires
        from <= b@.len(),
    ensures
        r@ == syntax::two_names(kind, seps, b@, from as int),
{
    let end = find_end(seps, b, from);
    let next: usize = if end < b.len() {
        end + 1
    } else {
        end
    };
    let last = find_end(seps, b, next);
    let len: usize = if last > next {
        last
    } else {
        end
    };
    Prefix { kind, len, first: (from, end), second: (next, last) }
}

/// Tells whether a letter with a colon stands at position `i`.
fn has_drive_at(b: &Vec<u8>, i: usize) -> (r: bool)
    requires
        i <= b@.len(),
    ensures
        r == syntax::drive_at(b@, i as int),
{
    if b.len() - i < 2 {
        return false;
    }
    let letter = b[i];
    ((0x41 <= letter && letter <= 0x5a) || (0x61 <= letter && letter <= 0x7a)) && b[i + 1] == COLON
}

/// Reads the prefix of a Windows path.
fn read_windows_prefix(b: &Vec<u8>) -> (r: Option<Prefix>)
    ensures
        match r {
            Some(p) => syntax::windows_prefix(b@) == Some(p@),
            None => syntax::windows_prefix(b@) is None,
        },
{
    let both = Separators::Both;
    if b.len() >= 4 && b[0] == BACKSLASH && b[1] == BACKSLASH && b[2] == QUESTION && b[3]
        == BACKSLASH {
        if b.len() >= 8 && b[4] == 0x55 && b[5] == 0x4e && b[6] == 0x43 && both.contains(b[7]) {
            Some(read_two_names(PrefixKind::VerbatimUnc, Separators::Verbatim, b, 8))
        } else if has_drive_at(b, 4) && (b.len() == 6 || both.contains(b[6])) {
            Some(Prefix { kind: PrefixKind::VerbatimDisk, len: 6, first: (4, 5), second: (6, 6) })
        } else {
            Some(read_one_name(PrefixKind::Verbatim, Separators::Verbatim, b, 4))
        }
    } else if b.len() >= 2 && both.contains(b[0]) && both.contains(b[1]) {
        if b.len() >= 4 && b[2] == DOT && both.contains(b[3]) {
            Some(read_one_name(PrefixKind::Device, both, b, 4))
        } else {
            let unc = read_two_names(PrefixKind::Unc, both, b, 2);
            if unc.first.0 < unc.first.1 && unc.second.0 < unc.second.1 {
                Some(unc)
            } else {
                None
            }
        }
    } else if has_drive_at(b, 0) {
        Some(Prefix { kind: PrefixKind::Disk, len: 2, first: (0, 1), second: (2, 2) })
    } else {
        None
    }
}

/// Reads the prefix of a path.
pub fn read_prefix(platform: Platform, b: &Vec<u8>) -> (r: Option<Prefix>)
    ensures
        match r {
            Some(p) => syntax::prefix(platform, b@) == Some(p@),
            None => syntax::prefix(platform, b@) is None,
        },
{
    match platform {
        Platform::Unix => None,
        Platform::Windows => read_windows_prefix(b),
    }
}

/// Tells whether a path with this prefix is taken literally.
pub fn is_verbatim(kind: PrefixKind) -> (r: bool)
    ensures
        r == kind.verbatim(),
{
    match kind {
        PrefixKind::Verbatim | PrefixKind::VerbatimUnc | PrefixKind::VerbatimDisk => true,
        _ => false,
    }
}

/// The kind of the segment from `start` up to `end`.
fn kind_of_segment(seps: Separators, b: &Vec<u8>, start: usize, end: usize) -> (r: Option<Kind>)
    requires
        start < end <= b@.len(),
    ensures
        r == syntax::segment_kind(seps, b@.subrange(start as int, end as int)),
{
    let ghost segment = b@.subrange(start as int, end as int);
    if end - start == 1 && b[start] == DOT {
        proof {
            assert(segment =~= seq![DOT]);
        }
        match seps {
            Separators::Verbatim => Some(Kind::CurDir),
            _ => None,
        }
    } else if end - start == 2 && b[start] == DOT && b[start + 1] == DOT {
        proof {
            assert(segment =~= seq![DOT, DOT]);
            assert(segment.len() != seq![DOT].len());
        }
        Some(Kind::ParentDir)
    } else {
        proof {
            if segment == seq![DOT] {
                assert(seq![DOT].len() == 1);
                assert(segment[0] == seq![DOT][0]);
            }
            if segment == seq![DOT, DOT] {
                assert(seq![DOT, DOT].len() == 2);
                assert(segment[0] == seq![DOT, DOT][0]);
                assert(segment[1] == seq![DOT, DOT][1]);
            }
        }
        Some(Kind::Normal)
    }
}

/// Reads a path into its components.
pub fn read_pieces(platform: Platform, b: &Vec<u8>) -> (r: Vec<Piece>)
    ensures
        piece_views(r@) == syntax::pieces(platform, b@),
{
    let mut out: Vec<Piece> = Vec::new();
    let mut seps = separators_of(platform);
    let mut p: usize = 0;
    let found = read_prefix(platform, b);
    proof {
        syntax::lemma_prefix_fits(platform, b@);
    }
    if let Some(pre) = found {
        p = pre.len;
        out.push(Piece { kind: Kind::Prefix, start: 0, end: p });
        if is_verbatim(pre.kind) {
            seps = Separators::Verbatim;
        }
    }
    let mut i: usize = p;
    if p < b.len() && separators_of(platform).contains(b[p]) {
        out.push(Piece { kind: Kind::RootDir, start: p, end: p + 1 });
        i = p + 1;
    } else {
        match found {
            Some(pre) => {
                if pre.kind != PrefixKind::Disk && !is_verbatim(pre.kind) {
                    out.push(Piece { kind: Kind::RootDir, start: p, end: p });
                }
            },
            None => {
                if b.len() > 0 && b[0] == DOT && (b.len() == 1 || seps.contains(b[1])) {
                    out.push(Piece { kind: Kind::CurDir, start: 0, end: 1 });
                    i = 1;
                }
            },
        }
    }
    proof {
        assert(piece_views(out@) =~= syntax::head(platform, b@).0);
        assert(i == syntax::head(platform, b@).1);
        assert(seps == syntax::body_separators(platform, b@));
    }
    while i < b.len()
        invariant
            i <= b@.len(),
            syntax::pieces(platform, b@) == piece_views(out@) + syntax::body(seps, b@, i as int),
        decreases b@.len() - i,
    {
        if seps.contains(b[i]) {
            i = i + 1;
        } else {
            let end = find_end(seps, b, i);
            proof {
                syntax::lemma_segment_end(seps, b@, i as int);
            }
            let ghost before = out@;
            if let Some(kind) = kind_of_segment(seps, b, i, end) {
                let piece = Piece { kind, start: i, end };
                out.push(piece);
                proof {
                    assert(piece_views(out@) =~= piece_views(before).push(piece@));
                    assert(piece_views(before) + (seq![piece@] + syntax::body(seps, b@, end as int))
                        =~= piece_views(out@) + syntax::body(seps, b@, end as int));
                }
            }
            i = end;
        }
    }
    proof {
        assert(piece_views(out@) =~= syntax::pieces(platform, b@));
    }
    out
}

} // verus!
