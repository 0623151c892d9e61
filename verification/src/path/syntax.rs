//! How the bytes of a path are read: the Windows prefix, the root and the
//! components behind it.

use vstd::prelude::*;

use crate::platform::Platform;

verus! {

pub const SLASH: u8 = 0x2f;

pub const BACKSLASH: u8 = 0x5c;

pub const DOT: u8 = 0x2e;

pub const COLON: u8 = 0x3a;

pub const QUESTION: u8 = 0x3f;

/// The bytes that separate the components of a path.
#[derive(Debug, Clone, Copy, PartialEq, Eq, Structural)]
pub enum Separators {
    /// `/`
    Slash,
    /// `/` and `\`
    Both,
    /// `\` alone, behind a verbatim prefix
    Verbatim,
}

impl Separators {
    /// Whether `byte` is a separator.
    pub open spec fn has(self, byte: u8) -> bool {
        match self {
            Separators::Slash => byte == SLASH,
            Separators::Both => byte == SLASH || byte == BACKSLASH,
            Separators::Verbatim => byte == BACKSLASH,
        }
    }

    /// Tells whether `byte` is a separator.
    pub fn contains(self, byte: u8) -> (r: bool)
        ensures
            r == self.has(byte),
    {
        match self {
            Separators::Slash => byte == SLASH,
            Separators::Both => byte == SLASH || byte == BACKSLASH,
            Separators::Verbatim => byte == BACKSLASH,
        }
    }
}

/// The separators of a platform.
pub open spec fn separators(platform: Platform) -> Separators {
    match platform {
        Platform::Unix => Separators::Slash,
        Platform::Windows => Separators::Both,
    }
}

/// The separator that a platform puts between components.
pub open spec fn main_separator(platform: Platform) -> u8 {
    match platform {
        Platform::Unix => SLASH,
        Platform::Windows => BACKSLASH,
    }
}

/// The first position at or behind `i` that holds a separator, or the length.
pub open spec fn segment_end(seps: Separators, b: Seq<u8>, i: int) -> int
    decreases b.len() - i,
{
    if i >= b.len() || seps.has(b[i]) {
        i
    } else {
        segment_end(seps, b, i + 1)
    }
}

/// The kinds of Windows path prefixes.
#[derive(Debug, Clone, Copy, PartialEq, Eq, Structural)]
pub enum PrefixKind {
    /// `\\?\name`
    Verbatim,
    /// `\\?\UNC\server\share`
    VerbatimUnc,
    /// `\\?\C:`
    VerbatimDisk,
    /// `\\.\name`
    Device,
    /// `\\server\share`
    Unc,
    /// `C:`
    Disk,
}

impl PrefixKind {
    /// Whether a path with this prefix is taken literally.
    pub open spec fn verbatim(self) -> bool {
        self is Verbatim || self is VerbatimUnc || self is VerbatimDisk
    }
}

/// A Windows prefix: its kind, the number of bytes that it takes, and the one or
/// two names in it, as positions from where up to where.
pub struct PrefixView {
    pub kind: PrefixKind,
    pub len: int,
    pub first: (int, int),
    pub second: (int, int),
}

/// Whether `byte` is an ASCII letter.
pub open spec fn is_letter(byte: u8) -> bool {
    0x41 <= byte <= 0x5a || 0x61 <= byte <= 0x7a
}

/// Whether a drive, a letter with a colon, stands at position `i`.
pub open spec fn drive_at(b: Seq<u8>, i: int) -> bool {
    i + 1 < b.len() && is_letter(b[i]) && b[i + 1] == COLON
}

/// Whether two bytes that Windows takes as separators open the path.
pub open spec fn opens_with_two(b: Seq<u8>) -> bool {
    b.len() >= 2 && Separators::Both.has(b[0]) && Separators::Both.has(b[1])
}

/// Whether `\\?\` opens the path, written with backslashes.
pub open spec fn opens_verbatim(b: Seq<u8>) -> bool {
    b.len() >= 4 && b[0] == BACKSLASH && b[1] == BACKSLASH && b[2] == QUESTION && b[3] == BACKSLASH
}

/// A prefix with one name, which starts at `from`.
pub open spec fn one_name(kind: PrefixKind, seps: Separators, b: Seq<u8>, from: int) -> PrefixView {
    let end = segment_end(seps, b, from);
    PrefixView { kind, len: end, first: (from, end), second: (end, end) }
}

/// A prefix with two names, the first of which starts at `from`.
pub open spec fn two_names(kind: PrefixKind, seps: Separators, b: Seq<u8>, from: int) -> PrefixView {
    let end = segment_end(seps, b, from);
    let next = if end < b.len() { end + 1 } else { end };
    let last = segment_end(seps, b, next);
    PrefixView {
        kind,
        len: if last > next { last } else { end },
        first: (from, end),
        second: (next, last),
    }
}

/// The prefix of a Windows path.
pub open spec fn windows_prefix(b: Seq<u8>) -> Option<PrefixView> {
    if opens_verbatim(b) {
        if b.len() >= 8 && b[4] == 0x55 && b[5] == 0x4e && b[6] == 0x43 && Separators::Both.has(b[7]) {
            Some(two_names(PrefixKind::VerbatimUnc, Separators::Verbatim, b, 8))
        } else if drive_at(b, 4) && (b.len() == 6 || Separators::Both.has(b[6])) {
            Some(PrefixView { kind: PrefixKind::VerbatimDisk, len: 6, first: (4, 5), second: (6, 6) })
        } else {
            Some(one_name(PrefixKind::Verbatim, Separators::Verbatim, b, 4))
        }
    } else if opens_with_two(b) {
        if b.len() >= 4 && b[2] == DOT && Separators::Both.has(b[3]) {
            Some(one_name(PrefixKind::Device, Separators::Both, b, 4))
        } else {
            let unc = two_names(PrefixKind::Unc, Separators::Both, b, 2);
            if unc.first.0 < unc.first.1 && unc.second.0 < unc.second.1 {
                Some(unc)
            } else {
                None
            }
        }
    } else if drive_at(b, 0) {
        Some(PrefixView { kind: PrefixKind::Disk, len: 2, first: (0, 1), second: (2, 2) })
    } else {
        None
    }
}

/// The prefix of a path. Only Windows has any.
pub open spec fn prefix(platform: Platform, b: Seq<u8>) -> Option<PrefixView> {
    match platform {
        Platform::Unix => None,
        Platform::Windows => windows_prefix(b),
    }
}

/// The kinds of path components.
#[derive(Debug, Clone, Copy, PartialEq, Eq, Structural)]
pub enum Kind {
    Prefix,
    RootDir,
    CurDir,
    ParentDir,
    Normal,
}

/// A component of a path, with the positions from where and up to where it
/// stands in the path.
pub struct PieceView {
    pub kind: Kind,
    pub start: int,
    pub end: int,
}

/// The kind of a segment between two separators, or `None` for a `.`, which is
/// not counted unless the path is verbatim.
pub open spec fn segment_kind(seps: Separators, segment: Seq<u8>) -> Option<Kind> {
    if segment == seq![DOT] {
        if seps is Verbatim {
            Some(Kind::CurDir)
        } else {
            None
        }
    } else if segment == seq![DOT, DOT] {
        Some(Kind::ParentDir)
    } else {
        Some(Kind::Normal)
    }
}

/// The components behind the root, from position `i` on.
pub open spec fn body(seps: Separators, b: Seq<u8>, i: int) -> Seq<PieceView>
    decreases b.len() - i,
{
    if i < 0 || i >= b.len() {
        Seq::empty()
    } else if seps.has(b[i]) {
        body(seps, b, i + 1)
    } else {
        let end = segment_end(seps, b, i);
        if i < end <= b.len() {
            match segment_kind(seps, b.subrange(i, end)) {
                Some(kind) => seq![PieceView { kind, start: i, end }] + body(seps, b, end),
                None => body(seps, b, end),
            }
        } else {
            Seq::empty()
        }
    }
}

/// The separators in use behind the prefix.
pub open spec fn body_separators(platform: Platform, b: Seq<u8>) -> Separators {
    match prefix(platform, b) {
        Some(p) if p.kind.verbatim() => Separators::Verbatim,
        _ => separators(platform),
    }
}

/// The number of bytes that the prefix takes.
pub open spec fn prefix_len(platform: Platform, b: Seq<u8>) -> int {
    match prefix(platform, b) {
        Some(p) => p.len,
        None => 0,
    }
}

/// Whether a separator stands behind the prefix.
pub open spec fn has_physical_root(platform: Platform, b: Seq<u8>) -> bool {
    let p = prefix_len(platform, b);
    p < b.len() && separators(platform).has(b[p])
}

/// Whether the path starts at a root: a separator stands there, or the prefix
/// implies one.
pub open spec fn has_root(platform: Platform, b: Seq<u8>) -> bool {
    has_physical_root(platform, b) || (prefix(platform, b) matches Some(p) && p.kind !is Disk)
}

/// Whether a `.` opens the path.
pub open spec fn opens_with_dot(seps: Separators, b: Seq<u8>) -> bool {
    b.len() > 0 && b[0] == DOT && (b.len() == 1 || seps.has(b[1]))
}

/// The components of a path before its body, and where its body starts.
pub open spec fn head(platform: Platform, b: Seq<u8>) -> (Seq<PieceView>, int) {
    let p = prefix_len(platform, b);
    let first = match prefix(platform, b) {
        Some(_) => seq![PieceView { kind: Kind::Prefix, start: 0, end: p }],
        None => Seq::empty(),
    };
    if has_physical_root(platform, b) {
        (first.push(PieceView { kind: Kind::RootDir, start: p, end: p + 1 }), p + 1)
    } else {
        match prefix(platform, b) {
            Some(found) => if found.kind !is Disk && !found.kind.verbatim() {
                (first.push(PieceView { kind: Kind::RootDir, start: p, end: p }), p)
            } else {
                (first, p)
            },
            None => if opens_with_dot(separators(platform), b) {
                (seq![PieceView { kind: Kind::CurDir, start: 0, end: 1 }], 1)
            } else {
                (Seq::empty(), 0)
            },
        }
    }
}

/// The components of a path, in order.
pub open spec fn pieces(platform: Platform, b: Seq<u8>) -> Seq<PieceView> {
    let (first, start) = head(platform, b);
    first + body(body_separators(platform, b), b, start)
}

/// Where the segment at `i` ends.
pub proof fn lemma_segment_end(seps: Separators, b: Seq<u8>, i: int)
    requires
        0 <= i <= b.len(),
    ensures
        i <= segment_end(seps, b, i) <= b.len(),
        forall|k: int| i <= k < segment_end(seps, b, i) ==> !seps.has(#[trigger] b[k]),
        segment_end(seps, b, i) < b.len() ==> seps.has(b[segment_end(seps, b, i)]),
    decreases b.len() - i,
{
    if i < b.len() && !seps.has(b[i]) {
        lemma_segment_end(seps, b, i + 1);
    }
}

/// The end of a segment, found by looking at each byte in turn.
pub proof fn lemma_segment_ends_at(seps: Separators, b: Seq<u8>, i: int, end: int)
    requires
        0 <= i <= end <= b.len(),
        forall|k: int| i <= k < end ==> !seps.has(#[trigger] b[k]),
        end < b.len() ==> seps.has(b[end]),
    ensures
        segment_end(seps, b, i) == end,
    decreases end - i,
{
    if i < end {
        lemma_segment_ends_at(seps, b, i + 1, end);
    }
}

/// A prefix lies within its path, and its names within the prefix.
pub proof fn lemma_prefix_fits(platform: Platform, b: Seq<u8>)
    ensures
        prefix(platform, b) matches Some(p) ==> {
            &&& 2 <= p.len <= b.len()
            &&& 0 <= p.first.0 <= p.first.1 <= p.len
            &&& p.second.0 <= p.second.1
            &&& p.second.0 < p.second.1 ==> 0 <= p.second.0 && p.second.1 <= p.len
        },
        0 <= prefix_len(platform, b) <= b.len(),
{
    if let Some(p) = prefix(platform, b) {
        if opens_verbatim(b) {
            if p.kind is VerbatimUnc {
                lemma_segment_end(Separators::Verbatim, b, 8);
                let end = segment_end(Separators::Verbatim, b, 8);
                let next = if end < b.len() { end + 1 } else { end };
                lemma_segment_end(Separators::Verbatim, b, next);
            } else if p.kind is Verbatim {
                lemma_segment_end(Separators::Verbatim, b, 4);
            }
        } else if opens_with_two(b) {
            if p.kind is Device {
                lemma_segment_end(Separators::Both, b, 4);
            } else {
                lemma_segment_end(Separators::Both, b, 2);
                let end = segment_end(Separators::Both, b, 2);
                let next = if end < b.len() { end + 1 } else { end };
                lemma_segment_end(Separators::Both, b, next);
            }
        }
    }
}

} // verus!
