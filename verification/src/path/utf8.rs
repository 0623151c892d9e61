//! Paths that are text.

use vstd::prelude::*;

use crate::path::clean;
use crate::path::clean::PathClean;
use crate::path::buf::PathBuf;
use crate::path::model;
use crate::path::model::PathView;
use crate::path::ops;
use crate::path::syntax;
use crate::path::syntax::{COLON, PieceView, Separators};
use crate::platform::Platform;

verus! {

/// A path that is text.
#[derive(Debug)]
pub struct Utf8PathBuf {
    pub platform: Platform,
    pub text: String,
}

impl View for Utf8PathBuf {
    type V = PathView;

    open spec fn view(&self) -> PathView {
        PathView { platform: self.platform, bytes: vstd::utf8::encode_utf8(self.text@) }
    }
}

impl Utf8PathBuf {
    /// The path as bytes.
    pub fn to_path_buf(&self) -> (r: PathBuf)
        ensures
            r@ == self@,
    {
        PathBuf::new(self.platform, self.text.as_str())
    }

    /// A copy of the path.
    pub fn duplicate(&self) -> (r: Utf8PathBuf)
        ensures
            r@ == self@,
            r.text@ == self.text@,
    {
        Utf8PathBuf { platform: self.platform, text: self.text.clone() }
    }
}

impl PathClean for Utf8PathBuf {
    open spec fn path(&self) -> PathView {
        self@
    }

    fn clean(&self) -> (r: PathBuf) {
        clean::clean(&self.to_path_buf())
    }
}

/// Reads a path as text, if it is UTF-8.
pub fn path_text(path: &PathBuf) -> (r: Option<Utf8PathBuf>)
    ensures
        match r {
            Some(t) => t@ == path@ && vstd::utf8::valid_utf8(path@.bytes),
            None => !vstd::utf8::valid_utf8(path@.bytes),
        },
{
    match ops::decode_utf8(&path.bytes) {
        Ok(text) => {
            proof {
                vstd::utf8::decode_utf8_encode_utf8(path.bytes@);
            }
            Some(Utf8PathBuf { platform: path.platform, text })
        },
        Err(_) => None,
    }
}

/// A path that can be had as text.
pub trait ToUtf8Path {
    /// The path that is asked for as text.
    spec fn bytes_path(&self) -> PathView;

    /// The path as text. Only a path that is UTF-8 has one.
    fn to_utf8_path(&self) -> (r: Utf8PathBuf)
        requires
            vstd::utf8::valid_utf8(self.bytes_path().bytes),
        ensures
            r@ == self.bytes_path(),
    ;
}

/// A path that can be turned into text.
pub trait IntoUtf8PathBuf: Sized {
    /// The path that is turned into text.
    spec fn owned_path(self) -> PathView;

    /// The path as text. Only a path that is UTF-8 has one.
    fn into_utf8_path_buf(self) -> (r: Utf8PathBuf)
        requires
            vstd::utf8::valid_utf8(self.owned_path().bytes),
        ensures
            r@ == self.owned_path(),
    ;
}

impl ToUtf8Path for PathBuf {
    open spec fn bytes_path(&self) -> PathView {
        self@
    }

    fn to_utf8_path(&self) -> (r: Utf8PathBuf) {
        match path_text(self) {
            Some(t) => t,
            None => Utf8PathBuf { platform: self.platform, text: String::new() },
        }
    }
}

impl ToUtf8Path for Utf8PathBuf {
    open spec fn bytes_path(&self) -> PathView {
        self@
    }

    fn to_utf8_path(&self) -> (r: Utf8PathBuf) {
        self.duplicate()
    }
}

impl IntoUtf8PathBuf for PathBuf {
    open spec fn owned_path(self) -> PathView {
        self@
    }

    fn into_utf8_path_buf(self) -> (r: Utf8PathBuf) {
        match path_text(&self) {
            Some(t) => t,
            None => Utf8PathBuf { platform: self.platform, text: String::new() },
        }
    }
}

/// An ASCII byte of a UTF-8 text starts a character, and so does what follows it.
proof fn lemma_around_ascii(b: Seq<u8>, i: int)
    requires
        vstd::utf8::valid_utf8(b),
        0 <= i < b.len(),
        b[i] <= 0x7f,
    ensures
        vstd::utf8::is_char_boundary(b, i),
        vstd::utf8::is_char_boundary(b, i + 1),
{
    vstd::utf8::is_char_boundary_iff_not_is_continuation_byte(b, i);
    vstd::utf8::valid_utf8_split(b, i);
    let tail = b.subrange(i, b.len() as int);
    assert(tail[0] == b[i]);
    let rest = vstd::utf8::pop_first_scalar(tail);
    assert(rest =~= b.skip(i + 1));
    if i + 1 == b.len() {
        vstd::utf8::is_char_boundary_start_end_of_seq(b);
    } else {
        vstd::utf8::is_char_boundary_start_end_of_seq(rest);
        vstd::utf8::is_char_boundary_iff_not_is_continuation_byte(rest, 0);
        assert(rest[0] == b[i + 1]);
        vstd::utf8::is_char_boundary_iff_not_is_continuation_byte(b, i + 1);
    }
}

/// The segment at the start of a character ends at one.
proof fn lemma_segment_boundary(seps: Separators, b: Seq<u8>, i: int)
    requires
        vstd::utf8::valid_utf8(b),
        0 <= i <= b.len(),
    ensures
        vstd::utf8::is_char_boundary(b, syntax::segment_end(seps, b, i)),
{
    syntax::lemma_segment_end(seps, b, i);
    let end = syntax::segment_end(seps, b, i);
    if end < b.len() {
        lemma_around_ascii(b, end);
    } else {
        vstd::utf8::is_char_boundary_start_end_of_seq(b);
    }
}

/// The components behind the root of a text start and end at characters.
proof fn lemma_body_boundaries(seps: Separators, b: Seq<u8>, i: int)
    requires
        vstd::utf8::valid_utf8(b),
        0 <= i <= b.len(),
        vstd::utf8::is_char_boundary(b, i),
    ensures
        forall|k: int|
            0 <= k < syntax::body(seps, b, i).len() ==> {
                let piece = #[trigger] syntax::body(seps, b, i)[k];
                vstd::utf8::is_char_boundary(b, piece.start) && vstd::utf8::is_char_boundary(
                    b,
                    piece.end,
                )
            },
    decreases b.len() - i,
{
    if i < b.len() {
        if seps.has(b[i]) {
            lemma_around_ascii(b, i);
            lemma_body_boundaries(seps, b, i + 1);
        } else {
            let end = syntax::segment_end(seps, b, i);
            syntax::lemma_segment_end(seps, b, i);
            assert(i < end);
            lemma_segment_boundary(seps, b, i);
            lemma_body_boundaries(seps, b, end);
            let rest = syntax::body(seps, b, end);
            if let Some(kind) = syntax::segment_kind(seps, b.subrange(i, end)) {
                let whole = syntax::body(seps, b, i);
                assert(whole =~= seq![PieceView { kind, start: i, end }] + rest);
                assert forall|k: int| 0 <= k < whole.len() implies {
                    let piece = #[trigger] whole[k];
                    vstd::utf8::is_char_boundary(b, piece.start) && vstd::utf8::is_char_boundary(
                        b,
                        piece.end,
                    )
                } by {
                    if k > 0 {
                        assert(whole[k] == rest[k - 1]);
                    }
                }
            }
        }
    }
}

/// The prefix of a text ends at a character.
proof fn lemma_prefix_boundary(platform: Platform, b: Seq<u8>)
    requires
        vstd::utf8::valid_utf8(b),
    ensures
        vstd::utf8::is_char_boundary(b, syntax::prefix_len(platform, b)),
{
    vstd::utf8::is_char_boundary_start_end_of_seq(b);
    syntax::lemma_prefix_fits(platform, b);
    if let Some(p) = syntax::prefix(platform, b) {
        if p.kind is Disk {
            assert(b[1] == COLON);
            lemma_around_ascii(b, 1);
        } else if p.kind is VerbatimDisk {
            assert(b[5] == COLON);
            lemma_around_ascii(b, 5);
        } else {
            let seps = if p.kind.verbatim() {
                Separators::Verbatim
            } else {
                Separators::Both
            };
            let from = if p.kind is VerbatimUnc {
                8
            } else if p.kind is Unc {
                2
            } else {
                4int
            };
            lemma_segment_boundary(seps, b, from);
            syntax::lemma_segment_end(seps, b, from);
            let end = syntax::segment_end(seps, b, from);
            let next = if end < b.len() {
                end + 1
            } else {
                end
            };
            lemma_segment_boundary(seps, b, next);
        }
    }
}

/// The components of a text start and end at characters.
proof fn lemma_piece_boundaries(platform: Platform, b: Seq<u8>)
    requires
        vstd::utf8::valid_utf8(b),
    ensures
        forall|k: int|
            0 <= k < syntax::pieces(platform, b).len() ==> {
                let piece = #[trigger] syntax::pieces(platform, b)[k];
                vstd::utf8::is_char_boundary(b, piece.start) && vstd::utf8::is_char_boundary(
                    b,
                    piece.end,
                )
            },
{
    vstd::utf8::is_char_boundary_start_end_of_seq(b);
    syntax::lemma_prefix_fits(platform, b);
    lemma_prefix_boundary(platform, b);
    let p = syntax::prefix_len(platform, b);
    if syntax::has_physical_root(platform, b) {
        lemma_around_ascii(b, p);
    } else if syntax::opens_with_dot(syntax::separators(platform), b) {
        lemma_around_ascii(b, 0);
    }
    let (first, start) = syntax::head(platform, b);
    let seps = syntax::body_separators(platform, b);
    lemma_body_boundaries(seps, b, start);
    let rest = syntax::body(seps, b, start);
    let whole = syntax::pieces(platform, b);
    assert(whole =~= first + rest);
    assert forall|k: int| 0 <= k < whole.len() implies {
        let piece = #[trigger] whole[k];
        vstd::utf8::is_char_boundary(b, piece.start) && vstd::utf8::is_char_boundary(b, piece.end)
    } by {
        if k < first.len() {
            assert(whole[k] == first[k]);
        } else {
            assert(whole[k] == rest[k - first.len()]);
        }
    }
}

/// The parts of a text that lie between components are texts.
pub proof fn lemma_between_is_text(p: PathView, from: int, to: int)
    requires
        vstd::utf8::valid_utf8(p.bytes),
        0 <= from <= to <= p.pieces().len(),
    ensures
        vstd::utf8::valid_utf8(p.between(from, to).bytes),
{
    if from < to {
        lemma_piece_boundaries(p.platform, p.bytes);
        model::lemma_pieces_fit(p.platform, p.bytes);
        let start = p.pieces()[from].start;
        let end = p.pieces()[to - 1].end;
        let b = p.bytes;
        vstd::utf8::valid_utf8_split(b, end);
        let front = b.subrange(0, end);
        if start < end {
            vstd::utf8::is_char_boundary_iff_not_is_continuation_byte(b, start);
            vstd::utf8::is_char_boundary_iff_not_is_continuation_byte(front, start);
        } else {
            vstd::utf8::is_char_boundary_start_end_of_seq(front);
        }
        vstd::utf8::valid_utf8_split(front, start);
        assert(front.subrange(start, end) =~= p.between(from, to).bytes);
    } else {
        reveal_with_fuel(vstd::utf8::valid_utf8, 1);
    }
}

/// ASCII bytes are UTF-8.
pub proof fn lemma_ascii_is_text(b: Seq<u8>)
    requires
        forall|i: int| 0 <= i < b.len() ==> #[trigger] b[i] <= 0x7f,
    ensures
        vstd::utf8::valid_utf8(b),
    decreases b.len(),
{
    reveal_with_fuel(vstd::utf8::valid_utf8, 2);
    if b.len() > 0 {
        let front = b.drop_last();
        let last = seq![b[b.len() - 1]];
        assert forall|i: int| 0 <= i < front.len() implies #[trigger] front[i] <= 0x7f by {
            assert(front[i] == b[i]);
        }
        lemma_ascii_is_text(front);
        assert(b[b.len() - 1] <= 0x7f);
        assert(vstd::utf8::pop_first_scalar(last) =~= Seq::<u8>::empty());
        assert(vstd::utf8::valid_utf8(last));
        vstd::utf8::valid_utf8_concat(front, last);
        assert(front + last =~= b);
    }
}

/// What follows an ASCII byte of a text is a text.
pub proof fn lemma_text_behind_ascii(b: Seq<u8>, i: int)
    requires
        vstd::utf8::valid_utf8(b),
        0 <= i < b.len(),
        b[i] <= 0x7f,
    ensures
        vstd::utf8::valid_utf8(b.skip(i + 1)),
{
    lemma_around_ascii(b, i);
    vstd::utf8::valid_utf8_split(b, i + 1);
    assert(b.subrange(i + 1, b.len() as int) =~= b.skip(i + 1));
}

} // verus!
