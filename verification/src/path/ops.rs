//! The methods of a path.

use vstd::prelude::*;

use crate::path::buf;
use crate::path::buf::{Component, PathBuf};
use crate::path::model;
use crate::path::model::PathView;
use crate::path::parse;
use crate::path::parse::Piece;
use crate::path::syntax;
use crate::path::syntax::{Kind, PrefixKind};
use crate::platform::Platform;
use crate::strings;

verus! {

/// The text that [`String::from_utf8_lossy`] makes of bytes: each part that is
/// not UTF-8 becomes the replacement character.
pub uninterp spec fn lossy_text(bytes: Seq<u8>) -> Seq<char>;

/// `String::from_utf8_lossy` of std. Bytes that are UTF-8 give the text that they
/// encode; what other bytes give is named by [`lossy_text`].
#[verifier::external_body]
pub(crate) fn decode_lossy(bytes: &Vec<u8>) -> (r: String)
    ensures
        r@ == lossy_text(bytes@),
        vstd::utf8::valid_utf8(bytes@) ==> r@ == vstd::utf8::decode_utf8(bytes@),
{
    String::from_utf8_lossy(bytes).into_owned()
}

/// Why [`String::from_utf8`] does not take bytes for UTF-8, in words.
pub uninterp spec fn utf8_problem(bytes: Seq<u8>) -> Seq<char>;

/// `String::from_utf8` of std gives the text that the bytes encode, and fails if
/// and only if they are not UTF-8. It then describes why the bytes are not, which is named by
/// [`utf8_problem`].
#[verifier::external_body]
pub(crate) fn decode_utf8(bytes: &Vec<u8>) -> (r: Result<String, String>)
    ensures
        match r {
            Ok(s) => vstd::utf8::valid_utf8(bytes@) && s@ == vstd::utf8::decode_utf8(bytes@),
            Err(message) => message@ == utf8_problem(bytes@),
        },
        r is Err ==> !vstd::utf8::valid_utf8(bytes@),
{
    match String::from_utf8(bytes.clone()) {
        Ok(text) => Ok(text),
        Err(error) => Err(error.to_string()),
    }
}

/// A copy of a list of components' bytes from `from` up to `to`, with ASCII
/// letters as capitals.
fn copy_upper(b: &Vec<u8>, from: usize, to: usize) -> (r: Vec<u8>)
    requires
        from <= to <= b@.len(),
    ensures
        r@ == b@.subrange(from as int, to as int).map_values(|x: u8| model::upper(x)),
{
    let mut out: Vec<u8> = Vec::new();
    let ghost all = b@.subrange(from as int, to as int).map_values(|x: u8| model::upper(x));
    let mut i: usize = from;
    while i < to
        invariant
            from <= i <= to <= b@.len(),
            all == b@.subrange(from as int, to as int).map_values(|x: u8| model::upper(x)),
            out@ == all.take(i - from),
        decreases to - i,
    {
        let x = b[i];
        out.push(if 0x61 <= x && x <= 0x7a { x - 32 } else { x });
        proof {
            assert(out@ =~= all.take(i + 1 - from));
        }
        i = i + 1;
    }
    proof {
        assert(all.take(to - from) =~= all);
    }
    out
}

/// Tells whether two Windows prefixes are equal.
fn same_prefix(a: &Vec<u8>, b: &Vec<u8>) -> (r: bool)
    ensures
        r == (model::prefix_key(a@) == model::prefix_key(b@)),
{
    proof {
        syntax::lemma_prefix_fits(Platform::Windows, a@);
        syntax::lemma_prefix_fits(Platform::Windows, b@);
        lemma_second_name_fits(a@);
        lemma_second_name_fits(b@);
    }
    match (
        parse::read_prefix(Platform::Windows, a),
        parse::read_prefix(Platform::Windows, b),
    ) {
        (Some(p), Some(q)) => {
            if p.kind != q.kind {
                return false;
            }
            let drive = p.kind == PrefixKind::Disk || p.kind == PrefixKind::VerbatimDisk;
            let first = if drive {
                buf::same_bytes(
                    &copy_upper(a, p.first.0, p.first.1),
                    &copy_upper(b, q.first.0, q.first.1),
                )
            } else {
                buf::same_bytes(
                    &buf::copy_bytes(a, p.first.0, p.first.1),
                    &buf::copy_bytes(b, q.first.0, q.first.1),
                )
            };
            first && buf::same_bytes(
                &buf::copy_bytes(a, p.second.0, p.second.1),
                &buf::copy_bytes(b, q.second.0, q.second.1),
            )
        },
        (None, None) => true,
        _ => false,
    }
}

/// The second name of a prefix lies within the path.
proof fn lemma_second_name_fits(b: Seq<u8>)
    ensures
        syntax::windows_prefix(b) matches Some(p) ==> 0 <= p.second.0 <= p.second.1 <= b.len(),
{
    if let Some(p) = syntax::windows_prefix(b) {
        if p.kind is VerbatimUnc {
            syntax::lemma_segment_end(syntax::Separators::Verbatim, b, 8);
            let end = syntax::segment_end(syntax::Separators::Verbatim, b, 8);
            let next = if end < b.len() { end + 1 } else { end };
            syntax::lemma_segment_end(syntax::Separators::Verbatim, b, next);
        } else if p.kind is Verbatim {
            syntax::lemma_segment_end(syntax::Separators::Verbatim, b, 4);
        } else if p.kind is Device {
            syntax::lemma_segment_end(syntax::Separators::Both, b, 4);
        } else if p.kind is Unc {
            syntax::lemma_segment_end(syntax::Separators::Both, b, 2);
            let end = syntax::segment_end(syntax::Separators::Both, b, 2);
            let next = if end < b.len() { end + 1 } else { end };
            syntax::lemma_segment_end(syntax::Separators::Both, b, next);
        }
    }
}

/// Tells whether two components are equal.
fn same_component(a: &Component, b: &Component) -> (r: bool)
    ensures
        r == model::same_comp(a@, b@),
{
    match (a.kind, b.kind) {
        (Kind::Prefix, Kind::Prefix) => same_prefix(&a.text, &b.text),
        (Kind::RootDir, Kind::RootDir) => true,
        (Kind::CurDir, Kind::CurDir) => true,
        (Kind::ParentDir, Kind::ParentDir) => true,
        (Kind::Normal, Kind::Normal) => buf::same_bytes(&a.text, &b.text),
        _ => false,
    }
}

/// Tells whether the first `n` components of two lists are equal.
fn same_first(a: &Vec<Component>, b: &Vec<Component>, n: usize) -> (r: bool)
    requires
        n <= a@.len(),
        n <= b@.len(),
    ensures
        r == model::same_comps(
            buf::component_views(a@).take(n as int),
            buf::component_views(b@).take(n as int),
        ),
{
    let ghost first = buf::component_views(a@).take(n as int);
    let ghost second = buf::component_views(b@).take(n as int);
    let mut i: usize = 0;
    while i < n
        invariant
            i <= n <= a@.len(),
            n <= b@.len(),
            first == buf::component_views(a@).take(n as int),
            second == buf::component_views(b@).take(n as int),
            forall|k: int| 0 <= k < i ==> model::same_comp(#[trigger] first[k], second[k]),
        decreases n - i,
    {
        proof {
            assert(first[i as int] == a@[i as int]@);
            assert(second[i as int] == b@[i as int]@);
        }
        if !same_component(&a[i], &b[i]) {
            return false;
        }
        i = i + 1;
    }
    true
}

impl PathBuf {
    /// The path that a text writes down.
    pub fn new(platform: Platform, text: &str) -> (r: PathBuf)
        ensures
            r@ == (PathView { platform, bytes: vstd::utf8::encode_utf8(text@) }),
    {
        PathBuf { platform, bytes: vstd::slice::slice_to_vec(text.as_bytes()) }
    }

    /// A Unix path.
    pub fn unix(text: &str) -> (r: PathBuf)
        ensures
            r@ == (PathView {
                platform: Platform::Unix,
                bytes: vstd::utf8::encode_utf8(text@),
            }),
    {
        PathBuf::new(Platform::Unix, text)
    }

    /// A Windows path.
    pub fn windows(text: &str) -> (r: PathBuf)
        ensures
            r@ == (PathView {
                platform: Platform::Windows,
                bytes: vstd::utf8::encode_utf8(text@),
            }),
    {
        PathBuf::new(Platform::Windows, text)
    }

    /// The path that the bytes write down.
    pub fn from_bytes(platform: Platform, bytes: Vec<u8>) -> (r: PathBuf)
        ensures
            r@ == (PathView { platform, bytes: bytes@ }),
    {
        PathBuf { platform, bytes }
    }

    /// A copy of the path.
    pub fn duplicate(&self) -> (r: PathBuf)
        ensures
            r@ == self@,
    {
        let bytes = buf::copy_bytes(&self.bytes, 0, self.bytes.len());
        proof {
            assert(bytes@ =~= self.bytes@);
        }
        PathBuf { platform: self.platform, bytes }
    }

    /// The path extended by the path that a text writes down.
    pub fn join(&self, name: &str) -> (r: PathBuf)
        ensures
            r@ == self@.child(name@),
    {
        let added = vstd::slice::slice_to_vec(name.as_bytes());
        PathBuf {
            platform: self.platform,
            bytes: buf::push_bytes(self.platform, &self.bytes, &added),
        }
    }

    /// The path of an executable file in the directory.
    pub fn program(&self, name: &str) -> (r: PathBuf)
        ensures
            r@ == self@.program(name@),
    {
        self.join(strings::concat(name, self.platform.executable_suffix()).as_str())
    }

    /// The path extended by another.
    pub fn join_path(&self, added: &PathBuf) -> (r: PathBuf)
        ensures
            r@ == self@.join(added@.bytes),
    {
        PathBuf {
            platform: self.platform,
            bytes: buf::push_bytes(self.platform, &self.bytes, &added.bytes),
        }
    }

    /// Tells whether two paths are equal, component by component.
    pub fn same(&self, other: &PathBuf) -> (r: bool)
        ensures
            r == self@.same(other@),
    {
        if self.platform != other.platform {
            return false;
        }
        let a = buf::read_components(self.platform, &self.bytes);
        let b = buf::read_components(other.platform, &other.bytes);
        if a.len() != b.len() {
            return false;
        }
        proof {
            assert(buf::component_views(a@).take(a@.len() as int) =~= buf::component_views(a@));
            assert(buf::component_views(b@).take(b@.len() as int) =~= buf::component_views(b@));
        }
        same_first(&a, &b, a.len())
    }

    /// Tells whether the components of `base` come first.
    pub fn starts_with(&self, base: &PathBuf) -> (r: bool)
        ensures
            r == self@.starts_with(base@),
    {
        if self.platform != base.platform {
            return false;
        }
        let a = buf::read_components(self.platform, &self.bytes);
        let b = buf::read_components(base.platform, &base.bytes);
        if b.len() > a.len() {
            return false;
        }
        proof {
            assert(buf::component_views(b@).take(b@.len() as int) =~= buf::component_views(b@));
        }
        same_first(&a, &b, b.len())
    }

    /// The bytes from component `from` up to the end of component `to - 1`.
    fn between(&self, pieces: &Vec<Piece>, from: usize, to: usize) -> (r: PathBuf)
        requires
            parse::piece_views(pieces@) == self@.pieces(),
            from <= to <= pieces@.len(),
        ensures
            r@ == self@.between(from as int, to as int),
    {
        if from < to {
            proof {
                model::lemma_pieces_fit(self.platform, self.bytes@);
                assert(self@.pieces()[from as int] == pieces@[from as int]@);
                assert(self@.pieces()[to - 1] == pieces@[to - 1]@);
            }
            PathBuf {
                platform: self.platform,
                bytes: buf::copy_bytes(&self.bytes, pieces[from].start, pieces[to - 1].end),
            }
        } else {
            PathBuf { platform: self.platform, bytes: Vec::new() }
        }
    }

    /// The path without its last component, unless that is the root or a prefix.
    pub fn parent(&self) -> (r: Option<PathBuf>)
        ensures
            match r {
                Some(p) => self@.parent() == Some(p@),
                None => self@.parent() is None,
            },
    {
        let pieces = parse::read_pieces(self.platform, &self.bytes);
        let n = pieces.len();
        if n == 0 {
            return None;
        }
        proof {
            assert(self@.pieces()[n - 1] == pieces@[n - 1]@);
        }
        match pieces[n - 1].kind {
            Kind::Normal | Kind::CurDir | Kind::ParentDir => Some(self.between(&pieces, 0, n - 1)),
            _ => None,
        }
    }

    /// The last component, when it is a name.
    pub fn file_name(&self) -> (r: Option<Vec<u8>>)
        ensures
            match r {
                Some(name) => self@.file_name() == Some(name@),
                None => self@.file_name() is None,
            },
    {
        let components = buf::read_components(self.platform, &self.bytes);
        let n = components.len();
        if n == 0 {
            return None;
        }
        proof {
            assert(self@.comps().last() == components@[n - 1]@);
        }
        match components[n - 1].kind {
            Kind::Normal => {
                let name = &components[n - 1].text;
                proof {
                    assert(name@.subrange(0, name@.len() as int) =~= name@);
                }
                Some(buf::copy_bytes(name, 0, name.len()))
            },
            _ => None,
        }
    }

    /// What is left of the path when the components of `base` are taken off.
    pub fn strip_prefix(&self, base: &PathBuf) -> (r: Option<PathBuf>)
        ensures
            match r {
                Some(p) => self@.strip_prefix(base@) == Some(p@),
                None => self@.strip_prefix(base@) is None,
            },
    {
        if !self.starts_with(base) {
            return None;
        }
        let pieces = parse::read_pieces(self.platform, &self.bytes);
        let taken = parse::read_pieces(base.platform, &base.bytes);
        proof {
            assert(self@.comps().len() == pieces@.len());
            assert(base@.comps().len() == taken@.len());
        }
        Some(self.between(&pieces, taken.len(), pieces.len()))
    }

    /// The number of components.
    pub fn count_components(&self) -> (r: usize)
        ensures
            r == self@.comps().len(),
    {
        let pieces = parse::read_pieces(self.platform, &self.bytes);
        proof {
            assert(self@.comps().len() == pieces@.len());
        }
        pieces.len()
    }

    /// The text of the path, with the replacement character for what is not UTF-8.
    pub fn to_string_lossy(&self) -> (r: String)
        ensures
            r@ == lossy_text(self@.bytes),
            vstd::utf8::valid_utf8(self@.bytes) ==> r@ == vstd::utf8::decode_utf8(self@.bytes),
    {
        decode_lossy(&self.bytes)
    }
}

impl PartialEq for PathBuf {
    fn eq(&self, other: &Self) -> (r: bool) {
        self.same(other)
    }
}

impl vstd::std_specs::cmp::PartialEqSpecImpl for PathBuf {
    open spec fn obeys_eq_spec() -> bool {
        true
    }

    open spec fn eq_spec(&self, other: &Self) -> bool {
        self@.same(other@)
    }
}

} // verus!
