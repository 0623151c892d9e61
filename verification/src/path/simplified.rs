//! Paths in their simplest form, for tools and for display.

use vstd::prelude::*;

use crate::path::buf::PathBuf;
use crate::path::laws;
use crate::path::model::PathView;
use crate::path::ops;
use crate::path::syntax;
use crate::path::utf8;
use crate::path::utf8::Utf8PathBuf;
use crate::path::ways;
use crate::platform::Platform;

verus! {

/// Whether a text starts with `\\?\`, which marks a verbatim Windows path, and a drive
/// stands behind the mark: a letter and a colon, and then a separator or nothing.
pub open spec fn marks_a_drive(text: Seq<char>) -> bool {
    &&& text.len() >= 6
    &&& text[0] == '\\' && text[1] == '\\' && text[2] == '?' && text[3] == '\\'
    &&& 'a' <= text[4] <= 'z' || 'A' <= text[4] <= 'Z'
    &&& text[5] == ':'
    &&& text.len() == 6 || text[6] == '\\' || text[6] == '/'
}

/// Whether a character may stand in the name of a file on every Windows.
pub open spec fn is_file_char(c: char) -> bool {
    c >= ' ' && !(c == '<' || c == '>' || c == ':' || c == '"' || c == '/' || c == '\\' || c == '|'
        || c == '?' || c == '*')
}

/// Whether all names behind a marked drive are such that they mean the same without the mark:
/// of characters for files, and without a `.` or a space at the end. So none is `.` or `..`.
pub open spec fn names_need_no_mark(text: Seq<char>) -> bool {
    forall|i: int|
        7 <= i < text.len() ==> {
            let ends = i + 1 == text.len() || text[i + 1] == '\\';
            &&& #[trigger] text[i] == '\\' || is_file_char(text[i])
            &&& text[i] == '.' || text[i] == ' ' ==> !ends
        }
}

/// Whether a text can lose the mark `\\?\`: a drive stands behind it, the names need no mark,
/// and the text is not too long for a path without one.
pub open spec fn can_lose_mark(text: Seq<char>) -> bool {
    marks_a_drive(text) && names_need_no_mark(text) && text.len() <= 260
}

/// `dunce::simplified` takes the mark `\\?\` off the path of a drive, or leaves the path as
/// it is. It leaves any other path as it is, one of more than 260 characters, and one with a
/// name that holds a character which is none for files or that ends in `.` or a space.
/// Whether the mark of another path is taken off is not stated: off Windows none is, and on
/// Windows the names of devices, and names of more than 255 UTF-16 units, keep it.
#[verifier::external_body]
fn dunce_simplified(text: &str) -> (r: String)
    ensures
        r@ == text@ || (can_lose_mark(text@) && r@ == text@.skip(4)),
{
    dunce::simplified(std::path::Path::new(text)).to_string_lossy().into_owned()
}

/// What simplifying can make of a path: the Windows path of a drive may lose the mark
/// `\\?\`, where it is UTF-8 and its text can.
pub open spec fn simplified_to(path: PathView, r: PathView) -> bool {
    ||| r == path
    ||| {
        &&& path.platform is Windows
        &&& syntax::windows_prefix(path.bytes) matches Some(p) && p.kind is VerbatimDisk
        &&& vstd::utf8::valid_utf8(path.bytes)
        &&& can_lose_mark(vstd::utf8::decode_utf8(path.bytes))
        &&& r == (PathView { platform: path.platform, bytes: path.bytes.skip(4) })
    }
}

/// ASCII characters at the start of a text are its first bytes.
proof fn lemma_ascii_opening(text: Seq<char>, n: int)
    requires
        0 <= n <= text.len(),
        forall|i: int| 0 <= i < n ==> '\0' <= #[trigger] text[i] <= '\u{7f}',
    ensures
        ({
            let bytes = vstd::utf8::encode_utf8(text);
            &&& n <= bytes.len()
            &&& forall|i: int| 0 <= i < n ==> #[trigger] bytes[i] == text[i] as u8
            &&& bytes.skip(n) == vstd::utf8::encode_utf8(text.skip(n))
        }),
    decreases n,
{
    let bytes = vstd::utf8::encode_utf8(text);
    if n == 0 {
        assert(text.skip(0) =~= text);
        assert(bytes.skip(0) =~= bytes);
    } else {
        let rest = text.drop_first();
        assert forall|i: int| 0 <= i < n - 1 implies '\0' <= #[trigger] rest[i] <= '\u{7f}' by {
            assert(rest[i] == text[i + 1]);
        }
        assert('\0' <= text[0] <= '\u{7f}');
        lemma_first_ascii(text);
        lemma_ascii_opening(rest, n - 1);
        let more = vstd::utf8::encode_utf8(rest);
        assert forall|i: int| 0 <= i < n implies #[trigger] bytes[i] == text[i] as u8 by {
            if i > 0 {
                assert(bytes[i] == more[i - 1]);
                assert(rest[i - 1] == text[i]);
            }
        }
        assert(rest.skip(n - 1) =~= text.skip(n));
        assert(bytes.skip(n) =~= more.skip(n - 1));
    }
}

/// A text with a marked drive is the text of a path with a marked drive.
proof fn lemma_mark_bytes(text: Seq<char>)
    requires
        marks_a_drive(text),
    ensures
        syntax::windows_prefix(vstd::utf8::encode_utf8(text)) matches Some(p) && p.kind
            is VerbatimDisk,
        vstd::utf8::encode_utf8(text.skip(4)) == vstd::utf8::encode_utf8(text).skip(4),
{
    let bytes = vstd::utf8::encode_utf8(text);
    lemma_ascii_opening(text, 4);
    lemma_ascii_opening(text, 6);
    if text.len() == 6 {
        assert(text.skip(6) =~= Seq::<char>::empty());
        assert(bytes.skip(6).len() == 0);
    } else {
        lemma_ascii_opening(text, 7);
    }
}

/// An ASCII character at the start of a text is its first byte.
pub proof fn lemma_first_ascii(text: Seq<char>)
    requires
        text.len() > 0,
        '\0' <= text[0] <= '\u{7f}',
    ensures
        vstd::utf8::encode_utf8(text) == seq![text[0] as u8] + vstd::utf8::encode_utf8(
            text.drop_first(),
        ),
{
    let one = seq![text[0]];
    vstd::utf8::is_ascii_chars_encode_utf8(one);
    assert(one.drop_first() =~= Seq::<char>::empty());
    assert(vstd::utf8::encode_utf8(one) =~= vstd::utf8::encode_scalar(text[0] as u32));
    assert(vstd::utf8::encode_utf8(one) =~= seq![text[0] as u8]);
}

/// A path in its simplest form: a Windows path may lose the mark `\\?\`.
pub fn simplify(path: &PathBuf) -> (r: PathBuf)
    ensures
        simplified_to(path@, r@),
{
    match path.platform {
        Platform::Unix => path.duplicate(),
        Platform::Windows => match ops::decode_utf8(&path.bytes) {
            Ok(text) => {
                proof {
                    vstd::utf8::decode_utf8_encode_utf8(path.bytes@);
                    if marks_a_drive(text@) {
                        lemma_mark_bytes(text@);
                    }
                }
                PathBuf::new(path.platform, dunce_simplified(text.as_str()).as_str())
            },
            Err(_) => path.duplicate(),
        },
    }
}

/// What [`Simplified::user_display`] shows of a simplified path to a user who
/// works in `cwd`: the part below the directory, or the path as it is where the
/// directory is a root or holds no part of it.
pub open spec fn shown_in(simple: PathView, cwd: PathView, simple_cwd: PathView) -> PathView {
    if cwd.parent() is None {
        simple
    } else {
        match simple.strip_prefix(simple_cwd) {
            Some(below) => below,
            None => simple,
        }
    }
}

/// What is shown of a simplified path to a user who works in `cwd`, which is `simple_cwd` in
/// its simplest form.
pub fn shown(simple: Utf8PathBuf, cwd: &Utf8PathBuf, simple_cwd: &Utf8PathBuf) -> (r: Utf8PathBuf)
    ensures
        r@ == shown_in(simple@, cwd@, simple_cwd@),
{
    match cwd.to_path_buf().parent() {
        None => simple,
        Some(_) => match simple.to_path_buf().strip_prefix(&simple_cwd.to_path_buf()) {
            None => simple,
            Some(below) => {
                proof {
                    vstd::utf8::encode_utf8_valid_utf8(simple.text@);
                    utf8::lemma_between_is_text(
                        simple@,
                        simple_cwd@.comps().len() as int,
                        simple@.comps().len() as int,
                    );
                }
                match utf8::path_text(&below) {
                    Some(text) => text,
                    None => simple,
                }
            },
        },
    }
}

/// A path that can be shown in a simpler form.
pub trait Simplified {
    /// The path that is simplified.
    spec fn text_path(&self) -> PathView;

    /// The path in its simplest form: a Windows path may lose the mark `\\?\`, any
    /// other path stays as it is.
    fn simplified(&self) -> (r: Utf8PathBuf)
        ensures
            simplified_to(self.text_path(), r@),
    ;

    /// The path as a user who works in `cwd` wants to see it: simplified, and
    /// relative to `cwd` where it lies below it.
    fn user_display(&self, cwd: &Utf8PathBuf) -> (r: Utf8PathBuf)
        ensures
            exists|simple: PathView, simple_cwd: PathView|
                {
                    &&& #[trigger] simplified_to(self.text_path(), simple)
                    &&& #[trigger] simplified_to(cwd@, simple_cwd)
                    &&& r@ == shown_in(simple, cwd@, simple_cwd)
                },
    ;
}

impl Simplified for Utf8PathBuf {
    open spec fn text_path(&self) -> PathView {
        self@
    }

    fn simplified(&self) -> (r: Utf8PathBuf) {
        match self.platform {
            Platform::Unix => self.duplicate(),
            Platform::Windows => {
                proof {
                    vstd::utf8::encode_utf8_valid_utf8(self.text@);
                    vstd::utf8::encode_utf8_decode_utf8(self.text@);
                    if marks_a_drive(self.text@) {
                        lemma_mark_bytes(self.text@);
                    }
                }
                Utf8PathBuf {
                    platform: self.platform,
                    text: dunce_simplified(self.text.as_str()),
                }
            },
        }
    }

    fn user_display(&self, cwd: &Utf8PathBuf) -> (r: Utf8PathBuf) {
        let simple = self.simplified();
        let simple_cwd = cwd.simplified();
        proof {
            assert(simplified_to(self.text_path(), simple@));
            assert(simplified_to(cwd@, simple_cwd@));
        }
        shown(simple, cwd, &simple_cwd)
    }
}

/// A user who works in a directory sees a file in it by its name, and what does not lie below
/// the directory as it is. In a root everything is seen as it is.
pub proof fn law_file_is_shown_by_its_name(
    cwd: PathView,
    dir: PathView,
    name: Seq<u8>,
    other: PathView,
)
    requires
        dir.platform is Unix,
        laws::plain_name(name),
    ensures
        cwd.parent() is Some ==> shown_in(dir.join(name), cwd, dir) == (PathView {
            platform: dir.platform,
            bytes: name,
        }),
        cwd.parent() is None ==> shown_in(other, cwd, dir) == other,
        !other.starts_with(dir) ==> shown_in(other, cwd, dir) == other,
{
    ways::law_name_is_left_below_its_directory(dir, name);
}

} // verus!
