//! Scalars of YAML, written in a given quote style.

use bstr::ByteSlice;
use libyaml::{Emitter, Encoding, Event, ScalarStyle};
use vstd::prelude::*;

use crate::path::ops;
use crate::strings;
use crate::text;
use crate::text::Class;

verus! {

/// An error of the emitter of `libyaml`.
#[verifier::external_type_specification]
#[verifier::external_body]
pub struct ExEmitterError(libyaml::EmitterError);

/// The quotes around a scalar.
#[derive(Debug, Clone, Copy, PartialEq, Eq, Structural)]
pub enum Quote {
    Single,
    Double,
}

/// A YAML document in UTF-8 that consists of one scalar.
#[derive(Debug, PartialEq, Eq)]
pub struct ScalarDocument {
    /// The text of the scalar.
    pub value: String,
    /// The quotes that are asked for, or `None` to leave the choice to the emitter.
    pub style: Option<Quote>,
    /// Whether the scalar goes without a tag when it is not quoted.
    pub plain_implicit: bool,
    /// Whether the scalar goes without a tag when it is quoted.
    pub quoted_implicit: bool,
    /// Whether the document goes without a start marker.
    pub start_implicit: bool,
    /// Whether the document goes without an end marker.
    pub end_implicit: bool,
}

/// A YAML document that consists of one scalar.
pub struct ScalarDocumentView {
    pub value: Seq<char>,
    pub style: Option<Quote>,
    pub plain_implicit: bool,
    pub quoted_implicit: bool,
    pub start_implicit: bool,
    pub end_implicit: bool,
}

impl View for ScalarDocument {
    type V = ScalarDocumentView;

    open spec fn view(&self) -> ScalarDocumentView {
        ScalarDocumentView {
            value: self.value@,
            style: self.style,
            plain_implicit: self.plain_implicit,
            quoted_implicit: self.quoted_implicit,
            start_implicit: self.start_implicit,
            end_implicit: self.end_implicit,
        }
    }
}

impl ScalarDocumentView {
    /// Whether the document goes without tags and markers.
    pub open spec fn is_bare(self) -> bool {
        self.plain_implicit && self.quoted_implicit && self.start_implicit && self.end_implicit
    }

    /// Whether the scalar has no NUL character in it and may go without a tag.
    pub open spec fn can_be_written(self) -> bool {
        !self.value.contains('\0') && (self.plain_implicit || self.quoted_implicit)
    }
}

/// Whether a text is printable ASCII without a space.
pub open spec fn is_word(value: Seq<char>) -> bool {
    forall|i: int| 0 <= i < value.len() ==> '!' <= #[trigger] value[i] <= '~'
}

/// Whether a text is printable ASCII in one line.
pub open spec fn is_printable(value: Seq<char>) -> bool {
    forall|i: int| 0 <= i < value.len() ==> ' ' <= #[trigger] value[i] <= '~'
}

/// Whether a character is an ASCII letter or digit.
pub open spec fn is_alphanumeric(c: char) -> bool {
    'a' <= c <= 'z' || 'A' <= c <= 'Z' || '0' <= c <= '9'
}

/// Whether a text has only ASCII letters, digits and `.`, `_`, `/` and `-`, and starts with
/// a letter or a digit.
pub open spec fn is_plain_word(value: Seq<char>) -> bool {
    &&& value.len() > 0
    &&& is_alphanumeric(value[0])
    &&& forall|i: int|
        0 <= i < value.len() ==> is_alphanumeric(#[trigger] value[i]) || value[i] == '.' || value[i]
            == '_' || value[i] == '/' || value[i] == '-'
}

/// The character that quotes are made of.
pub open spec fn mark(quote: Quote) -> char {
    match quote {
        Quote::Single => '\'',
        Quote::Double => '"',
    }
}

/// How a printable character is written in quotes: a single quote is doubled, and a double
/// quote and a backslash get a backslash before them.
pub open spec fn escaped(c: char, quote: Quote) -> Seq<char> {
    match quote {
        Quote::Single => if c == '\'' {
            seq![c, c]
        } else {
            seq![c]
        },
        Quote::Double => if c == '"' || c == '\\' {
            seq!['\\', c]
        } else {
            seq![c]
        },
    }
}

/// How a word is written in quotes, without the quotes themselves.
pub open spec fn escaped_word(value: Seq<char>, quote: Quote) -> Seq<char>
    decreases value.len(),
{
    if value.len() == 0 {
        Seq::empty()
    } else {
        escaped_word(value.drop_last(), quote) + escaped(value.last(), quote)
    }
}

/// How a word is written in quotes.
pub open spec fn quoted_word(value: Seq<char>, quote: Quote) -> Seq<char> {
    seq![mark(quote)] + escaped_word(value, quote) + seq![mark(quote)]
}

/// Whether a text stands in quotes.
pub open spec fn in_quotes(text: Seq<char>, quote: Quote) -> bool {
    text.len() >= 2 && text[0] == mark(quote) && text.last() == mark(quote)
}

/// Whether a scalar is written in a style. Double quotes are kept for every text, and single
/// quotes for printable ASCII; another text may get double quotes in their place. In quotes,
/// a word is written as [`quoted_word`]; without quotes, a plain word is written as it is.
pub open spec fn keeps_style(value: Seq<char>, style: Option<Quote>, text: Seq<char>) -> bool {
    match style {
        Some(Quote::Double) => {
            &&& in_quotes(text, Quote::Double)
            &&& is_word(value) ==> text == quoted_word(value, Quote::Double)
        },
        Some(Quote::Single) => {
            &&& in_quotes(text, Quote::Single) || in_quotes(text, Quote::Double)
            &&& is_printable(value) ==> in_quotes(text, Quote::Single)
            &&& is_word(value) ==> text == quoted_word(value, Quote::Single)
        },
        None => is_plain_word(value) ==> text == value,
    }
}

/// Whether bytes can be a document. They are UTF-8. A document without tags and markers is
/// its scalar in the style that is asked for, and a line feed.
pub open spec fn is_written(document: ScalarDocumentView, bytes: Seq<u8>) -> bool {
    &&& vstd::utf8::valid_utf8(bytes)
    &&& document.is_bare() ==> {
        let text = vstd::utf8::decode_utf8(bytes);
        &&& text.len() > 0
        &&& text.last() == '\n'
        &&& keeps_style(document.value, document.style, text.drop_last())
    }
}

/// Whether the emitter can count the characters that it writes for a text.
pub open spec fn can_be_counted(value: Seq<char>) -> bool {
    4 * vstd::utf8::encode_utf8(value).len() + 16 <= i32::MAX
}

/// The bytes that the emitter of `libyaml` writes for a document, unless it fails.
pub uninterp spec fn emitted(document: ScalarDocumentView) -> Option<Seq<u8>>;

/// Writes a document with `libyaml::Emitter`: the events of a stream in UTF-8, of the
/// document and of its scalar, without an anchor and a tag. What is written depends on the
/// document alone and is named by [`emitted`]. It fails if and only if there is a NUL
/// character in the text, or if the text may neither as it is nor in quotes go without a
/// tag.
///
/// What is written is UTF-8, and the style is kept as [`keeps_style`] says. How a text with
/// spaces, line breaks or other characters is folded and escaped is not stated. The emitter
/// counts columns in `i32` and writes at most four characters for a byte, besides quotes and
/// the markers of the document, so a text that is too long to be counted is left out.
#[verifier::external_body]
fn emit(document: ScalarDocument) -> (r: Result<Vec<u8>, libyaml::EmitterError>)
    requires
        can_be_counted(document@.value),
    ensures
        match r {
            Ok(bytes) => emitted(document@) == Some(bytes@) && is_written(document@, bytes@),
            Err(_) => emitted(document@) is None,
        },
        r is Ok <==> document@.can_be_written(),
{
    let style = match document.style {
        Some(Quote::Single) => Some(ScalarStyle::SingleQuoted),
        Some(Quote::Double) => Some(ScalarStyle::DoubleQuoted),
        None => None,
    };
    let ScalarDocument { value, plain_implicit, quoted_implicit, .. } = document;
    let mut writer = Vec::new();
    let mut emitter = Emitter::new(&mut writer)?;
    emitter.emit(Event::StreamStart { encoding: Some(Encoding::Utf8) })?;
    emitter.emit(Event::DocumentStart { version: None, tags: vec![], implicit: document.start_implicit })?;
    emitter.emit(Event::Scalar { anchor: None, tag: None, value, plain_implicit, quoted_implicit, style })?;
    emitter.emit(Event::DocumentEnd { implicit: document.end_implicit })?;
    emitter.emit(Event::StreamEnd).and(emitter.flush())?;
    drop(emitter);
    Ok(writer)
}

/// What `bstr::ByteSlice::trim_end` leaves of bytes.
pub uninterp spec fn without_end_space(bytes: Seq<u8>) -> Seq<u8>;

/// Takes the white space off the end by `bstr::ByteSlice::trim_end`. Of a text it takes
/// the characters with the Unicode property `White_Space`. What it leaves of bytes that are
/// no text is named by [`without_end_space`].
#[verifier::external_body]
fn trim_bytes_end(bytes: &Vec<u8>) -> (r: Vec<u8>)
    ensures
        r@ == without_end_space(bytes@),
        vstd::utf8::valid_utf8(bytes@) ==> r@ == vstd::utf8::encode_utf8(
            text::trim_end(vstd::utf8::decode_utf8(bytes@), Class::Space),
        ),
{
    bytes.trim_end().to_vec()
}

/// The quotes that a text stands for: `'`, `"`, or none of its own choice.
pub open spec fn quote_of(quote: Seq<char>) -> Option<Quote> {
    if quote == "'"@ {
        Some(Quote::Single)
    } else if quote == "\""@ {
        Some(Quote::Double)
    } else {
        None
    }
}

/// The document for a scalar: without tags and markers, in the given quotes.
pub open spec fn document_of(value: Seq<char>, quote: Seq<char>) -> ScalarDocumentView {
    ScalarDocumentView {
        value,
        style: quote_of(quote),
        plain_implicit: true,
        quoted_implicit: true,
        start_implicit: true,
        end_implicit: true,
    }
}

/// The document for a scalar.
pub fn scalar_document(value: &str, quote: &str) -> (r: ScalarDocument)
    ensures
        r@ == document_of(value@, quote@),
{
    let style = if strings::same(quote, "'") {
        Some(Quote::Single)
    } else if strings::same(quote, "\"") {
        Some(Quote::Double)
    } else {
        None
    };
    ScalarDocument {
        value: value.to_owned(),
        style,
        plain_implicit: true,
        quoted_implicit: true,
        start_implicit: true,
        end_implicit: true,
    }
}

/// Why a scalar cannot be written.
#[derive(Debug, Clone, Copy, PartialEq, Eq, Structural)]
pub enum YamlError {
    /// The emitter failed.
    Emitter,
    /// What the emitter wrote is not UTF-8.
    NotUtf8,
}

/// The text of a scalar in what an emitter wrote: without the white space at its end.
pub open spec fn scalar_text(bytes: Seq<u8>) -> Seq<char> {
    text::trim_end(vstd::utf8::decode_utf8(bytes), Class::Space)
}

/// The text of a scalar in what an emitter wrote, if it is UTF-8 without the white space
/// at its end.
pub fn read_scalar(bytes: &Vec<u8>) -> (r: Result<String, YamlError>)
    ensures
        vstd::utf8::valid_utf8(bytes@) ==> (r matches Ok(text) && text@ == scalar_text(bytes@)),
        match r {
            Ok(text) => vstd::utf8::valid_utf8(without_end_space(bytes@)) && text@
                == vstd::utf8::decode_utf8(without_end_space(bytes@)),
            Err(e) => e == YamlError::NotUtf8 && !vstd::utf8::valid_utf8(
                without_end_space(bytes@),
            ),
        },
{
    let trimmed = trim_bytes_end(bytes);
    proof {
        let left = scalar_text(bytes@);
        vstd::utf8::encode_utf8_valid_utf8(left);
        vstd::utf8::encode_utf8_decode_utf8(left);
    }
    match ops::decode_utf8(&trimmed) {
        Ok(text) => Ok(text),
        Err(_) => Err(YamlError::NotUtf8),
    }
}

/// A scalar in a known style loses only the line feed when its end is trimmed.
proof fn lemma_style_ends(value: Seq<char>, style: Option<Quote>, text: Seq<char>)
    requires
        text.len() > 0,
        text.last() == '\n',
        keeps_style(value, style, text.drop_last()),
    ensures
        keeps_style(value, style, text::trim_end(text, Class::Space)),
{
    let line = text.drop_last();
    if style is Some {
        assert(text::trim_end(line, Class::Space) == line);
    } else if is_plain_word(value) {
        assert(line == value);
        assert(is_alphanumeric(value[value.len() - 1]) || value[value.len() - 1] == '.'
            || value[value.len() - 1] == '_' || value[value.len() - 1] == '/' || value[value.len()
            - 1] == '-');
        assert(text::trim_end(line, Class::Space) == line);
    }
}

/// Writes a scalar in the quote style of the caller. It fails if and only if there is a NUL
/// character in it. A word in quotes is read back as it was.
pub fn serialize_yaml_scalar(value: &str, quote: &str) -> (r: Result<String, YamlError>)
    requires
        can_be_counted(value@),
    ensures
        match emitted(document_of(value@, quote@)) {
            None => r == Err::<String, YamlError>(YamlError::Emitter),
            Some(bytes) => r matches Ok(text) && text@ == scalar_text(bytes),
        },
        r is Ok <==> !value@.contains('\0'),
        r matches Ok(text) ==> keeps_style(value@, quote_of(quote@), text@),
        is_word(value@) && quote_of(quote@) is Some ==> (r matches Ok(text) && read_quoted(
            text@,
            quote_of(quote@)->0,
        ) == Some(value@)),
{
    proof {
        if is_word(value@) && value@.contains('\0') {
            let i = choose|i: int| 0 <= i < value@.len() && value@[i] == '\0';
            assert('!' <= value@[i]);
        }
    }
    match emit(scalar_document(value, quote)) {
        Ok(bytes) => {
            proof {
                let text = vstd::utf8::decode_utf8(bytes@);
                lemma_style_ends(value@, quote_of(quote@), text);
                if is_word(value@) && quote_of(quote@) is Some {
                    law_quoted_word_is_read_back(
                        value@,
                        quote_of(quote@)->0,
                        scalar_text(bytes@),
                    );
                }
            }
            read_scalar(&bytes)
        },
        Err(_) => Err(YamlError::Emitter),
    }
}

/// What stands between the quotes of a scalar in one line, read as YAML reads it: in single
/// quotes two of them are one; in double quotes a backslash stands before a quote or a
/// backslash. Other escapes are not read.
pub open spec fn unescaped(inside: Seq<char>, quote: Quote) -> Option<Seq<char>>
    decreases inside.len(),
{
    if inside.len() == 0 {
        Some(Seq::empty())
    } else {
        let pair = inside.len() > 1 && match quote {
            Quote::Single => inside[0] == '\'' && inside[1] == '\'',
            Quote::Double => inside[0] == '\\' && (inside[1] == '"' || inside[1] == '\\'),
        };
        let special = match quote {
            Quote::Single => inside[0] == '\'',
            Quote::Double => inside[0] == '"' || inside[0] == '\\',
        };
        if pair {
            match unescaped(inside.skip(2), quote) {
                Some(rest) => Some(seq![inside[1]] + rest),
                None => None,
            }
        } else if special {
            None
        } else {
            match unescaped(inside.drop_first(), quote) {
                Some(rest) => Some(seq![inside[0]] + rest),
                None => None,
            }
        }
    }
}

/// What a quoted scalar in one line says, if it is one.
pub open spec fn read_quoted(text: Seq<char>, quote: Quote) -> Option<Seq<char>> {
    if in_quotes(text, quote) {
        unescaped(text.subrange(1, text.len() - 1), quote)
    } else {
        None
    }
}

/// How a word is written in quotes, from its first character on.
proof fn lemma_escaped_from_front(value: Seq<char>, quote: Quote)
    requires
        value.len() > 0,
    ensures
        escaped_word(value, quote) == escaped(value[0], quote) + escaped_word(
            value.drop_first(),
            quote,
        ),
    decreases value.len(),
{
    if value.len() == 1 {
        assert(value.drop_last() =~= Seq::<char>::empty());
        assert(value.drop_first() =~= Seq::<char>::empty());
        assert(escaped_word(value.drop_last(), quote) =~= Seq::<char>::empty());
        assert(escaped_word(value.drop_first(), quote) =~= Seq::<char>::empty());
        assert(escaped_word(value, quote) =~= escaped(value[0], quote) + Seq::<char>::empty());
    } else {
        let rest = value.drop_first();
        lemma_escaped_from_front(value.drop_last(), quote);
        assert(value.drop_last().drop_first() =~= rest.drop_last());
        assert(value.drop_last()[0] == value[0]);
        assert(rest.last() == value.last());
        assert(escaped_word(value, quote) =~= escaped(value[0], quote) + escaped_word(rest, quote));
    }
}

/// What is written of a word between quotes is read back.
proof fn lemma_escaped_is_read_back(value: Seq<char>, quote: Quote)
    ensures
        unescaped(escaped_word(value, quote), quote) == Some(value),
    decreases value.len(),
{
    let written = escaped_word(value, quote);
    if value.len() == 0 {
        assert(value =~= Seq::<char>::empty());
    } else {
        let rest = value.drop_first();
        lemma_escaped_from_front(value, quote);
        lemma_escaped_is_read_back(rest, quote);
        let first = escaped(value[0], quote);
        assert(written[0] == first[0]);
        assert(seq![value[0]] + rest =~= value);
        if first.len() == 2 {
            assert(written[1] == first[1]);
            assert(written.skip(2) =~= escaped_word(rest, quote));
        } else {
            assert(written.drop_first() =~= escaped_word(rest, quote));
        }
    }
}

/// A word in quotes, as it is written, starts and ends with the quote and is read back as
/// the word.
pub proof fn law_quoted_word_is_read_back(value: Seq<char>, quote: Quote, text: Seq<char>)
    requires
        is_word(value),
        keeps_style(value, Some(quote), text),
    ensures
        in_quotes(text, quote),
        read_quoted(text, quote) == Some(value),
        text::trim_end(text, Class::Space) == text,
{
    let inside = escaped_word(value, quote);
    assert(text == quoted_word(value, quote));
    assert(text.last() == mark(quote));
    assert(text[0] == mark(quote));
    assert(text.subrange(1, text.len() - 1) =~= inside);
    lemma_escaped_is_read_back(value, quote);
}

/// The quotes that a caller can ask for, and what is asked of the emitter: the text as it is,
/// without tags and markers. Of what was written only the white space at the end is lost.
pub proof fn law_scalar_is_asked_for_as_it_is(
    value: Seq<char>,
    quote: Seq<char>,
    text: Seq<char>,
    space: Seq<char>,
)
    requires
        text.len() > 0 ==> !Class::Space.has(text.last()),
        forall|i: int| 0 <= i < space.len() ==> Class::Space.has(#[trigger] space[i]),
    ensures
        document_of(value, quote).value == value,
        document_of(value, quote).is_bare(),
        document_of(value, quote).style == Some(Quote::Single) <==> quote == "'"@,
        document_of(value, quote).style == Some(Quote::Double) <==> quote == "\""@,
        mark(Quote::Single) == '\'' && mark(Quote::Double) == '"',
        forall|bytes: Seq<u8>|
            vstd::utf8::decode_utf8(bytes) == text + space ==> #[trigger] scalar_text(bytes)
                == text,
{
    reveal_strlit("'");
    reveal_strlit("\"");
    assert("'"@[0] == '\'' && "\""@[0] == '"');
    strings::lemma_end_is_trimmed(text, space, Class::Space);
}

} // verus!
