//! Values that know their own document, and their rendering as text.
use crate::doc::Doc;
use crate::laws::lemma_layout_is_utf8;
use crate::model::{rendered, Cmd, DocView, Mode};
use vstd::prelude::*;
use vstd::utf8::{decode_utf8, encode_utf8, encode_utf8_decode_utf8, valid_utf8};

verus! {

/// The width that formatting renders for.
pub const DEFAULT_WIDTH: usize = 80;

/// A value that has a document of its own.
pub trait Pretty {
    /// The document that stands for `self`.
    fn pretty(&self) -> Doc;
}

impl Pretty for Doc {
    /// A document stands for itself.
    fn pretty(&self) -> (r: Doc)
        ensures
            r@ == self@,
    {
        self.clone()
    }
}

impl Pretty for String {
    /// A string is one text fragment.
    fn pretty(&self) -> (r: Doc)
        ensures
            r@ == DocView::Text(self@),
    {
        Doc::text(self.as_str())
    }
}

impl Pretty for str {
    /// A string slice is one text fragment.
    fn pretty(&self) -> (r: Doc)
        ensures
            r@ == DocView::Text(self@),
    {
        Doc::text(self)
    }
}

/// The one way in which formatting fails: the document could not be
/// rendered as text.
#[derive(Clone, Copy, Debug, PartialEq, Eq)]
pub struct FormatError;

/// The error of `String::from_utf8`, made known as a type. Nothing is said
/// of what it holds.
#[verifier::external_type_specification]
#[verifier::external_body]
pub struct ExFromUtf8Error(std::string::FromUtf8Error);

/// `String::from_utf8` accepts exactly the byte vectors that are valid
/// UTF-8, and the string it returns is made of the bytes it was given.
pub assume_specification[ String::from_utf8 ](vec: Vec<u8>) -> (r: Result<
    String,
    std::string::FromUtf8Error,
>)
    ensures
        r is Ok <==> valid_utf8(vec@),
        r matches Ok(s) ==> encode_utf8(s@) == vec@,
;

/// What formatting `doc` gives: the rendering for [`DEFAULT_WIDTH`] read as
/// UTF-8, or the error where the indentations of `doc` are out of range.
pub open spec fn formatted(doc: DocView) -> Result<Seq<char>, FormatError> {
    if doc.max_indent() <= usize::MAX {
        Ok(decode_utf8(rendered(doc, DEFAULT_WIDTH as nat)))
    } else {
        Err(FormatError)
    }
}

/// The model of a formatting result.
pub open spec fn text_of(r: Result<String, FormatError>) -> Result<Seq<char>, FormatError> {
    match r {
        Ok(s) => Ok(s@),
        Err(e) => Err(e),
    }
}

/// Renders `doc` for [`DEFAULT_WIDTH`] into a buffer and reads the buffer as
/// UTF-8 text.
///
/// A rendering is always valid UTF-8, so this fails only for a document that
/// cannot be rendered: one whose indentations are out of range.
pub fn format_doc(doc: &Doc) -> (r: Result<String, FormatError>)
    ensures
        text_of(r) == formatted(doc@),
{
    if !doc.indents_in_range() {
        return Err(FormatError);
    }
    let mut v: Vec<u8> = Vec::new();
    doc.render(DEFAULT_WIDTH, &mut v);
    proof {
        lemma_layout_is_utf8(
            seq![Cmd { indent: 0, mode: Mode::Break, doc: doc@ }],
            0,
            DEFAULT_WIDTH as nat,
        );
    }
    match String::from_utf8(v) {
        Ok(s) => {
            proof {
                encode_utf8_decode_utf8(s@);
            }
            Ok(s)
        },
        Err(_) => Err(FormatError),
    }
}

} // verus!
