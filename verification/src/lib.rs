//! A Wadler-style pretty printer.
//!
//! A [`Doc`] describes the possible layouts of a piece of text as a tree of
//! text fragments, line breaks, indentation and groups. Rendering picks, for
//! every group, the flat layout when it fits into the rest of the line and
//! the broken layout otherwise.
//!
//! The contracts of this crate speak of [`DocView`], the document as a
//! mathematical tree, and of the layout machine that [`model`] defines over
//! it. [`render`] runs that machine on a [`tree::Tree`]; [`laws`], [`modes`]
//! and [`width`] hold what is proved of every layout.
pub mod combinators;
pub mod doc;
pub mod laws;
pub mod model;
pub mod modes;
pub mod render;
pub mod text;
pub mod tree;
pub mod width;

pub use crate::combinators::{braces, parens, seperate};
pub use crate::doc::Doc;
pub use crate::model::{Cmd, DocView, Mode};
pub use crate::text::{format_doc, FormatError, Pretty, DEFAULT_WIDTH};
use crate::text::{formatted, text_of};
use vstd::prelude::*;

verus! {

/// The text that `s` is displayed as: its document, rendered for
/// [`DEFAULT_WIDTH`] and read as UTF-8.
///
/// Which document stands for `s` is for the implementation of [`Pretty`] to
/// say; the result is what [`format_doc`] makes of that document.
pub fn format<T: Pretty>(s: &T) -> (r: Result<String, FormatError>)
    ensures
        exists|d: Doc| call_ensures(T::pretty, (s,), d) && text_of(r) == formatted(d@),
{
    let d = s.pretty();
    format_doc(&d)
}

} // verus!
