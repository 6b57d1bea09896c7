//! Documents and the functions that build and render them.
use crate::model::{concat_all, rendered, DocView};
use crate::render::{best, indents_in_range};
use crate::tree::Tree;
use vstd::prelude::*;

verus! {

/// A document: an immutable description of the layouts of a piece of text.
///
/// Documents are made by the functions of this type and by nothing else, so
/// no `Append` node of a document ever has an empty side.
#[derive(Debug, Eq, PartialOrd, Ord)]
pub struct Doc {
    tree: Tree,
}

impl View for Doc {
    type V = DocView;

    closed spec fn view(&self) -> DocView {
        self.tree@
    }
}

/// The models of a slice of documents, in order.
pub open spec fn doc_views(docs: Seq<Doc>) -> Seq<DocView> {
    Seq::new(docs.len(), |i: int| docs[i]@)
}

impl PartialEq for Doc {
    /// Two documents are equal exactly if they have the same shape, the
    /// same indentations and the same texts. Documents that differ may
    /// still render alike.
    fn eq(&self, other: &Doc) -> (r: bool) {
        self.tree == other.tree
    }
}

impl vstd::std_specs::cmp::PartialEqSpecImpl for Doc {
    open spec fn obeys_eq_spec() -> bool {
        true
    }

    open spec fn eq_spec(&self, other: &Doc) -> bool {
        self@ == other@
    }
}

impl Clone for Doc {
    /// A deep copy: the same document again.
    fn clone(&self) -> (r: Self)
        ensures
            r@ == self@,
            r@.is_compact(),
    {
        proof {
            use_type_invariant(self);
        }
        Doc { tree: self.tree.clone() }
    }
}

impl Doc {
    #[verifier::type_invariant]
    spec fn well_formed(self) -> bool {
        self.tree@.is_compact()
    }

    /// The empty document.
    pub fn nil() -> (r: Doc)
        ensures
            r@ == DocView::Nil,
            r@.is_compact(),
    {
        Doc { tree: Tree::Nil }
    }

    /// `self` followed by `that`, with nothing in between. An empty side is
    /// dropped: appending `nil()` to a document, on either side, gives the
    /// document itself.
    pub fn append(self, that: Doc) -> (r: Doc)
        ensures
            r@ == self@.append(that@),
            r@.is_compact(),
    {
        proof {
            use_type_invariant(&self);
            use_type_invariant(&that);
        }
        let tree = match self.tree {
            Tree::Nil => that.tree,
            ldoc => match that.tree {
                Tree::Nil => ldoc,
                rdoc => Tree::Append(Box::new(ldoc), Box::new(rdoc)),
            },
        };
        Doc { tree }
    }

    /// The text that `t` displays as, as a fragment.
    pub fn as_string<T: std::fmt::Display>(t: T) -> (r: Doc)
        ensures
            exists|s: String|
                vstd::string::to_string_from_display_ensures::<T>(&t, s) && r@ == DocView::Text(
                    s@,
                ),
            r@.is_compact(),
    {
        Doc { tree: Tree::Text(t.to_string()) }
    }

    /// The documents of `ds` appended from left to right; `nil()` for an
    /// empty slice.
    pub fn concat(ds: &[Doc]) -> (r: Doc)
        ensures
            r@ == concat_all(doc_views(ds@)),
            r@.is_compact(),
    {
        let mut acc = Doc::nil();
        let mut i: usize = 0;
        while i < ds.len()
            invariant
                i <= ds.len(),
                acc@ == concat_all(doc_views(ds@.take(i as int))),
                acc@.is_compact(),
            decreases ds.len() - i,
        {
            proof {
                let now = doc_views(ds@.take(i as int + 1));
                assert(now.drop_last() =~= doc_views(ds@.take(i as int)));
            }
            acc = acc.append(ds[i].clone());
            i += 1;
        }
        proof {
            assert(ds@.take(i as int) =~= ds@);
        }
        acc
    }

    /// `self` as a choice point: on one line where that fits, broken at
    /// every line break of its own otherwise.
    pub fn group(self) -> (r: Doc)
        ensures
            r@ == DocView::Group(Box::new(self@)),
            r@.is_compact(),
    {
        proof {
            use_type_invariant(&self);
        }
        Doc { tree: Tree::Group(Box::new(self.tree)) }
    }

    /// `self` with `off` more columns of indentation after each of its line
    /// breaks.
    pub fn nest(self, off: usize) -> (r: Doc)
        ensures
            r@ == DocView::Nest(off as nat, Box::new(self@)),
            r@.is_compact(),
    {
        proof {
            use_type_invariant(&self);
        }
        Doc { tree: Tree::Nest(off, Box::new(self.tree)) }
    }

    /// A line break.
    pub fn newline() -> (r: Doc)
        ensures
            r@ == DocView::Newline,
            r@.is_compact(),
    {
        Doc { tree: Tree::Newline }
    }

    /// Whether the indentations that the document reaches are `usize`
    /// values, which is what [`Doc::render`] asks of it.
    pub fn indents_in_range(&self) -> (ok: bool)
        ensures
            ok == (self@.max_indent() <= usize::MAX),
    {
        indents_in_range(&self.tree)
    }

    /// Renders the document for the target width `width` and appends the
    /// bytes to `out`.
    ///
    /// What is appended depends on the document and the width and on nothing
    /// else: rendering again gives the same bytes again.
    ///
    /// The indentations that the document reaches must be `usize` values.
    pub fn render(&self, width: usize, out: &mut Vec<u8>)
        requires
            self@.max_indent() <= usize::MAX,
        ensures
            final(out)@ == old(out)@ + rendered(self@, width as nat),
    {
        best(&self.tree, width, out)
    }

    /// The text `data` as an unbreakable fragment. The text is not looked
    /// into: a line break inside it is written as it stands and is not
    /// counted as one.
    pub fn text(data: &str) -> (r: Doc)
        ensures
            r@ == DocView::Text(data@),
            r@.is_compact(),
    {
        Doc { tree: Tree::Text(data.to_owned()) }
    }
}

/// `+` on documents has no model of its own: what it returns is stated over
/// views, by the `ensures` of `add` below.
impl vstd::std_specs::ops::AddSpecImpl for Doc {
    open spec fn obeys_add_spec() -> bool {
        false
    }

    open spec fn add_req(self, rhs: Doc) -> bool {
        true
    }

    open spec fn add_spec(self, rhs: Doc) -> Doc {
        self
    }
}

impl std::ops::Add for Doc {
    type Output = Doc;

    /// `self + other` is `self.append(other)`.
    fn add(self, other: Doc) -> (r: Doc)
        ensures
            r@ == self@.append(other@),
            r@.is_compact(),
    {
        self.append(other)
    }
}

} // verus!
