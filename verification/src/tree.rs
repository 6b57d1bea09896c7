//! The document tree that the builders assemble and the renderer walks.
use crate::model::DocView;
use vstd::prelude::*;

verus! {

/// A document tree. Comparison and ordering are structural: two trees that
/// differ in shape are different even where they render alike.
#[derive(Debug, Eq, PartialOrd, Ord)]
pub enum Tree {
    /// The empty document.
    Nil,
    /// Two documents, one after the other.
    Append(Box<Tree>, Box<Tree>),
    /// A choice point: laid out flat when that fits, broken otherwise.
    Group(Box<Tree>),
    /// A document whose line breaks are indented by some more columns.
    Nest(usize, Box<Tree>),
    /// A line break.
    Newline,
    /// An unbreakable run of characters.
    Text(String),
}

impl View for Tree {
    type V = DocView;

    open spec fn view(&self) -> DocView
        decreases self,
    {
        match self {
            Tree::Nil => DocView::Nil,
            Tree::Append(l, r) => DocView::Append(Box::new((**l).view()), Box::new((**r).view())),
            Tree::Group(x) => DocView::Group(Box::new((**x).view())),
            Tree::Nest(n, x) => DocView::Nest(*n as nat, Box::new((**x).view())),
            Tree::Newline => DocView::Newline,
            Tree::Text(s) => DocView::Text(s@),
        }
    }
}

impl PartialEq for Tree {
    /// Two trees are equal exactly if they have the same shape, the same
    /// indentations and the same texts.
    fn eq(&self, other: &Tree) -> (r: bool)
        decreases self,
    {
        match (self, other) {
            (Tree::Nil, Tree::Nil) => true,
            (Tree::Append(l, r), Tree::Append(ol, or)) => (&**l).eq(&**ol) && (&**r).eq(&**or),
            (Tree::Group(x), Tree::Group(ox)) => (&**x).eq(&**ox),
            (Tree::Nest(n, x), Tree::Nest(on, ox)) => *n == *on && (&**x).eq(&**ox),
            (Tree::Newline, Tree::Newline) => true,
            (Tree::Text(s), Tree::Text(os)) => s.eq(os),
            _ => false,
        }
    }
}

impl vstd::std_specs::cmp::PartialEqSpecImpl for Tree {
    open spec fn obeys_eq_spec() -> bool {
        true
    }

    open spec fn eq_spec(&self, other: &Tree) -> bool {
        self@ == other@
    }
}

impl Clone for Tree {
    /// A deep copy: the same tree again.
    fn clone(&self) -> (res: Self)
        ensures
            res@ == self@,
        decreases self,
    {
        match self {
            Tree::Nil => Tree::Nil,
            Tree::Append(l, r) => Tree::Append(
                Box::new((&**l).clone()),
                Box::new((&**r).clone()),
            ),
            Tree::Group(x) => Tree::Group(Box::new((&**x).clone())),
            Tree::Nest(n, x) => Tree::Nest(*n, Box::new((&**x).clone())),
            Tree::Newline => Tree::Newline,
            Tree::Text(s) => Tree::Text(s.clone()),
        }
    }
}

} // verus!
