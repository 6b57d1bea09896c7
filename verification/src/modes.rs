//! What the two layout modes write, read off the document itself.
use crate::model::{
    expand, group_mode, layout, line_demand, rendered, spaces, text_bytes, Cmd, DocView, Mode,
    LINE_FEED, SPACE,
};
use vstd::prelude::*;

verus! {

impl DocView {
    /// The document on one line: its texts in order, with a space for every
    /// line break.
    pub open spec fn flattened(self) -> Seq<u8>
        decreases self,
    {
        match self {
            DocView::Nil => seq![],
            DocView::Append(l, r) => l.flattened() + r.flattened(),
            DocView::Group(x) => x.flattened(),
            DocView::Nest(_, x) => x.flattened(),
            DocView::Newline => seq![SPACE],
            DocView::Text(s) => text_bytes(s),
        }
    }

    /// The document with every line break taken: its texts in order, with a
    /// line feed and the indentation in force for every line break. The
    /// indentation outside the document is `indent`. Groups are passed
    /// through, as if each of them had been broken.
    pub open spec fn broken(self, indent: nat) -> Seq<u8>
        decreases self,
    {
        match self {
            DocView::Nil => seq![],
            DocView::Append(l, r) => l.broken(indent) + r.broken(indent),
            DocView::Group(x) => x.broken(indent),
            DocView::Nest(n, x) => x.broken(indent + n),
            DocView::Newline => seq![LINE_FEED] + spaces(indent),
            DocView::Text(s) => text_bytes(s),
        }
    }

    /// The column at which the broken layout of the document ends, when it
    /// starts at column `col` with the indentation `indent`.
    pub open spec fn broken_end(self, indent: nat, col: nat) -> nat
        decreases self,
    {
        match self {
            DocView::Nil => col,
            DocView::Append(l, r) => r.broken_end(indent, l.broken_end(indent, col)),
            DocView::Group(x) => x.broken_end(indent, col),
            DocView::Nest(n, x) => x.broken_end(indent + n, col),
            DocView::Newline => indent,
            DocView::Text(s) => col + text_bytes(s).len(),
        }
    }
}

/// In `Flat` mode a document is written on one line: its layout is its
/// flattened form, whatever the width, and the layout of the rest of the
/// work list goes on behind it on the same line.
pub proof fn lemma_flat_layout(
    rest: Seq<Cmd>,
    indent: nat,
    d: DocView,
    col: nat,
    width: nat,
)
    ensures
        layout(rest.push(Cmd { indent, mode: Mode::Flat, doc: d }), col, width) == d.flattened()
            + layout(rest, col + d.flattened().len(), width),
    decreases d,
{
    let c = Cmd { indent, mode: Mode::Flat, doc: d };
    let cmds = rest.push(c);
    let inner = group_mode(rest, c, col, width);
    assert(cmds.drop_last() =~= rest);
    match d {
        DocView::Append(l, r) => {
            let below = Cmd { indent, mode: Mode::Flat, doc: *r };
            assert(rest + expand(c, inner) =~= rest.push(below).push(
                Cmd { indent, mode: Mode::Flat, doc: *l },
            ));
            lemma_flat_layout(rest.push(below), indent, *l, col, width);
            lemma_flat_layout(rest, indent, *r, col + l.flattened().len(), width);
        },
        DocView::Group(x) => {
            assert(rest + expand(c, inner) =~= rest.push(
                Cmd { indent, mode: Mode::Flat, doc: *x },
            ));
            lemma_flat_layout(rest, indent, *x, col, width);
        },
        DocView::Nest(n, x) => {
            assert(rest + expand(c, inner) =~= rest.push(
                Cmd { indent: indent + n, mode: Mode::Flat, doc: *x },
            ));
            lemma_flat_layout(rest, indent + n, *x, col, width);
        },
        _ => {},
    }
}

/// A flat document takes the length of its flattened form on the current
/// line, and what follows it is still on that line.
pub proof fn lemma_flat_demand(rest: Seq<Cmd>, indent: nat, d: DocView)
    ensures
        line_demand(rest.push(Cmd { indent, mode: Mode::Flat, doc: d })) == d.flattened().len()
            + line_demand(rest),
    decreases d,
{
    let c = Cmd { indent, mode: Mode::Flat, doc: d };
    let cmds = rest.push(c);
    assert(cmds.drop_last() =~= rest);
    match d {
        DocView::Append(l, r) => {
            let below = Cmd { indent, mode: Mode::Flat, doc: *r };
            assert(rest + expand(c, c.mode) =~= rest.push(below).push(
                Cmd { indent, mode: Mode::Flat, doc: *l },
            ));
            lemma_flat_demand(rest.push(below), indent, *l);
            lemma_flat_demand(rest, indent, *r);
        },
        DocView::Group(x) => {
            assert(rest + expand(c, c.mode) =~= rest.push(
                Cmd { indent, mode: Mode::Flat, doc: *x },
            ));
            lemma_flat_demand(rest, indent, *x);
        },
        DocView::Nest(n, x) => {
            assert(rest + expand(c, c.mode) =~= rest.push(
                Cmd { indent: indent + n, mode: Mode::Flat, doc: *x },
            ));
            lemma_flat_demand(rest, indent + n, *x);
        },
        _ => {},
    }
}

/// In `Break` mode a document without groups is written with every line
/// break taken: its layout is its broken form, whatever the width, and the
/// layout of the rest of the work list goes on where that ends.
pub proof fn lemma_broken_layout(
    rest: Seq<Cmd>,
    indent: nat,
    d: DocView,
    col: nat,
    width: nat,
)
    requires
        d.is_group_free(),
    ensures
        layout(rest.push(Cmd { indent, mode: Mode::Break, doc: d }), col, width) == d.broken(
            indent,
        ) + layout(rest, d.broken_end(indent, col), width),
    decreases d,
{
    let c = Cmd { indent, mode: Mode::Break, doc: d };
    let cmds = rest.push(c);
    let inner = group_mode(rest, c, col, width);
    assert(cmds.drop_last() =~= rest);
    match d {
        DocView::Append(l, r) => {
            let below = Cmd { indent, mode: Mode::Break, doc: *r };
            assert(rest + expand(c, inner) =~= rest.push(below).push(
                Cmd { indent, mode: Mode::Break, doc: *l },
            ));
            lemma_broken_layout(rest.push(below), indent, *l, col, width);
            lemma_broken_layout(rest, indent, *r, l.broken_end(indent, col), width);
        },
        DocView::Nest(n, x) => {
            assert(rest + expand(c, inner) =~= rest.push(
                Cmd { indent: indent + n, mode: Mode::Break, doc: *x },
            ));
            lemma_broken_layout(rest, indent + n, *x, col, width);
        },
        _ => {},
    }
}

/// The choice at a group: a group that is met in `Break` mode is written
/// flat where its flattened form, with what the rest of the work list takes
/// on the same line, fits into what is left of the width, and is laid out
/// as its body, in `Break` mode, where it does not.
pub proof fn lemma_group_layout(
    rest: Seq<Cmd>,
    indent: nat,
    x: DocView,
    col: nat,
    width: nat,
)
    ensures
        layout(
            rest.push(Cmd { indent, mode: Mode::Break, doc: DocView::Group(Box::new(x)) }),
            col,
            width,
        ) == if col + x.flattened().len() + line_demand(rest) <= width {
            x.flattened() + layout(rest, col + x.flattened().len(), width)
        } else {
            layout(rest.push(Cmd { indent, mode: Mode::Break, doc: x }), col, width)
        },
{
    let c = Cmd { indent, mode: Mode::Break, doc: DocView::Group(Box::new(x)) };
    let cmds = rest.push(c);
    let inner = group_mode(rest, c, col, width);
    assert(cmds.drop_last() =~= rest);
    assert(rest + expand(c, inner) =~= rest.push(Cmd { indent, mode: inner, doc: x }));
    lemma_flat_demand(rest, indent, x);
    lemma_flat_layout(rest, indent, x, col, width);
}

/// A group that is a whole document is written on one line exactly if its
/// flattened form is no longer than the width.
pub proof fn lemma_lone_group(x: DocView, width: nat)
    ensures
        rendered(DocView::Group(Box::new(x)), width) == if x.flattened().len() <= width {
            x.flattened()
        } else {
            rendered(x, width)
        },
{
    lemma_group_layout(Seq::empty(), 0, x, 0, width);
}

/// A document without groups is rendered with every line break taken.
pub proof fn lemma_group_free_rendering(doc: DocView, width: nat)
    requires
        doc.is_group_free(),
    ensures
        rendered(doc, width) == doc.broken(0),
{
    lemma_broken_layout(Seq::empty(), 0, doc, 0, width);
}

} // verus!
