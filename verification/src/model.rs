//! The mathematical model of documents and of the layout machine.
use vstd::prelude::*;
use vstd::utf8::encode_utf8;

verus! {

/// The byte that ends a line.
pub const LINE_FEED: u8 = 0x0a;

/// The byte that pads an indentation and stands for a flattened line break.
pub const SPACE: u8 = 0x20;

/// How the line breaks of a sub-document are laid out.
#[derive(Clone, Copy, Debug, PartialEq, Eq, Structural)]
pub enum Mode {
    /// Every line break ends the line and indents the next one.
    Break,
    /// Every line break is a single space.
    Flat,
}

/// A document as a mathematical tree.
pub enum DocView {
    /// The empty document.
    Nil,
    /// Two documents, one after the other.
    Append(Box<DocView>, Box<DocView>),
    /// A choice point: laid out flat when that fits, broken otherwise.
    Group(Box<DocView>),
    /// A document whose line breaks are indented by some more columns.
    Nest(nat, Box<DocView>),
    /// A line break.
    Newline,
    /// An unbreakable run of characters.
    Text(Seq<char>),
}

/// One entry of the work list: a document still to be laid out, with the
/// indentation and the mode that apply to it.
pub struct Cmd {
    pub indent: nat,
    pub mode: Mode,
    pub doc: DocView,
}

impl DocView {
    /// The deepest indentation that any part of the document is laid out
    /// at, when the document itself starts with no indentation.
    pub open spec fn max_indent(self) -> nat
        decreases self,
    {
        match self {
            DocView::Append(l, r) => if l.max_indent() >= r.max_indent() {
                l.max_indent()
            } else {
                r.max_indent()
            },
            DocView::Group(x) => x.max_indent(),
            DocView::Nest(n, x) => n + x.max_indent(),
            _ => 0,
        }
    }

    /// Concatenation as the builders make it: an empty side is dropped, so
    /// that no `Append` ever holds a `Nil`.
    pub open spec fn append(self, that: DocView) -> DocView {
        if self is Nil {
            that
        } else if that is Nil {
            self
        } else {
            DocView::Append(Box::new(self), Box::new(that))
        }
    }

    /// Whether no `Append` in the tree has a `Nil` for a child.
    pub open spec fn is_compact(self) -> bool
        decreases self,
    {
        match self {
            DocView::Append(l, r) => !(*l is Nil) && !(*r is Nil) && l.is_compact()
                && r.is_compact(),
            DocView::Group(x) => x.is_compact(),
            DocView::Nest(_, x) => x.is_compact(),
            _ => true,
        }
    }

    /// Whether the tree holds no `Group`.
    pub open spec fn is_group_free(self) -> bool
        decreases self,
    {
        match self {
            DocView::Append(l, r) => l.is_group_free() && r.is_group_free(),
            DocView::Group(_) => false,
            DocView::Nest(_, x) => x.is_group_free(),
            _ => true,
        }
    }

    /// Whether no text fragment of the tree holds a line feed, as the
    /// builders ask of their callers.
    pub open spec fn has_unbroken_texts(self) -> bool
        decreases self,
    {
        match self {
            DocView::Text(s) => !text_bytes(s).contains(LINE_FEED),
            DocView::Append(l, r) => l.has_unbroken_texts() && r.has_unbroken_texts(),
            DocView::Group(x) => x.has_unbroken_texts(),
            DocView::Nest(_, x) => x.has_unbroken_texts(),
            _ => true,
        }
    }

    /// The number of nodes of the tree.
    pub open spec fn size(self) -> nat
        decreases self,
    {
        match self {
            DocView::Append(l, r) => 1 + l.size() + r.size(),
            DocView::Group(x) => 1 + x.size(),
            DocView::Nest(_, x) => 1 + x.size(),
            _ => 1,
        }
    }
}

/// The left fold of [`DocView::append`] over `docs`, starting from `Nil`.
pub open spec fn concat_all(docs: Seq<DocView>) -> DocView
    decreases docs.len(),
{
    if docs.len() == 0 {
        DocView::Nil
    } else {
        concat_all(docs.drop_last()).append(docs.last())
    }
}

/// The bytes of a text fragment and of nothing else: its UTF-8 encoding.
pub open spec fn text_bytes(s: Seq<char>) -> Seq<u8> {
    encode_utf8(s)
}

/// `n` spaces.
pub open spec fn spaces(n: nat) -> Seq<u8> {
    Seq::new(n, |i: int| SPACE)
}

/// The work-list entries that take the place of `c` once it is processed:
/// the two halves of an `Append` (the left one on top), the body of a `Nest`
/// with the indentation added, the body of a `Group` in mode `inner`, and
/// nothing for a leaf.
pub open spec fn expand(c: Cmd, inner: Mode) -> Seq<Cmd> {
    match c.doc {
        DocView::Append(l, r) => seq![
            Cmd { indent: c.indent, mode: c.mode, doc: *r },
            Cmd { indent: c.indent, mode: c.mode, doc: *l },
        ],
        DocView::Nest(n, x) => seq![Cmd { indent: c.indent + n, mode: c.mode, doc: *x }],
        DocView::Group(x) => seq![Cmd { indent: c.indent, mode: inner, doc: *x }],
        _ => seq![],
    }
}

/// The columns that `c` takes on the current line when nothing in it breaks:
/// the byte length of a text, one for a flattened line break.
pub open spec fn flat_width(c: Cmd) -> nat {
    match c.doc {
        DocView::Text(s) => text_bytes(s).len(),
        DocView::Newline => 1,
        _ => 0,
    }
}

/// The bytes that processing `c` writes.
pub open spec fn emitted(c: Cmd) -> Seq<u8> {
    match c.doc {
        DocView::Text(s) => text_bytes(s),
        DocView::Newline => match c.mode {
            Mode::Flat => seq![SPACE],
            Mode::Break => seq![LINE_FEED] + spaces(c.indent),
        },
        _ => seq![],
    }
}

/// The output column after processing `c` at column `col`.
pub open spec fn next_col(c: Cmd, col: nat) -> nat {
    if c.doc is Newline && c.mode is Break {
        c.indent
    } else {
        col + flat_width(c)
    }
}

/// The number of nodes that a work list still holds. Every step of the
/// layout machine lowers it by one.
pub open spec fn work(cmds: Seq<Cmd>) -> nat
    decreases cmds.len(),
{
    if cmds.len() == 0 {
        0
    } else {
        work(cmds.drop_last()) + cmds.last().doc.size()
    }
}

/// The columns that the work list `cmds` is bound to take on the current
/// line: the widths of its texts and of its line breaks in `Flat` mode,
/// from its top down to its first line break in `Break` mode, or to its end
/// where there is none.
///
/// Every entry counts in the mode it has. A group hands its own mode to its
/// body, so the groups of a flat entry are flat, and a group that is still
/// pending in `Break` mode counts as broken: its first line break ends the
/// line.
pub open spec fn line_demand(cmds: Seq<Cmd>) -> nat
    decreases work(cmds),
{
    if cmds.len() == 0 {
        0
    } else {
        let c = cmds.last();
        if c.doc is Newline && c.mode is Break {
            0
        } else {
            proof {
                lemma_work_step(cmds, c.mode);
            }
            flat_width(c) + line_demand(cmds.drop_last() + expand(c, c.mode))
        }
    }
}

/// The fitting test: whether the work list `cmds` takes no more than `rem`
/// columns on the current line. Exactly filling them fits.
pub open spec fn fits(cmds: Seq<Cmd>, rem: int) -> bool {
    line_demand(cmds) <= rem
}

/// The mode in which the body of the group `c` is laid out, when `c` is
/// processed at column `col` with `rest` pending beneath it.
///
/// Inside a flat group nothing is decided again. In `Break` mode the body is
/// flat exactly if it, followed by `rest`, passes the fitting test for the
/// columns that are left of `width`.
pub open spec fn group_mode(rest: Seq<Cmd>, c: Cmd, col: nat, width: nat) -> Mode {
    if c.mode is Flat {
        Mode::Flat
    } else if c.doc matches DocView::Group(x) && fits(
        rest.push(Cmd { indent: c.indent, mode: Mode::Flat, doc: *x }),
        width - col,
    ) {
        Mode::Flat
    } else {
        Mode::Break
    }
}

/// The bytes that the layout machine writes for the work list `cmds` (its
/// top is the last entry), starting at output column `col`, for the target
/// width `width`.
///
/// The machine takes the top entry off the list, writes what the entry
/// emits, puts the entries that it expands to in its place, and goes on from
/// the column where that leaves it, until the list is empty. A text is
/// written as it stands; a line break is a space in `Flat` mode and a line
/// feed with the indentation in `Break` mode; the body of a group gets the
/// mode that [`group_mode`] decides.
pub open spec fn layout(cmds: Seq<Cmd>, col: nat, width: nat) -> Seq<u8>
    decreases work(cmds),
{
    if cmds.len() == 0 {
        seq![]
    } else {
        let c = cmds.last();
        let rest = cmds.drop_last();
        let inner = group_mode(rest, c, col, width);
        proof {
            lemma_work_step(cmds, inner);
        }
        emitted(c) + layout(rest + expand(c, inner), next_col(c, col), width)
    }
}

/// The rendering of the document `doc` for the target width `width`: the
/// layout of `doc` alone, in `Break` mode, from column 0 with no indentation.
pub open spec fn rendered(doc: DocView, width: nat) -> Seq<u8> {
    layout(seq![Cmd { indent: 0, mode: Mode::Break, doc }], 0, width)
}

/// Whether every indentation that laying out `cmds` can reach is a `usize`.
pub open spec fn indents_fit(cmds: Seq<Cmd>) -> bool {
    forall|i: int|
        0 <= i < cmds.len() ==> (#[trigger] cmds[i]).indent + cmds[i].doc.max_indent()
            <= usize::MAX
}

/// The work of two lists laid end to end is the sum of their work.
pub proof fn lemma_work_concat(a: Seq<Cmd>, b: Seq<Cmd>)
    ensures
        work(a + b) == work(a) + work(b),
    decreases b.len(),
{
    if b.len() > 0 {
        assert((a + b).drop_last() =~= a + b.drop_last());
        lemma_work_concat(a, b.drop_last());
    }
}

/// Processing `c` replaces it by entries that hold one node less.
pub proof fn lemma_work_expand(c: Cmd, inner: Mode)
    ensures
        work(expand(c, inner)) + 1 == c.doc.size(),
{
    reveal_with_fuel(work, 3);
}

/// Replacing the top of a work list by its expansion lowers the work by one.
pub proof fn lemma_work_step(cmds: Seq<Cmd>, inner: Mode)
    requires
        cmds.len() > 0,
    ensures
        work(cmds.drop_last() + expand(cmds.last(), inner)) + 1 == work(cmds),
{
    lemma_work_concat(cmds.drop_last(), expand(cmds.last(), inner));
    lemma_work_expand(cmds.last(), inner);
}

/// Processing an entry keeps the indentations within reach.
pub proof fn lemma_indents_fit_step(cmds: Seq<Cmd>, inner: Mode)
    requires
        cmds.len() > 0,
        indents_fit(cmds),
    ensures
        indents_fit(cmds.drop_last() + expand(cmds.last(), inner)),
{
    let next = cmds.drop_last() + expand(cmds.last(), inner);
    assert forall|i: int| 0 <= i < next.len() implies (#[trigger] next[i]).indent
        + next[i].doc.max_indent() <= usize::MAX by {
        if i < cmds.len() - 1 {
            assert(next[i] == cmds[i]);
        } else {
            assert(next[i] == expand(cmds.last(), inner)[i - (cmds.len() - 1)]);
        }
    }
}

/// The indentations of a work list are within reach exactly if the top
/// entry's own indentation is, and those of the list are once the top entry
/// is processed.
pub proof fn lemma_indents_fit_top(cmds: Seq<Cmd>, inner: Mode)
    requires
        cmds.len() > 0,
    ensures
        indents_fit(cmds) <==> {
            &&& cmds.last().indent <= usize::MAX
            &&& cmds.last().doc matches DocView::Nest(n, _) ==> cmds.last().indent + n
                <= usize::MAX
            &&& indents_fit(cmds.drop_last() + expand(cmds.last(), inner))
        },
{
    let c = cmds.last();
    let rest = cmds.drop_last();
    let e = expand(c, inner);
    let next = rest + e;
    if indents_fit(cmds) {
        lemma_indents_fit_step(cmds, inner);
    }
    if c.indent <= usize::MAX && (c.doc matches DocView::Nest(n, _) ==> c.indent + n
        <= usize::MAX) && indents_fit(next) {
        assert forall|i: int| 0 <= i < cmds.len() implies (#[trigger] cmds[i]).indent
            + cmds[i].doc.max_indent() <= usize::MAX by {
            if i < rest.len() {
                assert(next[i] == cmds[i]);
            } else {
                if e.len() >= 1 {
                    assert(next[rest.len() as int] == e[0]);
                }
                if e.len() >= 2 {
                    assert(next[rest.len() as int + 1] == e[1]);
                }
            }
        }
    }
}

} // verus!
