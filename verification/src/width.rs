//! The target width, and how far every line respects it.
use crate::model::{
    emitted, expand, fits, flat_width, group_mode, layout, lemma_work_step, line_demand, next_col,
    rendered, spaces, work, Cmd, DocView, Mode, LINE_FEED,
};
use vstd::prelude::*;

verus! {

/// The number of bytes of `bytes` before its first line feed; all of them
/// where it has none.
pub open spec fn first_line_len(bytes: Seq<u8>) -> nat
    decreases bytes.len(),
{
    if bytes.len() == 0 || bytes[0] == LINE_FEED {
        0
    } else {
        1 + first_line_len(bytes.drop_first())
    }
}

/// Bytes put in front of a line lengthen it by their number at most.
pub proof fn lemma_first_line_len_concat(a: Seq<u8>, b: Seq<u8>)
    ensures
        first_line_len(a + b) <= a.len() + first_line_len(b),
    decreases a.len(),
{
    if a.len() > 0 && a[0] != LINE_FEED {
        assert((a + b).drop_first() =~= a.drop_first() + b);
        lemma_first_line_len_concat(a.drop_first(), b);
    }
}

/// Bytes without a line feed, put in front of a line, lengthen it by their
/// number.
pub proof fn lemma_first_line_len_prefix(a: Seq<u8>, b: Seq<u8>)
    requires
        !a.contains(LINE_FEED),
    ensures
        first_line_len(a + b) == a.len() + first_line_len(b),
    decreases a.len(),
{
    if a.len() > 0 {
        assert((a + b).drop_first() =~= a.drop_first() + b);
        assert(!a.drop_first().contains(LINE_FEED));
        lemma_first_line_len_prefix(a.drop_first(), b);
    }
}

/// The width is respected wherever it can be: what the layout of `cmds`
/// adds to the current line ends at column `width` or before, or else takes
/// no more columns than `cmds` is bound to take on that line.
///
/// This holds from every column and for every work list, so it holds of
/// every line of a rendering, taken from the point where the line starts. A
/// line is longer than the width only by what no choice of the renderer
/// could have kept off it: text fragments, which are never split, and the
/// line breaks of groups that were flattened further up.
pub proof fn lemma_line_within_width_or_demand(cmds: Seq<Cmd>, col: nat, width: nat)
    ensures
        col + first_line_len(layout(cmds, col, width)) <= width || first_line_len(
            layout(cmds, col, width),
        ) <= line_demand(cmds),
    decreases work(cmds),
{
    if cmds.len() > 0 {
        let c = cmds.last();
        let rest = cmds.drop_last();
        let inner = group_mode(rest, c, col, width);
        let next = rest + expand(c, inner);
        let tail = layout(next, next_col(c, col), width);
        if !(c.doc is Newline && c.mode is Break) {
            lemma_work_step(cmds, inner);
            lemma_line_within_width_or_demand(next, col + flat_width(c), width);
            lemma_first_line_len_concat(emitted(c), tail);
            if inner != c.mode {
                assert(next =~= rest.push(
                    Cmd { indent: c.indent, mode: Mode::Flat, doc: *c.doc->Group_0 },
                ));
            }
        }
    }
}

/// Where the fitting test passes, the line stays within the width: if the
/// work list `cmds` fits into what is left of `width` at column `col`, then
/// what its layout adds to the current line ends at column `width` or
/// before.
///
/// The renderer lays a group out flat only after this test, so a flat group
/// never pushes its line over the width.
pub proof fn lemma_fitting_line_within_width(cmds: Seq<Cmd>, col: nat, width: nat)
    requires
        fits(cmds, width - col),
    ensures
        col + first_line_len(layout(cmds, col, width)) <= width,
{
    lemma_line_within_width_or_demand(cmds, col, width);
}

/// Whether `b` is `a` with some of its entries in `Break` mode in place of
/// `Flat`.
pub open spec fn breaks_more(a: Seq<Cmd>, b: Seq<Cmd>) -> bool {
    &&& a.len() == b.len()
    &&& forall|i: int|
        0 <= i < a.len() ==> (#[trigger] a[i]).doc == b[i].doc && (a[i].mode == b[i].mode
            || b[i].mode is Break)
}

/// Breaking more never takes more of the line: a line break in `Break` mode
/// ends the line where the same one in `Flat` mode takes a column and lets
/// the line go on.
pub proof fn lemma_breaking_more_demands_less(a: Seq<Cmd>, b: Seq<Cmd>)
    requires
        breaks_more(a, b),
    ensures
        line_demand(b) <= line_demand(a),
    decreases work(a),
{
    if a.len() > 0 {
        let ca = a.last();
        let cb = b.last();
        if !(cb.doc is Newline && cb.mode is Break) {
            let na = a.drop_last() + expand(ca, ca.mode);
            let nb = b.drop_last() + expand(cb, cb.mode);
            assert(breaks_more(na, nb));
            lemma_work_step(a, ca.mode);
            lemma_breaking_more_demands_less(na, nb);
        }
    }
}

/// Whether no text fragment in `cmds` holds a line feed.
pub open spec fn has_unbroken_texts(cmds: Seq<Cmd>) -> bool {
    forall|i: int| 0 <= i < cmds.len() ==> (#[trigger] cmds[i]).doc.has_unbroken_texts()
}

/// Processing an entry leaves no text fragment with a line feed where there
/// was none.
pub proof fn lemma_unbroken_texts_step(cmds: Seq<Cmd>, inner: Mode)
    requires
        cmds.len() > 0,
        has_unbroken_texts(cmds),
    ensures
        cmds.last().doc.has_unbroken_texts(),
        has_unbroken_texts(cmds.drop_last() + expand(cmds.last(), inner)),
{
    let next = cmds.drop_last() + expand(cmds.last(), inner);
    assert forall|i: int| 0 <= i < next.len() implies (#[trigger] next[i])
        .doc.has_unbroken_texts() by {
        if i < cmds.len() - 1 {
            assert(next[i] == cmds[i]);
        } else {
            assert(next[i] == expand(cmds.last(), inner)[i - (cmds.len() - 1)]);
        }
    }
}

/// But for a line break in `Break` mode, what an entry writes holds no line
/// feed.
pub proof fn lemma_emitted_on_one_line(c: Cmd)
    requires
        c.doc.has_unbroken_texts(),
        !(c.doc is Newline && c.mode is Break),
    ensures
        !emitted(c).contains(LINE_FEED),
        emitted(c).len() == flat_width(c),
{
}

/// Where the fitting test fails, the line does not stay within the width:
/// if no text fragment holds a line feed and the work list `cmds` does not
/// fit into what is left of `width` at column `col`, then what its layout
/// adds to the current line ends beyond column `width`.
///
/// So the renderer breaks a group only where its flat layout would not have
/// stayed within the width.
pub proof fn lemma_not_fitting_line_exceeds_width(cmds: Seq<Cmd>, col: nat, width: nat)
    requires
        has_unbroken_texts(cmds),
        !fits(cmds, width - col),
    ensures
        col + first_line_len(layout(cmds, col, width)) > width,
    decreases work(cmds),
{
    if col <= width {
        let c = cmds.last();
        let rest = cmds.drop_last();
        let inner = group_mode(rest, c, col, width);
        let next = rest + expand(c, inner);
        let tail = layout(next, next_col(c, col), width);
        let scanned = rest + expand(c, c.mode);
        if inner != c.mode {
            let flat = rest.push(
                Cmd { indent: c.indent, mode: Mode::Flat, doc: *c.doc->Group_0 },
            );
            assert(breaks_more(flat, scanned));
            lemma_breaking_more_demands_less(flat, scanned);
        }
        lemma_work_step(cmds, inner);
        lemma_unbroken_texts_step(cmds, inner);
        lemma_not_fitting_line_exceeds_width(next, next_col(c, col), width);
        lemma_emitted_on_one_line(c);
        lemma_first_line_len_prefix(emitted(c), tail);
    }
}

/// The fitting test is exact: where no text fragment holds a line feed, the
/// work list `cmds` fits into what is left of `width` at column `col`
/// exactly if what its layout adds to the current line ends at column
/// `width` or before.
pub proof fn lemma_fitting_is_exact(cmds: Seq<Cmd>, col: nat, width: nat)
    requires
        has_unbroken_texts(cmds),
    ensures
        fits(cmds, width - col) <==> col + first_line_len(layout(cmds, col, width)) <= width,
{
    if fits(cmds, width - col) {
        lemma_fitting_line_within_width(cmds, col, width);
    } else {
        lemma_not_fitting_line_exceeds_width(cmds, col, width);
    }
}

/// A group is laid out flat exactly if that keeps its line within the
/// width: where no text fragment holds a line feed, the group of `x` that is
/// met in `Break` mode at column `col`, with `rest` pending beneath it, gets
/// mode `Flat` exactly if the flat layout of `x`, followed by the layout of
/// `rest`, ends the current line at column `width` or before.
pub proof fn lemma_group_is_flat_iff_line_fits(
    rest: Seq<Cmd>,
    indent: nat,
    x: DocView,
    col: nat,
    width: nat,
)
    requires
        has_unbroken_texts(rest),
        x.has_unbroken_texts(),
    ensures
        group_mode(
            rest,
            Cmd { indent, mode: Mode::Break, doc: DocView::Group(Box::new(x)) },
            col,
            width,
        ) is Flat <==> col + first_line_len(
            layout(rest.push(Cmd { indent, mode: Mode::Flat, doc: x }), col, width),
        ) <= width,
{
    let flat = rest.push(Cmd { indent, mode: Mode::Flat, doc: x });
    assert(has_unbroken_texts(flat));
    lemma_fitting_is_exact(flat, col, width);
}

/// The larger of two numbers.
pub open spec fn larger(a: nat, b: nat) -> nat {
    if a >= b {
        a
    } else {
        b
    }
}

/// The length of the longest line of `bytes`, where `col` columns stand
/// before `bytes` on its first line.
pub open spec fn longest_line(bytes: Seq<u8>, col: nat) -> nat
    decreases bytes.len(),
{
    if bytes.len() == 0 {
        col
    } else if bytes[0] == LINE_FEED {
        larger(col, longest_line(bytes.drop_first(), 0))
    } else {
        longest_line(bytes.drop_first(), col + 1)
    }
}

/// Bytes without a line feed only move the start of what follows them.
pub proof fn lemma_longest_line_prefix(a: Seq<u8>, b: Seq<u8>, col: nat)
    requires
        !a.contains(LINE_FEED),
    ensures
        longest_line(a + b, col) == longest_line(b, col + a.len()),
    decreases a.len(),
{
    if a.len() > 0 {
        assert((a + b).drop_first() =~= a.drop_first() + b);
        assert(!a.drop_first().contains(LINE_FEED));
        lemma_longest_line_prefix(a.drop_first(), b, col + 1);
    }
}

/// The longest line of what `c` writes, followed by `tail`: a line break in
/// `Break` mode ends the current line and starts the next one at the
/// indentation; anything else lengthens the current line by its width.
pub proof fn lemma_longest_line_emitted(c: Cmd, tail: Seq<u8>, col: nat)
    requires
        c.doc.has_unbroken_texts(),
    ensures
        longest_line(emitted(c) + tail, col) == if c.doc is Newline && c.mode is Break {
            larger(col, longest_line(tail, c.indent))
        } else {
            longest_line(tail, col + flat_width(c))
        },
{
    if c.doc is Newline && c.mode is Break {
        let pad = spaces(c.indent);
        assert((emitted(c) + tail).drop_first() =~= pad + tail);
        lemma_longest_line_prefix(pad, tail, 0);
    } else {
        lemma_emitted_on_one_line(c);
        lemma_longest_line_prefix(emitted(c), tail, col);
    }
}

/// The layout of the work list `cmds` when no group is flattened any more:
/// every entry is laid out in the mode it has, and a group hands its own
/// mode to its body.
pub open spec fn broken_layout(cmds: Seq<Cmd>) -> Seq<u8>
    decreases work(cmds),
{
    if cmds.len() == 0 {
        seq![]
    } else {
        let c = cmds.last();
        proof {
            lemma_work_step(cmds, c.mode);
        }
        emitted(c) + broken_layout(cmds.drop_last() + expand(c, c.mode))
    }
}

/// The column at which a layout starts matters to its first line only.
pub proof fn lemma_broken_layout_start(cmds: Seq<Cmd>, col1: nat, col2: nat)
    requires
        has_unbroken_texts(cmds),
    ensures
        longest_line(broken_layout(cmds), col1) <= larger(
            col1 + line_demand(cmds),
            longest_line(broken_layout(cmds), col2),
        ),
    decreases work(cmds),
{
    if cmds.len() > 0 {
        let c = cmds.last();
        let next = cmds.drop_last() + expand(c, c.mode);
        let tail = broken_layout(next);
        lemma_work_step(cmds, c.mode);
        lemma_unbroken_texts_step(cmds, c.mode);
        lemma_longest_line_emitted(c, tail, col1);
        lemma_longest_line_emitted(c, tail, col2);
        if !(c.doc is Newline && c.mode is Break) {
            lemma_broken_layout_start(next, col1 + flat_width(c), col2 + flat_width(c));
        }
    }
}

/// Whether `flat` and `broken` hold the same documents at the same
/// indentations, all in `Flat` mode in the one and all in `Break` mode in
/// the other.
pub open spec fn is_flat_twin(flat: Seq<Cmd>, broken: Seq<Cmd>) -> bool {
    &&& flat.len() == broken.len()
    &&& forall|i: int|
        0 <= i < flat.len() ==> {
            &&& (#[trigger] flat[i]).doc == broken[i].doc
            &&& flat[i].indent == broken[i].indent
            &&& flat[i].mode is Flat
            &&& broken[i].mode is Break
        }
}

/// Flattening the top of a work list lengthens the current line and no
/// other: the lines of `rest` under flat entries are as long as the lines
/// of `rest` under the same entries in `Break` mode, but for the line on
/// which the flat entries stand.
pub proof fn lemma_broken_layout_flat_twin(
    rest: Seq<Cmd>,
    flat: Seq<Cmd>,
    broken: Seq<Cmd>,
    col1: nat,
    col2: nat,
)
    requires
        is_flat_twin(flat, broken),
        has_unbroken_texts(rest + flat),
    ensures
        longest_line(broken_layout(rest + flat), col1) <= larger(
            col1 + line_demand(rest + flat),
            longest_line(broken_layout(rest + broken), col2),
        ),
    decreases work(flat),
{
    if flat.len() == 0 {
        lemma_broken_layout_start(rest, col1, col2);
    } else {
        let a = rest + flat;
        let b = rest + broken;
        let ca = flat.last();
        let cb = broken.last();
        let flat2 = flat.drop_last() + expand(ca, ca.mode);
        let broken2 = broken.drop_last() + expand(cb, cb.mode);
        assert(a.drop_last() + expand(ca, ca.mode) =~= rest + flat2);
        assert(b.drop_last() + expand(cb, cb.mode) =~= rest + broken2);
        assert(is_flat_twin(flat2, broken2));
        lemma_work_step(flat, ca.mode);
        lemma_unbroken_texts_step(a, ca.mode);
        let tail_a = broken_layout(rest + flat2);
        let tail_b = broken_layout(rest + broken2);
        lemma_longest_line_emitted(ca, tail_a, col1);
        lemma_longest_line_emitted(cb, tail_b, col2);
        if ca.doc is Newline {
            lemma_broken_layout_flat_twin(rest, flat2, broken2, col1 + 1, cb.indent);
        } else {
            lemma_broken_layout_flat_twin(
                rest,
                flat2,
                broken2,
                col1 + flat_width(ca),
                col2 + flat_width(ca),
            );
        }
    }
}

/// No line is longer than the width unless it has to be: where no text
/// fragment holds a line feed, the longest line of the layout of `cmds` is
/// no longer than the width, or no longer than the longest line that `cmds`
/// has when none of its groups is flattened any more.
pub proof fn lemma_longest_line_of_layout(cmds: Seq<Cmd>, col: nat, width: nat)
    requires
        has_unbroken_texts(cmds),
    ensures
        longest_line(layout(cmds, col, width), col) <= larger(
            width,
            longest_line(broken_layout(cmds), col),
        ),
    decreases work(cmds),
{
    if cmds.len() > 0 {
        let c = cmds.last();
        let rest = cmds.drop_last();
        let inner = group_mode(rest, c, col, width);
        let next = rest + expand(c, inner);
        let scanned = rest + expand(c, c.mode);
        lemma_work_step(cmds, inner);
        lemma_unbroken_texts_step(cmds, inner);
        lemma_longest_line_emitted(c, layout(next, next_col(c, col), width), col);
        lemma_longest_line_emitted(c, broken_layout(scanned), col);
        lemma_longest_line_of_layout(next, next_col(c, col), width);
        if inner != c.mode {
            let x = *c.doc->Group_0;
            let flat = seq![Cmd { indent: c.indent, mode: Mode::Flat, doc: x }];
            let broken = seq![Cmd { indent: c.indent, mode: Mode::Break, doc: x }];
            assert(next =~= rest.push(Cmd { indent: c.indent, mode: Mode::Flat, doc: x }));
            lemma_broken_layout_flat_twin(rest, flat, broken, col, col);
        }
    }
}

/// With every entry in `Break` mode and no group flattened, a document is
/// written as its broken form.
pub proof fn lemma_broken_layout_of_doc(rest: Seq<Cmd>, indent: nat, d: DocView)
    ensures
        broken_layout(rest.push(Cmd { indent, mode: Mode::Break, doc: d })) == d.broken(indent)
            + broken_layout(rest),
    decreases d,
{
    let c = Cmd { indent, mode: Mode::Break, doc: d };
    let cmds = rest.push(c);
    assert(cmds.drop_last() =~= rest);
    match d {
        DocView::Append(l, r) => {
            let below = Cmd { indent, mode: Mode::Break, doc: *r };
            assert(rest + expand(c, c.mode) =~= rest.push(below).push(
                Cmd { indent, mode: Mode::Break, doc: *l },
            ));
            lemma_broken_layout_of_doc(rest.push(below), indent, *l);
            lemma_broken_layout_of_doc(rest, indent, *r);
        },
        DocView::Group(x) => {
            assert(rest + expand(c, c.mode) =~= rest.push(
                Cmd { indent, mode: Mode::Break, doc: *x },
            ));
            lemma_broken_layout_of_doc(rest, indent, *x);
        },
        DocView::Nest(n, x) => {
            assert(rest + expand(c, c.mode) =~= rest.push(
                Cmd { indent: indent + n, mode: Mode::Break, doc: *x },
            ));
            lemma_broken_layout_of_doc(rest, indent + n, *x);
        },
        _ => {},
    }
}

/// The width is respected by every line that can respect it: where no text
/// fragment of `doc` holds a line feed, no line of the rendering of `doc`
/// is longer than both the width and the longest line that `doc` has with
/// every one of its groups broken.
///
/// A line that is longer than the width is therefore a line that no layout
/// of the document could have made shorter: text fragments are never split.
pub proof fn lemma_lines_within_width_or_unbreakable(doc: DocView, width: nat)
    requires
        doc.has_unbroken_texts(),
    ensures
        longest_line(rendered(doc, width), 0) <= larger(width, longest_line(doc.broken(0), 0)),
{
    lemma_longest_line_of_layout(seq![Cmd { indent: 0, mode: Mode::Break, doc }], 0, width);
    lemma_broken_layout_of_doc(Seq::empty(), 0, doc);
}

} // verus!
