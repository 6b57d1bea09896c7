//! What holds of every layout.
use crate::model::{
    emitted, expand, group_mode, layout, lemma_work_step, next_col, rendered, spaces, work, Cmd,
    DocView, Mode, LINE_FEED,
};
use vstd::prelude::*;
use vstd::utf8::{
    encode_utf8, encode_utf8_valid_utf8, is_ascii_chars, is_ascii_chars_encode_utf8, valid_utf8,
    valid_utf8_concat,
};

verus! {

/// Rendering is a function of the document and the width: documents with
/// the same model render to the same bytes, time after time.
pub proof fn lemma_rendering_is_deterministic(a: DocView, b: DocView, width: nat)
    requires
        a == b,
    ensures
        rendered(a, width) == rendered(b, width),
{
}

/// Appending the empty document changes nothing: on either side of a
/// document it renders as the document alone.
pub proof fn lemma_append_nil_is_identity(doc: DocView, width: nat)
    ensures
        rendered(DocView::Nil.append(doc), width) == rendered(doc, width),
        rendered(doc.append(DocView::Nil), width) == rendered(doc, width),
{
}

/// Indentation adds up: laying out `d` inside `Nest(b, ..)` inside
/// `Nest(a, ..)` at indentation `indent` is laying out `d` at indentation
/// `indent + a + b`, and a line break in `Break` mode at that indentation
/// starts the next line with that many spaces.
pub proof fn lemma_nested_indentation_adds_up(
    rest: Seq<Cmd>,
    indent: nat,
    mode: Mode,
    a: nat,
    b: nat,
    d: DocView,
    col: nat,
    width: nat,
)
    ensures
        layout(
            rest.push(
                Cmd {
                    indent,
                    mode,
                    doc: DocView::Nest(a, Box::new(DocView::Nest(b, Box::new(d)))),
                },
            ),
            col,
            width,
        ) == layout(rest.push(Cmd { indent: indent + a + b, mode, doc: d }), col, width),
        emitted(Cmd { indent: indent + a + b, mode: Mode::Break, doc: DocView::Newline })
            == seq![LINE_FEED] + spaces(indent + a + b),
{
    let inner = DocView::Nest(b, Box::new(d));
    let c0 = Cmd { indent, mode, doc: DocView::Nest(a, Box::new(inner)) };
    let c1 = Cmd { indent: indent + a, mode, doc: inner };
    let c2 = Cmd { indent: indent + a + b, mode, doc: d };
    let l0 = rest.push(c0);
    let l1 = rest.push(c1);
    let l2 = rest.push(c2);
    assert(l0.drop_last() + expand(c0, group_mode(rest, c0, col, width)) =~= l1);
    assert(l1.drop_last() + expand(c1, group_mode(rest, c1, col, width)) =~= l2);
    assert(layout(l0, col, width) =~= layout(l1, col, width));
}

/// Two nestings render as one nesting by their sum.
pub proof fn lemma_nest_of_nest_is_nest_of_sum(a: nat, b: nat, d: DocView, width: nat)
    ensures
        rendered(DocView::Nest(a, Box::new(DocView::Nest(b, Box::new(d)))), width) == rendered(
            DocView::Nest(a + b, Box::new(d)),
            width,
        ),
{
    lemma_nested_indentation_adds_up(Seq::empty(), 0, Mode::Break, a, b, d, 0, width);
}

/// Whether nothing is left to decide in `cmds`: every entry is in `Flat`
/// mode or holds no group.
pub open spec fn is_decided(cmds: Seq<Cmd>) -> bool {
    forall|i: int|
        0 <= i < cmds.len() ==> (#[trigger] cmds[i]).mode is Flat || cmds[i].doc.is_group_free()
}

/// The width matters at groups in `Break` mode and nowhere else: a work
/// list in which nothing is left to decide has the same layout for every
/// width and from every column.
pub proof fn lemma_decided_layout_ignores_width(
    cmds: Seq<Cmd>,
    col1: nat,
    width1: nat,
    col2: nat,
    width2: nat,
)
    requires
        is_decided(cmds),
    ensures
        layout(cmds, col1, width1) == layout(cmds, col2, width2),
    decreases work(cmds),
{
    if cmds.len() > 0 {
        let c = cmds.last();
        let rest = cmds.drop_last();
        let inner = group_mode(rest, c, col1, width1);
        let next = rest + expand(c, inner);
        assert forall|i: int| 0 <= i < next.len() implies (#[trigger] next[i]).mode is Flat
            || next[i].doc.is_group_free() by {
            if i < rest.len() {
                assert(next[i] == cmds[i]);
            } else {
                assert(next[i] == expand(c, inner)[i - rest.len()]);
            }
        }
        lemma_work_step(cmds, inner);
        lemma_decided_layout_ignores_width(
            next,
            next_col(c, col1),
            width1,
            next_col(c, col2),
            width2,
        );
    }
}

/// A document without groups renders to the same bytes for every width.
pub proof fn lemma_group_free_ignores_width(doc: DocView, width1: nat, width2: nat)
    requires
        doc.is_group_free(),
    ensures
        rendered(doc, width1) == rendered(doc, width2),
{
    lemma_decided_layout_ignores_width(
        seq![Cmd { indent: 0, mode: Mode::Break, doc }],
        0,
        width1,
        0,
        width2,
    );
}

/// Bytes below 128 are UTF-8 as they stand.
pub proof fn lemma_ascii_is_utf8(bytes: Seq<u8>)
    requires
        forall|i: int| 0 <= i < bytes.len() ==> bytes[i] < 128,
    ensures
        valid_utf8(bytes),
{
    let chars = Seq::new(bytes.len(), |i: int| bytes[i] as char);
    assert(is_ascii_chars(chars));
    is_ascii_chars_encode_utf8(chars);
    assert(encode_utf8(chars) =~= bytes);
    encode_utf8_valid_utf8(chars);
}

/// Every layout is valid UTF-8: it is made of the encodings of the text
/// fragments, of line feeds and of spaces.
pub proof fn lemma_layout_is_utf8(cmds: Seq<Cmd>, col: nat, width: nat)
    ensures
        valid_utf8(layout(cmds, col, width)),
    decreases work(cmds),
{
    if cmds.len() > 0 {
        let c = cmds.last();
        let rest = cmds.drop_last();
        let inner = group_mode(rest, c, col, width);
        let tail = layout(rest + expand(c, inner), next_col(c, col), width);
        lemma_work_step(cmds, inner);
        lemma_layout_is_utf8(rest + expand(c, inner), next_col(c, col), width);
        match c.doc {
            DocView::Text(s) => {
                encode_utf8_valid_utf8(s);
            },
            _ => {
                lemma_ascii_is_utf8(emitted(c));
            },
        }
        valid_utf8_concat(emitted(c), tail);
    }
}

} // verus!
