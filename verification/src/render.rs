//! The renderer: the layout machine run on a document tree.
use crate::model::{
    expand, fits, group_mode, indents_fit, layout, lemma_indents_fit_step,
    lemma_indents_fit_top, lemma_work_step, rendered, spaces, work, Cmd, Mode, LINE_FEED, SPACE,
};
use crate::tree::Tree;
use vstd::prelude::*;

verus! {

/// One entry of the renderer's work list.
#[derive(Clone, Copy)]
pub struct Frame<'a> {
    pub indent: usize,
    pub mode: Mode,
    pub doc: &'a Tree,
}

impl<'a> View for Frame<'a> {
    type V = Cmd;

    open spec fn view(&self) -> Cmd {
        Cmd { indent: self.indent as nat, mode: self.mode, doc: self.doc@ }
    }
}

/// The work list that a stack of frames stands for.
pub open spec fn views(frames: Seq<Frame>) -> Seq<Cmd> {
    Seq::new(frames.len(), |i: int| frames[i]@)
}

/// Ends the line and indents the next one by `indent` spaces.
pub fn write_newline(indent: usize, out: &mut Vec<u8>)
    ensures
        final(out)@ == old(out)@ + seq![LINE_FEED] + spaces(indent as nat),
{
    out.push(LINE_FEED);
    let mut i: usize = 0;
    while i < indent
        invariant
            i <= indent,
            out@ == old(out)@ + seq![LINE_FEED] + spaces(i as nat),
        decreases indent - i,
    {
        out.push(SPACE);
        i += 1;
    }
}

/// Whether the indentations that `doc` reaches are `usize` values, which is
/// what [`best`] asks of a document.
///
/// Like the renderer, this walks the tree with an explicit work list.
pub fn indents_in_range(doc: &Tree) -> (ok: bool)
    ensures
        ok == (doc@.max_indent() <= usize::MAX),
{
    let ghost goal = doc@.max_indent() <= usize::MAX;
    let mut pending: Vec<Frame> = Vec::new();
    pending.push(Frame { indent: 0, mode: Mode::Break, doc });
    proof {
        assert(views(pending@)[0] == pending@[0]@);
    }
    while pending.len() > 0
        invariant
            goal == (doc@.max_indent() <= usize::MAX),
            goal == indents_fit(views(pending@)),
        decreases work(views(pending@)),
    {
        let ghost before = views(pending@);
        let frame = pending.pop().unwrap();
        let ghost c = frame@;
        let ghost rest = views(pending@);
        proof {
            assert(before.drop_last() =~= rest);
            lemma_work_step(before, c.mode);
            lemma_indents_fit_top(before, c.mode);
        }
        match frame.doc {
            Tree::Append(l, r) => {
                pending.push(Frame { indent: frame.indent, mode: frame.mode, doc: &**r });
                pending.push(Frame { indent: frame.indent, mode: frame.mode, doc: &**l });
            },
            Tree::Group(x) => {
                pending.push(Frame { indent: frame.indent, mode: frame.mode, doc: &**x });
            },
            Tree::Nest(off, x) => {
                match frame.indent.checked_add(*off) {
                    Some(indent) => {
                        pending.push(Frame { indent, mode: frame.mode, doc: &**x });
                    },
                    None => {
                        return false;
                    },
                }
            },
            _ => {},
        }
        proof {
            assert(views(pending@) =~= rest + expand(c, c.mode));
        }
    }
    true
}

/// The work list that the fitting scan has before it: the pending frames
/// below `bidx`, with the scan's own frames on top.
pub open spec fn scan_list(bcmds: Seq<Frame>, bidx: int, fcmds: Seq<Frame>) -> Seq<Cmd> {
    views(bcmds.take(bidx)) + views(fcmds)
}

/// The fitting test on the pending frames `bcmds` with `next` on top: whether
/// they stay within `rem` columns up to the first line break in `Break` mode.
///
/// The scan reads `bcmds` in place from its top down and keeps the frames
/// that it has opened in a list of its own. It stops at the first breaking
/// line break or as soon as `rem` is used up, so it never looks past the
/// current line.
pub fn fitting<'a>(next: Frame<'a>, bcmds: &Vec<Frame<'a>>, rem: usize) -> (ok: bool)
    requires
        indents_fit(views(bcmds@).push(next@)),
    ensures
        ok == fits(views(bcmds@).push(next@), rem as int),
{
    let ghost goal = fits(views(bcmds@).push(next@), rem as int);
    let mut bidx: usize = bcmds.len();
    let mut left: usize = rem;
    let mut fcmds: Vec<Frame<'a>> = Vec::new();
    fcmds.push(next);
    proof {
        assert(scan_list(bcmds@, bidx as int, fcmds@) =~= views(bcmds@).push(next@));
    }
    loop
        invariant
            bidx <= bcmds.len(),
            indents_fit(scan_list(bcmds@, bidx as int, fcmds@)),
            goal == fits(views(bcmds@).push(next@), rem as int),
            goal == fits(scan_list(bcmds@, bidx as int, fcmds@), left as int),
        decreases
            work(scan_list(bcmds@, bidx as int, fcmds@)),
            (if fcmds.len() == 0 { 1nat } else { 0nat }),
    {
        let ghost before = scan_list(bcmds@, bidx as int, fcmds@);
        match fcmds.pop() {
            None => {
                if bidx == 0 {
                    return true;
                }
                bidx -= 1;
                fcmds.push(bcmds[bidx]);
                proof {
                    assert(scan_list(bcmds@, bidx as int, fcmds@) =~= before);
                }
            },
            Some(frame) => {
                let ghost c = frame@;
                proof {
                    lemma_work_step(before, c.mode);
                    lemma_indents_fit_step(before, c.mode);
                }
                match frame.doc {
                    Tree::Nil => {},
                    Tree::Append(l, r) => {
                        fcmds.push(Frame { indent: frame.indent, mode: frame.mode, doc: &**r });
                        fcmds.push(Frame { indent: frame.indent, mode: frame.mode, doc: &**l });
                    },
                    Tree::Group(x) => {
                        fcmds.push(Frame { indent: frame.indent, mode: frame.mode, doc: &**x });
                    },
                    Tree::Nest(off, x) => {
                        fcmds.push(
                            Frame { indent: frame.indent + *off, mode: frame.mode, doc: &**x },
                        );
                    },
                    Tree::Newline => {
                        match frame.mode {
                            Mode::Break => {
                                return true;
                            },
                            Mode::Flat => {
                                if left == 0 {
                                    return false;
                                }
                                left -= 1;
                            },
                        }
                    },
                    Tree::Text(s) => {
                        let n = s.as_str().as_bytes().len();
                        if n > left {
                            return false;
                        }
                        left -= n;
                    },
                }
                proof {
                    assert(scan_list(bcmds@, bidx as int, fcmds@) =~= before.drop_last() + expand(
                        c,
                        c.mode,
                    ));
                }
            },
        }
    }
}

/// Lays out `doc` for the target width `width` and appends the bytes to
/// `out`.
///
/// The tree is walked once with an explicit work list, never by recursion,
/// so a deep tree costs memory on the heap and none on the call stack. For
/// every group that is met in `Break` mode, [`fitting`] decides between the
/// flat and the broken layout; it looks ahead to the end of the current line
/// and no further.
///
/// The indentations that the document reaches must be `usize` values. The
/// output column needs no such condition: it never exceeds the number of
/// bytes in `out`, which is a `usize`.
pub fn best(doc: &Tree, width: usize, out: &mut Vec<u8>)
    requires
        doc@.max_indent() <= usize::MAX,
    ensures
        final(out)@ == old(out)@ + rendered(doc@, width as nat),
{
    let ghost goal = old(out)@ + rendered(doc@, width as nat);
    let mut pos: usize = 0;
    let mut bcmds: Vec<Frame> = Vec::new();
    bcmds.push(Frame { indent: 0, mode: Mode::Break, doc });
    while bcmds.len() > 0
        invariant
            indents_fit(views(bcmds@)),
            pos <= out@.len(),
            goal == out@ + layout(views(bcmds@), pos as nat, width as nat),
        decreases work(views(bcmds@)),
    {
        let ghost before = views(bcmds@);
        let ghost col = pos as nat;
        let frame = bcmds.pop().unwrap();
        let ghost c = frame@;
        let ghost rest = views(bcmds@);
        let ghost inner = group_mode(rest, c, col, width as nat);
        proof {
            assert(before.drop_last() =~= rest);
            lemma_work_step(before, inner);
            lemma_indents_fit_step(before, inner);
        }
        match frame.doc {
            Tree::Nil => {},
            Tree::Append(l, r) => {
                bcmds.push(Frame { indent: frame.indent, mode: frame.mode, doc: &**r });
                bcmds.push(Frame { indent: frame.indent, mode: frame.mode, doc: &**l });
            },
            Tree::Group(x) => {
                let flat = Frame { indent: frame.indent, mode: Mode::Flat, doc: &**x };
                let mode = match frame.mode {
                    Mode::Flat => Mode::Flat,
                    Mode::Break => {
                        proof {
                            lemma_indents_fit_step(before, Mode::Flat);
                        }
                        if pos <= width && fitting(flat, &bcmds, width - pos) {
                            Mode::Flat
                        } else {
                            Mode::Break
                        }
                    },
                };
                bcmds.push(Frame { indent: frame.indent, mode, doc: &**x });
            },
            Tree::Nest(off, x) => {
                bcmds.push(Frame { indent: frame.indent + *off, mode: frame.mode, doc: &**x });
            },
            Tree::Newline => {
                match frame.mode {
                    Mode::Flat => {
                        out.push(SPACE);
                        assert(out@.len() == out.len());
                        pos += 1;
                    },
                    Mode::Break => {
                        write_newline(frame.indent, out);
                        pos = frame.indent;
                    },
                }
            },
            Tree::Text(s) => {
                let bytes = s.as_str().as_bytes();
                out.extend_from_slice(bytes);
                assert(out@.len() == out.len());
                pos += bytes.len();
            },
        }
        proof {
            assert(views(bcmds@) =~= rest + expand(c, inner));
        }
    }
}

} // verus!
