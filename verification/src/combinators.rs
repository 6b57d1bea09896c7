//! Documents made from other documents: brackets and separators.
use crate::doc::{doc_views, Doc};
use crate::model::{concat_all, DocView};
use itertools::Itertools;
use vstd::prelude::*;

verus! {

/// `items` with `sep` between every two neighbours: nothing for no item,
/// the item alone for one, and no separator at either end.
pub open spec fn interspersed<T>(items: Seq<T>, sep: T) -> Seq<T> {
    Seq::new(
        if items.len() == 0 {
            0
        } else {
            (2 * items.len() - 1) as nat
        },
        |i: int|
            if i % 2 == 0 {
                items[i / 2]
            } else {
                sep
            },
    )
}

/// The documents that a sequence of references points to.
pub open spec fn pointees(refs: Seq<&Doc>) -> Seq<Doc> {
    Seq::new(refs.len(), |i: int| *refs[i])
}

/// Calls `Itertools::intersperse` on the documents of `docs` and collects
/// what it yields. The contract repeats the adaptor's documentation: the
/// items come out in order, with `item` between every two neighbours.
#[verifier::external_body]
fn intersperse<'a>(docs: &'a [Doc], item: &'a Doc) -> (r: Vec<&'a Doc>)
    ensures
        pointees(r@) == interspersed(docs@, *item),
{
    Itertools::intersperse(docs.iter(), item).collect()
}

/// `doc` between round brackets.
pub fn parens(doc: Doc) -> (r: Doc)
    ensures
        r@ == DocView::Text(seq!['(']).append(doc@).append(DocView::Text(seq![')'])),
        r@.is_compact(),
{
    proof {
        reveal_strlit("(");
        reveal_strlit(")");
        assert("("@ =~= seq!['(']);
        assert(")"@ =~= seq![')']);
    }
    Doc::text("(") + doc + Doc::text(")")
}

/// `doc` between curly brackets.
pub fn braces(doc: Doc) -> (r: Doc)
    ensures
        r@ == DocView::Text(seq!['{']).append(doc@).append(DocView::Text(seq!['}'])),
        r@.is_compact(),
{
    proof {
        reveal_strlit("{");
        reveal_strlit("}");
        assert("{"@ =~= seq!['{']);
        assert("}"@ =~= seq!['}']);
    }
    Doc::text("{") + doc + Doc::text("}")
}

/// The documents of `docs` appended from left to right with a copy of
/// `item` between every two neighbours; `nil()` for an empty slice.
pub fn seperate(docs: &[Doc], item: &Doc) -> (r: Doc)
    ensures
        r@ == concat_all(interspersed(doc_views(docs@), item@)),
        r@.is_compact(),
{
    let parts = intersperse(docs, item);
    let ghost models = interspersed(doc_views(docs@), item@);
    let mut acc = Doc::nil();
    let mut i: usize = 0;
    while i < parts.len()
        invariant
            i <= parts.len(),
            doc_views(pointees(parts@)) == models,
            acc@ == concat_all(models.take(i as int)),
            acc@.is_compact(),
        decreases parts.len() - i,
    {
        proof {
            let now = models.take(i as int + 1);
            assert(now.drop_last() =~= models.take(i as int));
        }
        acc = acc.append(parts[i].clone());
        i += 1;
    }
    proof {
        assert(models.take(i as int) =~= models);
    }
    acc
}

} // verus!
