//! Inlining of trivial wrapper rules.
//!
//! A symbol with a single production that no declared conflict names is a
//! wrapper: the table builder substitutes its right-hand side wherever it is
//! used instead of giving it a state of its own.
use vstd::prelude::*;
use crate::conflicts::contains_symbol;
use crate::node_types::Production;

verus! {

/// How many of the first `i` productions have `sym` on their left.
pub open spec fn production_count(prods: Seq<Production>, sym: usize, i: int) -> nat
    decreases i,
{
    if i <= 0 {
        0
    } else {
        production_count(prods, sym, i - 1) + if prods[i - 1].lhs == sym {
            1nat
        } else {
            0nat
        }
    }
}

/// Whether a declared conflict names `sym`.
pub open spec fn in_some_conflict(conflicts: Seq<Seq<usize>>, sym: usize) -> bool {
    exists|i: int| 0 <= i < conflicts.len() && #[trigger] conflicts[i].contains(sym)
}

/// `sym` has exactly one production and takes part in no declared conflict.
pub fn is_inline_candidate(prods: &Vec<Production>, conflicts: &Vec<Vec<usize>>, sym: usize) -> (r: bool)
    ensures
        r == (production_count(prods@, sym, prods.len() as int) == 1 && !in_some_conflict(
            conflicts@.map_values(|v: Vec<usize>| v@),
            sym,
        )),
{
    let ghost cs = conflicts@.map_values(|v: Vec<usize>| v@);
    let mut count: usize = 0;
    let mut i: usize = 0;
    while i < prods.len()
        invariant
            0 <= i <= prods.len(),
            count <= i,
            count == production_count(prods@, sym, i as int),
        decreases prods.len() - i,
    {
        if prods[i].lhs == sym {
            count = count + 1;
        }
        i = i + 1;
    }
    if count != 1 {
        return false;
    }
    let mut k: usize = 0;
    while k < conflicts.len()
        invariant
            0 <= k <= conflicts.len(),
            cs == conflicts@.map_values(|v: Vec<usize>| v@),
            forall|j: int| 0 <= j < k ==> !(#[trigger] cs[j]).contains(sym),
        decreases conflicts.len() - k,
    {
        if contains_symbol(&conflicts[k], sym) {
            assert(cs[k as int].contains(sym));
            return false;
        }
        k = k + 1;
    }
    true
}

/// `steps` with every occurrence of `sym` replaced by `body`.
pub open spec fn substitute(steps: Seq<usize>, sym: usize, body: Seq<usize>) -> Seq<usize>
    decreases steps.len(),
{
    if steps.len() == 0 {
        Seq::empty()
    } else {
        substitute(steps.drop_last(), sym, body) + if steps.last() == sym {
            body
        } else {
            seq![steps.last()]
        }
    }
}

/// The productions that remain once `sym` is inlined, as (left side, right
/// side) pairs: those of `sym` are gone, the others have `body` in place of
/// each occurrence of `sym`.
pub open spec fn inlined(prods: Seq<Production>, sym: usize, body: Seq<usize>) -> Seq<
    (usize, Seq<usize>),
>
    decreases prods.len(),
{
    if prods.len() == 0 {
        Seq::empty()
    } else {
        let last = prods.last();
        inlined(prods.drop_last(), sym, body) + if last.lhs == sym {
            Seq::empty()
        } else {
            seq![(last.lhs, substitute(last.steps@, sym, body))]
        }
    }
}

pub open spec fn production_views(prods: Seq<Production>) -> Seq<(usize, Seq<usize>)> {
    prods.map_values(|p: Production| (p.lhs, p.steps@))
}

fn substitute_steps(steps: &Vec<usize>, sym: usize, body: &Vec<usize>) -> (r: Vec<usize>)
    ensures
        r@ == substitute(steps@, sym, body@),
{
    let mut out: Vec<usize> = Vec::new();
    let mut i: usize = 0;
    while i < steps.len()
        invariant
            0 <= i <= steps.len(),
            out@ == substitute(steps@.subrange(0, i as int), sym, body@),
        decreases steps.len() - i,
    {
        let ghost pre = out@;
        assert(steps@.subrange(0, i + 1).drop_last() =~= steps@.subrange(0, i as int));
        if steps[i] == sym {
            let mut j: usize = 0;
            while j < body.len()
                invariant
                    0 <= j <= body.len(),
                    out@ == pre + body@.subrange(0, j as int),
                decreases body.len() - j,
            {
                out.push(body[j]);
                j = j + 1;
                assert(out@ =~= pre + body@.subrange(0, j as int));
            }
            assert(body@.subrange(0, body.len() as int) =~= body@);
        } else {
            out.push(steps[i]);
        }
        i = i + 1;
        assert(out@ =~= substitute(steps@.subrange(0, i as int), sym, body@));
    }
    assert(steps@.subrange(0, steps.len() as int) =~= steps@);
    out
}

/// Removes the productions of `sym` and puts `body` in place of every
/// occurrence of `sym` in the others.
pub fn inline_symbol(prods: &Vec<Production>, sym: usize, body: &Vec<usize>) -> (r: Vec<Production>)
    ensures
        production_views(r@) == inlined(prods@, sym, body@),
{
    let mut out: Vec<Production> = Vec::new();
    let mut i: usize = 0;
    while i < prods.len()
        invariant
            0 <= i <= prods.len(),
            production_views(out@) == inlined(prods@.subrange(0, i as int), sym, body@),
        decreases prods.len() - i,
    {
        let ghost pre = out@;
        assert(prods@.subrange(0, i + 1).drop_last() =~= prods@.subrange(0, i as int));
        if prods[i].lhs != sym {
            let steps = substitute_steps(&prods[i].steps, sym, body);
            out.push(Production { lhs: prods[i].lhs, steps });
            assert(production_views(out@) =~= production_views(pre).push(
                (prods@[i as int].lhs, substitute(prods@[i as int].steps@, sym, body@)),
            ));
        }
        i = i + 1;
        assert(production_views(out@) =~= inlined(prods@.subrange(0, i as int), sym, body@));
    }
    assert(prods@.subrange(0, prods.len() as int) =~= prods@);
    out
}


/// Whether `tail` is `x` itself or the right side of a production of `x`.
pub open spec fn expands_symbol(prods: Seq<Production>, x: usize, tail: Seq<usize>) -> bool {
    tail == seq![x] || exists|p: int|
        0 <= p < prods.len() && (#[trigger] prods[p]).lhs == x && prods[p].steps@ == tail
}

/// Whether `to` comes from `from` by replacing some of its symbols, each by
/// the right side of one of its productions.
pub open spec fn expands_to(prods: Seq<Production>, from: Seq<usize>, to: Seq<usize>) -> bool
    decreases from.len(),
{
    if from.len() == 0 {
        to.len() == 0
    } else {
        exists|k: int|
            0 <= k <= to.len() && expands_to(prods, from.drop_last(), to.subrange(0, k))
                && #[trigger] expands_symbol(prods, from.last(), to.subrange(k, to.len() as int))
    }
}

proof fn lemma_substitute_expands(prods: Seq<Production>, w: int, steps: Seq<usize>)
    requires
        0 <= w < prods.len(),
    ensures
        expands_to(prods, steps, substitute(steps, prods[w].lhs, prods[w].steps@)),
    decreases steps.len(),
{
    let sym = prods[w].lhs;
    let body = prods[w].steps@;
    if steps.len() > 0 {
        lemma_substitute_expands(prods, w, steps.drop_last());
        let head = substitute(steps.drop_last(), sym, body);
        let to = substitute(steps, sym, body);
        let k = head.len() as int;
        assert(to == head + if steps.last() == sym {
            body
        } else {
            seq![steps.last()]
        });
        assert(to.subrange(0, k) =~= head);
        assert(expands_to(prods, steps.drop_last(), to.subrange(0, k)));
        if steps.last() == sym {
            assert(to.subrange(k, to.len() as int) =~= body);
            assert((prods[w]).lhs == steps.last() && prods[w].steps@ == to.subrange(
                k,
                to.len() as int,
            ));
        } else {
            assert(to.subrange(k, to.len() as int) =~= seq![steps.last()]);
        }
        assert(expands_symbol(prods, steps.last(), to.subrange(k, to.len() as int)));
    }
}

proof fn lemma_inlined_keeps(prods: Seq<Production>, sym: usize, body: Seq<usize>, p: int)
    requires
        0 <= p < prods.len(),
        prods[p].lhs != sym,
    ensures
        inlined(prods, sym, body).contains((prods[p].lhs, substitute(prods[p].steps@, sym, body))),
    decreases prods.len(),
{
    let pair = (prods[p].lhs, substitute(prods[p].steps@, sym, body));
    let pre = inlined(prods.drop_last(), sym, body);
    if p == prods.len() - 1 {
        assert(inlined(prods, sym, body)[pre.len() as int] == pair);
    } else {
        lemma_inlined_keeps(prods.drop_last(), sym, body, p);
        let i = choose|i: int| 0 <= i < pre.len() && pre[i] == pair;
        assert(inlined(prods, sym, body)[i] == pair);
    }
}

/// Inlining a wrapper only takes shortcuts that the grammar already has:
/// every production of another symbol survives, with the wrapper's right
/// side in place of each occurrence of the wrapper, and the original grammar
/// derives that new right side from the old one by expanding the wrapper.
pub proof fn lemma_inlining_keeps_derivations(prods: Seq<Production>, w: int, p: int)
    requires
        0 <= w < prods.len(),
        0 <= p < prods.len(),
        prods[p].lhs != prods[w].lhs,
    ensures
        inlined(prods, prods[w].lhs, prods[w].steps@).contains(
            (prods[p].lhs, substitute(prods[p].steps@, prods[w].lhs, prods[w].steps@)),
        ),
        expands_to(
            prods,
            prods[p].steps@,
            substitute(prods[p].steps@, prods[w].lhs, prods[w].steps@),
        ),
{
    lemma_inlined_keeps(prods, prods[w].lhs, prods[w].steps@, p);
    lemma_substitute_expands(prods, w, prods[p].steps@);
}

} // verus!
