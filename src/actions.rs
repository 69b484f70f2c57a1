//! The candidate actions of one ACTION cell, gathered from a state's items.
use vstd::prelude::*;
use crate::conflicts::{lemma_resolution_keeps_an_action, resolve_all, Associativity, Candidate, ParseAction};
use crate::items::{expects, items_ok, Item};
use crate::node_types::Production;

verus! {

/// Static and dynamic precedence and associativity of one production.
#[derive(Clone, Copy, Debug, PartialEq, Eq, Structural)]
pub struct ProductionInfo {
    pub precedence: i32,
    pub dynamic_precedence: i32,
    pub associativity: Associativity,
}

/// Whether the dot of `it` stands at the end of its production.
pub open spec fn completes(prods: Seq<Production>, it: Item) -> bool {
    it.production < prods.len() && it.dot == prods[it.production as int].steps.len()
}

/// The reduction that a completed item proposes.
pub open spec fn reduction(info: Seq<ProductionInfo>, p: usize) -> Candidate {
    Candidate {
        action: ParseAction::Reduce { production: p, associativity: info[p as int].associativity },
        precedence: info[p as int].precedence,
        dynamic_precedence: info[p as int].dynamic_precedence,
    }
}

/// The reductions proposed on terminal `t` by the completed items of `c`
/// whose lookahead holds `t`, in item order.
pub open spec fn reductions(
    prods: Seq<Production>,
    info: Seq<ProductionInfo>,
    lookahead: Seq<Seq<bool>>,
    c: Seq<Item>,
    t: int,
) -> Seq<Candidate>
    decreases c.len(),
{
    if c.len() == 0 {
        Seq::empty()
    } else {
        let it = c.last();
        reductions(prods, info, lookahead, c.drop_last(), t) + if completes(prods, it)
            && lookahead[it.production as int][t] {
            seq![reduction(info, it.production)]
        } else {
            Seq::empty()
        }
    }
}

/// The highest precedence among the items of `c` that expect `t`, or the
/// lowest `i32` when none does.
pub open spec fn shift_precedence(
    prods: Seq<Production>,
    info: Seq<ProductionInfo>,
    c: Seq<Item>,
    t: int,
) -> i32
    decreases c.len(),
{
    if c.len() == 0 {
        i32::MIN
    } else {
        let it = c.last();
        let rest = shift_precedence(prods, info, c.drop_last(), t);
        if expects(prods, it, t) && info[it.production as int].precedence > rest {
            info[it.production as int].precedence
        } else {
            rest
        }
    }
}

/// The candidates of cell `t`: a shift when the state has a transition on
/// `t`, then the reductions.
pub open spec fn cell_candidates(
    prods: Seq<Production>,
    info: Seq<ProductionInfo>,
    lookahead: Seq<Seq<bool>>,
    c: Seq<Item>,
    row: Seq<Option<usize>>,
    t: int,
) -> Seq<Candidate> {
    (match row[t] {
        Some(s) => seq![
            Candidate {
                action: ParseAction::Shift { state: s },
                precedence: shift_precedence(prods, info, c, t),
                dynamic_precedence: 0,
            },
        ],
        None => Seq::empty(),
    }) + reductions(prods, info, lookahead, c, t)
}

/// Whether `t` is valid in the state: it can be shifted, or a completed item
/// has it in its lookahead.
pub open spec fn terminal_valid(
    prods: Seq<Production>,
    lookahead: Seq<Seq<bool>>,
    c: Seq<Item>,
    row: Seq<Option<usize>>,
    t: int,
) -> bool {
    row[t] is Some || exists|i: int|
        0 <= i < c.len() && completes(prods, #[trigger] c[i]) && lookahead[c[i].production as int][t]
}

proof fn lemma_reductions_nonempty(
    prods: Seq<Production>,
    info: Seq<ProductionInfo>,
    lookahead: Seq<Seq<bool>>,
    c: Seq<Item>,
    t: int,
)
    ensures
        reductions(prods, info, lookahead, c, t).len() > 0 <==> exists|i: int|
            0 <= i < c.len() && completes(prods, #[trigger] c[i]) && lookahead[c[i].production as int][t],
    decreases c.len(),
{
    if c.len() > 0 {
        lemma_reductions_nonempty(prods, info, lookahead, c.drop_last(), t);
        if exists|i: int|
            0 <= i < c.len() && completes(prods, #[trigger] c[i]) && lookahead[c[i].production as int][t] {
            let i = choose|i: int|
                0 <= i < c.len() && completes(prods, #[trigger] c[i]) && lookahead[c[i].production as int][t];
            if i < c.len() - 1 {
                assert(c.drop_last()[i] == c[i]);
            }
        }
        if exists|i: int|
            0 <= i < c.len() - 1 && completes(prods, #[trigger] c.drop_last()[i])
                && lookahead[c.drop_last()[i].production as int][t] {
            let i = choose|i: int|
                0 <= i < c.len() - 1 && completes(prods, #[trigger] c.drop_last()[i])
                    && lookahead[c.drop_last()[i].production as int][t];
            assert(c[i] == c.drop_last()[i]);
        }
    }
}

pub open spec fn lookahead_covers(lookahead: Seq<Vec<bool>>, t: int) -> bool {
    forall|p: int| 0 <= p < lookahead.len() ==> t < (#[trigger] lookahead[p]).len()
}

pub open spec fn lookahead_views(lookahead: Seq<Vec<bool>>) -> Seq<Seq<bool>> {
    lookahead.map_values(|v: Vec<bool>| v@)
}

/// Gathers the candidates of cell `t` of a state with closure `c` and
/// transition row `row`. `lookahead[p][t]` tells whether production `p` may
/// be reduced before terminal `t`. The cell has candidates exactly when `t`
/// is valid in the state.
pub fn action_candidates(
    prods: &Vec<Production>,
    info: &Vec<ProductionInfo>,
    lookahead: &Vec<Vec<bool>>,
    c: &Vec<Item>,
    row: &Vec<Option<usize>>,
    t: usize,
) -> (r: Vec<Candidate>)
    requires
        info.len() == prods.len(),
        lookahead.len() == prods.len(),
        lookahead_covers(lookahead@, t as int),
        items_ok(prods@, c@),
        t < row.len(),
    ensures
        r@ == cell_candidates(prods@, info@, lookahead_views(lookahead@), c@, row@, t as int),
        r@.len() > 0 <==> terminal_valid(prods@, lookahead_views(lookahead@), c@, row@, t as int),
{
    let ghost la = lookahead_views(lookahead@);
    let mut reds: Vec<Candidate> = Vec::new();
    let mut prec: i32 = i32::MIN;
    let mut i: usize = 0;
    while i < c.len()
        invariant
            0 <= i <= c.len(),
            info.len() == prods.len(),
            lookahead.len() == prods.len(),
            la == lookahead_views(lookahead@),
            lookahead_covers(lookahead@, t as int),
            items_ok(prods@, c@),
            reds@ == reductions(prods@, info@, la, c@.subrange(0, i as int), t as int),
            prec == shift_precedence(prods@, info@, c@.subrange(0, i as int), t as int),
        decreases c.len() - i,
    {
        assert(c@.subrange(0, i + 1).drop_last() =~= c@.subrange(0, i as int));
        assert(c@.subrange(0, i + 1).last() == c@[i as int]);
        let it = c[i];
        assert(it.production < prods.len());
        let p = it.production;
        let len = prods[p].steps.len();
        if it.dot == len && lookahead[p][t] {
            assert(la[p as int] == lookahead@[p as int]@);
            reds.push(
                Candidate {
                    action: ParseAction::Reduce { production: p, associativity: info[p].associativity },
                    precedence: info[p].precedence,
                    dynamic_precedence: info[p].dynamic_precedence,
                },
            );
        } else {
            assert(la[p as int] == lookahead@[p as int]@);
        }
        if it.dot < len && prods[p].steps[it.dot] == t && info[p].precedence > prec {
            prec = info[p].precedence;
        }
        i = i + 1;
        assert(reds@ =~= reductions(prods@, info@, la, c@.subrange(0, i as int), t as int));
    }
    assert(c@.subrange(0, c.len() as int) =~= c@);
    let mut out: Vec<Candidate> = Vec::new();
    match row[t] {
        Some(s) => {
            out.push(Candidate { action: ParseAction::Shift { state: s }, precedence: prec, dynamic_precedence: 0 });
        },
        None => {},
    }
    let mut j: usize = 0;
    let ghost head = out@;
    while j < reds.len()
        invariant
            0 <= j <= reds.len(),
            out@ == head + reds@.subrange(0, j as int),
        decreases reds.len() - j,
    {
        out.push(reds[j]);
        j = j + 1;
        assert(out@ =~= head + reds@.subrange(0, j as int));
    }
    assert(reds@.subrange(0, reds.len() as int) =~= reds@);
    proof {
        lemma_reductions_nonempty(prods@, info@, la, c@, t as int);
    }
    out
}


/// A cell has candidates exactly when its terminal is valid in the state.
pub proof fn lemma_candidates_iff_valid(
    prods: Seq<Production>,
    info: Seq<ProductionInfo>,
    lookahead: Seq<Seq<bool>>,
    c: Seq<Item>,
    row: Seq<Option<usize>>,
    t: int,
)
    ensures
        cell_candidates(prods, info, lookahead, c, row, t).len() > 0 <==> terminal_valid(
            prods,
            lookahead,
            c,
            row,
            t,
        ),
{
    lemma_reductions_nonempty(prods, info, lookahead, c, t);
}

/// Every terminal valid in a state has candidates in its ACTION cell, and a
/// cell with candidates that resolves keeps at least one action: no valid
/// terminal is left without an entry.
pub proof fn lemma_valid_terminals_are_covered(
    prods: Seq<Production>,
    info: Seq<ProductionInfo>,
    lookahead: Seq<Seq<bool>>,
    c: Seq<Item>,
    row: Seq<Option<usize>>,
    t: int,
    declared: bool,
)
    requires
        0 <= t < row.len(),
        terminal_valid(prods, lookahead, c, row, t),
    ensures
        cell_candidates(prods, info, lookahead, c, row, t).len() > 0,
        resolve_all(cell_candidates(prods, info, lookahead, c, row, t), declared) matches Some(k)
            ==> k.len() >= 1,
{
    lemma_reductions_nonempty(prods, info, lookahead, c, t);
    let cands = cell_candidates(prods, info, lookahead, c, row, t);
    assert(cands.len() > 0);
    if resolve_all(cands, declared) is Some {
        lemma_resolution_keeps_an_action(cands, declared);
    }
}

} // verus!
