//! Resolution of competing parse actions in one ACTION cell.
//!
//! Each cell of the ACTION table starts as the list of candidate actions that
//! the item sets of a state propose for one terminal. Without a declared
//! conflict the candidates are narrowed to one by static precedence and, on a
//! tie between a shift and a reduction, by the reduction's associativity.
//! With a declared conflict every candidate is kept and the cell becomes a
//! GLR split.
use vstd::prelude::*;

verus! {

/// Associativity of a production, consulted on an equal-precedence tie.
#[derive(Clone, Copy, Debug, PartialEq, Eq, Structural)]
pub enum Associativity {
    Left,
    Right,
    NonAssoc,
}

/// One action that a parser state may take on a terminal.
#[derive(Clone, Copy, Debug, PartialEq, Eq, Structural)]
pub enum ParseAction {
    Shift { state: usize },
    Reduce { production: usize, associativity: Associativity },
    Accept,
}

/// A proposed action with the static precedence that ranks it and the
/// dynamic precedence kept for the runtime's tie-break.
#[derive(Clone, Copy, Debug, PartialEq, Eq, Structural)]
pub struct Candidate {
    pub action: ParseAction,
    pub precedence: i32,
    pub dynamic_precedence: i32,
}

/// A resolved ACTION cell: one action, or several kept side by side.
#[derive(Debug)]
pub enum ParseTableEntry {
    Single(Candidate),
    Split(Vec<Candidate>),
}

/// An undeclared conflict that precedence and associativity cannot settle.
#[derive(Clone, Copy, Debug, PartialEq, Eq, Structural)]
pub struct ConflictError {
    pub first: ParseAction,
    pub second: ParseAction,
}

pub open spec fn entry_actions(e: ParseTableEntry) -> Seq<Candidate> {
    match e {
        ParseTableEntry::Single(c) => seq![c],
        ParseTableEntry::Split(v) => v@,
    }
}

/// Equal precedence, shift against reduce: the reduction's associativity
/// picks the winner (left reduces, right shifts, none has no winner).
pub open spec fn by_associativity(
    assoc: Associativity,
    shift: Candidate,
    reduce: Candidate,
) -> Option<Candidate> {
    match assoc {
        Associativity::Left => Some(reduce),
        Associativity::Right => Some(shift),
        Associativity::NonAssoc => None,
    }
}

/// The winner of two candidates of equal precedence, if there is one.
pub open spec fn tie_break(kept: Candidate, incoming: Candidate) -> Option<Candidate> {
    match kept.action {
        ParseAction::Shift { .. } => match incoming.action {
            ParseAction::Reduce { associativity, .. } => by_associativity(
                associativity,
                kept,
                incoming,
            ),
            _ => None,
        },
        ParseAction::Reduce { associativity, .. } => match incoming.action {
            ParseAction::Shift { .. } => by_associativity(associativity, incoming, kept),
            _ => None,
        },
        ParseAction::Accept => None,
    }
}

/// The surviving candidates after `c` meets the ones kept so far; `None` is a
/// conflict that nothing settles.
pub open spec fn combine(kept: Seq<Candidate>, c: Candidate, declared: bool) -> Option<
    Seq<Candidate>,
> {
    if kept.len() == 0 {
        Some(seq![c])
    } else if declared {
        Some(kept.push(c))
    } else if c.precedence > kept[0].precedence {
        Some(seq![c])
    } else if c.precedence < kept[0].precedence {
        Some(kept)
    } else if kept.len() == 1 {
        match tie_break(kept[0], c) {
            Some(w) => Some(seq![w]),
            None => None,
        }
    } else {
        None
    }
}

/// The candidates that survive resolution of a whole cell, in order.
pub open spec fn resolve_all(cands: Seq<Candidate>, declared: bool) -> Option<Seq<Candidate>>
    decreases cands.len(),
{
    if cands.len() == 0 {
        Some(Seq::empty())
    } else {
        match resolve_all(cands.drop_last(), declared) {
            Some(k) => combine(k, cands.last(), declared),
            None => None,
        }
    }
}

proof fn lemma_conflict_persists(s: Seq<Candidate>, n: int, declared: bool)
    requires
        0 <= n <= s.len(),
        resolve_all(s.subrange(0, n), declared) is None,
    ensures
        resolve_all(s, declared) is None,
    decreases s.len(),
{
    if n == s.len() {
        assert(s.subrange(0, n) =~= s);
    } else {
        assert(s.drop_last().subrange(0, n) =~= s.subrange(0, n));
        lemma_conflict_persists(s.drop_last(), n, declared);
    }
}

fn tie_break_exec(kept: Candidate, incoming: Candidate) -> (r: Option<Candidate>)
    ensures
        r == tie_break(kept, incoming),
{
    match kept.action {
        ParseAction::Shift { .. } => match incoming.action {
            ParseAction::Reduce { associativity, .. } => match associativity {
                Associativity::Left => Some(incoming),
                Associativity::Right => Some(kept),
                Associativity::NonAssoc => None,
            },
            _ => None,
        },
        ParseAction::Reduce { associativity, .. } => match incoming.action {
            ParseAction::Shift { .. } => match associativity {
                Associativity::Left => Some(kept),
                Associativity::Right => Some(incoming),
                Associativity::NonAssoc => None,
            },
            _ => None,
        },
        ParseAction::Accept => None,
    }
}

/// Resolves the candidates of one cell. `declared` tells whether the grammar
/// declares the symbols involved as a permitted conflict.
pub fn resolve_actions(cands: &Vec<Candidate>, declared: bool) -> (r: Result<
    ParseTableEntry,
    ConflictError,
>)
    requires
        cands.len() > 0,
    ensures
        r is Ok <==> resolve_all(cands@, declared) is Some,
        r matches Ok(e) ==> entry_actions(e) == resolve_all(cands@, declared).unwrap(),
        r matches Ok(e) ==> (e is Split <==> entry_actions(e).len() > 1),
        r matches Err(err) ==> (exists|i: int, j: int|
            0 <= i < cands.len() && 0 <= j < cands.len() && cands@[i].action == err.first
                && cands@[j].action == err.second),
{
    let mut kept: Vec<Candidate> = Vec::new();
    let mut i: usize = 0;
    while i < cands.len()
        invariant
            0 <= i <= cands.len(),
            resolve_all(cands@.subrange(0, i as int), declared) == Some(kept@),
            forall|k: int| 0 <= k < kept.len() ==> cands@.contains(#[trigger] kept@[k]),
        decreases cands.len() - i,
    {
        let c = cands[i];
        let ghost pre = cands@.subrange(0, i as int);
        assert(cands@.subrange(0, i + 1).drop_last() =~= pre);
        assert(cands@.subrange(0, i + 1).last() == c);
        assert(cands@.contains(c)) by {
            assert(cands@[i as int] == c);
        }
        if kept.len() == 0 {
            kept = vec![c];
        } else if declared {
            kept.push(c);
        } else if c.precedence > kept[0].precedence {
            kept = vec![c];
        } else if c.precedence < kept[0].precedence {
        } else if kept.len() == 1 {
            match tie_break_exec(kept[0], c) {
                Some(w) => {
                    kept = vec![w];
                },
                None => {
                    proof {
                        lemma_conflict_persists(cands@, i + 1, declared);
                    }
                    assert(cands@.contains(kept@[0]));
                    return Err(ConflictError { first: kept[0].action, second: c.action });
                },
            }
        } else {
            proof {
                lemma_conflict_persists(cands@, i + 1, declared);
            }
            assert(cands@.contains(kept@[0]));
            return Err(ConflictError { first: kept[0].action, second: c.action });
        }
        i = i + 1;
    }
    assert(cands@.subrange(0, cands.len() as int) =~= cands@);
    if kept.len() == 1 {
        Ok(ParseTableEntry::Single(kept[0]))
    } else {
        Ok(ParseTableEntry::Split(kept))
    }
}


/// A cell that had at least one candidate and was resolved keeps at least one
/// action: resolution never leaves a valid terminal without an entry.
pub proof fn lemma_resolution_keeps_an_action(cands: Seq<Candidate>, declared: bool)
    requires
        cands.len() > 0,
        resolve_all(cands, declared) is Some,
    ensures
        resolve_all(cands, declared).unwrap().len() >= 1,
{
    let k = resolve_all(cands.drop_last(), declared).unwrap();
    let c = cands.last();
    if k.len() != 0 && !declared && c.precedence < k[0].precedence {
        assert(k.len() >= 1);
    }
}

/// Without a declared conflict a cell never holds more than one action: every
/// multi-action cell comes from a declaration, and an ambiguity that nothing
/// settles is reported, never dropped.
pub proof fn lemma_undeclared_cell_is_single(cands: Seq<Candidate>)
    ensures
        resolve_all(cands, false) matches Some(k) ==> k.len() <= 1,
    decreases cands.len(),
{
    if cands.len() > 0 {
        lemma_undeclared_cell_is_single(cands.drop_last());
    }
}

/// A shift and a reduction of equal precedence, met in either order and with
/// no declared conflict: a left-associative reduction wins, a
/// right-associative one yields to the shift, and a non-associative one is a
/// conflict.
pub proof fn lemma_equal_precedence_associativity(
    shift: Candidate,
    reduce: Candidate,
    production: usize,
    assoc: Associativity,
)
    requires
        shift.action is Shift,
        reduce.action == (ParseAction::Reduce { production, associativity: assoc }),
        shift.precedence == reduce.precedence,
    ensures
        assoc == Associativity::Left ==> resolve_all(seq![shift, reduce], false) == Some(
            seq![reduce],
        ) && resolve_all(seq![reduce, shift], false) == Some(seq![reduce]),
        assoc == Associativity::Right ==> resolve_all(seq![shift, reduce], false) == Some(
            seq![shift],
        ) && resolve_all(seq![reduce, shift], false) == Some(seq![shift]),
        assoc == Associativity::NonAssoc ==> resolve_all(seq![shift, reduce], false) is None
            && resolve_all(seq![reduce, shift], false) is None,
{
    assert(seq![shift, reduce].drop_last() =~= seq![shift]);
    assert(seq![reduce, shift].drop_last() =~= seq![reduce]);
    assert(seq![shift].drop_last() =~= Seq::<Candidate>::empty());
    assert(seq![reduce].drop_last() =~= Seq::<Candidate>::empty());
    assert(resolve_all(Seq::<Candidate>::empty(), false) == Some(Seq::<Candidate>::empty()));
    assert(resolve_all(seq![shift], false) == Some(seq![shift]));
    assert(resolve_all(seq![reduce], false) == Some(seq![reduce]));
    assert(seq![shift, reduce].last() == reduce);
    assert(seq![reduce, shift].last() == shift);
}

/// Whether `set` names every symbol of `symbols`.
pub open spec fn names_all(set: Seq<usize>, symbols: Seq<usize>) -> bool {
    forall|j: int| 0 <= j < symbols.len() ==> #[trigger] set.contains(symbols[j])
}

/// Whether one declared conflict names every symbol of `symbols`.
pub open spec fn declared_conflict(conflicts: Seq<Seq<usize>>, symbols: Seq<usize>) -> bool {
    exists|i: int| 0 <= i < conflicts.len() && names_all(#[trigger] conflicts[i], symbols)
}

pub(crate) fn contains_symbol(set: &Vec<usize>, s: usize) -> (r: bool)
    ensures
        r == set@.contains(s),
{
    let mut i: usize = 0;
    while i < set.len()
        invariant
            0 <= i <= set.len(),
            forall|k: int| 0 <= k < i ==> set@[k] != s,
        decreases set.len() - i,
    {
        if set[i] == s {
            return true;
        }
        i = i + 1;
    }
    false
}

/// Whether the grammar's declared conflicts permit `symbols` to compete.
pub fn conflict_is_declared(conflicts: &Vec<Vec<usize>>, symbols: &Vec<usize>) -> (r: bool)
    ensures
        r == declared_conflict(conflicts@.map_values(|v: Vec<usize>| v@), symbols@),
{
    let ghost cs = conflicts@.map_values(|v: Vec<usize>| v@);
    let mut i: usize = 0;
    while i < conflicts.len()
        invariant
            0 <= i <= conflicts.len(),
            cs == conflicts@.map_values(|v: Vec<usize>| v@),
            forall|k: int| 0 <= k < i ==> !names_all(#[trigger] cs[k], symbols@),
        decreases conflicts.len() - i,
    {
        let mut all = true;
        let mut j: usize = 0;
        while j < symbols.len()
            invariant
                0 <= i < conflicts.len(),
                0 <= j <= symbols.len(),
                cs == conflicts@.map_values(|v: Vec<usize>| v@),
                cs[i as int] == conflicts@[i as int]@,
                all == (forall|m: int| 0 <= m < j ==> #[trigger] cs[i as int].contains(symbols@[m])),
            decreases symbols.len() - j,
        {
            if !contains_symbol(&conflicts[i], symbols[j]) {
                all = false;
            }
            j = j + 1;
        }
        if all {
            assert(names_all(cs[i as int], symbols@));
            return true;
        }
        i = i + 1;
    }
    false
}

/// Resolves every cell of one state's ACTION row. Cell `t` holds the
/// candidates for terminal `t`, and `declared[t]` whether their conflict is
/// declared. A terminal with candidates always receives an entry.
pub fn build_action_row(candidates: &Vec<Vec<Candidate>>, declared: &Vec<bool>) -> (r: Result<
    Vec<Option<ParseTableEntry>>,
    ConflictError,
>)
    requires
        candidates.len() == declared.len(),
    ensures
        r is Ok <==> forall|t: int|
            0 <= t < candidates.len() && candidates@[t].len() > 0 ==> (#[trigger] resolve_all(
                candidates@[t]@,
                declared@[t],
            )) is Some,
        r matches Ok(row) ==> row.len() == candidates.len() && forall|t: int|
            0 <= t < row.len() ==> ((#[trigger] row@[t] is Some) <==> candidates@[t].len() > 0),
        r matches Ok(row) ==> forall|t: int|
            0 <= t < row.len() && row@[t] is Some ==> entry_actions(#[trigger] row@[t].unwrap())
                == resolve_all(candidates@[t]@, declared@[t]).unwrap() && entry_actions(
                row@[t].unwrap(),
            ).len() >= 1,
{
    let mut row: Vec<Option<ParseTableEntry>> = Vec::new();
    let mut t: usize = 0;
    while t < candidates.len()
        invariant
            0 <= t <= candidates.len(),
            candidates.len() == declared.len(),
            row.len() == t,
            forall|u: int|
                0 <= u < t && candidates@[u].len() > 0 ==> (#[trigger] resolve_all(
                    candidates@[u]@,
                    declared@[u],
                )) is Some,
            forall|u: int| 0 <= u < t ==> ((#[trigger] row@[u] is Some) <==> candidates@[u].len() > 0),
            forall|u: int|
                0 <= u < t && row@[u] is Some ==> entry_actions(#[trigger] row@[u].unwrap())
                    == resolve_all(candidates@[u]@, declared@[u]).unwrap() && entry_actions(
                    row@[u].unwrap(),
                ).len() >= 1,
        decreases candidates.len() - t,
    {
        if candidates[t].len() == 0 {
            row.push(None);
        } else {
            match resolve_actions(&candidates[t], declared[t]) {
                Ok(e) => {
                    proof {
                        lemma_resolution_keeps_an_action(candidates@[t as int]@, declared@[t as int]);
                    }
                    row.push(Some(e));
                },
                Err(err) => {
                    return Err(err);
                },
            }
        }
        t = t + 1;
    }
    Ok(row)
}

} // verus!
