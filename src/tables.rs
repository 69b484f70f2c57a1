//! The parse table: the states of the automaton and, for every state and
//! terminal, the resolved ACTION cell.
use vstd::prelude::*;
use crate::abi::UnsupportedFeatureError;
use crate::conflicts::Candidate;
use crate::actions::{
    action_candidates, cell_candidates, completes, lookahead_covers, lookahead_views, terminal_valid,
    ProductionInfo,
};
use crate::conflicts::{
    conflict_is_declared, declared_conflict, entry_actions, lemma_resolution_keeps_an_action,
    lemma_undeclared_cell_is_single, resolve_actions, resolve_all,
    ConflictError, ParseTableEntry,
};
use crate::items::{
    automaton_ok, build_states, expects, items_ok, lhs_ok, too_many_states, Automaton, Item,
};
use crate::node_types::Production;
use crate::lexing::{allowed, beats, select_token, TokenMatch};

verus! {

/// The states and their ACTION rows; `actions[s][k]` is the cell of state
/// `s` for the `k`-th terminal.
pub struct ParseTable {
    pub automaton: Automaton,
    pub actions: Vec<Vec<Option<ParseTableEntry>>>,
}

/// Why no parse table was built.
#[derive(Clone, Copy, Debug, PartialEq, Eq, Structural)]
pub enum TableError {
    States(UnsupportedFeatureError),
    /// The cell of `state` for the `terminal`-th terminal has an undeclared
    /// conflict that precedence and associativity do not settle.
    Conflict { state: usize, terminal: usize, error: ConflictError },
}

pub open spec fn conflict_views(conflicts: Seq<Vec<usize>>) -> Seq<Seq<usize>> {
    conflicts.map_values(|v: Vec<usize>| v@)
}

/// The left sides of the items of `c` that take part in cell `t`: those
/// that expect `t`, and the completed ones whose lookahead holds `t`.
pub open spec fn involved(prods: Seq<Production>, la: Seq<Seq<bool>>, c: Seq<Item>, t: int) -> Seq<
    usize,
>
    decreases c.len(),
{
    if c.len() == 0 {
        Seq::empty()
    } else {
        let it = c.last();
        involved(prods, la, c.drop_last(), t) + if expects(prods, it, t) || (completes(prods, it)
            && la[it.production as int][t]) {
            seq![prods[it.production as int].lhs]
        } else {
            Seq::empty()
        }
    }
}

/// Whether a declared conflict names every symbol that takes part in cell `t`.
pub open spec fn cell_declared(
    prods: Seq<Production>,
    la: Seq<Seq<bool>>,
    conflicts: Seq<Seq<usize>>,
    c: Seq<Item>,
    t: int,
) -> bool {
    declared_conflict(conflicts, involved(prods, la, c, t))
}

/// The candidates of the cell of state `s` for the `k`-th terminal.
pub open spec fn cell_of(
    prods: Seq<Production>,
    info: Seq<ProductionInfo>,
    la: Seq<Seq<bool>>,
    a: Automaton,
    terminals: Seq<usize>,
    s: int,
    k: int,
) -> Seq<Candidate> {
    cell_candidates(prods, info, la, a.closures@[s]@, a.transitions@[s]@, terminals[k] as int)
}

/// The resolution of the cell of state `s` for the `k`-th terminal.
pub open spec fn cell_resolution(
    prods: Seq<Production>,
    info: Seq<ProductionInfo>,
    la: Seq<Seq<bool>>,
    conflicts: Seq<Seq<usize>>,
    a: Automaton,
    terminals: Seq<usize>,
    s: int,
    k: int,
) -> Option<Seq<Candidate>> {
    resolve_all(
        cell_of(prods, info, la, a, terminals, s, k),
        cell_declared(prods, la, conflicts, a.closures@[s]@, terminals[k] as int),
    )
}

/// The cell holds an entry exactly when the terminal is valid in the state;
/// a held entry comes from a resolution that succeeded, and its actions are
/// those that resolution keeps.
pub open spec fn cell_ok(
    prods: Seq<Production>,
    info: Seq<ProductionInfo>,
    la: Seq<Seq<bool>>,
    conflicts: Seq<Seq<usize>>,
    a: Automaton,
    terminals: Seq<usize>,
    s: int,
    k: int,
    cell: Option<ParseTableEntry>,
) -> bool {
    &&& (cell is Some <==> terminal_valid(
        prods,
        la,
        a.closures@[s]@,
        a.transitions@[s]@,
        terminals[k] as int,
    ))
    &&& (cell is Some ==> cell_resolution(prods, info, la, conflicts, a, terminals, s, k) is Some)
    &&& (cell matches Some(e) ==> entry_actions(e) == cell_resolution(
        prods,
        info,
        la,
        conflicts,
        a,
        terminals,
        s,
        k,
    ).unwrap())
}

/// The first `s` rows are complete and right.
pub open spec fn rows_ok(
    prods: Seq<Production>,
    info: Seq<ProductionInfo>,
    la: Seq<Seq<bool>>,
    conflicts: Seq<Seq<usize>>,
    a: Automaton,
    terminals: Seq<usize>,
    actions: Seq<Vec<Option<ParseTableEntry>>>,
    s: int,
) -> bool {
    &&& forall|q: int| 0 <= q < s ==> (#[trigger] actions[q]).len() == terminals.len()
    &&& forall|q: int, k: int|
        0 <= q < s && 0 <= k < terminals.len() ==> cell_ok(
            prods,
            info,
            la,
            conflicts,
            a,
            terminals,
            q,
            k,
            #[trigger] actions[q]@[k],
        )
}

/// In a table whose cells are right, every terminal valid in a state has an
/// entry with at least one action, and an entry with more than one action
/// comes from a declared conflict.
pub proof fn lemma_table_cells_are_legal(
    prods: Seq<Production>,
    info: Seq<ProductionInfo>,
    la: Seq<Seq<bool>>,
    conflicts: Seq<Seq<usize>>,
    a: Automaton,
    terminals: Seq<usize>,
    s: int,
    k: int,
    cell: Option<ParseTableEntry>,
)
    requires
        cell_ok(prods, info, la, conflicts, a, terminals, s, k, cell),
    ensures
        terminal_valid(prods, la, a.closures@[s]@, a.transitions@[s]@, terminals[k] as int) ==> cell is Some,
        cell matches Some(e) ==> entry_actions(e).len() >= 1,
        cell matches Some(e) ==> (entry_actions(e).len() > 1 ==> cell_declared(
            prods,
            la,
            conflicts,
            a.closures@[s]@,
            terminals[k] as int,
        )),
{
    if cell is Some {
        let cands = cell_of(prods, info, la, a, terminals, s, k);
        let declared = cell_declared(prods, la, conflicts, a.closures@[s]@, terminals[k] as int);
        if cands.len() > 0 {
            lemma_resolution_keeps_an_action(cands, declared);
        } else {
            assert(resolve_all(cands, declared) == Some(Seq::<Candidate>::empty()));
            crate::actions::lemma_candidates_iff_valid(
                prods,
                info,
                la,
                a.closures@[s]@,
                a.transitions@[s]@,
                terminals[k] as int,
            );
        }
        lemma_undeclared_cell_is_single(cands);
    }
}

/// What an error from `build_parse_table` means.
pub open spec fn error_explained(
    prods: Seq<Production>,
    info: Seq<ProductionInfo>,
    la: Seq<Seq<bool>>,
    conflicts: Seq<Seq<usize>>,
    n: nat,
    start: Seq<Item>,
    terminals: Seq<usize>,
    e: TableError,
) -> bool {
    match e {
        TableError::States(u) => too_many_states(prods, n, start, u),
        TableError::Conflict { state, terminal, error } => exists|a: Automaton|
            #[trigger] automaton_ok(prods, n, start, a) && state < a.kernels.len() && terminal
                < terminals.len() && cell_of(prods, info, la, a, terminals, state as int, terminal as int).len()
                > 0 && cell_resolution(
                prods,
                info,
                la,
                conflicts,
                a,
                terminals,
                state as int,
                terminal as int,
            ) is None,
    }
}

fn involved_symbols(prods: &Vec<Production>, lookahead: &Vec<Vec<bool>>, c: &Vec<Item>, t: usize) -> (r:
    Vec<usize>)
    requires
        items_ok(prods@, c@),
        lookahead.len() == prods.len(),
        lookahead_covers(lookahead@, t as int),
    ensures
        r@ == involved(prods@, lookahead_views(lookahead@), c@, t as int),
{
    let ghost la = lookahead_views(lookahead@);
    let mut out: Vec<usize> = Vec::new();
    let mut i: usize = 0;
    while i < c.len()
        invariant
            0 <= i <= c.len(),
            items_ok(prods@, c@),
            lookahead.len() == prods.len(),
            lookahead_covers(lookahead@, t as int),
            la == lookahead_views(lookahead@),
            out@ == involved(prods@, la, c@.subrange(0, i as int), t as int),
        decreases c.len() - i,
    {
        assert(c@.subrange(0, i + 1).drop_last() =~= c@.subrange(0, i as int));
        assert(c@.subrange(0, i + 1).last() == c@[i as int]);
        let it = c[i];
        assert(it.production < prods.len());
        let p = it.production;
        assert(la[p as int] == lookahead@[p as int]@);
        let len = prods[p].steps.len();
        let expecting = it.dot < len && prods[p].steps[it.dot] == t;
        let completed = it.dot == len && lookahead[p][t];
        if expecting || completed {
            out.push(prods[p].lhs);
        }
        i = i + 1;
        assert(out@ =~= involved(prods@, la, c@.subrange(0, i as int), t as int));
    }
    assert(c@.subrange(0, c.len() as int) =~= c@);
    out
}

/// Builds the automaton from `start` and resolves every ACTION cell, for
/// the terminals listed in `terminals`. A cell's conflict counts as declared
/// when one declared conflict names every symbol taking part in it.
pub fn build_parse_table(
    prods: &Vec<Production>,
    info: &Vec<ProductionInfo>,
    lookahead: &Vec<Vec<bool>>,
    n: usize,
    start: &Vec<Item>,
    terminals: &Vec<usize>,
    conflicts: &Vec<Vec<usize>>,
) -> (r: Result<ParseTable, TableError>)
    requires
        lhs_ok(prods@, n as int),
        items_ok(prods@, start@),
        info.len() == prods.len(),
        lookahead.len() == prods.len(),
        forall|k: int|
            0 <= k < terminals.len() ==> #[trigger] terminals@[k] < n && lookahead_covers(
                lookahead@,
                terminals@[k] as int,
            ),
    ensures
        r matches Ok(tbl) ==> automaton_ok(prods@, n as nat, start@, tbl.automaton)
            && tbl.actions.len() == tbl.automaton.kernels.len() && rows_ok(
            prods@,
            info@,
            lookahead_views(lookahead@),
            conflict_views(conflicts@),
            tbl.automaton,
            terminals@,
            tbl.actions@,
            tbl.actions.len() as int,
        ),
        r matches Err(e) ==> error_explained(
            prods@,
            info@,
            lookahead_views(lookahead@),
            conflict_views(conflicts@),
            n as nat,
            start@,
            terminals@,
            e,
        ),
{
    let ghost la = lookahead_views(lookahead@);
    let ghost cv = conflict_views(conflicts@);
    let a = match build_states(prods, n, start) {
        Ok(a) => a,
        Err(e) => {
            return Err(TableError::States(e));
        },
    };
    let mut actions: Vec<Vec<Option<ParseTableEntry>>> = Vec::new();
    let mut s: usize = 0;
    while s < a.kernels.len()
        invariant
            0 <= s <= a.kernels.len(),
            automaton_ok(prods@, n as nat, start@, a),
            lhs_ok(prods@, n as int),
            info.len() == prods.len(),
            lookahead.len() == prods.len(),
            la == lookahead_views(lookahead@),
            cv == conflict_views(conflicts@),
            forall|k: int|
                0 <= k < terminals.len() ==> #[trigger] terminals@[k] < n && lookahead_covers(
                    lookahead@,
                    terminals@[k] as int,
                ),
            actions.len() == s,
            rows_ok(prods@, info@, la, cv, a, terminals@, actions@, s as int),
        decreases a.kernels.len() - s,
    {
        assert(items_ok(prods@, a.closures@[s as int]@));
        let mut row: Vec<Option<ParseTableEntry>> = Vec::new();
        let mut k: usize = 0;
        while k < terminals.len()
            invariant
                0 <= s < a.kernels.len(),
                0 <= k <= terminals.len(),
                automaton_ok(prods@, n as nat, start@, a),
                items_ok(prods@, a.closures@[s as int]@),
                info.len() == prods.len(),
                lookahead.len() == prods.len(),
                la == lookahead_views(lookahead@),
                cv == conflict_views(conflicts@),
                forall|j: int|
                    0 <= j < terminals.len() ==> #[trigger] terminals@[j] < n && lookahead_covers(
                        lookahead@,
                        terminals@[j] as int,
                    ),
                row.len() == k,
                forall|j: int|
                    0 <= j < k ==> cell_ok(prods@, info@, la, cv, a, terminals@, s as int, j, #[trigger] row@[j]),
            decreases terminals.len() - k,
        {
            let t = terminals[k];
            assert(t < n && lookahead_covers(lookahead@, t as int));
            assert(a.transitions@[s as int]@.len() == n);
            let cands = action_candidates(prods, info, lookahead, &a.closures[s], &a.transitions[s], t);
            if cands.len() == 0 {
                row.push(None);
            } else {
                let syms = involved_symbols(prods, lookahead, &a.closures[s], t);
                let declared = conflict_is_declared(conflicts, &syms);
                match resolve_actions(&cands, declared) {
                    Ok(e) => {
                        row.push(Some(e));
                    },
                    Err(error) => {
                        assert(automaton_ok(prods@, n as nat, start@, a));
                        return Err(TableError::Conflict { state: s, terminal: k, error });
                    },
                }
            }
            k = k + 1;
        }
        let ghost before = actions@;
        assert(row.len() == terminals.len());
        actions.push(row);
        assert forall|q: int| 0 <= q < s + 1 implies (#[trigger] actions@[q]).len() == terminals.len() by {
            if q < s {
                assert(actions@[q] == before[q]);
            } else {
                assert(actions@[q] == row);
            }
        }
        assert forall|q: int, k: int|
            0 <= q < s + 1 && 0 <= k < terminals.len() implies cell_ok(prods@, info@, la, cv, a, terminals@, q, k, #[trigger] actions@[q]@[k]) by {
            if q < s {
                assert(before[q]@[k] == before[q]@[k]);
            }
            if q < s {
                assert(actions@[q] == before[q]);
                assert(cell_ok(prods@, info@, la, cv, a, terminals@, q, k, before[q]@[k]));
            } else {
                assert(actions@[q] == row);
            }
        }
        assert(rows_ok(prods@, info@, la, cv, a, terminals@, actions@, s + 1));
        s = s + 1;
    }
    Ok(ParseTable { automaton: a, actions })
}


/// The terminals (by position) that have an entry in an ACTION row.
pub open spec fn valid_flags(row: Seq<Option<ParseTableEntry>>) -> Seq<bool> {
    Seq::new(row.len(), |k: int| row[k] is Some)
}

/// The lexer modes of a table: `modes` holds each distinct set of valid
/// terminals once, and state `s` lexes in mode `mode_of[s]`, which holds
/// exactly the terminals valid in `s`.
pub open spec fn lex_modes_ok(
    actions: Seq<Vec<Option<ParseTableEntry>>>,
    modes: Seq<Vec<bool>>,
    mode_of: Seq<usize>,
) -> bool {
    &&& mode_of.len() == actions.len()
    &&& forall|s: int|
        0 <= s < actions.len() ==> (#[trigger] mode_of[s]) < modes.len() && modes[mode_of[s] as int]@
            == valid_flags(actions[s]@)
    &&& forall|a: int, b: int| 0 <= a < b < modes.len() ==> modes[a]@ != modes[b]@
    &&& forall|m: int| 0 <= m < modes.len() ==> #[trigger] mode_used(mode_of, actions.len() as int, m)
}

/// Some state among the first `n` lexes in mode `m`.
pub open spec fn mode_used(mode_of: Seq<usize>, n: int, m: int) -> bool {
    exists|s: int| 0 <= s < n && #[trigger] mode_of[s] == m
}

fn same_flags(a: &Vec<bool>, b: &Vec<bool>) -> (r: bool)
    ensures
        r == (a@ == b@),
{
    if a.len() != b.len() {
        return false;
    }
    let mut i: usize = 0;
    while i < a.len()
        invariant
            a.len() == b.len(),
            0 <= i <= a.len(),
            forall|j: int| 0 <= j < i ==> a@[j] == b@[j],
        decreases a.len() - i,
    {
        if a[i] != b[i] {
            return false;
        }
        i = i + 1;
    }
    assert(a@ =~= b@);
    true
}

fn row_flags(row: &Vec<Option<ParseTableEntry>>) -> (r: Vec<bool>)
    ensures
        r@ == valid_flags(row@),
{
    let mut out: Vec<bool> = Vec::new();
    let mut k: usize = 0;
    while k < row.len()
        invariant
            0 <= k <= row.len(),
            out.len() == k,
            forall|j: int| 0 <= j < k ==> out@[j] == (row@[j] is Some),
        decreases row.len() - k,
    {
        out.push(row[k].is_some());
        k = k + 1;
    }
    assert(out@ =~= valid_flags(row@));
    out
}

/// Groups the states of a table by the set of terminals valid in them: one
/// lexer mode per distinct set, so that each state's lexer tries only the
/// terminals that state can accept.
pub fn lex_modes(actions: &Vec<Vec<Option<ParseTableEntry>>>) -> (r: (Vec<Vec<bool>>, Vec<usize>))
    ensures
        lex_modes_ok(actions@, r.0@, r.1@),
{
    let mut modes: Vec<Vec<bool>> = Vec::new();
    let mut mode_of: Vec<usize> = Vec::new();
    let mut s: usize = 0;
    while s < actions.len()
        invariant
            0 <= s <= actions.len(),
            mode_of.len() == s,
            forall|q: int|
                0 <= q < s ==> (#[trigger] mode_of@[q]) < modes.len() && modes@[mode_of@[q] as int]@
                    == valid_flags(actions@[q]@),
            forall|a: int, b: int| 0 <= a < b < modes.len() ==> modes@[a]@ != modes@[b]@,
            forall|m: int| 0 <= m < modes.len() ==> #[trigger] mode_used(mode_of@, s as int, m),
        decreases actions.len() - s,
    {
        let flags = row_flags(&actions[s]);
        let mut m: usize = 0;
        let mut found = false;
        while m < modes.len() && !found
            invariant
                0 <= m <= modes.len(),
                found ==> m < modes.len() && modes@[m as int]@ == flags@,
                !found ==> forall|j: int| 0 <= j < m ==> modes@[j]@ != flags@,
            decreases modes.len() - m, if found { 0int } else { 1int },
        {
            if same_flags(&modes[m], &flags) {
                found = true;
            } else {
                m = m + 1;
            }
        }
        let ghost old_modes = modes@;
        let ghost old_mode_of = mode_of@;
        if m == modes.len() {
            modes.push(flags);
            assert forall|a: int, b: int| 0 <= a < b < modes.len() implies modes@[a]@ != modes@[b]@ by {
                assert(modes@[a] == old_modes[a] || a == m);
                if b < m {
                    assert(modes@[b] == old_modes[b]);
                }
            }
        }
        assert(modes@[m as int]@ == flags@);
        mode_of.push(m);
        assert forall|q: int| 0 <= q < s + 1 implies (#[trigger] mode_of@[q]) < modes.len()
            && modes@[mode_of@[q] as int]@ == valid_flags(actions@[q]@) by {
            if q < s {
                assert(mode_of@[q] == old_mode_of[q]);
                assert(modes@[old_mode_of[q] as int] == old_modes[old_mode_of[q] as int]);
            }
        }
        assert forall|j: int| 0 <= j < modes.len() implies #[trigger] mode_used(mode_of@, s + 1, j) by {
            if j < old_modes.len() {
                assert(mode_used(old_mode_of, s as int, j));
                let q = choose|q: int| 0 <= q < s && #[trigger] old_mode_of[q] == j;
                assert(mode_of@[q] == j);
            } else {
                assert(mode_of@[s as int] == j);
            }
        }
        s = s + 1;
    }
    (modes, mode_of)
}


/// The token that the lexer of state `s` takes among `matches`: only the
/// terminals valid in `s` are tried, as positions in the table's terminal
/// list.
pub fn token_in_state(
    actions: &Vec<Vec<Option<ParseTableEntry>>>,
    modes: &Vec<Vec<bool>>,
    mode_of: &Vec<usize>,
    s: usize,
    matches: &Vec<TokenMatch>,
) -> (r: Option<TokenMatch>)
    requires
        lex_modes_ok(actions@, modes@, mode_of@),
        s < actions.len(),
    ensures
        r is None <==> forall|i: int|
            0 <= i < matches.len() ==> !allowed(valid_flags(actions@[s as int]@), #[trigger] matches@[i]),
        r matches Some(b) ==> matches@.contains(b) && allowed(valid_flags(actions@[s as int]@), b)
            && forall|i: int|
            0 <= i < matches.len() && allowed(valid_flags(actions@[s as int]@), #[trigger] matches@[i])
                ==> !beats(matches@[i], b),
{
    assert(mode_of@[s as int] < modes.len());
    select_token(matches, &modes[mode_of[s]])
}

} // verus!
