//! The whole compilation of a normalized grammar: node-type catalog, parse
//! table, binary-interface limits and table text, in that order. The first
//! stage that fails ends it.
use vstd::prelude::*;
use crate::abi::{abi_problem, check_abi_support, FeatureUsage, UnsupportedFeatureError};
use crate::actions::{lookahead_covers, lookahead_views, ProductionInfo};
use crate::items::{automaton_ok, items_ok, lhs_ok, Item};
use crate::node_types::{
    generate_node_types, is_catalog, references_ok, supertypes_ok, NodeType, NodeTypeError, Production, SymbolKind,
};
use crate::render::{
    action_row_views, action_rows_text, render_action_rows, render_transition_rows, row_views, rows_text,
};
use crate::tables::{
    build_parse_table, conflict_views, error_explained, lex_modes_ok, rows_ok, ParseTable, TableError,
};

verus! {

/// A grammar after preparation: symbols by index, productions, and what the
/// table builder needs to know of them.
pub struct InputGrammar {
    pub kinds: Vec<SymbolKind>,
    pub productions: Vec<Production>,
    pub info: Vec<ProductionInfo>,
    /// `lookahead[p][t]`: production `p` may be reduced before terminal `t`.
    pub lookahead: Vec<Vec<bool>>,
    pub start: Vec<Item>,
    pub terminals: Vec<usize>,
    pub conflicts: Vec<Vec<usize>>,
    pub field_count: usize,
    pub alias_count: usize,
}

impl InputGrammar {
    /// The tables agree in length and every terminal is a symbol with a
    /// lookahead entry in every production.
    pub open spec fn wf(&self) -> bool {
        &&& self.info.len() == self.productions.len()
        &&& self.lookahead.len() == self.productions.len()
        &&& items_ok(self.productions@, self.start@)
        &&& forall|k: int|
            0 <= k < self.terminals.len() ==> #[trigger] self.terminals@[k] < self.kinds.len()
                && lookahead_covers(self.lookahead@, self.terminals@[k] as int)
    }
}

/// What a successful compilation produces.
pub struct GeneratedParser {
    pub node_types: Vec<NodeType>,
    pub table: ParseTable,
    /// The transition table as C initializer rows.
    pub table_text: String,
    /// The ACTION table as C initializer rows.
    pub action_text: String,
    /// One set of valid terminals per lexer mode, and each state's mode.
    pub lex_modes: Vec<Vec<bool>>,
    pub lex_mode_of: Vec<usize>,
}

#[derive(Clone, Copy, Debug, PartialEq, Eq, Structural)]
pub enum GenerateError {
    NodeTypes(NodeTypeError),
    /// Declared conflict `conflict` names, at `position`, no symbol.
    UnknownConflictSymbol { conflict: usize, position: usize },
    Table(TableError),
    Unsupported(UnsupportedFeatureError),
}

/// The counts that the binary-interface limits apply to.
pub open spec fn usage_of(g: InputGrammar, t: ParseTable) -> FeatureUsage {
    FeatureUsage {
        symbol_count: g.kinds.len(),
        field_count: g.field_count,
        state_count: t.automaton.kernels.len(),
        production_id_count: g.productions.len(),
        alias_count: g.alias_count,
    }
}

/// `t` is the parse table of `g`.
pub open spec fn table_of(g: InputGrammar, t: ParseTable) -> bool {
    &&& automaton_ok(g.productions@, g.kinds.len() as nat, g.start@, t.automaton)
    &&& t.actions.len() == t.automaton.kernels.len()
    &&& rows_ok(
        g.productions@,
        g.info@,
        lookahead_views(g.lookahead@),
        conflict_views(g.conflicts@),
        t.automaton,
        g.terminals@,
        t.actions@,
        t.actions.len() as int,
    )
}

/// The productions name only symbols of the grammar, and every supertype
/// has a production.
pub open spec fn catalog_inputs_ok(g: InputGrammar) -> bool {
    references_ok(g.productions@, g.kinds.len() as int) && supertypes_ok(g.productions@, g.kinds@)
}

/// Every declared conflict names symbols of the grammar.
pub open spec fn conflicts_ok(conflicts: Seq<Vec<usize>>, n: int) -> bool {
    forall|i: int, j: int|
        0 <= i < conflicts.len() && 0 <= j < conflicts[i].len() ==> #[trigger] conflicts[i]@[j] < n
}

/// `e` points at a declared conflict's symbol that is not below `n`.
pub open spec fn unknown_conflict_symbol(conflicts: Seq<Vec<usize>>, n: int, e: GenerateError) -> bool {
    match e {
        GenerateError::UnknownConflictSymbol { conflict, position } => conflict < conflicts.len()
            && position < conflicts[conflict as int].len() && conflicts[conflict as int]@[position as int]
            >= n,
        _ => false,
    }
}

fn check_conflicts(conflicts: &Vec<Vec<usize>>, n: usize) -> (r: Result<(), GenerateError>)
    ensures
        r is Ok <==> conflicts_ok(conflicts@, n as int),
        r matches Err(e) ==> unknown_conflict_symbol(conflicts@, n as int, e),
{
    let mut i: usize = 0;
    while i < conflicts.len()
        invariant
            0 <= i <= conflicts.len(),
            forall|a: int, j: int|
                0 <= a < i && 0 <= j < conflicts@[a].len() ==> #[trigger] conflicts@[a]@[j] < n,
        decreases conflicts.len() - i,
    {
        let mut j: usize = 0;
        while j < conflicts[i].len()
            invariant
                0 <= i < conflicts.len(),
                0 <= j <= conflicts@[i as int].len(),
                forall|a: int, b: int|
                    0 <= a < i && 0 <= b < conflicts@[a].len() ==> #[trigger] conflicts@[a]@[b] < n,
                forall|b: int| 0 <= b < j ==> #[trigger] conflicts@[i as int]@[b] < n,
            decreases conflicts@[i as int].len() - j,
        {
            if conflicts[i][j] >= n {
                return Err(GenerateError::UnknownConflictSymbol { conflict: i, position: j });
            }
            j = j + 1;
        }
        i = i + 1;
    }
    Ok(())
}

pub open spec fn generate_error_explained(g: InputGrammar, abi_version: usize, e: GenerateError) -> bool {
    match e {
        GenerateError::NodeTypes(_) => !catalog_inputs_ok(g),
        GenerateError::UnknownConflictSymbol { .. } => catalog_inputs_ok(g) && unknown_conflict_symbol(g.conflicts@, g.kinds.len() as int, e),
        GenerateError::Table(te) => catalog_inputs_ok(g)
            && conflicts_ok(g.conflicts@, g.kinds.len() as int) && error_explained(
            g.productions@,
            g.info@,
            lookahead_views(g.lookahead@),
            conflict_views(g.conflicts@),
            g.kinds.len() as nat,
            g.start@,
            g.terminals@,
            te,
        ),
        GenerateError::Unsupported(u) => exists|t: ParseTable|
            #[trigger] table_of(g, t) && abi_problem(abi_version, usage_of(g, t)) == Some(u),
    }
}

/// Compiles `grammar` for binary-interface version `abi_version`.
pub fn generate_parser_for_grammar_with_opts(grammar: &InputGrammar, abi_version: usize) -> (r: Result<
    GeneratedParser,
    GenerateError,
>)
    requires
        grammar.wf(),
    ensures
        r is Err && r->Err_0 is NodeTypes <==> !catalog_inputs_ok(*grammar),
        r matches Err(e) ==> generate_error_explained(*grammar, abi_version, e),
        r is Err && r->Err_0 is UnknownConflictSymbol <==> catalog_inputs_ok(*grammar) && !conflicts_ok(grammar.conflicts@, grammar.kinds.len() as int),
        r matches Ok(p) ==> conflicts_ok(grammar.conflicts@, grammar.kinds.len() as int) && is_catalog(grammar.productions@, grammar.kinds@, p.node_types@)
            && table_of(*grammar, p.table) && abi_problem(abi_version, usage_of(*grammar, p.table))
            is None && p.table_text@ == rows_text(row_views(p.table.automaton.transitions@))
            && p.action_text@ == action_rows_text(action_row_views(p.table.actions@)) && lex_modes_ok(
            p.table.actions@,
            p.lex_modes@,
            p.lex_mode_of@,
        ),
{
    let node_types = match generate_node_types(&grammar.kinds, &grammar.productions) {
        Ok(v) => v,
        Err(e) => {
            return Err(GenerateError::NodeTypes(e));
        },
    };
    check_conflicts(&grammar.conflicts, grammar.kinds.len())?;
    assert(lhs_ok(grammar.productions@, grammar.kinds.len() as int)) by {
        assert forall|p: int| 0 <= p < grammar.productions.len() implies (
        #[trigger] grammar.productions@[p]).lhs < grammar.kinds.len() by {
            assert(grammar.productions@[p].lhs < grammar.kinds.len());
        }
    }
    let table = match build_parse_table(
        &grammar.productions,
        &grammar.info,
        &grammar.lookahead,
        grammar.kinds.len(),
        &grammar.start,
        &grammar.terminals,
        &grammar.conflicts,
    ) {
        Ok(t) => t,
        Err(e) => {
            return Err(GenerateError::Table(e));
        },
    };
    let usage = FeatureUsage {
        symbol_count: grammar.kinds.len(),
        field_count: grammar.field_count,
        state_count: table.automaton.kernels.len(),
        production_id_count: grammar.productions.len(),
        alias_count: grammar.alias_count,
    };
    match check_abi_support(abi_version, &usage) {
        Ok(()) => {},
        Err(e) => {
            assert(table_of(*grammar, table));
            return Err(GenerateError::Unsupported(e));
        },
    }
    let ghost a = table.automaton;
    assert forall|i: int, x: int|
        0 <= i < a.transitions.len() && 0 <= x < a.transitions@[i].len() implies crate::render::cell_fits(
        #[trigger] a.transitions@[i]@[x],
    ) by {
        if a.transitions@[i]@[x] is Some {
            let c = a.closures@[i]@;
            assert(crate::items::row_ok(
                grammar.productions@,
                a.kernels@,
                c,
                a.transitions@[i]@,
                grammar.kinds.len() as nat,
            ));
            assert(a.transitions@[i]@[x].unwrap() < a.kernels.len());
        }
    }
    let table_text = render_transition_rows(&table.automaton.transitions);
    let action_text = render_action_rows(&table.actions);
    let (lex_modes, lex_mode_of) = crate::tables::lex_modes(&table.actions);
    Ok(GeneratedParser { node_types, table, table_text, action_text, lex_modes, lex_mode_of })
}

} // verus!
