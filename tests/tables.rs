use ts_generate::actions::ProductionInfo;
use ts_generate::conflicts::{Associativity, ParseAction, ParseTableEntry};
use ts_generate::items::Item;
use ts_generate::node_types::Production;
use ts_generate::tables::{build_parse_table, ParseTable, TableError};

// Symbols: S 0, E 1, "-" 2, n 3.
// 0: S -> E ; 1: E -> E "-" E ; 2: E -> n
fn prods() -> Vec<Production> {
    vec![
        Production { lhs: 0, steps: vec![1] },
        Production { lhs: 1, steps: vec![1, 2, 1] },
        Production { lhs: 1, steps: vec![3] },
    ]
}

fn info(assoc: Associativity) -> Vec<ProductionInfo> {
    vec![
        ProductionInfo { precedence: 0, dynamic_precedence: 0, associativity: Associativity::NonAssoc },
        ProductionInfo { precedence: 1, dynamic_precedence: 2, associativity: assoc },
        ProductionInfo { precedence: 0, dynamic_precedence: 0, associativity: Associativity::NonAssoc },
    ]
}

fn lookahead() -> Vec<Vec<bool>> {
    vec![vec![false; 4], vec![false, false, true, false], vec![false, false, true, false]]
}

fn build(assoc: Associativity, conflicts: Vec<Vec<usize>>) -> Result<ParseTable, TableError> {
    build_parse_table(&prods(), &info(assoc), &lookahead(), 4, &vec![Item { production: 0, dot: 0 }], &vec![2, 3], &conflicts)
}

fn state_after_e_minus_e(t: &ParseTable) -> usize {
    t.automaton
        .kernels
        .iter()
        .position(|k| k.contains(&Item { production: 1, dot: 3 }))
        .unwrap()
}

#[test]
fn left_associative_table_reduces_on_minus() {
    let t = build(Associativity::Left, vec![]).unwrap();
    assert_eq!(t.actions.len(), t.automaton.kernels.len());
    let s = state_after_e_minus_e(&t);
    match &t.actions[s][0] {
        Some(ParseTableEntry::Single(c)) => assert_eq!(
            c.action,
            ParseAction::Reduce { production: 1, associativity: Associativity::Left }
        ),
        other => panic!("{:?}", other),
    }
    // n is not valid after a complete expression
    assert!(t.actions[s][1].is_none());
    // in the start state only n is valid
    assert!(t.actions[0][0].is_none());
    assert!(matches!(t.actions[0][1], Some(ParseTableEntry::Single(_))));
}

#[test]
fn undeclared_non_associative_conflict_fails() {
    match build(Associativity::NonAssoc, vec![]) {
        Err(TableError::Conflict { terminal, error, .. }) => {
            assert_eq!(terminal, 0);
            assert!(matches!(error.first, ParseAction::Shift { .. }));
        }
        other => panic!("{:?}", other.err()),
    }
}

#[test]
fn declared_conflict_gives_a_split_cell() {
    let t = build(Associativity::NonAssoc, vec![vec![1]]).unwrap();
    let s = state_after_e_minus_e(&t);
    match &t.actions[s][0] {
        Some(ParseTableEntry::Split(v)) => {
            assert_eq!(v.len(), 2);
            assert_eq!(v[1].dynamic_precedence, 2);
        }
        other => panic!("{:?}", other),
    }
}

#[test]
fn conflict_declared_for_other_symbols_does_not_count() {
    assert!(matches!(build(Associativity::NonAssoc, vec![vec![0, 3]]), Err(TableError::Conflict { .. })));
}
