use ts_generate::actions::{action_candidates, ProductionInfo};
use ts_generate::conflicts::{resolve_actions, Associativity, Candidate, ParseAction, ParseTableEntry};
use ts_generate::items::{build_states, Item};
use ts_generate::node_types::Production;

// Symbols: S 0, E 1, "-" 2, n 3.
// 0: S -> E ; 1: E -> E "-" E ; 2: E -> n
fn grammar() -> Vec<Production> {
    vec![
        Production { lhs: 0, steps: vec![1] },
        Production { lhs: 1, steps: vec![1, 2, 1] },
        Production { lhs: 1, steps: vec![3] },
    ]
}

fn info(assoc: Associativity) -> Vec<ProductionInfo> {
    vec![
        ProductionInfo { precedence: 0, dynamic_precedence: 0, associativity: Associativity::NonAssoc },
        ProductionInfo { precedence: 1, dynamic_precedence: 0, associativity: assoc },
        ProductionInfo { precedence: 0, dynamic_precedence: 0, associativity: Associativity::NonAssoc },
    ]
}

// "-" may follow E; S is followed only by the end of input.
fn lookahead() -> Vec<Vec<bool>> {
    vec![vec![false; 4], vec![false, false, true, false], vec![false, false, true, false]]
}

// Returns the candidates on "-" in the state reached after `E - E`.
fn candidates_after_e_minus_e(assoc: Associativity) -> (Vec<Candidate>, usize) {
    let prods = grammar();
    let a = build_states(&prods, 4, &vec![Item { production: 0, dot: 0 }]).unwrap();
    let s1 = a.transitions[0][1].unwrap();
    let s2 = a.transitions[s1][2].unwrap();
    let s3 = a.transitions[s2][1].unwrap();
    assert!(a.kernels[s3].contains(&Item { production: 1, dot: 3 }));
    let cands = action_candidates(&prods, &info(assoc), &lookahead(), &a.closures[s3], &a.transitions[s3], 2);
    (cands, s2)
}

#[test]
fn left_associative_minus_parses_as_left_nested() {
    // a - b - c: on the second "-", reduce `a - b` first.
    let (cands, _) = candidates_after_e_minus_e(Associativity::Left);
    assert_eq!(cands.len(), 2);
    match resolve_actions(&cands, false) {
        Ok(ParseTableEntry::Single(c)) => assert_eq!(
            c.action,
            ParseAction::Reduce { production: 1, associativity: Associativity::Left }
        ),
        other => panic!("{:?}", other),
    }
}

#[test]
fn right_associative_minus_shifts() {
    let (cands, s2) = candidates_after_e_minus_e(Associativity::Right);
    match resolve_actions(&cands, false) {
        Ok(ParseTableEntry::Single(c)) => assert_eq!(c.action, ParseAction::Shift { state: s2 }),
        other => panic!("{:?}", other),
    }
}

#[test]
fn shift_carries_the_expecting_items_precedence() {
    let (cands, s2) = candidates_after_e_minus_e(Associativity::Left);
    assert_eq!(cands[0], Candidate { action: ParseAction::Shift { state: s2 }, precedence: 1, dynamic_precedence: 0 });
    assert_eq!(cands[1].precedence, 1);
}

#[test]
fn invalid_terminal_has_no_candidates() {
    let prods = grammar();
    let a = build_states(&prods, 4, &vec![Item { production: 0, dot: 0 }]).unwrap();
    // In the start state only n can be shifted; "-" is not valid there.
    let cands = action_candidates(&prods, &info(Associativity::Left), &lookahead(), &a.closures[0], &a.transitions[0], 2);
    assert!(cands.is_empty());
    let on_n = action_candidates(&prods, &info(Associativity::Left), &lookahead(), &a.closures[0], &a.transitions[0], 3);
    assert_eq!(on_n.len(), 1);
}
