use ts_generate::conflicts::{
    build_action_row, conflict_is_declared, resolve_actions, Associativity, Candidate,
    ParseAction, ParseTableEntry,
};

fn shift(state: usize, precedence: i32) -> Candidate {
    Candidate { action: ParseAction::Shift { state }, precedence, dynamic_precedence: 0 }
}

fn reduce(production: usize, associativity: Associativity, precedence: i32) -> Candidate {
    Candidate {
        action: ParseAction::Reduce { production, associativity },
        precedence,
        dynamic_precedence: 0,
    }
}

fn single(r: Result<ParseTableEntry, ts_generate::conflicts::ConflictError>) -> Candidate {
    match r {
        Ok(ParseTableEntry::Single(c)) => c,
        other => panic!("expected a single action, got {:?}", other),
    }
}

// `a - b - c` with a left-associative `-`: after `a - b`, on the second `-`,
// the parser reduces, giving `(a - b) - c`.
#[test]
fn left_associative_minus_reduces() {
    let cands = vec![shift(7, 1), reduce(2, Associativity::Left, 1)];
    assert_eq!(single(resolve_actions(&cands, false)), reduce(2, Associativity::Left, 1));
    let reversed = vec![reduce(2, Associativity::Left, 1), shift(7, 1)];
    assert_eq!(single(resolve_actions(&reversed, false)), reduce(2, Associativity::Left, 1));
}

#[test]
fn right_associative_shifts() {
    let cands = vec![shift(7, 1), reduce(2, Associativity::Right, 1)];
    assert_eq!(single(resolve_actions(&cands, false)), shift(7, 1));
    let reversed = vec![reduce(2, Associativity::Right, 1), shift(7, 1)];
    assert_eq!(single(resolve_actions(&reversed, false)), shift(7, 1));
}

#[test]
fn non_associative_tie_is_a_conflict() {
    let cands = vec![shift(7, 1), reduce(2, Associativity::NonAssoc, 1)];
    let err = resolve_actions(&cands, false).unwrap_err();
    assert_eq!(err.first, ParseAction::Shift { state: 7 });
    assert_eq!(
        err.second,
        ParseAction::Reduce { production: 2, associativity: Associativity::NonAssoc }
    );
}

#[test]
fn higher_precedence_wins() {
    let cands = vec![shift(7, 1), reduce(2, Associativity::Left, 3)];
    assert_eq!(single(resolve_actions(&cands, false)), reduce(2, Associativity::Left, 3));
    let cands = vec![reduce(2, Associativity::Left, 3), shift(7, 5)];
    assert_eq!(single(resolve_actions(&cands, false)), shift(7, 5));
    let cands = vec![shift(7, 5), reduce(2, Associativity::Left, 3)];
    assert_eq!(single(resolve_actions(&cands, false)), shift(7, 5));
}

#[test]
fn reduce_reduce_tie_is_a_conflict() {
    let cands = vec![reduce(1, Associativity::Left, 0), reduce(2, Associativity::Left, 0)];
    assert!(resolve_actions(&cands, false).is_err());
}

#[test]
fn declared_conflict_keeps_every_action() {
    let cands = vec![
        reduce(1, Associativity::NonAssoc, 0),
        shift(4, 2),
        reduce(2, Associativity::Left, 0),
    ];
    match resolve_actions(&cands, true) {
        Ok(ParseTableEntry::Split(actions)) => assert_eq!(actions, cands),
        other => panic!("expected a split cell, got {:?}", other),
    }
}

#[test]
fn lone_candidate_is_single() {
    let cands = vec![reduce(3, Associativity::NonAssoc, 0)];
    assert_eq!(single(resolve_actions(&cands, true)), reduce(3, Associativity::NonAssoc, 0));
    let accept = vec![Candidate { action: ParseAction::Accept, precedence: 0, dynamic_precedence: 0 }];
    assert_eq!(single(resolve_actions(&accept, false)).action, ParseAction::Accept);
}

#[test]
fn row_gives_every_terminal_with_candidates_an_entry() {
    let candidates = vec![
        vec![shift(1, 0)],
        vec![],
        vec![shift(2, 1), reduce(5, Associativity::Left, 1)],
        vec![shift(3, 0), reduce(6, Associativity::NonAssoc, 0)],
    ];
    let declared = vec![false, false, false, true];
    let row = build_action_row(&candidates, &declared).unwrap();
    assert_eq!(row.len(), 4);
    assert!(matches!(row[0], Some(ParseTableEntry::Single(_))));
    assert!(row[1].is_none());
    assert!(matches!(row[2], Some(ParseTableEntry::Single(c)) if c == reduce(5, Associativity::Left, 1)));
    assert!(matches!(&row[3], Some(ParseTableEntry::Split(v)) if v.len() == 2));
}

#[test]
fn row_with_undeclared_ambiguity_fails() {
    let candidates = vec![vec![shift(1, 0)], vec![reduce(1, Associativity::Left, 0), reduce(2, Associativity::Left, 0)]];
    let declared = vec![false, false];
    assert!(build_action_row(&candidates, &declared).is_err());
}

#[test]
fn declared_conflicts_are_looked_up() {
    let conflicts = vec![vec![3, 5], vec![1, 2, 4]];
    assert!(conflict_is_declared(&conflicts, &vec![2, 4]));
    assert!(conflict_is_declared(&conflicts, &vec![5, 3]));
    assert!(!conflict_is_declared(&conflicts, &vec![3, 4]));
    assert!(!conflict_is_declared(&vec![], &vec![1]));
}
