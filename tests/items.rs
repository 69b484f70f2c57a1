use ts_generate::items::{build_states, closure, find_state, goto_kernel, same_item_set, Item};
use ts_generate::node_types::Production;

fn prod(lhs: usize, steps: Vec<usize>) -> Production {
    Production { lhs, steps }
}

fn item(production: usize, dot: usize) -> Item {
    Item { production, dot }
}

// Symbols: start 0, expr 1, term 2, "+" 3, number 4.
// 0: start -> expr ; 1: expr -> expr "+" term ; 2: expr -> term ; 3: term -> number
fn grammar() -> Vec<Production> {
    vec![prod(0, vec![1]), prod(1, vec![1, 3, 2]), prod(1, vec![2]), prod(2, vec![4])]
}

#[test]
fn closure_of_start_item() {
    let prods = grammar();
    let c = closure(&prods, 5, &vec![item(0, 0)]);
    assert_eq!(c, vec![item(0, 0), item(1, 0), item(2, 0), item(3, 0)]);
}

#[test]
fn closure_after_plus() {
    let prods = grammar();
    let c = closure(&prods, 5, &vec![item(1, 2)]);
    assert_eq!(c, vec![item(1, 2), item(3, 0)]);
    let done = closure(&prods, 5, &vec![item(3, 1)]);
    assert_eq!(done, vec![item(3, 1)]);
}

#[test]
fn goto_moves_the_dot() {
    let prods = grammar();
    let c = closure(&prods, 5, &vec![item(0, 0)]);
    assert_eq!(goto_kernel(&prods, &c, 1), vec![item(0, 1), item(1, 1)]);
    assert_eq!(goto_kernel(&prods, &c, 4), vec![item(3, 1)]);
    assert!(goto_kernel(&prods, &c, 3).is_empty());
}

#[test]
fn states_are_found_by_item_set() {
    let states = vec![vec![item(0, 0)], vec![item(0, 1), item(1, 1)], vec![item(3, 1)]];
    assert_eq!(find_state(&states, &vec![item(1, 1), item(0, 1)]), Some(1));
    assert_eq!(find_state(&states, &vec![item(3, 1), item(3, 1)]), Some(2));
    assert_eq!(find_state(&states, &vec![item(2, 1)]), None);
    assert!(same_item_set(&vec![item(1, 0), item(2, 0)], &vec![item(2, 0), item(1, 0)]));
    assert!(!same_item_set(&vec![item(1, 0)], &vec![item(1, 0), item(2, 0)]));
}

#[test]
fn automaton_for_sums() {
    let prods = grammar();
    let a = build_states(&prods, 5, &vec![item(0, 0)]).unwrap();
    // start; after expr; after term; after number; after "+"; after expr "+" term
    assert_eq!(a.kernels.len(), 6);
    assert_eq!(a.kernels[0], vec![item(0, 0)]);
    assert_eq!(a.closures[0], vec![item(0, 0), item(1, 0), item(2, 0), item(3, 0)]);
    let on_expr = a.transitions[0][1].unwrap();
    assert_eq!(a.kernels[on_expr], vec![item(0, 1), item(1, 1)]);
    let on_plus = a.transitions[on_expr][3].unwrap();
    assert_eq!(a.kernels[on_plus], vec![item(1, 2)]);
    let on_number = a.transitions[0][4].unwrap();
    // the state after a number is shared by both places a term can start
    assert_eq!(a.transitions[on_plus][4], Some(on_number));
    assert!(a.transitions[0][3].is_none());
    assert!(a.transitions[on_number].iter().all(|t| t.is_none()));
    for row in &a.transitions {
        assert_eq!(row.len(), 5);
    }
}

#[test]
fn automaton_with_no_symbols_has_one_state() {
    let prods = vec![prod(0, vec![])];
    let a = build_states(&prods, 1, &vec![item(0, 0)]).unwrap();
    assert_eq!(a.kernels.len(), 1);
    assert_eq!(a.transitions, vec![vec![None]]);
}
