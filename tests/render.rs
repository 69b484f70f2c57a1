use ts_generate::items::{build_states, Item};
use ts_generate::node_types::Production;
use ts_generate::render::{push_decimal, render_transition_rows};

#[test]
fn decimals() {
    let mut s = String::from("n=");
    push_decimal(&mut s, 0);
    assert_eq!(s, "n=0");
    let mut s = String::new();
    push_decimal(&mut s, 65535);
    assert_eq!(s, "65535");
    let mut s = String::new();
    push_decimal(&mut s, 10);
    assert_eq!(s, "10");
}

#[test]
fn transition_rows_text() {
    let rows = vec![vec![None, Some(0), Some(11)], vec![], vec![Some(2)]];
    assert_eq!(render_transition_rows(&rows), "  {0, 1, 12},\n  {},\n  {3},\n");
    assert_eq!(render_transition_rows(&vec![]), "");
}

#[test]
fn rendering_twice_is_identical() {
    let prods = vec![
        Production { lhs: 0, steps: vec![1] },
        Production { lhs: 1, steps: vec![1, 3, 2] },
        Production { lhs: 1, steps: vec![2] },
        Production { lhs: 2, steps: vec![4] },
    ];
    let start = vec![Item { production: 0, dot: 0 }];
    let first = render_transition_rows(&build_states(&prods, 5, &start).unwrap().transitions);
    let second = render_transition_rows(&build_states(&prods, 5, &start).unwrap().transitions);
    assert_eq!(first, second);
    assert!(first.starts_with("  {0, 2, 3, 0, 4},\n"));
}
