use ts_generate::inline::{inline_symbol, is_inline_candidate};
use ts_generate::node_types::Production;

fn prod(lhs: usize, steps: Vec<usize>) -> Production {
    Production { lhs, steps }
}

fn pairs(prods: &[Production]) -> Vec<(usize, Vec<usize>)> {
    prods.iter().map(|p| (p.lhs, p.steps.clone())).collect()
}

#[test]
fn single_production_wrapper_is_a_candidate() {
    // expr -> _paren ; _paren -> "(" expr ")" ; expr -> number
    let prods = vec![prod(0, vec![1]), prod(1, vec![2, 0, 3]), prod(0, vec![4])];
    assert!(is_inline_candidate(&prods, &vec![], 1));
    assert!(!is_inline_candidate(&prods, &vec![], 0));
    assert!(!is_inline_candidate(&prods, &vec![], 4));
    assert!(!is_inline_candidate(&prods, &vec![vec![0, 1]], 1));
    assert!(is_inline_candidate(&prods, &vec![vec![0, 4]], 1));
}

#[test]
fn wrapper_is_substituted_at_each_use() {
    // a -> w b w ; w -> x y ; b -> w
    let prods = vec![prod(0, vec![9, 1, 9]), prod(9, vec![5, 6]), prod(1, vec![9])];
    let out = inline_symbol(&prods, 9, &vec![5, 6]);
    assert_eq!(pairs(&out), vec![(0, vec![5, 6, 1, 5, 6]), (1, vec![5, 6])]);
}

#[test]
fn inlining_an_unused_symbol_changes_nothing_else() {
    let prods = vec![prod(0, vec![1, 2]), prod(1, vec![])];
    let out = inline_symbol(&prods, 7, &vec![3]);
    assert_eq!(pairs(&out), vec![(0, vec![1, 2]), (1, vec![])]);
}

// A tiny recognizer over the grammar: does `start` derive exactly `input`?
fn derives(prods: &[(usize, Vec<usize>)], terminals: &[usize], start: usize, input: &[usize], depth: usize) -> bool {
    if terminals.contains(&start) {
        return input.len() == 1 && input[0] == start;
    }
    if depth == 0 {
        return false;
    }
    prods.iter().filter(|p| p.0 == start).any(|p| derives_seq(prods, terminals, &p.1, input, depth - 1))
}

fn derives_seq(prods: &[(usize, Vec<usize>)], terminals: &[usize], seq: &[usize], input: &[usize], depth: usize) -> bool {
    if seq.is_empty() {
        return input.is_empty();
    }
    (0..=input.len()).any(|k| {
        derives(prods, terminals, seq[0], &input[..k], depth)
            && derives_seq(prods, terminals, &seq[1..], &input[k..], depth)
    })
}

#[test]
fn inlining_keeps_accepted_samples() {
    // list -> item | list "," item ; item -> _wrap ; _wrap -> "x"
    // symbols: list 0, item 1, _wrap 2, "," 3, "x" 4
    let prods = vec![prod(0, vec![1]), prod(0, vec![0, 3, 1]), prod(1, vec![2]), prod(2, vec![4])];
    let terminals = [3, 4];
    let inlined = inline_symbol(&prods, 2, &vec![4]);
    let before = pairs(&prods);
    let after = pairs(&inlined);
    let samples: Vec<Vec<usize>> = vec![
        vec![4],
        vec![4, 3, 4],
        vec![4, 3, 4, 3, 4],
        vec![],
        vec![3],
        vec![4, 4],
        vec![4, 3],
    ];
    for s in &samples {
        assert_eq!(derives(&before, &terminals, 0, s, 8), derives(&after, &terminals, 0, s, 8), "{:?}", s);
    }
    assert!(derives(&after, &terminals, 0, &[4, 3, 4], 8));
    assert!(!derives(&after, &terminals, 0, &[4, 4], 8));
}
