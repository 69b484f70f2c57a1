use ts_generate::node_types::{generate_node_types, NodeType, NodeTypeError, Production, SymbolKind};

fn prod(lhs: usize, steps: Vec<usize>) -> Production {
    Production { lhs, steps }
}

// program: repeat(identifier), identifier: /[a-z]+/
// normalized as program -> ε | program_repeat1,
// program_repeat1 -> program_repeat1 program_repeat1 | identifier.
#[test]
fn repeat_of_identifier_catalog() {
    let kinds = vec![SymbolKind::Named, SymbolKind::Named, SymbolKind::Auxiliary];
    let prods = vec![prod(0, vec![]), prod(0, vec![2]), prod(2, vec![2, 2]), prod(2, vec![1])];
    let catalog = generate_node_types(&kinds, &prods).unwrap();
    assert_eq!(
        catalog,
        vec![
            NodeType { symbol: 0, named: true, children: vec![1], subtypes: vec![] },
            NodeType { symbol: 1, named: true, children: vec![], subtypes: vec![] },
        ]
    );
}

#[test]
fn hidden_rules_are_looked_through_at_depth() {
    // expr -> _a ; _a -> _b "+" ; _b -> number
    let kinds = vec![
        SymbolKind::Named,
        SymbolKind::Hidden,
        SymbolKind::Hidden,
        SymbolKind::Anonymous,
        SymbolKind::Named,
    ];
    let prods = vec![prod(0, vec![1]), prod(1, vec![2, 3]), prod(2, vec![4])];
    let catalog = generate_node_types(&kinds, &prods).unwrap();
    assert_eq!(
        catalog,
        vec![
            NodeType { symbol: 0, named: true, children: vec![4], subtypes: vec![] },
            NodeType { symbol: 3, named: false, children: vec![], subtypes: vec![] },
            NodeType { symbol: 4, named: true, children: vec![], subtypes: vec![] },
        ]
    );
}

#[test]
fn visible_children_are_not_looked_through() {
    // a -> b ; b -> c
    let kinds = vec![SymbolKind::Named, SymbolKind::Named, SymbolKind::Named];
    let prods = vec![prod(0, vec![1]), prod(1, vec![2])];
    let catalog = generate_node_types(&kinds, &prods).unwrap();
    assert_eq!(catalog[0].children, vec![1]);
    assert_eq!(catalog[1].children, vec![2]);
    assert!(catalog[2].children.is_empty());
}

#[test]
fn bad_references_are_reported() {
    let kinds = vec![SymbolKind::Named];
    assert_eq!(
        generate_node_types(&kinds, &vec![prod(1, vec![])]),
        Err(NodeTypeError::UnknownLhs { production: 0 })
    );
    assert_eq!(
        generate_node_types(&kinds, &vec![prod(0, vec![0]), prod(0, vec![0, 5])]),
        Err(NodeTypeError::UnknownStep { production: 1, step: 1 })
    );
}

#[test]
fn empty_grammar_has_empty_catalog() {
    assert_eq!(generate_node_types(&vec![], &vec![]), Ok(vec![]));
}

#[test]
fn supertypes_list_subtypes_and_stand_as_children() {
    // program -> _expression ; _expression -> identifier | number | "(" _expression ")"
    // symbols: program 0, _expression 1 (supertype), identifier 2, number 3, "(" 4, ")" 5
    let kinds = vec![
        SymbolKind::Named,
        SymbolKind::Supertype,
        SymbolKind::Named,
        SymbolKind::Named,
        SymbolKind::Anonymous,
        SymbolKind::Anonymous,
    ];
    let prods = vec![prod(0, vec![1]), prod(1, vec![2]), prod(1, vec![3]), prod(1, vec![4, 1, 5])];
    let catalog = generate_node_types(&kinds, &prods).unwrap();
    assert_eq!(catalog[0], NodeType { symbol: 0, named: true, children: vec![1], subtypes: vec![] });
    assert_eq!(catalog[1], NodeType { symbol: 1, named: true, children: vec![], subtypes: vec![1, 2, 3, 4, 5] });
    assert_eq!(catalog.len(), 6);
}
