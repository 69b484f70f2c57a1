use ts_generate::abi::UnsupportedFeatureError;
use ts_generate::actions::ProductionInfo;
use ts_generate::conflicts::Associativity;
use ts_generate::generate::{generate_parser_for_grammar_with_opts, GenerateError, InputGrammar};
use ts_generate::items::Item;
use ts_generate::node_types::{NodeType, NodeTypeError, Production, SymbolKind};
use ts_generate::lexing::TokenMatch;
use ts_generate::tables::{token_in_state, TableError};

// Symbols: S 0 (hidden start), E 1, "-" 2, n 3.
fn grammar(assoc: Associativity) -> InputGrammar {
    let none = ProductionInfo { precedence: 0, dynamic_precedence: 0, associativity: Associativity::NonAssoc };
    InputGrammar {
        kinds: vec![SymbolKind::Hidden, SymbolKind::Named, SymbolKind::Anonymous, SymbolKind::Named],
        productions: vec![
            Production { lhs: 0, steps: vec![1] },
            Production { lhs: 1, steps: vec![1, 2, 1] },
            Production { lhs: 1, steps: vec![3] },
        ],
        info: vec![none, ProductionInfo { precedence: 1, dynamic_precedence: 0, associativity: assoc }, none],
        lookahead: vec![vec![false; 4], vec![false, false, true, false], vec![false, false, true, false]],
        start: vec![Item { production: 0, dot: 0 }],
        terminals: vec![2, 3],
        conflicts: vec![],
        field_count: 0,
        alias_count: 0,
    }
}

#[test]
fn minus_grammar_compiles() {
    let p = generate_parser_for_grammar_with_opts(&grammar(Associativity::Left), 14).unwrap();
    assert_eq!(
        p.node_types,
        vec![
            NodeType { symbol: 1, named: true, children: vec![1, 3], subtypes: vec![] },
            NodeType { symbol: 2, named: false, children: vec![], subtypes: vec![] },
            NodeType { symbol: 3, named: true, children: vec![], subtypes: vec![] },
        ]
    );
    assert_eq!(p.table.actions.len(), p.table.automaton.kernels.len());
    assert_eq!(p.table_text.lines().count(), p.table.automaton.kernels.len());
    assert!(p.table_text.starts_with("  {0, 2, 0, 3},\n"));
}

#[test]
fn compiling_twice_gives_identical_text() {
    let a = generate_parser_for_grammar_with_opts(&grammar(Associativity::Left), 13).unwrap();
    let b = generate_parser_for_grammar_with_opts(&grammar(Associativity::Left), 13).unwrap();
    assert_eq!(a.table_text, b.table_text);
    assert_eq!(a.node_types, b.node_types);
}

#[test]
fn unsupported_version_fails_instead_of_truncating() {
    assert_eq!(
        generate_parser_for_grammar_with_opts(&grammar(Associativity::Left), 15).err(),
        Some(GenerateError::Unsupported(UnsupportedFeatureError::Version { requested: 15, oldest: 13, newest: 14 }))
    );
    let mut g = grammar(Associativity::Left);
    g.field_count = 70000;
    assert_eq!(
        generate_parser_for_grammar_with_opts(&g, 14).err(),
        Some(GenerateError::Unsupported(UnsupportedFeatureError::Fields { count: 70000 }))
    );
}

#[test]
fn unresolved_conflict_fails() {
    let r = generate_parser_for_grammar_with_opts(&grammar(Associativity::NonAssoc), 14);
    assert!(matches!(r.err(), Some(GenerateError::Table(TableError::Conflict { terminal: 0, .. }))));
}

#[test]
fn bad_reference_fails_first() {
    let mut g = grammar(Associativity::NonAssoc);
    g.productions[2].steps = vec![9];
    assert_eq!(
        generate_parser_for_grammar_with_opts(&g, 99).err(),
        Some(GenerateError::NodeTypes(NodeTypeError::UnknownStep { production: 2, step: 0 }))
    );
}

#[test]
fn conflict_naming_unknown_symbol_fails() {
    let mut g = grammar(Associativity::Left);
    g.conflicts = vec![vec![1], vec![1, 7]];
    assert_eq!(
        generate_parser_for_grammar_with_opts(&g, 14).err(),
        Some(GenerateError::UnknownConflictSymbol { conflict: 1, position: 1 })
    );
}

#[test]
fn supertype_without_productions_is_refused() {
    let mut g = grammar(Associativity::Left);
    g.kinds.push(SymbolKind::Supertype);
    assert_eq!(
        generate_parser_for_grammar_with_opts(&g, 14).err(),
        Some(GenerateError::NodeTypes(NodeTypeError::EmptySupertype { symbol: 4 }))
    );
}

#[test]
fn states_share_lex_modes_by_valid_terminals() {
    let p = generate_parser_for_grammar_with_opts(&grammar(Associativity::Left), 14).unwrap();
    assert_eq!(p.lex_mode_of.len(), p.table.actions.len());
    for (s, row) in p.table.actions.iter().enumerate() {
        let flags: Vec<bool> = row.iter().map(|c| c.is_some()).collect();
        assert_eq!(p.lex_modes[p.lex_mode_of[s]], flags);
    }
    for a in 0..p.lex_modes.len() {
        for b in a + 1..p.lex_modes.len() {
            assert_ne!(p.lex_modes[a], p.lex_modes[b]);
        }
    }
    // the start state accepts only n (terminal position 1)
    assert_eq!(p.lex_modes[p.lex_mode_of[0]], vec![false, true]);
    let matches = vec![
        TokenMatch { terminal: 0, length: 1, precedence: 0 },
        TokenMatch { terminal: 1, length: 1, precedence: -1 },
    ];
    assert_eq!(
        token_in_state(&p.table.actions, &p.lex_modes, &p.lex_mode_of, 0, &matches),
        Some(TokenMatch { terminal: 1, length: 1, precedence: -1 })
    );
}

#[test]
fn action_rows_are_rendered() {
    let p = generate_parser_for_grammar_with_opts(&grammar(Associativity::Left), 14).unwrap();
    assert_eq!(p.action_text.lines().count(), p.table.actions.len());
    // start state: nothing on "-", shift to the state after n
    let after_n = p.table.automaton.transitions[0][3].unwrap();
    assert_eq!(p.action_text.lines().next().unwrap(), format!("  {{0, SHIFT({})}},", after_n));
    assert!(p.action_text.contains("REDUCE(1)"));
    let mut g = grammar(Associativity::NonAssoc);
    g.conflicts = vec![vec![1]];
    let q = generate_parser_for_grammar_with_opts(&g, 14).unwrap();
    assert!(q.action_text.contains(", REDUCE(1))"));
    assert!(q.action_text.contains("SPLIT(SHIFT("));
}
