use ts_generate::lexing::{select_token, TokenMatch};

fn m(terminal: usize, length: usize, precedence: i32) -> TokenMatch {
    TokenMatch { terminal, length, precedence }
}

#[test]
fn longest_match_wins() {
    let matches = vec![m(0, 2, 5), m(1, 6, 0)];
    assert_eq!(select_token(&matches, &vec![true, true]), Some(m(1, 6, 0)));
}

#[test]
fn keyword_beats_identifier_on_precedence() {
    // "if" as keyword (terminal 3, precedence 1) and as identifier (terminal 1).
    let matches = vec![m(1, 2, 0), m(3, 2, 1)];
    assert_eq!(select_token(&matches, &vec![true, true, true, true]), Some(m(3, 2, 1)));
}

#[test]
fn declaration_order_breaks_full_ties() {
    let matches = vec![m(4, 3, 0), m(2, 3, 0)];
    assert_eq!(select_token(&matches, &vec![true; 5]), Some(m(2, 3, 0)));
}

#[test]
fn only_valid_terminals_are_considered() {
    // Where only identifiers are valid, the keyword is not even tried.
    let matches = vec![m(1, 2, 0), m(3, 2, 1), m(7, 9, 0)];
    assert_eq!(select_token(&matches, &vec![false, true, false, false]), Some(m(1, 2, 0)));
    assert_eq!(select_token(&matches, &vec![false, false]), None);
    assert_eq!(select_token(&vec![], &vec![true]), None);
}
