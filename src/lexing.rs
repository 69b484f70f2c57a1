//! Choice among the tokens that match at one position.
//!
//! Only terminals valid in the current parser state are considered. The
//! longest match wins; equal lengths go to the higher lexical precedence,
//! then to the terminal declared first.
use vstd::prelude::*;

verus! {

/// A terminal that matches `length` characters at the current position.
#[derive(Clone, Copy, Debug, PartialEq, Eq, Structural)]
pub struct TokenMatch {
    pub terminal: usize,
    pub length: usize,
    pub precedence: i32,
}

/// Whether `a` beats `b`.
pub open spec fn beats(a: TokenMatch, b: TokenMatch) -> bool {
    a.length > b.length || (a.length == b.length && a.precedence > b.precedence) || (a.length
        == b.length && a.precedence == b.precedence && a.terminal < b.terminal)
}

pub open spec fn allowed(valid: Seq<bool>, m: TokenMatch) -> bool {
    m.terminal < valid.len() && valid[m.terminal as int]
}

fn beats_exec(a: TokenMatch, b: TokenMatch) -> (r: bool)
    ensures
        r == beats(a, b),
{
    a.length > b.length || (a.length == b.length && a.precedence > b.precedence) || (a.length
        == b.length && a.precedence == b.precedence && a.terminal < b.terminal)
}

/// The winning match among those whose terminal is valid, if any is.
pub fn select_token(matches: &Vec<TokenMatch>, valid: &Vec<bool>) -> (r: Option<TokenMatch>)
    ensures
        r is None <==> forall|i: int| 0 <= i < matches.len() ==> !allowed(valid@, #[trigger] matches@[i]),
        r matches Some(b) ==> matches@.contains(b) && allowed(valid@, b) && forall|i: int|
            0 <= i < matches.len() && allowed(valid@, #[trigger] matches@[i]) ==> !beats(
                matches@[i],
                b,
            ),
{
    let mut best: Option<TokenMatch> = None;
    let mut i: usize = 0;
    while i < matches.len()
        invariant
            0 <= i <= matches.len(),
            best is None <==> forall|j: int| 0 <= j < i ==> !allowed(valid@, #[trigger] matches@[j]),
            best matches Some(b) ==> matches@.contains(b) && allowed(valid@, b) && forall|j: int|
                0 <= j < i && allowed(valid@, #[trigger] matches@[j]) ==> !beats(matches@[j], b),
        decreases matches.len() - i,
    {
        let m = matches[i];
        assert(matches@[i as int] == m);
        if m.terminal < valid.len() && valid[m.terminal] {
            match best {
                None => {
                    best = Some(m);
                },
                Some(b) => {
                    if beats_exec(m, b) {
                        best = Some(m);
                    }
                },
            }
        }
        i = i + 1;
    }
    best
}

} // verus!
