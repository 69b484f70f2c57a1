//! Rendering of tables as C source text.
//!
//! The text is a function of the table alone: the contracts below give it
//! character for character, so equal tables always render identically.
use vstd::prelude::*;
use vstd::string::*;
use crate::conflicts::{Candidate, ParseAction, ParseTableEntry};

verus! {

pub open spec fn digit_char(d: nat) -> char {
    if d == 0 {
        '0'
    } else if d == 1 {
        '1'
    } else if d == 2 {
        '2'
    } else if d == 3 {
        '3'
    } else if d == 4 {
        '4'
    } else if d == 5 {
        '5'
    } else if d == 6 {
        '6'
    } else if d == 7 {
        '7'
    } else if d == 8 {
        '8'
    } else {
        '9'
    }
}

/// The decimal digits of `n`, most significant first, without leading zeros.
pub open spec fn decimal(n: nat) -> Seq<char>
    decreases n,
{
    if n < 10 {
        seq![digit_char(n)]
    } else {
        decimal(n / 10).push(digit_char(n % 10))
    }
}

fn digit_text(d: usize) -> (r: &'static str)
    requires
        d < 10,
    ensures
        r@ == seq![digit_char(d as nat)],
{
    proof {
        reveal_strlit("0");
        reveal_strlit("1");
        reveal_strlit("2");
        reveal_strlit("3");
        reveal_strlit("4");
        reveal_strlit("5");
        reveal_strlit("6");
        reveal_strlit("7");
        reveal_strlit("8");
        reveal_strlit("9");
    }
    if d == 0 {
        "0"
    } else if d == 1 {
        "1"
    } else if d == 2 {
        "2"
    } else if d == 3 {
        "3"
    } else if d == 4 {
        "4"
    } else if d == 5 {
        "5"
    } else if d == 6 {
        "6"
    } else if d == 7 {
        "7"
    } else if d == 8 {
        "8"
    } else {
        "9"
    }
}

/// Appends the decimal digits of `n`.
pub fn push_decimal(out: &mut String, n: usize)
    ensures
        final(out)@ == old(out)@ + decimal(n as nat),
    decreases n,
{
    if n >= 10 {
        push_decimal(out, n / 10);
    }
    out.append(digit_text(n % 10));
    assert(out@ =~= old(out)@ + decimal(n as nat));
}

/// A cell whose text can be computed in a machine word.
pub open spec fn cell_fits(cell: Option<usize>) -> bool {
    match cell {
        Some(j) => j < usize::MAX,
        None => true,
    }
}

/// A transition cell: `0` for none, otherwise the target state plus one.
pub open spec fn cell_text(cell: Option<usize>) -> Seq<char> {
    match cell {
        None => seq!['0'],
        Some(j) => decimal((j + 1) as nat),
    }
}

/// The cells of a row, separated by `", "`.
pub open spec fn cells_text(row: Seq<Option<usize>>) -> Seq<char>
    decreases row.len(),
{
    if row.len() == 0 {
        Seq::empty()
    } else if row.len() == 1 {
        cell_text(row[0])
    } else {
        cells_text(row.drop_last()) + seq![',', ' '] + cell_text(row.last())
    }
}

/// One row: two spaces, the cells in braces, a comma and a line break.
pub open spec fn row_text(row: Seq<Option<usize>>) -> Seq<char> {
    seq![' ', ' ', '{'] + cells_text(row) + seq!['}', ',', '\n']
}

/// The rows, one after another.
pub open spec fn rows_text(rows: Seq<Seq<Option<usize>>>) -> Seq<char>
    decreases rows.len(),
{
    if rows.len() == 0 {
        Seq::empty()
    } else {
        rows_text(rows.drop_last()) + row_text(rows.last())
    }
}

pub open spec fn row_views(rows: Seq<Vec<Option<usize>>>) -> Seq<Seq<Option<usize>>> {
    rows.map_values(|r: Vec<Option<usize>>| r@)
}

fn push_text(out: &mut String, text: &str)
    ensures
        final(out)@ == old(out)@ + text@,
{
    out.append(text);
}

fn push_row(out: &mut String, row: &Vec<Option<usize>>)
    requires
        forall|x: int| 0 <= x < row.len() ==> cell_fits(#[trigger] row@[x]),
    ensures
        final(out)@ == old(out)@ + row_text(row@),
{
    push_text(out, "  {");
    let ghost start = out@;
    let mut x: usize = 0;
    while x < row.len()
        invariant
            0 <= x <= row.len(),
            forall|y: int| 0 <= y < row.len() ==> cell_fits(#[trigger] row@[y]),
            out@ == start + cells_text(row@.subrange(0, x as int)),
        decreases row.len() - x,
    {
        let ghost before = out@;
        assert(row@.subrange(0, x + 1).drop_last() =~= row@.subrange(0, x as int));
        let ghost sub1 = row@.subrange(0, x + 1);
        assert(sub1.last() == row@[x as int]);
        if x > 0 {
            push_text(out, ", ");
            proof {
                reveal_strlit(", ");
                assert(", "@ =~= seq![',', ' ']);
            }
        }
        let ghost mid = out@;
        assert(x > 0 ==> mid == before + seq![',', ' ']);
        assert(x == 0 ==> mid == before && before == start);
        match row[x] {
            None => {
                push_text(out, "0");
                proof {
                    reveal_strlit("0");
                    assert("0"@ =~= seq!['0']);
                }
            },
            Some(j) => push_decimal(out, j + 1),
        }
        assert(out@ == mid + cell_text(row@[x as int]));
        if x == 0 {
            assert(sub1.len() == 1);
            assert(cells_text(sub1) == cell_text(row@[0]));
        } else {
            assert(cells_text(sub1) == cells_text(row@.subrange(0, x as int)) + seq![',', ' ']
                + cell_text(row@[x as int]));
        }
        x = x + 1;
        assert(out@ =~= start + cells_text(row@.subrange(0, x as int)));
    }
    assert(row@.subrange(0, row.len() as int) =~= row@);
    push_text(out, "},\n");
    proof {
        reveal_strlit("  {");
        reveal_strlit("},\n");
        assert("  {"@ =~= seq![' ', ' ', '{']);
        assert("},\n"@ =~= seq!['}', ',', '\n']);
    }
    assert(out@ =~= old(out)@ + row_text(row@));
}

/// The transition table as the body of a C array initializer, one row per
/// state.
pub fn render_transition_rows(rows: &Vec<Vec<Option<usize>>>) -> (r: String)
    requires
        forall|i: int, x: int|
            0 <= i < rows.len() && 0 <= x < rows@[i].len() ==> cell_fits(#[trigger] rows@[i]@[x]),
    ensures
        r@ == rows_text(row_views(rows@)),
{
    let mut out = String::new();
    let mut i: usize = 0;
    while i < rows.len()
        invariant
            0 <= i <= rows.len(),
            forall|a: int, x: int|
                0 <= a < rows.len() && 0 <= x < rows@[a].len() ==> cell_fits(#[trigger] rows@[a]@[x]),
            out@ == rows_text(row_views(rows@.subrange(0, i as int))),
        decreases rows.len() - i,
    {
        assert(row_views(rows@.subrange(0, i + 1)).drop_last() =~= row_views(rows@.subrange(0, i as int)));
        assert(forall|x: int| 0 <= x < rows@[i as int].len() ==> cell_fits(#[trigger] rows@[i as int]@[x]));
        push_row(&mut out, &rows[i]);
        i = i + 1;
        assert(out@ =~= rows_text(row_views(rows@.subrange(0, i as int))));
    }
    assert(rows@.subrange(0, rows.len() as int) =~= rows@);
    out
}


/// One action: `SHIFT(s)`, `REDUCE(p)` or `ACCEPT`.
pub open spec fn action_text(c: Candidate) -> Seq<char> {
    match c.action {
        ParseAction::Shift { state } => "SHIFT("@ + decimal(state as nat) + ")"@,
        ParseAction::Reduce { production, .. } => "REDUCE("@ + decimal(production as nat) + ")"@,
        ParseAction::Accept => "ACCEPT"@,
    }
}

/// Actions separated by `", "`.
pub open spec fn actions_text(v: Seq<Candidate>) -> Seq<char>
    decreases v.len(),
{
    if v.len() == 0 {
        Seq::empty()
    } else if v.len() == 1 {
        action_text(v[0])
    } else {
        actions_text(v.drop_last()) + ", "@ + action_text(v.last())
    }
}

/// An ACTION cell: `0` when empty, the action, or `SPLIT(...)` of several.
pub open spec fn entry_text(cell: Option<ParseTableEntry>) -> Seq<char> {
    match cell {
        None => "0"@,
        Some(ParseTableEntry::Single(c)) => action_text(c),
        Some(ParseTableEntry::Split(v)) => "SPLIT("@ + actions_text(v@) + ")"@,
    }
}

/// The cells of an ACTION row, separated by `", "`.
pub open spec fn entries_text(row: Seq<Option<ParseTableEntry>>) -> Seq<char>
    decreases row.len(),
{
    if row.len() == 0 {
        Seq::empty()
    } else if row.len() == 1 {
        entry_text(row[0])
    } else {
        entries_text(row.drop_last()) + ", "@ + entry_text(row.last())
    }
}

/// The ACTION rows, each as `  {...},` and a line break.
pub open spec fn action_rows_text(rows: Seq<Seq<Option<ParseTableEntry>>>) -> Seq<char>
    decreases rows.len(),
{
    if rows.len() == 0 {
        Seq::empty()
    } else {
        action_rows_text(rows.drop_last()) + "  {"@ + entries_text(rows.last()) + "},\n"@
    }
}

pub open spec fn action_row_views(rows: Seq<Vec<Option<ParseTableEntry>>>) -> Seq<Seq<Option<ParseTableEntry>>> {
    rows.map_values(|r: Vec<Option<ParseTableEntry>>| r@)
}

fn push_action(out: &mut String, c: Candidate)
    ensures
        final(out)@ == old(out)@ + action_text(c),
{
    match c.action {
        ParseAction::Shift { state } => {
            push_text(out, "SHIFT(");
            push_decimal(out, state);
            push_text(out, ")");
        },
        ParseAction::Reduce { production, .. } => {
            push_text(out, "REDUCE(");
            push_decimal(out, production);
            push_text(out, ")");
        },
        ParseAction::Accept => push_text(out, "ACCEPT"),
    }
    assert(out@ =~= old(out)@ + action_text(c));
}

fn push_actions(out: &mut String, v: &Vec<Candidate>)
    ensures
        final(out)@ == old(out)@ + actions_text(v@),
{
    let ghost start = out@;
    let mut i: usize = 0;
    while i < v.len()
        invariant
            0 <= i <= v.len(),
            out@ == start + actions_text(v@.subrange(0, i as int)),
        decreases v.len() - i,
    {
        let ghost before = out@;
        let ghost sub1 = v@.subrange(0, i + 1);
        assert(sub1.drop_last() =~= v@.subrange(0, i as int));
        assert(sub1.last() == v@[i as int]);
        if i > 0 {
            push_text(out, ", ");
        }
        push_action(out, v[i]);
        if i == 0 {
            assert(sub1.len() == 1 && sub1[0] == v@[0]);
        }
        i = i + 1;
        assert(out@ =~= start + actions_text(v@.subrange(0, i as int)));
    }
    assert(v@.subrange(0, v.len() as int) =~= v@);
}

fn push_entry(out: &mut String, cell: &Option<ParseTableEntry>)
    ensures
        final(out)@ == old(out)@ + entry_text(*cell),
{
    match cell {
        None => push_text(out, "0"),
        Some(ParseTableEntry::Single(c)) => push_action(out, *c),
        Some(ParseTableEntry::Split(v)) => {
            push_text(out, "SPLIT(");
            push_actions(out, v);
            push_text(out, ")");
        },
    }
    assert(out@ =~= old(out)@ + entry_text(*cell));
}

/// The ACTION table as C initializer rows, one per state.
pub fn render_action_rows(rows: &Vec<Vec<Option<ParseTableEntry>>>) -> (r: String)
    ensures
        r@ == action_rows_text(action_row_views(rows@)),
{
    let mut out = String::new();
    let mut i: usize = 0;
    while i < rows.len()
        invariant
            0 <= i <= rows.len(),
            out@ == action_rows_text(action_row_views(rows@.subrange(0, i as int))),
        decreases rows.len() - i,
    {
        assert(action_row_views(rows@.subrange(0, i + 1)).drop_last() =~= action_row_views(
            rows@.subrange(0, i as int),
        ));
        let ghost row_start = out@;
        push_text(&mut out, "  {");
        let ghost cells_start = out@;
        let row = &rows[i];
        let mut k: usize = 0;
        while k < row.len()
            invariant
                0 <= k <= row.len(),
                out@ == cells_start + entries_text(row@.subrange(0, k as int)),
            decreases row.len() - k,
        {
            let ghost sub1 = row@.subrange(0, k + 1);
            assert(sub1.drop_last() =~= row@.subrange(0, k as int));
            assert(sub1.last() == row@[k as int]);
            if k > 0 {
                push_text(&mut out, ", ");
            }
            push_entry(&mut out, &row[k]);
            if k == 0 {
                assert(sub1.len() == 1 && sub1[0] == row@[0]);
            }
            k = k + 1;
            assert(out@ =~= cells_start + entries_text(row@.subrange(0, k as int)));
        }
        assert(row@.subrange(0, row.len() as int) =~= row@);
        push_text(&mut out, "},\n");
        i = i + 1;
        assert(action_row_views(rows@.subrange(0, i as int)).last() == rows@[i - 1]@);
        assert(out@ =~= action_rows_text(action_row_views(rows@.subrange(0, i as int))));
    }
    assert(rows@.subrange(0, rows.len() as int) =~= rows@);
    out
}

} // verus!
