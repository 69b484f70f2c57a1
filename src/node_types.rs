//! The node-type catalog: for every visible symbol, the named symbols that
//! can appear as its children. Hidden symbols never appear as nodes, so the
//! children they produce are lifted into the visible symbol above them.
use vstd::prelude::*;

verus! {

/// How a symbol shows up in syntax trees.
#[derive(Clone, Copy, Debug, PartialEq, Eq, Structural)]
pub enum SymbolKind {
    /// A visible node with a name.
    Named,
    /// A visible node written as a literal string.
    Anonymous,
    /// A symbol whose name starts with `_`: its children are lifted.
    Hidden,
    /// A symbol introduced while normalizing the grammar, also lifted.
    Auxiliary,
    /// A hidden symbol declared as a supertype: it gets an entry listing its
    /// subtypes, and appears by its own name among the children of others.
    Supertype,
}

/// One production `lhs -> steps`, symbols given by their index.
#[derive(Clone, Debug)]
pub struct Production {
    pub lhs: usize,
    pub steps: Vec<usize>,
}

/// One entry of the catalog.
#[derive(Clone, Debug, PartialEq, Eq)]
pub struct NodeType {
    pub symbol: usize,
    pub named: bool,
    /// The named symbols that may appear as children, in index order; empty
    /// for a supertype.
    pub children: Vec<usize>,
    /// For a supertype, the symbols it stands for, in index order; empty
    /// otherwise.
    pub subtypes: Vec<usize>,
}

/// A production or symbol index that names no symbol of the grammar.
#[derive(Clone, Copy, Debug, PartialEq, Eq, Structural)]
pub enum NodeTypeError {
    UnknownLhs { production: usize },
    UnknownStep { production: usize, step: usize },
    /// A symbol declared as a supertype has no production, so it stands for
    /// no symbol.
    EmptySupertype { symbol: usize },
}

pub open spec fn is_lifted(k: SymbolKind) -> bool {
    k == SymbolKind::Hidden || k == SymbolKind::Auxiliary
}

pub open spec fn is_visible(k: SymbolKind) -> bool {
    k == SymbolKind::Named || k == SymbolKind::Anonymous
}

/// Every production refers to symbols below `n`.
pub open spec fn references_ok(prods: Seq<Production>, n: int) -> bool {
    forall|p: int|
        0 <= p < prods.len() ==> (#[trigger] prods[p]).lhs < n && forall|j: int|
            0 <= j < prods[p].steps@.len() ==> prods[p].steps@[j] < n
}

/// Some production among the first `i` has a left side marked in `from` and
/// holds `c`.
pub open spec fn produced_from(prods: Seq<Production>, from: Seq<bool>, c: int, i: int) -> bool {
    exists|p: int|
        0 <= p < i && from[prods[p].lhs as int] && (#[trigger] prods[p]).steps@.contains(
            c as usize,
        )
}

/// Whether one of the first `j` steps is `c`.
pub open spec fn in_prefix(steps: Seq<usize>, j: int, c: int) -> bool {
    exists|k: int| 0 <= k < j && steps[k] == c as usize
}

/// `marks` is `before` with the first `j` steps marked.
pub open spec fn marked_through(marks: Seq<bool>, before: Seq<bool>, steps: Seq<usize>, j: int) -> bool {
    forall|c: int| 0 <= c < marks.len() ==> #[trigger] marks[c] == (before[c] || in_prefix(steps, j, c))
}

/// Whether a production of `s` holds `c`.
pub open spec fn derives_directly(prods: Seq<Production>, s: int, c: int) -> bool {
    exists|p: int|
        0 <= p < prods.len() && (#[trigger] prods[p]).lhs == s && prods[p].steps@.contains(
            c as usize,
        )
}

/// Whether `c` appears under `s` after looking through at most `k` levels of
/// lifted symbols.
pub open spec fn reached(prods: Seq<Production>, kinds: Seq<SymbolKind>, s: int, c: int, k: nat) -> bool
    decreases k, 0nat,
{
    derives_directly(prods, s, c) || (k > 0 && through_lifted(prods, kinds, s, c, (k - 1) as nat))
}

/// Whether a lifted symbol that appears under `s` within `k` levels has a
/// production holding `c`.
pub open spec fn through_lifted(
    prods: Seq<Production>,
    kinds: Seq<SymbolKind>,
    s: int,
    c: int,
    k: nat,
) -> bool
    decreases k, 1nat,
{
    exists|h: int|
        0 <= h < kinds.len() && is_lifted(kinds[h]) && reached(prods, kinds, s, h, k)
            && #[trigger] derives_directly(prods, h, c)
}

/// Whether an entry for a symbol of kind `parent` lists a symbol of kind
/// `k`: a supertype lists the visible symbols and supertypes it stands for,
/// any other the named symbols and supertypes beneath it.
pub open spec fn listed_kind(parent: SymbolKind, k: SymbolKind) -> bool {
    if parent == SymbolKind::Supertype {
        is_visible(k) || k == SymbolKind::Supertype
    } else {
        k == SymbolKind::Named || k == SymbolKind::Supertype
    }
}

/// Whether a symbol of kind `k` has a catalog entry.
pub open spec fn has_entry(k: SymbolKind) -> bool {
    is_visible(k) || k == SymbolKind::Supertype
}

/// Whether `c` is listed in the catalog entry of `s`.
pub open spec fn is_child(prods: Seq<Production>, kinds: Seq<SymbolKind>, s: int, c: int) -> bool {
    0 <= c < kinds.len() && listed_kind(kinds[s], kinds[c]) && reached(
        prods,
        kinds,
        s,
        c,
        kinds.len() as nat,
    )
}

fn all_false(n: usize) -> (r: Vec<bool>)
    ensures
        r.len() == n,
        forall|c: int| 0 <= c < n ==> !r@[c],
{
    let mut r: Vec<bool> = Vec::new();
    while r.len() < n
        invariant
            r.len() <= n,
            forall|c: int| 0 <= c < r.len() ==> !r@[c],
        decreases n - r.len(),
    {
        r.push(false);
    }
    r
}

/// Marks every symbol that a production whose left side is marked in `from`
/// holds.
fn expand(prods: &Vec<Production>, from: &Vec<bool>) -> (r: Vec<bool>)
    requires
        references_ok(prods@, from.len() as int),
    ensures
        r.len() == from.len(),
        forall|c: int|
            0 <= c < from.len() ==> r@[c] == produced_from(
                prods@,
                from@,
                c,
                prods.len() as int,
            ),
{
    let n = from.len();
    let mut r = all_false(n);
    let mut i: usize = 0;
    while i < prods.len()
        invariant
            0 <= i <= prods.len(),
            n == from.len(),
            r.len() == n,
            references_ok(prods@, n as int),
            forall|c: int| 0 <= c < n ==> r@[c] == produced_from(prods@, from@, c, i as int),
        decreases prods.len() - i,
    {
        let prod = &prods[i];
        assert(prods@[i as int].lhs < n);
        if from[prod.lhs] {
            let ghost before = r@;
            let mut j: usize = 0;
            while j < prod.steps.len()
                invariant
                    0 <= j <= prod.steps.len(),
                    0 <= i < prods.len(),
                    *prod == prods@[i as int],
                    prod.lhs < n,
                    from@[prod.lhs as int],
                    r.len() == n,
                    before.len() == n,
                    references_ok(prods@, n as int),
                    marked_through(r@, before, prod.steps@, j as int),
                decreases prod.steps.len() - j,
            {
                let sym = prod.steps[j];
                assert(prods@[i as int].steps@[j as int] < n);
                let ghost r_old = r@;
                r.set(sym, true);
                assert(r@ == r_old.update(sym as int, true));
                assert forall|d: int| 0 <= d < n implies r@[d] == (before[d] || in_prefix(
                    prod.steps@,
                    j + 1,
                    d,
                )) by {
                    assert(marked_through(r_old, before, prod.steps@, j as int));
                    assert(r_old[d] == (before[d] || in_prefix(prod.steps@, j as int, d)));
                    if in_prefix(prod.steps@, j as int, d) {
                        let k = choose|k: int| 0 <= k < j && prod.steps@[k] == d as usize;
                        assert(0 <= k < j + 1 && prod.steps@[k] == d as usize);
                    }
                    if in_prefix(prod.steps@, j + 1, d) && d != sym as int {
                        let k = choose|k: int| 0 <= k < j + 1 && prod.steps@[k] == d as usize;
                        assert(k < j);
                    }
                    if d == sym as int {
                        assert(prod.steps@[j as int] == d as usize);
                    }
                }
                j = j + 1;
            }
            assert forall|c: int| 0 <= c < n implies in_prefix(prod.steps@, prod.steps@.len() as int, c)
                == prod.steps@.contains(c as usize) by {
                if prod.steps@.contains(c as usize) {
                    let k = choose|k: int| 0 <= k < prod.steps@.len() && prod.steps@[k] == c as usize;
                    assert(in_prefix(prod.steps@, prod.steps@.len() as int, c));
                }
            }
            assert forall|c: int| 0 <= c < n implies r@[c] == produced_from(
                prods@,
                from@,
                c,
                i + 1,
            ) by {
                if produced_from(prods@, from@, c, i + 1) && !produced_from(prods@, from@, c, i as int) {
                    let p = choose|p: int|
                        0 <= p < i + 1 && from@[prods@[p].lhs as int] && (#[trigger] prods@[p]).steps@.contains(
                            c as usize,
                        );
                    assert(p == i);
                }
                if prod.steps@.contains(c as usize) {
                    assert(from@[prods@[i as int].lhs as int] && prods@[i as int].steps@.contains(c as usize));
                }
            }
        } else {
            assert forall|c: int| 0 <= c < n implies r@[c] == produced_from(
                prods@,
                from@,
                c,
                i + 1,
            ) by {
                if produced_from(prods@, from@, c, i + 1) {
                    let p = choose|p: int|
                        0 <= p < i + 1 && from@[prods@[p].lhs as int] && (#[trigger] prods@[p]).steps@.contains(
                            c as usize,
                        );
                    assert(p != i);
                }
            }
        }
        i = i + 1;
    }
    r
}


fn single_mark(n: usize, s: usize) -> (r: Vec<bool>)
    requires
        s < n,
    ensures
        r.len() == n,
        forall|c: int| 0 <= c < n ==> r@[c] == (c == s),
{
    let mut r = all_false(n);
    r.set(s, true);
    r
}

/// Marks `h` when it is lifted and marked in `marks`.
fn lifted_marks(kinds: &Vec<SymbolKind>, marks: &Vec<bool>) -> (r: Vec<bool>)
    requires
        marks.len() == kinds.len(),
    ensures
        r.len() == kinds.len(),
        forall|h: int| 0 <= h < kinds.len() ==> r@[h] == (is_lifted(kinds@[h]) && marks@[h]),
{
    let mut r: Vec<bool> = Vec::new();
    let mut h: usize = 0;
    while h < kinds.len()
        invariant
            0 <= h <= kinds.len(),
            marks.len() == kinds.len(),
            r.len() == h,
            forall|g: int| 0 <= g < h ==> r@[g] == (is_lifted(kinds@[g]) && marks@[g]),
        decreases kinds.len() - h,
    {
        let lifted = match kinds[h] {
            SymbolKind::Hidden => true,
            SymbolKind::Auxiliary => true,
            _ => false,
        };
        r.push(lifted && marks[h]);
        h = h + 1;
    }
    r
}

/// Marks every symbol that appears under `s`, looking through lifted
/// symbols as deep as the grammar allows.
fn reached_marks(prods: &Vec<Production>, kinds: &Vec<SymbolKind>, s: usize) -> (r: Vec<bool>)
    requires
        s < kinds.len(),
        references_ok(prods@, kinds.len() as int),
    ensures
        r.len() == kinds.len(),
        forall|c: int|
            0 <= c < kinds.len() ==> r@[c] == reached(prods@, kinds@, s as int, c, kinds.len() as nat),
{
    let n = kinds.len();
    let direct = expand(prods, &single_mark(n, s));
    assert forall|c: int| 0 <= c < n implies direct@[c] == derives_directly(prods@, s as int, c) by {
        if derives_directly(prods@, s as int, c) {
            let p = choose|p: int|
                0 <= p < prods@.len() && (#[trigger] prods@[p]).lhs == s && prods@[p].steps@.contains(
                    c as usize,
                );
            assert(prods@[p].lhs < n);
        }
    }
    let mut marks = direct.clone();
    let mut k: usize = 0;
    while k < n
        invariant
            0 <= k <= n,
            n == kinds.len(),
            s < n,
            references_ok(prods@, n as int),
            direct.len() == n,
            marks.len() == n,
            forall|c: int| 0 <= c < n ==> direct@[c] == derives_directly(prods@, s as int, c),
            forall|c: int| 0 <= c < n ==> marks@[c] == reached(prods@, kinds@, s as int, c, k as nat),
        decreases n - k,
    {
        let from = lifted_marks(kinds, &marks);
        let deeper = expand(prods, &from);
        let mut next: Vec<bool> = Vec::new();
        let mut c: usize = 0;
        while c < n
            invariant
                0 <= c <= n,
                direct.len() == n,
                deeper.len() == n,
                next.len() == c,
                forall|d: int| 0 <= d < c ==> next@[d] == (direct@[d] || deeper@[d]),
            decreases n - c,
        {
            next.push(direct[c] || deeper[c]);
            c = c + 1;
        }
        assert forall|c: int| 0 <= c < n implies next@[c] == reached(
            prods@,
            kinds@,
            s as int,
            c,
            (k + 1) as nat,
        ) by {
            assert(((k + 1) as nat - 1) as nat == k as nat);
            assert(reached(prods@, kinds@, s as int, c, (k + 1) as nat) == (derives_directly(
                prods@,
                s as int,
                c,
            ) || through_lifted(prods@, kinds@, s as int, c, k as nat)));
            if deeper@[c] {
                let p = choose|p: int|
                    0 <= p < prods@.len() && from@[prods@[p].lhs as int]
                        && (#[trigger] prods@[p]).steps@.contains(c as usize);
                let h = prods@[p].lhs as int;
                assert(0 <= h < n);
                assert(derives_directly(prods@, h, c));
                assert(from@[h]);
                assert(is_lifted(kinds@[h]) && marks@[h]);
                assert(reached(prods@, kinds@, s as int, h, k as nat));
                assert(0 <= h < kinds@.len() && is_lifted(kinds@[h]) && reached(prods@, kinds@, s as int, h, k as nat) && derives_directly(prods@, h, c));
                assert(through_lifted(prods@, kinds@, s as int, c, k as nat));
            }
            if reached(prods@, kinds@, s as int, c, (k + 1) as nat) && !derives_directly(
                prods@,
                s as int,
                c,
            ) {
                let h = choose|h: int|
                    0 <= h < kinds@.len() && is_lifted(kinds@[h]) && reached(
                        prods@,
                        kinds@,
                        s as int,
                        h,
                        k as nat,
                    ) && #[trigger] derives_directly(prods@, h, c);
                let p = choose|p: int|
                    0 <= p < prods@.len() && (#[trigger] prods@[p]).lhs == h
                        && prods@[p].steps@.contains(c as usize);
                assert(from@[prods@[p].lhs as int]);
            }
        }
        marks = next;
        k = k + 1;
    }
    marks
}


pub open spec fn strictly_increasing(v: Seq<usize>) -> bool {
    forall|a: int, b: int| 0 <= a < b < v.len() ==> v[a] < v[b]
}

/// `children` lists, in increasing order, exactly the named children of `s`.
pub open spec fn children_of(
    prods: Seq<Production>,
    kinds: Seq<SymbolKind>,
    s: int,
    children: Seq<usize>,
) -> bool {
    &&& strictly_increasing(children)
    &&& forall|j: int| 0 <= j < children.len() ==> children[j] < kinds.len()
    &&& forall|c: int|
        0 <= c < kinds.len() ==> (children.contains(c as usize) <==> #[trigger] is_child(
            prods,
            kinds,
            s,
            c,
        ))
}

/// The catalog entry of a visible symbol.
pub open spec fn catalog_entry(prods: Seq<Production>, kinds: Seq<SymbolKind>, e: NodeType) -> bool {
    &&& e.symbol < kinds.len()
    &&& has_entry(kinds[e.symbol as int])
    &&& e.named == (kinds[e.symbol as int] != SymbolKind::Anonymous)
    &&& if kinds[e.symbol as int] == SymbolKind::Supertype {
        e.children@.len() == 0 && children_of(prods, kinds, e.symbol as int, e.subtypes@)
    } else {
        e.subtypes@.len() == 0 && children_of(prods, kinds, e.symbol as int, e.children@)
    }
}

/// `v` holds one entry per visible symbol, in symbol order.
pub open spec fn is_catalog(prods: Seq<Production>, kinds: Seq<SymbolKind>, v: Seq<NodeType>) -> bool {
    &&& forall|i: int| 0 <= i < v.len() ==> catalog_entry(prods, kinds, #[trigger] v[i])
    &&& forall|a: int, b: int| 0 <= a < b < v.len() ==> v[a].symbol < v[b].symbol
    &&& forall|t: int|
        0 <= t < kinds.len() && #[trigger] has_entry(kinds[t]) ==> exists|i: int|
            0 <= i < v.len() && (#[trigger] v[i]).symbol == t
}

/// Whether `s` has a production.
pub open spec fn has_production(prods: Seq<Production>, s: int) -> bool {
    exists|p: int| 0 <= p < prods.len() && (#[trigger] prods[p]).lhs == s
}

/// Every supertype stands for something: it has a production.
pub open spec fn supertypes_ok(prods: Seq<Production>, kinds: Seq<SymbolKind>) -> bool {
    forall|s: int|
        0 <= s < kinds.len() && #[trigger] kinds[s] == SymbolKind::Supertype ==> has_production(prods, s)
}

fn check_supertypes(kinds: &Vec<SymbolKind>, prods: &Vec<Production>) -> (r: Result<(), NodeTypeError>)
    ensures
        r is Ok <==> supertypes_ok(prods@, kinds@),
        r matches Err(e) ==> e is EmptySupertype,
{
    let mut s: usize = 0;
    while s < kinds.len()
        invariant
            0 <= s <= kinds.len(),
            forall|t: int|
                0 <= t < s && #[trigger] kinds@[t] == SymbolKind::Supertype ==> has_production(prods@, t),
        decreases kinds.len() - s,
    {
        if kinds[s] == SymbolKind::Supertype {
            let mut p: usize = 0;
            let mut found = false;
            while p < prods.len()
                invariant
                    0 <= p <= prods.len(),
                    found ==> has_production(prods@, s as int),
                    !found ==> forall|q: int| 0 <= q < p ==> (#[trigger] prods@[q]).lhs != s,
                decreases prods.len() - p,
            {
                if prods[p].lhs == s {
                    found = true;
                    assert(prods@[p as int].lhs == s);
                }
                p = p + 1;
            }
            if !found {
                assert(kinds@[s as int] == SymbolKind::Supertype);
                return Err(NodeTypeError::EmptySupertype { symbol: s });
            }
        }
        s = s + 1;
    }
    Ok(())
}

/// Checks that every production names symbols below `n`.
fn check_references(prods: &Vec<Production>, n: usize) -> (r: Result<(), NodeTypeError>)
    ensures
        r is Ok <==> references_ok(prods@, n as int),
        r matches Err(e) ==> !(e is EmptySupertype),
{
    let mut p: usize = 0;
    while p < prods.len()
        invariant
            0 <= p <= prods.len(),
            forall|q: int|
                0 <= q < p ==> (#[trigger] prods@[q]).lhs < n && forall|j: int|
                    0 <= j < prods@[q].steps@.len() ==> prods@[q].steps@[j] < n,
        decreases prods.len() - p,
    {
        if prods[p].lhs >= n {
            return Err(NodeTypeError::UnknownLhs { production: p });
        }
        let mut j: usize = 0;
        while j < prods[p].steps.len()
            invariant
                0 <= p < prods.len(),
                0 <= j <= prods@[p as int].steps.len(),
                forall|i: int| 0 <= i < j ==> prods@[p as int].steps@[i] < n,
            decreases prods@[p as int].steps.len() - j,
        {
            if prods[p].steps[j] >= n {
                return Err(NodeTypeError::UnknownStep { production: p, step: j });
            }
            j = j + 1;
        }
        p = p + 1;
    }
    Ok(())
}

fn listed_kind_exec(parent: SymbolKind, k: SymbolKind) -> (r: bool)
    ensures
        r == listed_kind(parent, k),
{
    if parent == SymbolKind::Supertype {
        k == SymbolKind::Named || k == SymbolKind::Anonymous || k == SymbolKind::Supertype
    } else {
        k == SymbolKind::Named || k == SymbolKind::Supertype
    }
}

fn named_children(prods: &Vec<Production>, kinds: &Vec<SymbolKind>, s: usize) -> (r: Vec<usize>)
    requires
        s < kinds.len(),
        references_ok(prods@, kinds.len() as int),
    ensures
        children_of(prods@, kinds@, s as int, r@),
{
    let n = kinds.len();
    let marks = reached_marks(prods, kinds, s);
    let mut out: Vec<usize> = Vec::new();
    let mut c: usize = 0;
    while c < n
        invariant
            0 <= c <= n,
            n == kinds.len(),
            s < n,
            marks.len() == n,
            forall|d: int|
                0 <= d < n ==> marks@[d] == reached(prods@, kinds@, s as int, d, n as nat),
            strictly_increasing(out@),
            forall|j: int| 0 <= j < out.len() ==> out@[j] < c,
            forall|d: int|
                0 <= d < c ==> (out@.contains(d as usize) <==> is_child(prods@, kinds@, s as int, d)),
        decreases n - c,
    {
        if marks[c] && listed_kind_exec(kinds[s], kinds[c]) {
            let ghost before = out@;
            out.push(c);
            assert(out@[out@.len() - 1] == c);
            assert forall|d: int| 0 <= d <= c implies (out@.contains(d as usize) <==> is_child(
                prods@,
                kinds@,
                s as int,
                d,
            )) by {
                if out@.contains(d as usize) && d < c {
                    let k = choose|k: int| 0 <= k < out@.len() && out@[k] == d as usize;
                    assert(k < before.len());
                    assert(before.contains(d as usize));
                }
                if before.contains(d as usize) {
                    let k = choose|k: int| 0 <= k < before.len() && before[k] == d as usize;
                    assert(out@[k] == d as usize);
                }
            }
        } else {
            assert(!out@.contains(c));
        }
        c = c + 1;
    }
    out
}

/// Builds the node-type catalog: one entry per visible symbol and per
/// supertype, in symbol order. A supertype's entry lists its subtypes; any
/// other lists the named symbols and supertypes that can appear beneath it
/// once hidden and auxiliary symbols are looked through.
pub fn generate_node_types(kinds: &Vec<SymbolKind>, prods: &Vec<Production>) -> (r: Result<
    Vec<NodeType>,
    NodeTypeError,
>)
    ensures
        r is Ok <==> references_ok(prods@, kinds.len() as int) && supertypes_ok(prods@, kinds@),
        r matches Err(e) ==> (e is EmptySupertype <==> references_ok(prods@, kinds.len() as int)),
        r matches Ok(v) ==> is_catalog(prods@, kinds@, v@),
{
    check_references(prods, kinds.len())?;
    check_supertypes(kinds, prods)?;
    let n = kinds.len();
    let mut out: Vec<NodeType> = Vec::new();
    let mut s: usize = 0;
    while s < n
        invariant
            0 <= s <= n,
            n == kinds.len(),
            references_ok(prods@, n as int),
            forall|i: int| 0 <= i < out.len() ==> catalog_entry(prods@, kinds@, #[trigger] out@[i]),
            forall|a: int, b: int| 0 <= a < b < out.len() ==> out@[a].symbol < out@[b].symbol,
            forall|i: int| 0 <= i < out.len() ==> (#[trigger] out@[i]).symbol < s,
            forall|t: int|
                0 <= t < s && #[trigger] has_entry(kinds@[t]) ==> exists|i: int|
                    0 <= i < out.len() && (#[trigger] out@[i]).symbol == t,
        decreases n - s,
    {
        let kind = kinds[s];
        if kind != SymbolKind::Hidden && kind != SymbolKind::Auxiliary {
            let listed = named_children(prods, kinds, s);
            let ghost before = out@;
            if kind == SymbolKind::Supertype {
                out.push(NodeType { symbol: s, named: true, children: Vec::new(), subtypes: listed });
            } else {
                out.push(
                    NodeType {
                        symbol: s,
                        named: kind == SymbolKind::Named,
                        children: listed,
                        subtypes: Vec::new(),
                    },
                );
            }
            assert forall|t: int|
                0 <= t <= s && #[trigger] has_entry(kinds@[t]) implies exists|i: int|
                    0 <= i < out.len() && (#[trigger] out@[i]).symbol == t by {
                if t < s {
                    let i = choose|i: int| 0 <= i < before.len() && (#[trigger] before[i]).symbol == t;
                    assert(out@[i] == before[i]);
                } else {
                    assert(out@[out.len() - 1].symbol == t);
                }
            }
        }
        s = s + 1;
    }
    Ok(out)
}

} // verus!
