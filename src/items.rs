//! LR item sets: closure and the kernel of a GOTO transition.
use vstd::prelude::*;
use crate::node_types::Production;
use crate::abi::{UnsupportedFeatureError, TABLE_INDEX_LIMIT};

verus! {

/// A production with a dot before step `dot`.
#[derive(Clone, Copy, Debug, PartialEq, Eq, Structural)]
pub struct Item {
    pub production: usize,
    pub dot: usize,
}

/// Every production's left side is below `n`.
pub open spec fn lhs_ok(prods: Seq<Production>, n: int) -> bool {
    forall|p: int| 0 <= p < prods.len() ==> (#[trigger] prods[p]).lhs < n
}

/// Every item names a production.
pub open spec fn items_ok(prods: Seq<Production>, items: Seq<Item>) -> bool {
    forall|i: int| 0 <= i < items.len() ==> (#[trigger] items[i]).production < prods.len()
}

/// Whether the dot of `it` stands before `x`.
pub open spec fn expects(prods: Seq<Production>, it: Item, x: int) -> bool {
    it.production < prods.len() && it.dot < prods[it.production as int].steps.len()
        && prods[it.production as int].steps@[it.dot as int] == x
}

/// Whether some kernel item's dot stands before `x`.
pub open spec fn kernel_expects(prods: Seq<Production>, kernel: Seq<Item>, x: int) -> bool {
    exists|i: int| 0 <= i < kernel.len() && #[trigger] expects(prods, kernel[i], x)
}

/// Whether a production of `h` starts with `x`.
pub open spec fn starts_with(prods: Seq<Production>, h: int, x: int) -> bool {
    exists|p: int|
        0 <= p < prods.len() && (#[trigger] prods[p]).lhs == h && prods[p].steps.len() > 0
            && prods[p].steps@[0] == x
}

/// Whether the closure of `kernel` expects `x`, following at most `k` chains
/// of first steps.
pub open spec fn expected(prods: Seq<Production>, kernel: Seq<Item>, x: int, k: nat) -> bool
    decreases k, 0nat,
{
    kernel_expects(prods, kernel, x) || (k > 0 && expected_via(prods, kernel, x, (k - 1) as nat))
}

pub open spec fn expected_via(prods: Seq<Production>, kernel: Seq<Item>, x: int, k: nat) -> bool
    decreases k, 1nat,
{
    exists|h: int| expected(prods, kernel, h, k) && #[trigger] starts_with(prods, h, x)
}

fn no_marks(n: usize) -> (r: Vec<bool>)
    ensures
        r.len() == n,
        forall|c: int| 0 <= c < n ==> !r@[c],
{
    let mut r: Vec<bool> = Vec::new();
    while r.len() < n
        invariant
            r.len() <= n,
            forall|c: int| 0 <= c < r.len() ==> !r@[c],
        decreases n - r.len(),
    {
        r.push(false);
    }
    r
}

fn kernel_marks(prods: &Vec<Production>, kernel: &Vec<Item>, n: usize) -> (r: Vec<bool>)
    requires
        items_ok(prods@, kernel@),
    ensures
        r.len() == n,
        forall|x: int| 0 <= x < n ==> r@[x] == kernel_expects(prods@, kernel@, x),
{
    let mut r = no_marks(n);
    let mut i: usize = 0;
    while i < kernel.len()
        invariant
            0 <= i <= kernel.len(),
            r.len() == n,
            items_ok(prods@, kernel@),
            forall|x: int|
                0 <= x < n ==> r@[x] == exists|j: int|
                    0 <= j < i && #[trigger] expects(prods@, kernel@[j], x),
        decreases kernel.len() - i,
    {
        let it = kernel[i];
        assert(it.production < prods.len());
        let ghost old_r = r@;
        if it.dot < prods[it.production].steps.len() && prods[it.production].steps[it.dot] < n {
            let x = prods[it.production].steps[it.dot];
            r.set(x, true);
            assert(expects(prods@, kernel@[i as int], x as int));
        }
        assert forall|x: int| 0 <= x < n implies r@[x] == exists|j: int|
            0 <= j < i + 1 && #[trigger] expects(prods@, kernel@[j], x) by {
            assert(old_r[x] == exists|j: int| 0 <= j < i && #[trigger] expects(prods@, kernel@[j], x));
            if expects(prods@, kernel@[i as int], x) {
                assert(r@[x]);
            }
        }
        i = i + 1;
    }
    r
}

/// Marks `x` when a production of a marked symbol starts with `x`.
fn first_steps(prods: &Vec<Production>, from: &Vec<bool>) -> (r: Vec<bool>)
    requires
        lhs_ok(prods@, from.len() as int),
    ensures
        r.len() == from.len(),
        forall|x: int|
            0 <= x < from.len() ==> r@[x] == exists|h: int|
                0 <= h < from.len() && from@[h] && #[trigger] starts_with(prods@, h, x),
{
    let n = from.len();
    let mut r = no_marks(n);
    let mut p: usize = 0;
    while p < prods.len()
        invariant
            0 <= p <= prods.len(),
            n == from.len(),
            r.len() == n,
            lhs_ok(prods@, n as int),
            forall|x: int|
                0 <= x < n ==> r@[x] == exists|q: int|
                    0 <= q < p && from@[prods@[q].lhs as int] && (#[trigger] prods@[q]).steps.len()
                        > 0 && prods@[q].steps@[0] == x,
        decreases prods.len() - p,
    {
        let ghost old_r = r@;
        assert(prods@[p as int].lhs < n);
        if from[prods[p].lhs] && prods[p].steps.len() > 0 && prods[p].steps[0] < n {
            r.set(prods[p].steps[0], true);
        }
        assert forall|x: int| 0 <= x < n implies r@[x] == exists|q: int|
            0 <= q < p + 1 && from@[prods@[q].lhs as int] && (#[trigger] prods@[q]).steps.len() > 0
                && prods@[q].steps@[0] == x by {
            if from@[prods@[p as int].lhs as int] && prods@[p as int].steps.len() > 0
                && prods@[p as int].steps@[0] == x {
                assert(r@[x]);
            }
        }
        p = p + 1;
    }
    assert forall|x: int| 0 <= x < n implies r@[x] == exists|h: int|
        0 <= h < n && from@[h] && #[trigger] starts_with(prods@, h, x) by {
        if r@[x] {
            let q = choose|q: int|
                0 <= q < prods.len() && from@[prods@[q].lhs as int] && (#[trigger] prods@[q]).steps.len()
                    > 0 && prods@[q].steps@[0] == x;
            assert(starts_with(prods@, prods@[q].lhs as int, x));
        }
        if exists|h: int| 0 <= h < n && from@[h] && #[trigger] starts_with(prods@, h, x) {
            let h = choose|h: int| 0 <= h < n && from@[h] && #[trigger] starts_with(prods@, h, x);
            let q = choose|q: int|
                0 <= q < prods.len() && (#[trigger] prods@[q]).lhs == h && prods@[q].steps.len() > 0
                    && prods@[q].steps@[0] == x;
            assert(from@[prods@[q].lhs as int]);
        }
    }
    r
}


/// Marks every symbol that the closure of `kernel` expects, following at
/// most as many chains of first steps as there are symbols.
fn expected_marks(prods: &Vec<Production>, kernel: &Vec<Item>, n: usize) -> (r: Vec<bool>)
    requires
        lhs_ok(prods@, n as int),
        items_ok(prods@, kernel@),
    ensures
        r.len() == n,
        forall|x: int| 0 <= x < n ==> r@[x] == expected(prods@, kernel@, x, n as nat),
{
    let base = kernel_marks(prods, kernel, n);
    let mut marks = base.clone();
    assert(marks@ == base@);
    let mut k: usize = 0;
    while k < n
        invariant
            0 <= k <= n,
            lhs_ok(prods@, n as int),
            base.len() == n,
            marks.len() == n,
            forall|x: int| 0 <= x < n ==> base@[x] == kernel_expects(prods@, kernel@, x),
            forall|x: int| 0 <= x < n ==> marks@[x] == expected(prods@, kernel@, x, k as nat),
        decreases n - k,
    {
        let deeper = first_steps(prods, &marks);
        let mut next: Vec<bool> = Vec::new();
        let mut c: usize = 0;
        while c < n
            invariant
                0 <= c <= n,
                base.len() == n,
                deeper.len() == n,
                next.len() == c,
                forall|d: int| 0 <= d < c ==> next@[d] == (base@[d] || deeper@[d]),
            decreases n - c,
        {
            next.push(base[c] || deeper[c]);
            c = c + 1;
        }
        assert forall|x: int| 0 <= x < n implies next@[x] == expected(
            prods@,
            kernel@,
            x,
            (k + 1) as nat,
        ) by {
            assert(((k + 1) as nat - 1) as nat == k as nat);
            assert(expected(prods@, kernel@, x, (k + 1) as nat) == (kernel_expects(
                prods@,
                kernel@,
                x,
            ) || expected_via(prods@, kernel@, x, k as nat)));
            if deeper@[x] {
                let h = choose|h: int|
                    0 <= h < n && marks@[h] && #[trigger] starts_with(prods@, h, x);
                assert(expected(prods@, kernel@, h, k as nat));
                assert(expected_via(prods@, kernel@, x, k as nat));
            }
            if expected_via(prods@, kernel@, x, k as nat) {
                let h = choose|h: int|
                    expected(prods@, kernel@, h, k as nat) && #[trigger] starts_with(prods@, h, x);
                let q = choose|q: int|
                    0 <= q < prods.len() && (#[trigger] prods@[q]).lhs == h
                        && prods@[q].steps.len() > 0 && prods@[q].steps@[0] == x;
                assert(0 <= h < n);
                assert(marks@[h]);
                assert(deeper@[x]);
            }
        }
        marks = next;
        k = k + 1;
    }
    marks
}

/// `added` holds, in production order, the item at the start of exactly
/// those productions whose left side the closure of `kernel` expects.
pub open spec fn closure_additions(
    prods: Seq<Production>,
    kernel: Seq<Item>,
    n: nat,
    added: Seq<Item>,
) -> bool {
    &&& forall|j: int| 0 <= j < added.len() ==> (#[trigger] added[j]).dot == 0
    &&& forall|a: int, b: int| 0 <= a < b < added.len() ==> added[a].production < added[b].production
    &&& forall|j: int| 0 <= j < added.len() ==> (#[trigger] added[j]).production < prods.len()
    &&& forall|p: int|
        0 <= p < prods.len() ==> ((exists|j: int| 0 <= j < added.len() && (#[trigger] added[j]).production == p)
            <==> expected(prods, kernel, prods[p].lhs as int, n))
}

/// The closure of an item set: the kernel, then an item at the start of each
/// production of every symbol that the set expects.
pub fn closure(prods: &Vec<Production>, n: usize, kernel: &Vec<Item>) -> (r: Vec<Item>)
    requires
        lhs_ok(prods@, n as int),
        items_ok(prods@, kernel@),
    ensures
        r.len() >= kernel.len(),
        r@.subrange(0, kernel.len() as int) == kernel@,
        closure_additions(prods@, kernel@, n as nat, r@.subrange(kernel.len() as int, r.len() as int)),
        items_ok(prods@, r@),
{
    let marks = expected_marks(prods, kernel, n);
    let mut out: Vec<Item> = kernel.clone();
    assert(out@ =~= kernel@);
    let ghost start = kernel.len() as int;
    let mut p: usize = 0;
    while p < prods.len()
        invariant
            0 <= p <= prods.len(),
            lhs_ok(prods@, n as int),
            marks.len() == n,
            forall|x: int| 0 <= x < n ==> marks@[x] == expected(prods@, kernel@, x, n as nat),
            start == kernel.len(),
            out.len() >= start,
            out@.subrange(0, start) == kernel@,
            forall|j: int| start <= j < out.len() ==> (#[trigger] out@[j]).dot == 0,
            forall|a: int, b: int|
                start <= a < b < out.len() ==> out@[a].production < out@[b].production,
            forall|j: int| start <= j < out.len() ==> (#[trigger] out@[j]).production < p,
            forall|q: int|
                0 <= q < p ==> ((exists|j: int|
                    start <= j < out.len() && (#[trigger] out@[j]).production == q) <==> expected(
                    prods@,
                    kernel@,
                    prods@[q].lhs as int,
                    n as nat,
                )),
        decreases prods.len() - p,
    {
        assert(prods@[p as int].lhs < n);
        let ghost before = out@;
        if marks[prods[p].lhs] {
            out.push(Item { production: p, dot: 0 });
            assert(out@.subrange(0, start) =~= before.subrange(0, start));
            assert forall|q: int| 0 <= q < p + 1 implies ((exists|j: int|
                start <= j < out.len() && (#[trigger] out@[j]).production == q) <==> expected(
                prods@,
                kernel@,
                prods@[q].lhs as int,
                n as nat,
            )) by {
                if q < p {
                    if exists|j: int| start <= j < out.len() && (#[trigger] out@[j]).production == q {
                        let j = choose|j: int| start <= j < out.len() && (#[trigger] out@[j]).production == q;
                        assert(j < before.len());
                        assert(before[j].production == q);
                    }
                    if exists|j: int| start <= j < before.len() && (#[trigger] before[j]).production == q {
                        let j = choose|j: int| start <= j < before.len() && (#[trigger] before[j]).production == q;
                        assert(out@[j].production == q);
                    }
                } else {
                    assert(out@[out.len() - 1].production == q);
                }
            }
        } else {
            assert forall|q: int| 0 <= q < p + 1 implies ((exists|j: int|
                start <= j < out.len() && (#[trigger] out@[j]).production == q) <==> expected(
                prods@,
                kernel@,
                prods@[q].lhs as int,
                n as nat,
            )) by {
                if q == p {
                    if exists|j: int| start <= j < out.len() && (#[trigger] out@[j]).production == q {
                        let j = choose|j: int| start <= j < out.len() && (#[trigger] out@[j]).production == q;
                        assert(out@[j].production < p);
                    }
                }
            }
        }
        p = p + 1;
    }
    let ghost added = out@.subrange(start, out.len() as int);
    assert forall|q: int| 0 <= q < prods.len() implies ((exists|j: int|
        0 <= j < added.len() && (#[trigger] added[j]).production == q) <==> expected(
        prods@,
        kernel@,
        prods@[q].lhs as int,
        n as nat,
    )) by {
        if exists|j: int| 0 <= j < added.len() && (#[trigger] added[j]).production == q {
            let j = choose|j: int| 0 <= j < added.len() && (#[trigger] added[j]).production == q;
            assert(out@[start + j].production == q);
        }
        if exists|j: int| start <= j < out.len() && (#[trigger] out@[j]).production == q {
            let j = choose|j: int| start <= j < out.len() && (#[trigger] out@[j]).production == q;
            assert(added[j - start].production == q);
        }
    }
    assert forall|j: int| 0 <= j < added.len() implies (#[trigger] added[j]).dot == 0 && added[j].production < prods.len() by {
        assert(added[j] == out@[start + j]);
    }
    assert forall|a: int, b: int| 0 <= a < b < added.len() implies added[a].production < added[b].production by {
        assert(added[a] == out@[start + a]);
        assert(added[b] == out@[start + b]);
    }
    assert forall|j: int| 0 <= j < out.len() implies (#[trigger] out@[j]).production < prods.len() by {
        if j < start {
            assert(out@[j] == out@.subrange(0, start)[j]);
            assert(kernel@[j].production < prods.len());
        } else {
            assert(out@[j] == added[j - start]);
        }
    }
    out
}


/// The items of `items` whose dot stands before `x`, with the dot moved past
/// it, in order.
pub open spec fn advanced(prods: Seq<Production>, items: Seq<Item>, x: int) -> Seq<Item>
    decreases items.len(),
{
    if items.len() == 0 {
        Seq::empty()
    } else {
        let it = items.last();
        advanced(prods, items.drop_last(), x) + if expects(prods, it, x) {
            seq![Item { production: it.production, dot: (it.dot + 1) as usize }]
        } else {
            Seq::empty()
        }
    }
}

/// The kernel of the state reached from `items` on symbol `x`.
pub fn goto_kernel(prods: &Vec<Production>, items: &Vec<Item>, x: usize) -> (r: Vec<Item>)
    requires
        items_ok(prods@, items@),
    ensures
        r@ == advanced(prods@, items@, x as int),
        items_ok(prods@, r@),
{
    let mut out: Vec<Item> = Vec::new();
    let mut i: usize = 0;
    while i < items.len()
        invariant
            0 <= i <= items.len(),
            items_ok(prods@, items@),
            out@ == advanced(prods@, items@.subrange(0, i as int), x as int),
            items_ok(prods@, out@),
        decreases items.len() - i,
    {
        assert(items@.subrange(0, i + 1).drop_last() =~= items@.subrange(0, i as int));
        let it = items[i];
        assert(it.production < prods.len());
        if it.dot < prods[it.production].steps.len() && prods[it.production].steps[it.dot] == x {
            out.push(Item { production: it.production, dot: it.dot + 1 });
        }
        i = i + 1;
        assert(out@ =~= advanced(prods@, items@.subrange(0, i as int), x as int));
    }
    assert(items@.subrange(0, items.len() as int) =~= items@);
    out
}

fn has_item(items: &Vec<Item>, it: Item) -> (r: bool)
    ensures
        r == items@.contains(it),
{
    let mut i: usize = 0;
    while i < items.len()
        invariant
            0 <= i <= items.len(),
            forall|j: int| 0 <= j < i ==> items@[j] != it,
        decreases items.len() - i,
    {
        if items[i] == it {
            return true;
        }
        i = i + 1;
    }
    false
}

fn includes_all(a: &Vec<Item>, b: &Vec<Item>) -> (r: bool)
    ensures
        r == (forall|j: int| 0 <= j < a.len() ==> b@.contains(#[trigger] a@[j])),
{
    let mut i: usize = 0;
    while i < a.len()
        invariant
            0 <= i <= a.len(),
            forall|j: int| 0 <= j < i ==> b@.contains(#[trigger] a@[j]),
        decreases a.len() - i,
    {
        if !has_item(b, a[i]) {
            return false;
        }
        i = i + 1;
    }
    true
}

/// Whether two item sets hold the same items, whatever their order.
pub fn same_item_set(a: &Vec<Item>, b: &Vec<Item>) -> (r: bool)
    ensures
        r == (a@.to_set() == b@.to_set()),
{
    let ab = includes_all(a, b);
    let ba = includes_all(b, a);
    proof {
        if ab && ba {
            assert forall|it: Item| a@.to_set().contains(it) <==> b@.to_set().contains(it) by {
                if a@.contains(it) {
                    let j = choose|j: int| 0 <= j < a.len() && a@[j] == it;
                    assert(b@.contains(a@[j]));
                }
                if b@.contains(it) {
                    let j = choose|j: int| 0 <= j < b.len() && b@[j] == it;
                    assert(a@.contains(b@[j]));
                }
            }
            assert(a@.to_set() =~= b@.to_set());
        }
        if !ab {
            let j = choose|j: int| 0 <= j < a.len() && !b@.contains(#[trigger] a@[j]);
            assert(a@.to_set().contains(a@[j]));
            assert(!b@.to_set().contains(a@[j]));
        }
        if !ba {
            let j = choose|j: int| 0 <= j < b.len() && !a@.contains(#[trigger] b@[j]);
            assert(b@.to_set().contains(b@[j]));
            assert(!a@.to_set().contains(b@[j]));
        }
    }
    ab && ba
}

/// The first existing state whose item set equals `kernel` as a set: a
/// transition into it reuses the state instead of building a copy.
pub fn find_state(states: &Vec<Vec<Item>>, kernel: &Vec<Item>) -> (r: Option<usize>)
    ensures
        r matches Some(i) ==> i < states.len() && states@[i as int]@.to_set() == kernel@.to_set()
            && forall|j: int| 0 <= j < i ==> states@[j]@.to_set() != kernel@.to_set(),
        r is None ==> forall|j: int| 0 <= j < states.len() ==> states@[j]@.to_set() != kernel@.to_set(),
{
    let mut i: usize = 0;
    while i < states.len()
        invariant
            0 <= i <= states.len(),
            forall|j: int| 0 <= j < i ==> states@[j]@.to_set() != kernel@.to_set(),
        decreases states.len() - i,
    {
        if same_item_set(&states[i], kernel) {
            return Some(i);
        }
        i = i + 1;
    }
    None
}


/// `c` is the closure of `kernel`.
pub open spec fn is_closure_of(prods: Seq<Production>, n: nat, kernel: Seq<Item>, c: Seq<Item>) -> bool {
    &&& c.len() >= kernel.len()
    &&& c.subrange(0, kernel.len() as int) == kernel
    &&& closure_additions(prods, kernel, n, c.subrange(kernel.len() as int, c.len() as int))
}

/// The parser states: each state's kernel, its closure, and for each symbol
/// the state that a transition on it reaches.
pub struct Automaton {
    pub kernels: Vec<Vec<Item>>,
    pub closures: Vec<Vec<Item>>,
    pub transitions: Vec<Vec<Option<usize>>>,
}

/// Row `i` of the transitions is right for the closure `c`: a symbol that no
/// item of `c` expects has no transition, any other leads to the state whose
/// kernel is, as a set, the items of `c` advanced past it.
pub open spec fn row_ok(
    prods: Seq<Production>,
    kernels: Seq<Vec<Item>>,
    c: Seq<Item>,
    row: Seq<Option<usize>>,
    n: nat,
) -> bool {
    &&& row.len() == n
    &&& forall|x: int|
        0 <= x < n ==> ((#[trigger] row[x]) is None <==> advanced(prods, c, x).len() == 0)
    &&& forall|x: int|
        0 <= x < n && (#[trigger] row[x]) is Some ==> row[x].unwrap() < kernels.len()
            && kernels[row[x].unwrap() as int]@.to_set() == advanced(prods, c, x).to_set()
}

/// No two states have the same kernel.
pub open spec fn kernels_distinct(kernels: Seq<Vec<Item>>) -> bool {
    forall|a: int, b: int| 0 <= a < b < kernels.len() ==> kernels[a]@.to_set() != kernels[b]@.to_set()
}

pub open spec fn kernel_views(kernels: Seq<Vec<Item>>) -> Seq<Seq<Item>> {
    kernels.map_values(|v: Vec<Item>| v@)
}

/// No two kernels hold the same items.
pub open spec fn sets_distinct(ks: Seq<Seq<Item>>) -> bool {
    forall|a: int, b: int| 0 <= a < b < ks.len() ==> ks[a].to_set() != ks[b].to_set()
}

/// `to` is, as a set, the kernel that a transition on `x` reaches from the
/// state with kernel `from`.
pub open spec fn succeeds(prods: Seq<Production>, n: nat, from: Seq<Item>, to: Seq<Item>, x: int) -> bool {
    0 <= x < n && exists|c: Seq<Item>|
        #[trigger] is_closure_of(prods, n, from, c) && advanced(prods, c, x).len() > 0
            && to.to_set() == advanced(prods, c, x).to_set()
}

/// Every kernel after the first is reached by a transition from an earlier
/// one.
pub open spec fn reachable_chain(prods: Seq<Production>, n: nat, ks: Seq<Seq<Item>>) -> bool {
    forall|j: int| 0 < j < ks.len() ==> #[trigger] reached_before(prods, n, ks, j)
}

/// Kernel `j` is reached by a transition from an earlier kernel.
pub open spec fn reached_before(prods: Seq<Production>, n: nat, ks: Seq<Seq<Item>>, j: int) -> bool {
    exists|i: int, x: int| 0 <= i < j && #[trigger] succeeds(prods, n, ks[i], ks[j], x)
}

/// `a` holds every state reachable from `start`, each with its closure and
/// a correct transition row, no two with the same kernel.
pub open spec fn automaton_ok(prods: Seq<Production>, n: nat, start: Seq<Item>, a: Automaton) -> bool {
    &&& a.kernels.len() >= 1
    &&& a.kernels@[0]@ == start
    &&& a.closures.len() == a.kernels.len()
    &&& a.transitions.len() == a.kernels.len()
    &&& a.kernels.len() <= TABLE_INDEX_LIMIT
    &&& kernels_distinct(a.kernels@)
    &&& forall|i: int|
        0 <= i < a.kernels.len() ==> is_closure_of(prods, n, a.kernels@[i]@, #[trigger] a.closures@[i]@)
            && row_ok(prods, a.kernels@, a.closures@[i]@, a.transitions@[i]@, n) && items_ok(
            prods,
            a.closures@[i]@,
        )
    &&& reachable_chain(prods, n, kernel_views(a.kernels@))
}

/// The reason for refusing to build the states: more distinct kernels are
/// reachable from `start` than a state index can number.
pub open spec fn too_many_states(
    prods: Seq<Production>,
    n: nat,
    start: Seq<Item>,
    e: UnsupportedFeatureError,
) -> bool {
    &&& e == (UnsupportedFeatureError::States { count: (TABLE_INDEX_LIMIT + 1) as usize })
    &&& exists|ks: Seq<Seq<Item>>|
        ks.len() == TABLE_INDEX_LIMIT + 1 && ks[0] == start && sets_distinct(ks)
            && #[trigger] reachable_chain(prods, n, ks)
}

proof fn lemma_chain_push(prods: Seq<Production>, n: nat, ks: Seq<Seq<Item>>, k: Seq<Item>, i: int, x: int)
    requires
        reachable_chain(prods, n, ks),
        0 <= i < ks.len(),
        succeeds(prods, n, ks[i], k, x),
    ensures
        reachable_chain(prods, n, ks.push(k)),
{
    let ks2 = ks.push(k);
    assert forall|j: int| 0 < j < ks2.len() implies #[trigger] reached_before(prods, n, ks2, j) by {
        if j < ks.len() {
            assert(reached_before(prods, n, ks, j));
            let (a, y) = choose|a: int, y: int| 0 <= a < j && #[trigger] succeeds(prods, n, ks[a], ks[j], y);
            assert(ks2[a] == ks[a] && ks2[j] == ks[j]);
            assert(succeeds(prods, n, ks2[a], ks2[j], y));
        } else {
            assert(ks2[i] == ks[i] && ks2[j] == k);
            assert(succeeds(prods, n, ks2[i], ks2[j], x));
        }
    }
}

pub open spec fn kernels_ok(prods: Seq<Production>, kernels: Seq<Vec<Item>>) -> bool {
    forall|j: int| 0 <= j < kernels.len() ==> items_ok(prods, #[trigger] kernels[j]@)
}

/// Builds every state reachable from `start`, merging a new kernel into an
/// existing state when their item sets are equal. Fails when the states
/// would not fit a 16-bit state index.
pub fn build_states(prods: &Vec<Production>, n: usize, start: &Vec<Item>) -> (r: Result<
    Automaton,
    UnsupportedFeatureError,
>)
    requires
        lhs_ok(prods@, n as int),
        items_ok(prods@, start@),
    ensures
        r matches Ok(a) ==> automaton_ok(prods@, n as nat, start@, a),
        r matches Err(e) ==> too_many_states(prods@, n as nat, start@, e),
{
    let mut kernels: Vec<Vec<Item>> = Vec::new();
    kernels.push(start.clone());
    let mut closures: Vec<Vec<Item>> = Vec::new();
    let mut transitions: Vec<Vec<Option<usize>>> = Vec::new();
    let mut i: usize = 0;
    while i < kernels.len()
        invariant
            1 <= kernels.len() <= TABLE_INDEX_LIMIT,
            0 <= i <= kernels.len(),
            closures.len() == i,
            transitions.len() == i,
            lhs_ok(prods@, n as int),
            kernels@[0]@ == start@,
            kernels_ok(prods@, kernels@),
            kernels_distinct(kernels@),
            reachable_chain(prods@, n as nat, kernel_views(kernels@)),
            forall|j: int|
                0 <= j < i ==> is_closure_of(prods@, n as nat, kernels@[j]@, #[trigger] closures@[j]@)
                    && row_ok(prods@, kernels@, closures@[j]@, transitions@[j]@, n as nat)
                    && items_ok(prods@, closures@[j]@),
        decreases TABLE_INDEX_LIMIT - i,
    {
        assert(items_ok(prods@, kernels@[i as int]@));
        let c = closure(prods, n, &kernels[i]);
        let mut row: Vec<Option<usize>> = Vec::new();
        let mut x: usize = 0;
        while x < n
            invariant
                1 <= kernels.len() <= TABLE_INDEX_LIMIT,
                0 <= i < kernels.len(),
                0 <= x <= n,
                row.len() == x,
                closures.len() == i,
                transitions.len() == i,
                lhs_ok(prods@, n as int),
                items_ok(prods@, c@),
                is_closure_of(prods@, n as nat, kernels@[i as int]@, c@),
                kernels@[0]@ == start@,
                kernels_ok(prods@, kernels@),
                kernels_distinct(kernels@),
                reachable_chain(prods@, n as nat, kernel_views(kernels@)),
                forall|j: int|
                    0 <= j < i ==> is_closure_of(prods@, n as nat, kernels@[j]@, #[trigger] closures@[j]@)
                        && row_ok(prods@, kernels@, closures@[j]@, transitions@[j]@, n as nat)
                    && items_ok(prods@, closures@[j]@),
                forall|y: int|
                    0 <= y < x ==> ((#[trigger] row@[y]) is None <==> advanced(prods@, c@, y).len() == 0),
                forall|y: int|
                    0 <= y < x && (#[trigger] row@[y]) is Some ==> row@[y].unwrap() < kernels.len()
                        && kernels@[row@[y].unwrap() as int]@.to_set() == advanced(prods@, c@, y).to_set(),
            decreases n - x,
        {
            let k = goto_kernel(prods, &c, x);
            let ghost old_kernels = kernels@;
            let ghost old_row = row@;
            if k.len() == 0 {
                row.push(None);
            } else {
                match find_state(&kernels, &k) {
                    Some(t) => {
                        row.push(Some(t));
                    },
                    None => {
                        proof {
                            assert(kernel_views(kernels@)[i as int] == kernels@[i as int]@);
                            assert(is_closure_of(prods@, n as nat, kernels@[i as int]@, c@));
                            assert(succeeds(prods@, n as nat, kernel_views(kernels@)[i as int], k@, x as int));
                            lemma_chain_push(prods@, n as nat, kernel_views(kernels@), k@, i as int, x as int);
                            let ks = kernel_views(kernels@).push(k@);
                            assert forall|a: int, b: int| 0 <= a < b < ks.len() implies ks[a].to_set()
                                != ks[b].to_set() by {
                                assert(ks[a] == kernels@[a]@);
                                if b < kernels.len() {
                                    assert(ks[b] == kernels@[b]@);
                                }
                            }
                            assert(ks[0] == start@);
                        }
                        if kernels.len() >= TABLE_INDEX_LIMIT {
                            return Err(UnsupportedFeatureError::States { count: kernels.len() + 1 });
                        }
                        let t = kernels.len();
                        kernels.push(k);
                        assert(kernel_views(kernels@) =~= kernel_views(old_kernels).push(k@));
                        row.push(Some(t));
                        assert(kernels@[t as int]@ == advanced(prods@, c@, x as int));
                        assert forall|j: int| 0 <= j < kernels.len() implies items_ok(
                            prods@,
                            #[trigger] kernels@[j]@,
                        ) by {
                            if j < t {
                                assert(kernels@[j] == old_kernels[j]);
                            }
                        }
                        assert forall|a: int, b: int|
                            0 <= a < b < kernels.len() implies kernels@[a]@.to_set()
                            != kernels@[b]@.to_set() by {
                            assert(kernels@[a] == old_kernels[a]);
                            if b < t {
                                assert(kernels@[b] == old_kernels[b]);
                            }
                        }
                        assert forall|j: int|
                            0 <= j < i implies row_ok(
                            prods@,
                            kernels@,
                            closures@[j]@,
                            transitions@[j]@,
                            n as nat,
                        ) by {
                            assert(row_ok(prods@, old_kernels, closures@[j]@, transitions@[j]@, n as nat));
                            assert forall|y: int|
                                0 <= y < n && (#[trigger] transitions@[j]@[y]) is Some implies transitions@[j]@[y].unwrap()
                                < kernels.len() && kernels@[transitions@[j]@[y].unwrap() as int]@.to_set()
                                == advanced(prods@, closures@[j]@, y).to_set() by {
                                assert(kernels@[transitions@[j]@[y].unwrap() as int] == old_kernels[transitions@[j]@[y].unwrap() as int]);
                            }
                        }
                    },
                }
            }
            assert forall|y: int| 0 <= y < x + 1 && (#[trigger] row@[y]) is Some implies row@[y].unwrap()
                < kernels.len() && kernels@[row@[y].unwrap() as int]@.to_set() == advanced(
                prods@,
                c@,
                y,
            ).to_set() by {
                if y < x {
                    assert(row@[y] == old_row[y]);
                    assert(kernels@[row@[y].unwrap() as int] == old_kernels[row@[y].unwrap() as int]);
                }
            }
            x = x + 1;
        }
        closures.push(c);
        transitions.push(row);
        i = i + 1;
    }
    Ok(Automaton { kernels, closures, transitions })
}

} // verus!
