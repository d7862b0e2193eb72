//! Ordering a set of items so that each comes after those it must follow,
//! taking at each step the ready item that a tie-break puts first (Kahn's
//! algorithm), or finding that no such order exists.
use vstd::prelude::*;

verus! {

/// Whether `x` can come next: it is not placed yet and every item it must
/// follow (`prec[x][y]`) is.
pub open spec fn ready(prec: Seq<Seq<bool>>, placed: Seq<int>, x: int) -> bool {
    0 <= x < prec.len() && !placed.contains(x) && forall|y: int| 0 <= y < prec.len() && #[trigger] prec[x][y] ==> placed.contains(y)
}

/// Whether `x` is the item taken next: ready, and put first by the tie-break
/// (`first[x][y]`) among all ready items.
pub open spec fn chosen(prec: Seq<Seq<bool>>, first: Seq<Seq<bool>>, placed: Seq<int>, x: int) -> bool {
    ready(prec, placed, x) && forall|y: int| #[trigger] ready(prec, placed, y) && y != x ==> first[x][y]
}

/// Whether each item of `order` is the one taken after those before it.
pub open spec fn greedy(prec: Seq<Seq<bool>>, first: Seq<Seq<bool>>, order: Seq<int>) -> bool {
    forall|k: int| 0 <= k < order.len() ==> #[trigger] chosen(prec, first, order.take(k), order[k])
}

/// Whether an order holds every item and puts each after those it must follow.
pub open spec fn respects(prec: Seq<Seq<bool>>, order: Seq<int>) -> bool {
    &&& forall|x: int| 0 <= x < prec.len() ==> #[trigger] order.contains(x)
    &&& forall|k: int, y: int|
        0 <= k < order.len() && 0 <= y < prec.len() && #[trigger] prec[order[k]][y] ==> #[trigger] order.take(k).contains(y)
}

/// The items not in `placed` among the first `n`, in increasing order.
pub open spec fn unplaced(placed: Seq<int>, n: int) -> Seq<int>
    decreases n,
{
    if n <= 0 {
        Seq::<int>::empty()
    } else if placed.contains(n - 1) {
        unplaced(placed, n - 1)
    } else {
        unplaced(placed, n - 1).push(n - 1)
    }
}

/// Whether a matrix is square of side `n`.
pub open spec fn square(m: Seq<Seq<bool>>, n: int) -> bool {
    m.len() == n && forall|x: int| 0 <= x < n ==> #[trigger] m[x].len() == n
}

/// Whether a tie-break is a strict total order on distinct items.
pub open spec fn strict_total(first: Seq<Seq<bool>>) -> bool {
    &&& forall|x: int, y: int| 0 <= x < first.len() && 0 <= y < first.len() && x != y ==> #[trigger] first[x][y] != first[y][x]
    &&& forall|x: int, y: int, z: int|
        0 <= x < first.len() && 0 <= y < first.len() && 0 <= z < first.len() && #[trigger] first[x][y] && #[trigger] first[y][z]
        ==> first[x][z]
}

/// The number of set flags.
pub open spec fn count_set(s: Seq<bool>) -> nat
    decreases s.len(),
{
    if s.len() == 0 {
        0
    } else {
        count_set(s.drop_last()) + if s.last() { 1nat } else { 0nat }
    }
}

/// Lemma: at most every flag is set, and all are set exactly when the count
/// equals the length.
pub proof fn lemma_count_set_bound(s: Seq<bool>)
    ensures
        count_set(s) <= s.len(),
        count_set(s) == s.len() ==> forall|x: int| 0 <= x < s.len() ==> #[trigger] s[x],
        (forall|x: int| 0 <= x < s.len() ==> #[trigger] s[x]) ==> count_set(s) == s.len(),
    decreases s.len(),
{
    if s.len() > 0 {
        lemma_count_set_bound(s.drop_last());
        if count_set(s) == s.len() {
            assert forall|x: int| 0 <= x < s.len() implies #[trigger] s[x] by {
                if x < s.len() - 1 {
                    assert(s.drop_last()[x] == s[x]);
                }
            }
        }
        if forall|x: int| 0 <= x < s.len() ==> #[trigger] s[x] {
            assert forall|x: int| 0 <= x < s.drop_last().len() implies #[trigger] s.drop_last()[x] by {
                assert(s.drop_last()[x] == s[x]);
            }
            assert(s[s.len() - 1]);
        }
    }
}

/// Lemma: setting a flag that was clear adds one to the count.
pub proof fn lemma_count_set_update(s: Seq<bool>, x: int)
    requires
        0 <= x < s.len(),
        !s[x],
    ensures
        count_set(s.update(x, true)) == count_set(s) + 1,
    decreases s.len(),
{
    if x < s.len() - 1 {
        assert(s.update(x, true).drop_last() =~= s.drop_last().update(x, true));
        lemma_count_set_update(s.drop_last(), x);
    } else {
        assert(s.update(x, true).drop_last() =~= s.drop_last());
    }
}

/// Lemma: the unplaced items are in range, increasing, and exactly those not placed.
pub proof fn lemma_unplaced(placed: Seq<int>, n: int)
    requires
        n >= 0,
    ensures
        forall|k: int| 0 <= k < unplaced(placed, n).len() ==> 0 <= #[trigger] unplaced(placed, n)[k] < n
            && !placed.contains(unplaced(placed, n)[k]),
        forall|x: int| 0 <= x < n && !placed.contains(x) ==> #[trigger] unplaced(placed, n).contains(x),
    decreases n,
{
    if n > 0 {
        lemma_unplaced(placed, n - 1);
        let u = unplaced(placed, n - 1);
        if placed.contains(n - 1) {
            assert forall|x: int| 0 <= x < n && !placed.contains(x) implies #[trigger] unplaced(placed, n).contains(x) by {
                assert(x != n - 1);
                assert(u.contains(x));
            }
        } else {
            let v = u.push(n - 1);
            assert(unplaced(placed, n) == v);
            assert forall|k: int| 0 <= k < v.len() implies 0 <= #[trigger] v[k] < n && !placed.contains(v[k]) by {
                if k < u.len() {
                    assert(v[k] == u[k]);
                }
            }
            assert forall|x: int| 0 <= x < n && !placed.contains(x) implies #[trigger] v.contains(x) by {
                if x < n - 1 {
                    assert(u.contains(x));
                    let k = choose|k: int| 0 <= k < u.len() && u[k] == x;
                    assert(v[k] == x);
                } else {
                    assert(v[u.len() as int] == x);
                }
            }
        }
    }
}

/// The first position of an order holding an item of `0 .. n` outside
/// `placed`, given one at position `k`.
proof fn lemma_first_outside(order: Seq<int>, placed: Seq<int>, n: int, k: int) -> (m: int)
    requires
        0 <= k < order.len(),
        0 <= order[k] < n,
        !placed.contains(order[k]),
    ensures
        0 <= m <= k,
        0 <= order[m] < n,
        !placed.contains(order[m]),
        forall|j: int| 0 <= j < m && 0 <= #[trigger] order[j] < n ==> placed.contains(order[j]),
    decreases k,
{
    if exists|j: int| 0 <= j < k && 0 <= #[trigger] order[j] < n && !placed.contains(order[j]) {
        let j = choose|j: int| 0 <= j < k && 0 <= #[trigger] order[j] < n && !placed.contains(order[j]);
        lemma_first_outside(order, placed, n, j)
    } else {
        k
    }
}

/// Lemma: if some item is not placed and none is ready, no order respects
/// the constraints.
pub proof fn lemma_stuck_no_order(prec: Seq<Seq<bool>>, placed: Seq<int>, x0: int)
    requires
        square(prec, prec.len() as int),
        0 <= x0 < prec.len(),
        !placed.contains(x0),
        forall|x: int| !#[trigger] ready(prec, placed, x),
    ensures
        forall|o: Seq<int>| !#[trigger] respects(prec, o),
{
    assert forall|o: Seq<int>| !#[trigger] respects(prec, o) by {
        if respects(prec, o) {
            assert(o.contains(x0));
            let k0 = choose|k: int| 0 <= k < o.len() && o[k] == x0;
            let m = lemma_first_outside(o, placed, prec.len() as int, k0);
            let x = o[m];
            assert(!ready(prec, placed, x));
            let y = choose|y: int| 0 <= y < prec.len() && #[trigger] prec[x][y] && !placed.contains(y);
            assert(o.take(m).contains(y));
            let j = choose|j: int| 0 <= j < o.take(m).len() && o.take(m)[j] == y;
            assert(o[j] == y);
            assert(placed.contains(o[j]));
        }
    }
}

/// Lemma: a greedy order that holds every item respects the constraints.
pub proof fn lemma_greedy_respects(prec: Seq<Seq<bool>>, first: Seq<Seq<bool>>, order: Seq<int>)
    requires
        greedy(prec, first, order),
        forall|x: int| 0 <= x < prec.len() ==> #[trigger] order.contains(x),
    ensures
        respects(prec, order),
{
    assert forall|k: int, y: int| 0 <= k < order.len() && 0 <= y < prec.len() && #[trigger] prec[order[k]][y] implies #[trigger] order.take(k).contains(y) by {
        assert(chosen(prec, first, order.take(k), order[k]));
    }
}

/// Orders the items `0 .. n` so that each follows those it must follow,
/// taking at each step the ready item the tie-break puts first. Fails, with
/// the items left over in increasing order, when at some step items are left
/// and none is ready; no order respects the constraints then.
pub fn greedy_order(prec: &Vec<Vec<bool>>, first: &Vec<Vec<bool>>) -> (r: Result<Vec<usize>, Vec<usize>>)
    requires
        square(prec@.map_values(|row: Vec<bool>| row@), prec@.len() as int),
        square(first@.map_values(|row: Vec<bool>| row@), prec@.len() as int),
        strict_total(first@.map_values(|row: Vec<bool>| row@)),
    ensures
        ({
            let p = prec@.map_values(|row: Vec<bool>| row@);
            let f = first@.map_values(|row: Vec<bool>| row@);
            match r {
                Ok(order) => {
                    let o = order@.map_values(|x: usize| x as int);
                    &&& o.len() == p.len()
                    &&& greedy(p, f, o)
                    &&& forall|x: int| 0 <= x < p.len() ==> #[trigger] o.contains(x)
                },
                Err(left) => {
                    let l = left@.map_values(|x: usize| x as int);
                    &&& forall|o: Seq<int>| !#[trigger] respects(p, o)
                    &&& exists|placed: Seq<int>| #[trigger] greedy(p, f, placed)
                        && (forall|x: int| !#[trigger] ready(p, placed, x))
                        && l == unplaced(placed, p.len() as int) && l.len() > 0
                },
            }
        }),
{
    let ghost p = prec@.map_values(|row: Vec<bool>| row@);
    let ghost f = first@.map_values(|row: Vec<bool>| row@);
    let n = prec.len();
    let mut placed_flags: Vec<bool> = Vec::new();
    let mut i: usize = 0;
    while i < n
        invariant
            i <= n,
            placed_flags@.len() == i,
            forall|x: int| 0 <= x < i ==> !#[trigger] placed_flags@[x],
        decreases n - i,
    {
        placed_flags.push(false);
        i = i + 1;
    }
    let mut order: Vec<usize> = Vec::new();
    proof {
        assert(count_set(placed_flags@) == 0) by {
            lemma_count_set_zero(placed_flags@);
        }
    }
    loop
        invariant
            n == prec@.len(),
            p == prec@.map_values(|row: Vec<bool>| row@),
            f == first@.map_values(|row: Vec<bool>| row@),
            square(p, n as int),
            square(f, n as int),
            strict_total(f),
            placed_flags@.len() == n,
            forall|x: int| 0 <= x < n ==> (#[trigger] placed_flags@[x] <==> order@.map_values(|x: usize| x as int).contains(x)),
            greedy(p, f, order@.map_values(|x: usize| x as int)),
            count_set(placed_flags@) == order@.len(),
            order@.len() <= n,
        decreases n - order@.len(),
    {
        let ghost o = order@.map_values(|x: usize| x as int);
        proof {
            lemma_count_set_bound(placed_flags@);
        }
        let mut best: Option<usize> = None;
        let mut any_left = false;
        let mut x: usize = 0;
        while x < n
            invariant
                n == prec@.len(),
                p == prec@.map_values(|row: Vec<bool>| row@),
                f == first@.map_values(|row: Vec<bool>| row@),
                square(p, n as int),
                square(f, n as int),
                strict_total(f),
                placed_flags@.len() == n,
                o == order@.map_values(|x: usize| x as int),
                forall|z: int| 0 <= z < n ==> (#[trigger] placed_flags@[z] <==> o.contains(z)),
                x <= n,
                any_left == exists|z: int| 0 <= z < x && !#[trigger] placed_flags@[z],
                match best {
                    Some(b) => b < x && ready(p, o, b as int) && forall|y: int| 0 <= y < x && #[trigger] ready(p, o, y) && y != b ==> f[b as int][y],
                    None => forall|y: int| 0 <= y < x ==> !#[trigger] ready(p, o, y),
                },
            decreases n - x,
        {
            if !placed_flags[x] {
                any_left = true;
                let is_ready = item_ready(prec, &placed_flags, x, Ghost(o));
                if is_ready {
                    match best {
                        None => {
                            best = Some(x);
                        },
                        Some(b) => {
                            assert(prec@[x as int]@ == p[x as int]);
                            assert(first@[x as int]@ == f[x as int]);
                            if first[x][b] {
                                proof {
                                    assert forall|y: int| 0 <= y < x + 1 && #[trigger] ready(p, o, y) && y != x implies f[x as int][y] by {
                                        if y != b {
                                            assert(f[b as int][y]);
                                        }
                                    }
                                }
                                best = Some(x);
                            } else {
                                proof {
                                    assert(f[x as int][b as int] != f[b as int][x as int]);
                                }
                            }
                        },
                    }
                }
            }
            x = x + 1;
        }
        match best {
            Some(b) => {
                proof {
                    lemma_count_set_update(placed_flags@, b as int);
                    assert(chosen(p, f, o, b as int));
                }
                placed_flags.set(b, true);
                order.push(b);
                proof {
                    lemma_count_set_bound(placed_flags@);
                    let o2 = order@.map_values(|x: usize| x as int);
                    assert(o2 =~= o.push(b as int));
                    assert(o2.take(o.len() as int) =~= o);
                    assert forall|k: int| 0 <= k < o2.len() implies #[trigger] chosen(p, f, o2.take(k), o2[k]) by {
                        if k < o.len() {
                            assert(o2.take(k) =~= o.take(k));
                        }
                    }
                    assert forall|z: int| 0 <= z < n implies (#[trigger] placed_flags@[z] <==> o2.contains(z)) by {
                        if z == b {
                            assert(o2[o.len() as int] == z);
                        } else if o2.contains(z) {
                            let k = choose|k: int| 0 <= k < o2.len() && o2[k] == z;
                            assert(o[k] == z);
                        } else if o.contains(z) {
                            let k = choose|k: int| 0 <= k < o.len() && o[k] == z;
                            assert(o2[k] == z);
                        }
                    }
                }
            },
            None => {
                if any_left {
                    proof {
                        let z = choose|z: int| 0 <= z < n && !#[trigger] placed_flags@[z];
                        assert forall|y: int| !#[trigger] ready(p, o, y) by {
                            if 0 <= y < n {
                            }
                        }
                        lemma_stuck_no_order(p, o, z);
                        lemma_unplaced(o, n as int);
                    }
                    let left = unplaced_items(&placed_flags, Ghost(o));
                    proof {
                        let l = left@.map_values(|x: usize| x as int);
                        assert(unplaced(o, n as int).contains(choose|z: int| 0 <= z < n && !#[trigger] placed_flags@[z]));
                    }
                    return Err(left);
                } else {
                    proof {
                        assert forall|z: int| 0 <= z < p.len() implies #[trigger] o.contains(z) by {
                            assert(placed_flags@[z]);
                        }
                        assert forall|z: int| 0 <= z < placed_flags@.len() implies #[trigger] placed_flags@[z] by {}
                        lemma_count_set_bound(placed_flags@);
                    }
                    return Ok(order);
                }
            },
        }
    }
}

proof fn lemma_count_set_zero(s: Seq<bool>)
    requires
        forall|x: int| 0 <= x < s.len() ==> !#[trigger] s[x],
    ensures
        count_set(s) == 0,
    decreases s.len(),
{
    if s.len() > 0 {
        lemma_count_set_zero(s.drop_last());
    }
}

/// Whether item `x` is ready given the placed flags.
fn item_ready(prec: &Vec<Vec<bool>>, flags: &Vec<bool>, x: usize, Ghost(o): Ghost<Seq<int>>) -> (r: bool)
    requires
        x < prec@.len(),
        square(prec@.map_values(|row: Vec<bool>| row@), prec@.len() as int),
        flags@.len() == prec@.len(),
        forall|z: int| 0 <= z < prec@.len() ==> (#[trigger] flags@[z] <==> o.contains(z)),
        !flags@[x as int],
    ensures
        r == ready(prec@.map_values(|row: Vec<bool>| row@), o, x as int),
{
    let ghost p = prec@.map_values(|row: Vec<bool>| row@);
    let row = &prec[x];
    assert(row@ == p[x as int]);
    assert(p[x as int].len() == prec@.len());
    let mut y: usize = 0;
    while y < prec.len()
        invariant
            y <= prec@.len(),
            x < prec@.len(),
            row@ == p[x as int],
            row@.len() == prec@.len(),
            p == prec@.map_values(|row: Vec<bool>| row@),
            square(p, prec@.len() as int),
            flags@.len() == prec@.len(),
            forall|z: int| 0 <= z < prec@.len() ==> (#[trigger] flags@[z] <==> o.contains(z)),
            forall|z: int| 0 <= z < y && #[trigger] p[x as int][z] ==> o.contains(z),
        decreases prec.len() - y,
    {
        if row[y] && !flags[y] {
            return false;
        }
        y = y + 1;
    }
    true
}

/// The items whose flag is not set, in increasing order.
fn unplaced_items(flags: &Vec<bool>, Ghost(o): Ghost<Seq<int>>) -> (r: Vec<usize>)
    requires
        forall|z: int| 0 <= z < flags@.len() ==> (#[trigger] flags@[z] <==> o.contains(z)),
    ensures
        r@.map_values(|x: usize| x as int) == unplaced(o, flags@.len() as int),
{
    let mut out: Vec<usize> = Vec::new();
    let mut i: usize = 0;
    while i < flags.len()
        invariant
            i <= flags@.len(),
            forall|z: int| 0 <= z < flags@.len() ==> (#[trigger] flags@[z] <==> o.contains(z)),
            out@.map_values(|x: usize| x as int) == unplaced(o, i as int),
        decreases flags.len() - i,
    {
        let ghost before = out@;
        if !flags[i] {
            out.push(i);
            assert(out@.map_values(|x: usize| x as int) =~= before.map_values(|x: usize| x as int).push(i as int));
        }
        i = i + 1;
    }
    out
}

/// The tie-break that takes items in index order.
pub open spec fn index_tie_break(n: int) -> Seq<Seq<bool>> {
    Seq::new(n as nat, |x: int| Seq::new(n as nat, |y: int| x < y))
}

/// The index-order tie-break over `n` items.
pub fn index_matrix(n: usize) -> (m: Vec<Vec<bool>>)
    ensures
        m@.map_values(|row: Vec<bool>| row@) == index_tie_break(n as int),
{
    let mut m: Vec<Vec<bool>> = Vec::new();
    let mut x: usize = 0;
    while x < n
        invariant
            x <= n,
            m@.len() == x,
            forall|a: int| 0 <= a < x ==> #[trigger] m@[a]@ == index_tie_break(n as int)[a],
        decreases n - x,
    {
        let mut row: Vec<bool> = Vec::new();
        let mut y: usize = 0;
        while y < n
            invariant
                x < n,
                y <= n,
                row@.len() == y,
                forall|b: int| 0 <= b < y ==> #[trigger] row@[b] == index_tie_break(n as int)[x as int][b],
            decreases n - y,
        {
            row.push(x < y);
            y = y + 1;
        }
        assert(row@ =~= index_tie_break(n as int)[x as int]);
        m.push(row);
        x = x + 1;
    }
    assert(m@.map_values(|row: Vec<bool>| row@) =~= index_tie_break(n as int));
    m
}

/// Lemma: the index-order tie-break is a strict total order.
pub proof fn lemma_index_tie_break_total(n: int)
    requires
        n >= 0,
    ensures
        strict_total(index_tie_break(n)),
        square(index_tie_break(n), n),
{
}

} // verus!
