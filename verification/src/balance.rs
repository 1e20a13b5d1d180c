//! Size-balanced split of ingest work across workers.

use vstd::prelude::*;

verus! {

/// Item `a` is taken before item `b`: larger first, ties in input order.
pub open spec fn sorts_before(sizes: Seq<u64>, a: usize, b: usize) -> bool {
    sizes[a as int] > sizes[b as int] || (sizes[a as int] == sizes[b as int] && a < b)
}

/// `p` lists every item index exactly once, largest item first, ties in
/// input order.
pub open spec fn is_size_order(sizes: Seq<u64>, p: Seq<usize>) -> bool {
    &&& p.len() == sizes.len()
    &&& forall|k: int| 0 <= k < p.len() ==> #[trigger] p[k] < sizes.len()
    &&& forall|x: usize| x < sizes.len() ==> #[trigger] p.contains(x)
    &&& forall|a: int, b: int|
        0 <= a < b < p.len() ==> sorts_before(sizes, #[trigger] p[a], #[trigger] p[b])
}

/// Index of the first smallest load.
pub open spec fn lightest(loads: Seq<int>) -> int
    decreases loads.len(),
{
    if loads.len() <= 1 {
        0
    } else {
        let m = lightest(loads.drop_last());
        if loads.last() < loads[m] {
            loads.len() - 1
        } else {
            m
        }
    }
}

/// Groups and loads after placing the first `k` items of `p`, each onto the
/// first currently lightest of `w` groups.
pub open spec fn greedy_groups(sizes: Seq<u64>, p: Seq<usize>, k: int, w: int) -> (
    Seq<Seq<usize>>,
    Seq<int>,
)
    decreases k,
{
    if k <= 0 {
        (Seq::new(w as nat, |i: int| Seq::<usize>::empty()), Seq::new(w as nat, |i: int| 0int))
    } else {
        let (g, l) = greedy_groups(sizes, p, k - 1, w);
        let item = p[k - 1];
        let m = lightest(l);
        (g.update(m, g[m].push(item)), l.update(m, l[m] + sizes[item as int]))
    }
}

/// The non-empty groups, in order.
pub open spec fn nonempty_groups(g: Seq<Seq<usize>>) -> Seq<Seq<usize>>
    decreases g.len(),
{
    if g.len() == 0 {
        Seq::empty()
    } else {
        let rest = nonempty_groups(g.drop_last());
        if g.last().len() > 0 {
            rest.push(g.last())
        } else {
            rest
        }
    }
}

proof fn lemma_lightest_bounds(loads: Seq<int>)
    requires
        loads.len() >= 1,
    ensures
        0 <= lightest(loads) < loads.len(),
        forall|j: int| 0 <= j < loads.len() ==> loads[lightest(loads)] <= #[trigger] loads[j],
    decreases loads.len(),
{
    if loads.len() > 1 {
        let d = loads.drop_last();
        lemma_lightest_bounds(d);
        assert forall|j: int| 0 <= j < loads.len() implies loads[lightest(loads)] <= #[trigger] loads[j] by {
            if j < loads.len() - 1 {
                assert(d[j] == loads[j]);
            }
        }
    }
}

proof fn lemma_greedy_shape(sizes: Seq<u64>, p: Seq<usize>, k: int, w: int)
    requires
        w >= 1,
        0 <= k <= p.len(),
        forall|j: int| 0 <= j < p.len() ==> #[trigger] p[j] < sizes.len(),
    ensures
        greedy_groups(sizes, p, k, w).0.len() == w,
        greedy_groups(sizes, p, k, w).1.len() == w,
        forall|j: int| 0 <= j < w ==> 0 <= #[trigger] greedy_groups(sizes, p, k, w).1[j] <= k * (
        u64::MAX as int),
    decreases k,
{
    if k > 0 {
        lemma_greedy_shape(sizes, p, k - 1, w);
        let (g, l) = greedy_groups(sizes, p, k - 1, w);
        lemma_lightest_bounds(l);
        let item = p[k - 1];
        assert(p[k - 1] < sizes.len());
        assert forall|j: int| 0 <= j < w implies 0 <= #[trigger] greedy_groups(
            sizes,
            p,
            k,
            w,
        ).1[j] <= k * (u64::MAX as int) by {
            assert(l[j] <= (k - 1) * (u64::MAX as int));
            assert((k - 1) * (u64::MAX as int) + (u64::MAX as int) == k * (u64::MAX as int))
                by (nonlinear_arith);
        }
    }
}

/// Index of the first smallest load.
fn lightest_index(loads: &Vec<u128>) -> (m: usize)
    requires
        loads@.len() >= 1,
    ensures
        m == lightest(loads@.map_values(|x: u128| x as int)),
{
    let ghost view = loads@.map_values(|x: u128| x as int);
    let mut best: usize = 0;
    let mut j: usize = 1;
    assert(view.take(1).len() == 1);
    while j < loads.len()
        invariant
            1 <= j <= loads@.len(),
            view == loads@.map_values(|x: u128| x as int),
            best == lightest(view.take(j as int)),
            best < j,
        decreases loads@.len() - j,
    {
        let ghost t = view.take(j + 1);
        assert(t.drop_last() =~= view.take(j as int));
        if loads[j] < loads[best] {
            best = j;
        }
        j = j + 1;
    }
    assert(view.take(loads@.len() as int) =~= view);
    best
}

/// Splits items of the given sizes into size-balanced groups of item
/// indices, one per worker: largest items first (ties in input order) onto
/// the group with the smallest total so far (the first such group on
/// ties); groups left empty are dropped.
pub fn partition_groups(sizes: &[u64], workers: usize) -> (r: Vec<Vec<usize>>)
    requires
        workers >= 1 || sizes@.len() == 0,
    ensures
        exists|p: Seq<usize>|
            is_size_order(sizes@, p) && r@.map_values(|g: Vec<usize>| g@) == nonempty_groups(
                greedy_groups(sizes@, p, sizes@.len() as int, workers as int).0,
            ),
{
    let n = sizes.len();
    // Order the items: largest first, ties in input order.
    let mut order: Vec<usize> = Vec::new();
    let mut i: usize = 0;
    while i < n
        invariant
            i <= n,
            n == sizes@.len(),
            order@.len() == i,
            forall|k: int| 0 <= k < order@.len() ==> #[trigger] order@[k] < i,
            forall|x: usize| x < i ==> #[trigger] order@.contains(x),
            forall|a: int, b: int|
                0 <= a < b < order@.len() ==> sorts_before(
                    sizes@,
                    #[trigger] order@[a],
                    #[trigger] order@[b],
                ),
        decreases n - i,
    {
        let mut j: usize = 0;
        while j < order.len() && !(sizes[i] > sizes[order[j]])
            invariant
                j <= order@.len(),
                i < n,
                n == sizes@.len(),
                forall|k: int| 0 <= k < order@.len() ==> #[trigger] order@[k] < i,
                forall|k: int| 0 <= k < j ==> sizes@[i as int] <= sizes@[#[trigger] order@[k] as int],
            decreases order@.len() - j,
        {
            j = j + 1;
        }
        let ghost old_order = order@;
        order.insert(j, i);
        proof {
            assert forall|a: int, b: int| 0 <= a < b < order@.len() implies sorts_before(
                sizes@,
                #[trigger] order@[a],
                #[trigger] order@[b],
            ) by {
                if b < j {
                    assert(old_order[a] == order@[a] && old_order[b] == order@[b]);
                } else if b == j {
                    assert(old_order[a] == order@[a]);
                    assert(old_order[a] < i);
                } else if a < j {
                    assert(old_order[a] == order@[a] && old_order[b - 1] == order@[b]);
                } else if a == j {
                    assert(sizes@[i as int] > sizes@[old_order[j as int] as int]);
                    if b - 1 > j {
                        assert(sorts_before(sizes@, old_order[j as int], old_order[b - 1]));
                    }
                } else {
                    assert(old_order[a - 1] == order@[a] && old_order[b - 1] == order@[b]);
                }
            }
            assert forall|x: usize| x < i + 1 implies #[trigger] order@.contains(x) by {
                if x == i {
                    assert(order@[j as int] == i);
                } else {
                    assert(old_order.contains(x));
                    let k = choose|k: int| 0 <= k < old_order.len() && old_order[k] == x;
                    if k < j {
                        assert(order@[k] == x);
                    } else {
                        assert(order@[k + 1] == x);
                    }
                }
            }
        }
        i = i + 1;
    }
    let ghost p = order@;
    assert(is_size_order(sizes@, p));
    if n == 0 {
        let r: Vec<Vec<usize>> = Vec::new();
        proof {
            let w = workers as int;
            let g = greedy_groups(sizes@, p, 0, w).0;
            lemma_nonempty_of_empties(g);
            assert(r@.map_values(|g: Vec<usize>| g@) =~= nonempty_groups(g));
        }
        return r;
    }
    // Place each item onto the first lightest group.
    let mut groups: Vec<Vec<usize>> = Vec::new();
    let mut loads: Vec<u128> = Vec::new();
    let mut w: usize = 0;
    while w < workers
        invariant
            w <= workers,
            groups@.len() == w,
            loads@.len() == w,
            forall|j: int| 0 <= j < w ==> (#[trigger] groups@[j])@ == Seq::<usize>::empty(),
            forall|j: int| 0 <= j < w ==> #[trigger] loads@[j] == 0,
        decreases workers - w,
    {
        groups.push(Vec::new());
        loads.push(0);
        w = w + 1;
    }
    proof {
        let (g0, l0) = greedy_groups(sizes@, p, 0, workers as int);
        assert(groups@.map_values(|g: Vec<usize>| g@) =~= g0);
        assert(loads@.map_values(|x: u128| x as int) =~= l0);
    }
    let mut k: usize = 0;
    while k < n
        invariant
            k <= n,
            n == sizes@.len(),
            workers >= 1,
            order@ == p,
            is_size_order(sizes@, p),
            groups@.len() == workers,
            loads@.len() == workers,
            groups@.map_values(|g: Vec<usize>| g@) == greedy_groups(
                sizes@,
                p,
                k as int,
                workers as int,
            ).0,
            loads@.map_values(|x: u128| x as int) == greedy_groups(
                sizes@,
                p,
                k as int,
                workers as int,
            ).1,
        decreases n - k,
    {
        let item = order[k];
        proof {
            lemma_greedy_shape(sizes@, p, k as int, workers as int);
            lemma_greedy_shape(sizes@, p, k + 1, workers as int);
        }
        let m = lightest_index(&loads);
        let ghost gk = greedy_groups(sizes@, p, k as int, workers as int);
        proof {
            lemma_lightest_bounds(gk.1);
            assert(loads@[m as int] as int == gk.1[m as int]);
            assert(gk.1[m as int] <= k * (u64::MAX as int));
            assert(k * (u64::MAX as int) + (u64::MAX as int) <= u128::MAX) by (nonlinear_arith)
                requires
                    k <= u64::MAX,
            ;
        }
        let load = loads[m] + sizes[item] as u128;
        loads.set(m, load);
        let mut group: Vec<usize> = Vec::new();
        groups.set_and_swap(m, &mut group);
        group.push(item);
        groups.set(m, group);
        proof {
            let gk1 = greedy_groups(sizes@, p, k + 1, workers as int);
            assert(groups@.map_values(|g: Vec<usize>| g@) =~= gk1.0);
            assert(loads@.map_values(|x: u128| x as int) =~= gk1.1);
        }
        k = k + 1;
    }
    // Drop the groups left empty.
    let ghost all = groups@.map_values(|g: Vec<usize>| g@);
    let mut result: Vec<Vec<usize>> = Vec::new();
    let mut j: usize = 0;
    while j < groups.len()
        invariant
            j <= groups@.len(),
            groups@.len() == all.len(),
            forall|i: int| j <= i < groups@.len() ==> (#[trigger] groups@[i])@ == all[i],
            result@.map_values(|g: Vec<usize>| g@) == nonempty_groups(all.take(j as int)),
        decreases groups@.len() - j,
    {
        let mut group: Vec<usize> = Vec::new();
        groups.set_and_swap(j, &mut group);
        assert(all.take(j + 1).drop_last() =~= all.take(j as int));
        if group.len() > 0 {
            let ghost before = result@.map_values(|g: Vec<usize>| g@);
            result.push(group);
            assert(result@.map_values(|g: Vec<usize>| g@) =~= before.push(all[j as int]));
        }
        j = j + 1;
    }
    assert(all.take(all.len() as int) =~= all);
    result
}

proof fn lemma_nonempty_of_empties(g: Seq<Seq<usize>>)
    requires
        forall|i: int| 0 <= i < g.len() ==> (#[trigger] g[i]).len() == 0,
    ensures
        nonempty_groups(g) == Seq::<Seq<usize>>::empty(),
    decreases g.len(),
{
    if g.len() > 0 {
        lemma_nonempty_of_empties(g.drop_last());
    }
}

// ---------------------------------------------------------------------------
// Properties of the split
// ---------------------------------------------------------------------------
/// Occurrences of `x` in `s`.
pub open spec fn count_in(s: Seq<usize>, x: usize) -> nat
    decreases s.len(),
{
    if s.len() == 0 {
        0
    } else {
        count_in(s.drop_last(), x) + if s.last() == x {
            1nat
        } else {
            0nat
        }
    }
}

/// Occurrences of `x` over all groups.
pub open spec fn count_in_groups(g: Seq<Seq<usize>>, x: usize) -> nat
    decreases g.len(),
{
    if g.len() == 0 {
        0
    } else {
        count_in_groups(g.drop_last(), x) + count_in(g.last(), x)
    }
}

proof fn lemma_count_push(s: Seq<usize>, a: usize, x: usize)
    ensures
        count_in(s.push(a), x) == count_in(s, x) + if a == x {
            1nat
        } else {
            0nat
        },
{
    assert(s.push(a).drop_last() =~= s);
}

proof fn lemma_count_update(g: Seq<Seq<usize>>, m: int, item: usize, x: usize)
    requires
        0 <= m < g.len(),
    ensures
        count_in_groups(g.update(m, g[m].push(item)), x) == count_in_groups(g, x) + if item == x {
            1nat
        } else {
            0nat
        },
    decreases g.len(),
{
    let u = g.update(m, g[m].push(item));
    lemma_count_push(g[m], item, x);
    if m == g.len() - 1 {
        assert(u.drop_last() =~= g.drop_last());
    } else {
        assert(u.drop_last() =~= g.drop_last().update(m, g.drop_last()[m].push(item)));
        lemma_count_update(g.drop_last(), m, item, x);
    }
}

proof fn lemma_count_empties(g: Seq<Seq<usize>>, x: usize)
    requires
        forall|i: int| 0 <= i < g.len() ==> (#[trigger] g[i]).len() == 0,
    ensures
        count_in_groups(g, x) == 0,
    decreases g.len(),
{
    if g.len() > 0 {
        lemma_count_empties(g.drop_last(), x);
    }
}

proof fn lemma_count_greedy(sizes: Seq<u64>, p: Seq<usize>, k: int, w: int, x: usize)
    requires
        w >= 1,
        0 <= k <= p.len(),
        forall|j: int| 0 <= j < p.len() ==> #[trigger] p[j] < sizes.len(),
    ensures
        count_in_groups(greedy_groups(sizes, p, k, w).0, x) == count_in(p.take(k), x),
    decreases k,
{
    if k == 0 {
        lemma_count_empties(greedy_groups(sizes, p, 0, w).0, x);
        assert(p.take(0) =~= Seq::<usize>::empty());
    } else {
        lemma_count_greedy(sizes, p, k - 1, w, x);
        lemma_greedy_shape(sizes, p, k - 1, w);
        let (g, l) = greedy_groups(sizes, p, k - 1, w);
        lemma_lightest_bounds(l);
        lemma_count_update(g, lightest(l), p[k - 1], x);
        assert(p.take(k) =~= p.take(k - 1).push(p[k - 1]));
        lemma_count_push(p.take(k - 1), p[k - 1], x);
    }
}

proof fn lemma_count_nonempty(g: Seq<Seq<usize>>, x: usize)
    ensures
        count_in_groups(nonempty_groups(g), x) == count_in_groups(g, x),
        forall|i: int|
            0 <= i < nonempty_groups(g).len() ==> (#[trigger] nonempty_groups(g)[i]).len() > 0,
    decreases g.len(),
{
    if g.len() > 0 {
        lemma_count_nonempty(g.drop_last(), x);
        let rest = nonempty_groups(g.drop_last());
        if g.last().len() > 0 {
            assert(rest.push(g.last()).drop_last() =~= rest);
        } else {
            assert(count_in(g.last(), x) == 0);
        }
    }
}

proof fn lemma_count_once(s: Seq<usize>, x: usize)
    requires
        forall|a: int, b: int| 0 <= a < b < s.len() ==> s[a] != s[b],
    ensures
        count_in(s, x) == if s.contains(x) {
            1nat
        } else {
            0nat
        },
    decreases s.len(),
{
    if s.len() > 0 {
        let d = s.drop_last();
        lemma_count_once(d, x);
        if s.last() == x {
            assert(!d.contains(x)) by {
                if d.contains(x) {
                    let k = choose|k: int| 0 <= k < d.len() && d[k] == x;
                    assert(s[k] == s[s.len() - 1]);
                }
            }
            assert(s.contains(x)) by {
                assert(s[s.len() - 1] == x);
            }
        } else {
            assert(d.contains(x) == s.contains(x)) by {
                if s.contains(x) {
                    let k = choose|k: int| 0 <= k < s.len() && s[k] == x;
                    assert(d[k] == x);
                }
                if d.contains(x) {
                    let k = choose|k: int| 0 <= k < d.len() && d[k] == x;
                    assert(s[k] == x);
                }
            }
        }
    }
}

/// The split is a partition: every item index lies in exactly one group,
/// exactly once, no other value appears, and no group is empty.
pub proof fn lemma_partition_exact(sizes: Seq<u64>, p: Seq<usize>, workers: int)
    requires
        is_size_order(sizes, p),
        workers >= 1,
    ensures
        ({
            let groups = nonempty_groups(greedy_groups(sizes, p, sizes.len() as int, workers).0);
            &&& forall|x: usize| #[trigger]
                count_in_groups(groups, x) == if x < sizes.len() {
                    1nat
                } else {
                    0nat
                }
            &&& forall|i: int| 0 <= i < groups.len() ==> (#[trigger] groups[i]).len() > 0
        }),
{
    let n = sizes.len() as int;
    let g = greedy_groups(sizes, p, n, workers).0;
    assert forall|x: usize| #[trigger] count_in_groups(nonempty_groups(g), x) == if x
        < sizes.len() {
        1nat
    } else {
        0nat
    } by {
        lemma_count_nonempty(g, x);
        lemma_count_greedy(sizes, p, n, workers, x);
        assert(p.take(n) =~= p);
        assert forall|a: int, b: int| 0 <= a < b < p.len() implies p[a] != p[b] by {
            assert(sorts_before(sizes, p[a], p[b]));
        }
        lemma_count_once(p, x);
        if x >= sizes.len() {
            assert(!p.contains(x)) by {
                if p.contains(x) {
                    let k = choose|k: int| 0 <= k < p.len() && p[k] == x;
                    assert(p[k] < sizes.len());
                }
            }
        }
    }
    lemma_count_nonempty(g, 0);
}

proof fn lemma_lightest_first(l: Seq<int>, m: int)
    requires
        0 <= m < l.len(),
        forall|j: int| 0 <= j < l.len() ==> l[m] <= #[trigger] l[j],
        forall|j: int| 0 <= j < m ==> l[m] < #[trigger] l[j],
    ensures
        lightest(l) == m,
    decreases l.len(),
{
    if l.len() > 1 {
        let d = l.drop_last();
        if m < l.len() - 1 {
            lemma_lightest_first(d, m);
        } else {
            lemma_lightest_bounds(d);
            assert(d[lightest(d)] == l[lightest(d)]);
        }
    }
}

proof fn lemma_greedy_fills(sizes: Seq<u64>, p: Seq<usize>, k: int, w: int)
    requires
        w >= 1,
        0 <= k <= p.len(),
        forall|j: int| 0 <= j < p.len() ==> #[trigger] p[j] < sizes.len(),
        forall|i: int| 0 <= i < sizes.len() ==> #[trigger] sizes[i] > 0,
    ensures
        forall|j: int|
            0 <= j < w ==> ((#[trigger] greedy_groups(sizes, p, k, w).0[j]).len() > 0 <==> j < k),
        forall|j: int|
            0 <= j < w ==> (#[trigger] greedy_groups(sizes, p, k, w).1[j] > 0 <==> j < k),
    decreases k,
{
    lemma_greedy_shape(sizes, p, k, w);
    if k > 0 {
        lemma_greedy_fills(sizes, p, k - 1, w);
        lemma_greedy_shape(sizes, p, k - 1, w);
        let (g, l) = greedy_groups(sizes, p, k - 1, w);
        lemma_lightest_bounds(l);
        assert(sizes[p[k - 1] as int] > 0);
        if k - 1 < w {
            assert forall|j: int| 0 <= j < l.len() implies l[k - 1] <= #[trigger] l[j] by {}
            assert forall|j: int| 0 <= j < k - 1 implies l[k - 1] < #[trigger] l[j] by {}
            lemma_lightest_first(l, k - 1);
        }
    }
}

proof fn lemma_nonempty_prefix(g: Seq<Seq<usize>>, c: int)
    requires
        0 <= c <= g.len(),
        forall|j: int| 0 <= j < g.len() ==> ((#[trigger] g[j]).len() > 0 <==> j < c),
    ensures
        nonempty_groups(g).len() == c,
    decreases g.len(),
{
    if g.len() > 0 {
        if c == g.len() {
            lemma_nonempty_prefix(g.drop_last(), c - 1);
        } else {
            lemma_nonempty_prefix(g.drop_last(), c);
        }
    }
}

/// With every item of positive size, every worker gets work: there are as
/// many groups as workers, or as items when there are fewer items.
pub proof fn lemma_all_workers_busy(sizes: Seq<u64>, p: Seq<usize>, workers: int)
    requires
        is_size_order(sizes, p),
        workers >= 1,
        forall|i: int| 0 <= i < sizes.len() ==> #[trigger] sizes[i] > 0,
    ensures
        nonempty_groups(greedy_groups(sizes, p, sizes.len() as int, workers).0).len() == if workers
            < sizes.len() {
            workers
        } else {
            sizes.len() as int
        },
{
    let n = sizes.len() as int;
    lemma_greedy_fills(sizes, p, n, workers);
    lemma_greedy_shape(sizes, p, n, workers);
    let c = if workers < n {
        workers
    } else {
        n
    };
    lemma_nonempty_prefix(greedy_groups(sizes, p, n, workers).0, c);
}

} // verus!
