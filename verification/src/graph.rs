//! Dependency graphs over node numbers: a build order where there is one,
//! a cycle where there is none.

use vstd::prelude::*;

verus! {

/// The graph as plain sequences: `deps[i]` lists the nodes that node `i` depends on.
pub open spec fn graph_view(deps: &Vec<Vec<usize>>) -> Seq<Seq<usize>> {
    Seq::new(deps@.len(), |i: int| deps@[i]@)
}

/// Every dependency names a node of the graph.
pub open spec fn graph_wf(g: Seq<Seq<usize>>) -> bool {
    forall|i: int, j: int| 0 <= i < g.len() && 0 <= j < g[i].len() ==> (#[trigger] g[i][j]) < g.len()
}

/// `order` lists nodes of `g`, none twice, each after everything it depends on.
pub open spec fn is_build_prefix(g: Seq<Seq<usize>>, order: Seq<usize>) -> bool {
    &&& order.no_duplicates()
    &&& forall|k: int| 0 <= k < order.len() ==> (#[trigger] order[k]) < g.len()
    &&& forall|k: int, j: int|
        0 <= k < order.len() && 0 <= j < g[order[k] as int].len() ==> built_before(
            order,
            k,
            #[trigger] g[order[k] as int][j],
        )
}

/// `node` stands in `order` at a position before `k`.
pub open spec fn built_before(order: Seq<usize>, k: int, node: usize) -> bool {
    exists|m: int| 0 <= m < k && #[trigger] order[m] == node
}

/// `order` holds every node of `g` once, each after everything it depends on.
pub open spec fn is_build_order(g: Seq<Seq<usize>>, order: Seq<usize>) -> bool {
    &&& order.len() == g.len()
    &&& is_build_prefix(g, order)
}

/// `cycle` is a closed walk along dependencies: each node depends on the next,
/// the last one on the first.
pub open spec fn is_cycle(g: Seq<Seq<usize>>, cycle: Seq<usize>) -> bool {
    &&& cycle.len() > 0
    &&& forall|k: int|
        0 <= k < cycle.len() ==> (#[trigger] cycle[k]) < g.len() && g[cycle[k] as int].contains(
            cycle[if k + 1 == cycle.len() { 0 } else { k + 1 }],
        )
}

/// `placed` says of each node whether it stands in `order`.
spec fn marks_order(placed: Seq<bool>, order: Seq<usize>) -> bool {
    forall|n: int| 0 <= n < placed.len() ==> (#[trigger] placed[n] <==> order.contains(n as usize))
}

/// Whether every dependency of `node` is placed.
fn is_ready(deps: &Vec<Vec<usize>>, placed: &Vec<bool>, node: usize) -> (r: bool)
    requires
        graph_wf(graph_view(deps)),
        placed@.len() == deps@.len(),
        node < deps@.len(),
    ensures
        r <==> forall|j: int| 0 <= j < deps@[node as int]@.len() ==> placed@[deps@[node as int]@[j] as int],
{
    let row = &deps[node];
    let mut j: usize = 0;
    while j < row.len()
        invariant
            graph_wf(graph_view(deps)),
            placed@.len() == deps@.len(),
            node < deps@.len(),
            row@ == deps@[node as int]@,
            j <= row@.len(),
            forall|t: int| 0 <= t < j ==> placed@[row@[t] as int],
        decreases row@.len() - j,
    {
        assert(graph_view(deps)[node as int][j as int] < deps@.len());
        if !placed[row[j]] {
            return false;
        }
        j += 1;
    }
    true
}

/// The first node at or after `from` that is not placed and is ready, if any.
fn next_ready(deps: &Vec<Vec<usize>>, placed: &Vec<bool>) -> (r: Option<usize>)
    requires
        graph_wf(graph_view(deps)),
        placed@.len() == deps@.len(),
    ensures
        match r {
            Some(n) => n < deps@.len() && !placed@[n as int] && forall|j: int|
                0 <= j < deps@[n as int]@.len() ==> placed@[deps@[n as int]@[j] as int],
            None => forall|n: int|
                0 <= n < deps@.len() && !placed@[n] ==> exists|j: int|
                    0 <= j < deps@[n]@.len() && !placed@[#[trigger] deps@[n]@[j] as int],
        },
{
    let mut n: usize = 0;
    while n < deps.len()
        invariant
            graph_wf(graph_view(deps)),
            placed@.len() == deps@.len(),
            n <= deps@.len(),
            forall|m: int|
                0 <= m < n && !placed@[m] ==> exists|j: int|
                    0 <= j < deps@[m]@.len() && !placed@[#[trigger] deps@[m]@[j] as int],
        decreases deps@.len() - n,
    {
        if !placed[n] && is_ready(deps, placed, n) {
            return Some(n);
        }
        n += 1;
    }
    None
}

/// An unplaced dependency of the unplaced node `node`.
fn blocking_dep(deps: &Vec<Vec<usize>>, placed: &Vec<bool>, node: usize) -> (r: usize)
    requires
        graph_wf(graph_view(deps)),
        placed@.len() == deps@.len(),
        node < deps@.len(),
        exists|j: int| 0 <= j < deps@[node as int]@.len() && !placed@[#[trigger] deps@[node as int]@[j] as int],
    ensures
        r < deps@.len(),
        !placed@[r as int],
        deps@[node as int]@.contains(r),
{
    let row = &deps[node];
    let mut j: usize = 0;
    while j < row.len()
        invariant
            graph_wf(graph_view(deps)),
            placed@.len() == deps@.len(),
            node < deps@.len(),
            row@ == deps@[node as int]@,
            j <= row@.len(),
            forall|t: int| 0 <= t < j ==> placed@[row@[t] as int],
        decreases row@.len() - j,
    {
        assert(graph_view(deps)[node as int][j as int] < deps@.len());
        if !placed[row[j]] {
            return row[j];
        }
        j += 1;
    }
    proof {
        let w = choose|w: int| 0 <= w < deps@[node as int]@.len() && !placed@[#[trigger] deps@[node as int]@[w] as int];
        assert(placed@[row@[w] as int]);
    }
    0
}

/// A closed walk among the nodes that no build order can reach, found by
/// following unplaced dependencies from `start` until a node comes back.
fn find_cycle(deps: &Vec<Vec<usize>>, placed: &Vec<bool>, start: usize) -> (r: Vec<usize>)
    requires
        graph_wf(graph_view(deps)),
        placed@.len() == deps@.len(),
        start < deps@.len(),
        !placed@[start as int],
        forall|n: int|
            0 <= n < deps@.len() && !placed@[n] ==> exists|j: int|
                0 <= j < deps@[n]@.len() && !placed@[#[trigger] deps@[n]@[j] as int],
    ensures
        is_cycle(graph_view(deps), r@),
{
    let n = deps.len();
    // seen[v] is the place of v on the walk, or n while v has not been walked.
    let mut seen: Vec<usize> = Vec::new();
    let mut i: usize = 0;
    while i < n
        invariant
            i <= n,
            seen@.len() == i,
            forall|t: int| 0 <= t < i ==> seen@[t] == n,
        decreases n - i,
    {
        seen.push(n);
        i += 1;
    }
    let mut walk: Vec<usize> = Vec::new();
    let mut cur = start;
    let ghost g = graph_view(deps);
    while seen[cur] == n
        invariant
            n == deps@.len(),
            g == graph_view(deps),
            graph_wf(g),
            placed@.len() == n,
            seen@.len() == n,
            cur < n,
            !placed@[cur as int],
            walk@.len() <= n,
            forall|n2: int|
                0 <= n2 < deps@.len() && !placed@[n2] ==> exists|j: int|
                    0 <= j < deps@[n2]@.len() && !placed@[#[trigger] deps@[n2]@[j] as int],
            forall|k: int| 0 <= k < walk@.len() ==> (#[trigger] walk@[k]) < n && seen@[walk@[k] as int] == k,
            forall|v: int| 0 <= v < n && seen@[v] != n ==> seen@[v] < walk@.len() && walk@[seen@[v] as int] == v,
            forall|k: int| 0 <= k < walk@.len() - 1 ==> g[(#[trigger] walk@[k]) as int].contains(walk@[k + 1]),
            walk@.len() > 0 ==> g[walk@[walk@.len() - 1] as int].contains(cur),
        decreases n - walk@.len(),
    {
        proof {
            // the walk holds distinct nodes, so it cannot be full while `cur` is new
            if walk@.len() == n {
                lemma_full_walk_sees_all(walk@, seen@, n as int, cur as int);
            }
        }
        seen.set(cur, walk.len());
        walk.push(cur);
        let next = blocking_dep(deps, placed, cur);
        cur = next;
    }
    let from = seen[cur];
    let mut cycle: Vec<usize> = Vec::new();
    let mut k: usize = from;
    while k < walk.len()
        invariant
            from <= k <= walk@.len(),
            cycle@ == walk@.subrange(from as int, k as int),
        decreases walk@.len() - k,
    {
        cycle.push(walk[k]);
        k += 1;
    }
    proof {
        let c = cycle@;
        assert(c == walk@.subrange(from as int, walk@.len() as int));
        assert(walk@[from as int] == cur);
        assert forall|t: int| 0 <= t < c.len() implies (#[trigger] c[t]) < g.len() && g[c[t] as int].contains(
            c[if t + 1 == c.len() { 0 } else { t + 1 }],
        ) by {
            assert(c[t] == walk@[from + t]);
            if t + 1 == c.len() {
                assert(c[0] == cur);
            } else {
                assert(c[t + 1] == walk@[from + t + 1]);
            }
        }
    }
    cycle
}

/// A walk of `n` distinct nodes, each recorded in `seen`, leaves no node unrecorded.
proof fn lemma_full_walk_sees_all(walk: Seq<usize>, seen: Seq<usize>, n: int, cur: int)
    requires
        n <= usize::MAX,
        walk.len() == n,
        seen.len() == n,
        0 <= cur < n,
        forall|k: int| 0 <= k < walk.len() ==> (#[trigger] walk[k]) < n && seen[walk[k] as int] == k,
    ensures
        seen[cur] != n,
{
    // walk is injective into 0..n and has n entries, so it is onto
    let s = walk.to_set();
    assert(walk.no_duplicates()) by {
        assert forall|a: int, b: int| 0 <= a < walk.len() && 0 <= b < walk.len() && a != b implies walk[a] != walk[b] by {
            if walk[a] == walk[b] {
                assert(seen[walk[a] as int] == a);
                assert(seen[walk[b] as int] == b);
            }
        }
    }
    walk.unique_seq_to_set();
    let full = Set::new(|v: usize| 0 <= v < n);
    assert(s.subset_of(full)) by {
        assert forall|v: usize| s.contains(v) implies full.contains(v) by {
            let k = choose|k: int| 0 <= k < walk.len() && walk[k] == v;
            assert(walk[k] < n);
        }
    }
    lemma_usize_range_len(n as nat);
    vstd::set_lib::lemma_subset_equality(s, full);
    assert(full.contains(cur as usize));
    assert(s.contains(cur as usize));
    let k = choose|k: int| 0 <= k < walk.len() && walk[k] == cur as usize;
    assert(seen[walk[k] as int] == k);
}

/// The set of `usize` below `n` is finite and has `n` members.
proof fn lemma_usize_range_len(n: nat)
    requires
        n <= usize::MAX + 1,
    ensures
        Set::new(|v: usize| 0 <= v < n).finite(),
        Set::new(|v: usize| 0 <= v < n).len() == n,
    decreases n,
{
    let s = Set::new(|v: usize| 0 <= v < n);
    if n == 0 {
        assert(s =~= Set::<usize>::empty());
    } else {
        let m = (n - 1) as nat;
        let t = Set::new(|v: usize| 0 <= v < m);
        lemma_usize_range_len(m);
        assert(s =~= t.insert(m as usize));
    }
}

/// Orders the nodes so that each comes after everything it depends on, or
/// returns a cycle of dependencies where no such order exists.
pub fn topological_sort(deps: &Vec<Vec<usize>>) -> (r: Result<Vec<usize>, Vec<usize>>)
    requires
        graph_wf(graph_view(deps)),
    ensures
        match r {
            Ok(order) => is_build_order(graph_view(deps), order@),
            Err(cycle) => is_cycle(graph_view(deps), cycle@),
        },
{
    let n = deps.len();
    let ghost g = graph_view(deps);
    let mut placed: Vec<bool> = Vec::new();
    let mut i: usize = 0;
    while i < n
        invariant
            i <= n,
            placed@.len() == i,
            forall|t: int| 0 <= t < i ==> !placed@[t],
        decreases n - i,
    {
        placed.push(false);
        i += 1;
    }
    let mut order: Vec<usize> = Vec::new();
    while order.len() < n
        invariant
            n == deps@.len(),
            g == graph_view(deps),
            graph_wf(g),
            placed@.len() == n,
            order@.len() <= n,
            is_build_prefix(g, order@),
            marks_order(placed@, order@),
        decreases n - order@.len(),
    {
        match next_ready(deps, &placed) {
            Some(node) => {
                let ghost before = order@;
                placed.set(node, true);
                order.push(node);
                proof {
                    let after = order@;
                    assert(after == before.push(node));
                    assert(!before.contains(node));
                    assert(after.no_duplicates()) by {
                        assert forall|a: int, b: int| 0 <= a < after.len() && 0 <= b < after.len() && a != b implies after[a] != after[b] by {
                            if a == before.len() {
                                assert(before[b] == after[b]);
                                assert(before.contains(before[b]));
                            } else if b == before.len() {
                                assert(before[a] == after[a]);
                                assert(before.contains(before[a]));
                            }
                        }
                    }
                    assert forall|k: int, j: int| 0 <= k < after.len() && 0 <= j < g[after[k] as int].len() implies built_before(
                        after,
                        k,
                        #[trigger] g[after[k] as int][j],
                    ) by {
                        let d = g[after[k] as int][j];
                        if k < before.len() {
                            assert(after[k] == before[k]);
                            assert(built_before(before, k, g[before[k] as int][j]));
                            let m = choose|m: int| 0 <= m < k && #[trigger] before[m] == d;
                            assert(after[m] == d);
                        } else {
                            assert(after[k] == node);
                            assert(d == deps@[node as int]@[j]);
                            assert(d < n);
                            assert(before.contains(d));
                            let m = choose|m: int| 0 <= m < before.len() && before[m] == d;
                            assert(after[m] == d);
                        }
                    }
                    assert forall|v: int| 0 <= v < placed@.len() implies (#[trigger] placed@[v] <==> after.contains(
                        v as usize,
                    )) by {
                        if v == node {
                            assert(after[before.len() as int] == node);
                        } else {
                            if before.contains(v as usize) {
                                let m = choose|m: int| 0 <= m < before.len() && before[m] == v as usize;
                                assert(after[m] == v as usize);
                            }
                            if after.contains(v as usize) {
                                let m = choose|m: int| 0 <= m < after.len() && after[m] == v as usize;
                                assert(m < before.len());
                                assert(before[m] == v as usize);
                            }
                        }
                    }
                }
            },
            None => {
                let start = first_unplaced(&placed, Ghost(order@));
                return Err(find_cycle(deps, &placed, start));
            },
        }
    }
    Ok(order)
}

/// A node that is not placed, while fewer nodes are placed than there are.
fn first_unplaced(placed: &Vec<bool>, Ghost(order): Ghost<Seq<usize>>) -> (r: usize)
    requires
        order.len() < placed@.len(),
        order.no_duplicates(),
        marks_order(placed@, order),
        forall|k: int| 0 <= k < order.len() ==> (#[trigger] order[k]) < placed@.len(),
    ensures
        r < placed@.len(),
        !placed@[r as int],
{
    let mut i: usize = 0;
    while i < placed.len()
        invariant
            i <= placed@.len(),
            forall|t: int| 0 <= t < i ==> placed@[t],
        decreases placed@.len() - i,
    {
        if !placed[i] {
            return i;
        }
        i += 1;
    }
    proof {
        // every node is placed, so `order` holds them all: it cannot be shorter
        let n = placed@.len();
        let full = Set::new(|v: usize| 0 <= v < n);
        lemma_usize_range_len(n);
        order.unique_seq_to_set();
        assert(full.subset_of(order.to_set())) by {
            assert forall|v: usize| full.contains(v) implies order.to_set().contains(v) by {
                assert(placed@[v as int]);
                assert(order.contains(v));
            }
        }
        vstd::set_lib::lemma_len_subset(full, order.to_set());
    }
    0
}

/// The place of `node` in `order`.
pub open spec fn position(order: Seq<usize>, node: usize) -> int {
    choose|p: int| 0 <= p < order.len() && order[p] == node
}

/// A build order holds every node of the graph.
pub proof fn lemma_build_order_covers(g: Seq<Seq<usize>>, order: Seq<usize>)
    requires
        is_build_order(g, order),
    ensures
        forall|v: usize| v < g.len() ==> order.contains(v),
{
    lemma_order_holds_all(g, order);
}

proof fn lemma_order_holds_all(g: Seq<Seq<usize>>, order: Seq<usize>)
    requires
        is_build_order(g, order),
    ensures
        forall|v: usize| v < g.len() ==> order.contains(v),
{
    let n = g.len();
    let full = Set::new(|v: usize| 0 <= v < n);
    order.unique_seq_to_set();
    assert(n <= usize::MAX + 1) by {
        lemma_len_of_usize_set(order.to_set());
    }
    lemma_usize_range_len(n);
    assert(order.to_set().subset_of(full)) by {
        assert forall|v: usize| order.to_set().contains(v) implies full.contains(v) by {
            let k = choose|k: int| 0 <= k < order.len() && order[k] == v;
            assert(order[k] < n);
        }
    }
    vstd::set_lib::lemma_subset_equality(order.to_set(), full);
    assert forall|v: usize| v < g.len() implies order.contains(v) by {
        assert(full.contains(v));
    }
}

/// A finite set of `usize` has at most `usize::MAX + 1` members.
proof fn lemma_len_of_usize_set(s: Set<usize>)
    requires
        s.finite(),
    ensures
        s.len() <= usize::MAX + 1,
{
    let all = Set::new(|v: usize| 0 <= v < usize::MAX + 1);
    lemma_usize_range_len((usize::MAX + 1) as nat);
    assert(s.subset_of(all));
    vstd::set_lib::lemma_len_subset(s, all);
}

/// In a build order a node stands after each node it depends on.
pub proof fn lemma_dependency_is_built_first(g: Seq<Seq<usize>>, order: Seq<usize>, node: usize, dep: usize)
    requires
        is_build_order(g, order),
        node < g.len(),
        g[node as int].contains(dep),
    ensures
        order.contains(node),
        order.contains(dep),
        0 <= position(order, dep) < position(order, node) < order.len(),
{
    lemma_order_holds_all(g, order);
    assert(order.contains(node));
    let p = position(order, node);
    assert(0 <= p < order.len() && order[p] == node);
    let j = choose|j: int| 0 <= j < g[node as int].len() && g[node as int][j] == dep;
    assert(built_before(order, p, g[order[p] as int][j]));
    let m = choose|m: int| 0 <= m < p && #[trigger] order[m] == dep;
    assert(order[m] == dep);
    let q = position(order, dep);
    assert(0 <= q < order.len() && order[q] == dep);
    assert(q == m);
}

/// Along a closed walk the place in a build order would fall with every step.
proof fn lemma_walk_descends(g: Seq<Seq<usize>>, order: Seq<usize>, cycle: Seq<usize>, k: int)
    requires
        is_build_order(g, order),
        is_cycle(g, cycle),
        0 <= k < cycle.len(),
    ensures
        position(order, cycle[k]) + k <= position(order, cycle[0]),
    decreases k,
{
    if k > 0 {
        lemma_walk_descends(g, order, cycle, k - 1);
        let prev = cycle[k - 1];
        assert(prev < g.len() && g[prev as int].contains(cycle[k]));
        lemma_dependency_is_built_first(g, order, prev, cycle[k]);
    }
}

/// A graph that has a build order has no cycle.
pub proof fn lemma_build_order_excludes_cycle(g: Seq<Seq<usize>>, order: Seq<usize>, cycle: Seq<usize>)
    requires
        is_build_order(g, order),
    ensures
        !is_cycle(g, cycle),
{
    if is_cycle(g, cycle) {
        let last = cycle.len() - 1;
        lemma_walk_descends(g, order, cycle, last);
        let node = cycle[last];
        assert(node < g.len() && g[node as int].contains(cycle[0]));
        lemma_dependency_is_built_first(g, order, node, cycle[0]);
    }
}

} // verus!
