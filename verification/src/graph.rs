//! Reachability in directed graphs given by adjacency lists; used for the epsilon closures of
//! automata.
use vstd::prelude::*;

verus! {

/// The adjacency lists as sequences.
pub open spec fn adj_view(adj: Seq<Vec<usize>>) -> Seq<Seq<usize>> {
    adj.map_values(|v: Vec<usize>| v@)
}

/// Every edge of the adjacency lists leads to a node of the graph.
pub open spec fn adj_wf(adj: Seq<Seq<usize>>) -> bool {
    forall|i: int, j: int| 0 <= i < adj.len() && 0 <= j < adj[i].len() ==> #[trigger] adj[i][j] < adj.len()
}

/// There is an edge from `u` to `t`.
pub open spec fn edge(adj: Seq<Seq<usize>>, u: int, t: int) -> bool {
    0 <= u < adj.len() && exists|j: int| 0 <= j < adj[u].len() && adj[u][j] as int == t
}

/// There is a path of exactly `k` edges from `s` to `t`.
pub open spec fn path_in(adj: Seq<Seq<usize>>, s: int, t: int, k: nat) -> bool
    decreases k,
{
    if k == 0 {
        s == t
    } else {
        exists|u: int| path_in(adj, s, u, (k - 1) as nat) && #[trigger] edge(adj, u, t)
    }
}

/// `t` can be reached from `s` along edges of the graph (possibly by no edge at all).
pub open spec fn reachable(adj: Seq<Seq<usize>>, s: int, t: int) -> bool {
    exists|k: nat| path_in(adj, s, t, k)
}

/// A path followed by one more edge is a path.
pub proof fn lemma_path_extend(adj: Seq<Seq<usize>>, s: int, u: int, t: int, k: nat)
    requires
        path_in(adj, s, u, k),
        edge(adj, u, t),
    ensures
        path_in(adj, s, t, k + 1),
{
    assert(path_in(adj, s, u, ((k + 1) - 1) as nat));
}

/// A set of nodes that contains `s` and is closed under edges contains everything reachable
/// from `s`.
pub proof fn lemma_closed_contains_reachable(adj: Seq<Seq<usize>>, s: int, marked: Seq<bool>, t: int, k: nat)
    requires
        marked.len() == adj.len(),
        0 <= s < adj.len(),
        marked[s],
        forall|u: int, j: int|
            0 <= u < adj.len() && marked[u] && 0 <= j < adj[u].len() ==> #[trigger] marked[adj[u][j] as int],
        adj_wf(adj),
        path_in(adj, s, t, k),
    ensures
        0 <= t < adj.len() && marked[t],
    decreases k,
{
    if k > 0 {
        let u = choose|u: int| path_in(adj, s, u, (k - 1) as nat) && #[trigger] edge(adj, u, t);
        lemma_closed_contains_reachable(adj, s, marked, u, (k - 1) as nat);
        let j = choose|j: int| 0 <= j < adj[u].len() && adj[u][j] as int == t;
        assert(marked[adj[u][j] as int]);
    } else {
        assert(s == t);
    }
}

/// Whatever is reachable from a node of a graph whose edges stay in the graph is a node of it.
pub proof fn lemma_reachable_in_range(adj: Seq<Seq<usize>>, s: int, t: int)
    requires
        adj_wf(adj),
        0 <= s < adj.len(),
        reachable(adj, s, t),
    ensures
        0 <= t < adj.len(),
{
    let k = choose|k: nat| path_in(adj, s, t, k);
    if k > 0 {
        let u = choose|u: int| path_in(adj, s, u, (k - 1) as nat) && #[trigger] edge(adj, u, t);
        let j = choose|j: int| 0 <= j < adj[u].len() && adj[u][j] as int == t;
        assert(adj[u][j] < adj.len());
    }
}

/// The nodes reachable from `s`, in increasing order and without repetitions.
pub fn reachable_from(adj: &Vec<Vec<usize>>, s: usize) -> (r: Vec<usize>)
    requires
        adj_wf(adj_view(adj@)),
        s < adj@.len(),
    ensures
        forall|i: int, j: int| 0 <= i < j < r@.len() ==> r@[i] < r@[j],
        forall|t: int|
            #![trigger r@.contains(t as usize)]
            #![trigger reachable(adj_view(adj@), s as int, t)]
            0 <= t < adj@.len() ==> (r@.contains(t as usize) <==> reachable(
                adj_view(adj@),
                s as int,
                t,
            )),
        forall|i: int| 0 <= i < r@.len() ==> r@[i] < adj@.len(),
{
    let ghost g = adj_view(adj@);
    let n = adj.len();
    let mut marked: Vec<bool> = Vec::new();
    let mut i: usize = 0;
    while i < n
        invariant
            i <= n,
            n == adj@.len(),
            marked@.len() == i,
            forall|j: int| 0 <= j < i ==> !marked@[j],
        decreases n - i,
    {
        marked.push(false);
        i = i + 1;
    }
    let mut work: Vec<usize> = Vec::new();
    proof {
        lemma_count_true_none(marked@);
        lemma_count_true_update(marked@, s as int);
        lemma_count_true_bound(marked@.update(s as int, true));
    }
    marked.set(s, true);
    work.push(s);
    assert(work@[0] == s);
    assert(path_in(g, s as int, s as int, 0));
    let mut idx: usize = 0;
    while idx < work.len()
        invariant
            g == adj_view(adj@),
            adj_wf(g),
            n == adj@.len(),
            s < n,
            marked@.len() == n,
            marked@[s as int],
            idx <= work@.len(),
            forall|j: int| 0 <= j < work@.len() ==> #[trigger] work@[j] < n && marked@[work@[j] as int],
            forall|t: int| 0 <= t < n && #[trigger] marked@[t] ==> work@.contains(t as usize),
            forall|t: int| 0 <= t < n && #[trigger] marked@[t] ==> reachable(g, s as int, t),
            forall|p: int, j: int|
                0 <= p < idx && 0 <= j < g[work@[p] as int].len() ==> #[trigger] marked@[g[work@[p] as int][j] as int],
            work@.len() == count_true(marked@),
            count_true(marked@) <= n,
        decreases n - idx,
    {
        let u = work[idx];
        let ghost ku = choose|k: nat| path_in(g, s as int, u as int, k);
        assert(g[u as int] == adj@[u as int]@);
        let mut j: usize = 0;
        while j < adj[u].len()
            invariant
                g == adj_view(adj@),
                adj_wf(g),
                n == adj@.len(),
                s < n,
                u < n,
                g[u as int] == adj@[u as int]@,
                path_in(g, s as int, u as int, ku),
                marked@.len() == n,
                marked@[s as int],
                idx < work@.len(),
                work@[idx as int] == u,
                j <= adj@[u as int]@.len(),
                forall|q: int| 0 <= q < work@.len() ==> #[trigger] work@[q] < n && marked@[work@[q] as int],
                forall|t: int| 0 <= t < n && #[trigger] marked@[t] ==> work@.contains(t as usize),
                forall|t: int| 0 <= t < n && #[trigger] marked@[t] ==> reachable(g, s as int, t),
                forall|p: int, q: int|
                    0 <= p < idx && 0 <= q < g[work@[p] as int].len() ==> #[trigger] marked@[g[work@[p] as int][q] as int],
                forall|q: int| 0 <= q < j ==> #[trigger] marked@[g[u as int][q] as int],
                work@.len() == count_true(marked@),
                count_true(marked@) <= n,
            decreases adj@[u as int]@.len() - j,
        {
            let t = adj[u][j];
            assert(g[u as int][j as int] == t);
            if !marked[t] {
                proof {
                    assert(g[u as int][j as int] as int == t as int);
                    assert(edge(g, u as int, t as int));
                    lemma_path_extend(g, s as int, u as int, t as int, ku);
                    lemma_count_true_update(marked@, t as int);
                    lemma_count_true_bound(marked@.update(t as int, true));
                }
                marked.set(t, true);
                let ghost old_work = work@;
                work.push(t);
                proof {
                    assert(work@[work@.len() - 1] == t);
                    assert forall|x: int| 0 <= x < n && #[trigger] marked@[x] implies work@.contains(x as usize) by {
                        if x != t as int {
                            let p = choose|p: int| 0 <= p < old_work.len() && old_work[p] == x as usize;
                            assert(work@[p] == x as usize);
                        }
                    }
                }
            }
            j = j + 1;
        }
        idx = idx + 1;
    }
    proof {
        assert forall|u: int, j: int|
            0 <= u < n && marked@[u] && 0 <= j < g[u].len() implies #[trigger] marked@[g[u][j] as int] by {
            let p = choose|p: int| 0 <= p < work@.len() && work@[p] == u as usize;
        }
    }
    let mut r: Vec<usize> = Vec::new();
    let mut t: usize = 0;
    while t < n
        invariant
            g == adj_view(adj@),
            adj_wf(g),
            n == adj@.len(),
            s < n,
            t <= n,
            marked@.len() == n,
            marked@[s as int],
            forall|t: int| 0 <= t < n && #[trigger] marked@[t] ==> reachable(g, s as int, t),
            forall|u: int, j: int|
                0 <= u < n && marked@[u] && 0 <= j < g[u].len() ==> #[trigger] marked@[g[u][j] as int],
            forall|i: int, j: int| 0 <= i < j < r@.len() ==> r@[i] < r@[j],
            forall|i: int| 0 <= i < r@.len() ==> r@[i] < t,
            forall|x: int| 0 <= x < t ==> (r@.contains(x as usize) <==> marked@[x]),
        decreases n - t,
    {
        let ghost old_r = r@;
        if marked[t] {
            r.push(t);
            assert(r@[r@.len() - 1] == t);
        }
        proof {
            assert forall|x: int| 0 <= x < t + 1 implies (r@.contains(x as usize) <==> marked@[x]) by {
                if x < t {
                    if old_r.contains(x as usize) {
                        let p = choose|p: int| 0 <= p < old_r.len() && old_r[p] == x as usize;
                        assert(r@[p] == x as usize);
                    }
                    if r@.contains(x as usize) {
                        let p = choose|p: int| 0 <= p < r@.len() && r@[p] == x as usize;
                        if p < old_r.len() {
                            assert(old_r[p] == x as usize);
                        }
                    }
                } else {
                    if r@.contains(x as usize) {
                        let p = choose|p: int| 0 <= p < r@.len() && r@[p] == x as usize;
                        if p < old_r.len() {
                            assert(old_r[p] < t);
                        }
                    }
                }
            }
        }
        t = t + 1;
    }
    proof {
        assert forall|x: int| 0 <= x < n implies (r@.contains(x as usize) <==> #[trigger] reachable(g, s as int, x)) by {
            if reachable(g, s as int, x) {
                let k = choose|k: nat| path_in(g, s as int, x, k);
                lemma_closed_contains_reachable(g, s as int, marked@, x, k);
            }
            if r@.contains(x as usize) {
                assert(marked@[x]);
            }
        }
    }
    r
}

/// The number of `true` entries of a sequence of booleans.
pub open spec fn count_true(s: Seq<bool>) -> nat
    decreases s.len(),
{
    if s.len() == 0 {
        0
    } else {
        count_true(s.drop_last()) + if s.last() { 1nat } else { 0nat }
    }
}

/// A sequence holds at most as many `true` entries as it is long.
proof fn lemma_count_true_bound(s: Seq<bool>)
    ensures
        count_true(s) <= s.len(),
    decreases s.len(),
{
    if s.len() > 0 {
        lemma_count_true_bound(s.drop_last());
    }
}

/// A sequence of `false` entries holds no `true` entry.
proof fn lemma_count_true_none(s: Seq<bool>)
    requires
        forall|i: int| 0 <= i < s.len() ==> !s[i],
    ensures
        count_true(s) == 0,
    decreases s.len(),
{
    if s.len() > 0 {
        lemma_count_true_none(s.drop_last());
    }
}

/// Setting a `false` entry to `true` adds one `true` entry.
proof fn lemma_count_true_update(s: Seq<bool>, i: int)
    requires
        0 <= i < s.len(),
        !s[i],
    ensures
        count_true(s.update(i, true)) == count_true(s) + 1,
    decreases s.len(),
{
    let t = s.update(i, true);
    if i == s.len() - 1 {
        assert(t.drop_last() =~= s.drop_last());
    } else {
        lemma_count_true_update(s.drop_last(), i);
        assert(t.drop_last() =~= s.drop_last().update(i, true));
    }
}

} // verus!
