//! Cycle search in a directed graph given as a square matrix of booleans.
//!
//! Loops from a node to itself are not arcs: a cycle found here always runs
//! through at least two nodes.

use vstd::prelude::*;

verus! {

/// Every row of `m` is as long as `m` has rows.
pub open spec fn square(m: Seq<Vec<bool>>) -> bool {
    forall|i: int| 0 <= i < m.len() ==> (#[trigger] m[i])@.len() == m.len()
}

/// The graph has an arc from node `i` to another node `j`.
pub open spec fn arc(m: Seq<Vec<bool>>, i: int, j: int) -> bool {
    &&& 0 <= i < m.len()
    &&& 0 <= j < m.len()
    &&& i != j
    &&& m[i]@[j]
}

/// `c` lists the nodes of a closed walk: an arc leads from each node to the
/// next, and from the last back to the first.
pub open spec fn is_cycle(m: Seq<Vec<bool>>, c: Seq<int>) -> bool {
    &&& c.len() >= 2
    &&& forall|k: int| 0 <= k < c.len() - 1 ==> arc(m, #[trigger] c[k], c[k + 1])
    &&& arc(m, c[c.len() - 1], c[0])
}

/// No node occurs twice in `c`.
pub open spec fn distinct(c: Seq<int>) -> bool {
    forall|a: int, b: int| 0 <= a < b < c.len() ==> c[a] != c[b]
}

/// The node numbers of `c` as mathematical integers.
pub open spec fn as_ints(c: Seq<usize>) -> Seq<int> {
    Seq::new(c.len(), |k: int| c[k] as int)
}

/// How many entries of `s` are true.
pub open spec fn count_true(s: Seq<bool>) -> nat
    decreases s.len(),
{
    if s.len() == 0 {
        0
    } else {
        count_true(s.drop_last()) + (if s.last() {
            1nat
        } else {
            0nat
        })
    }
}

proof fn lemma_count_bounds(s: Seq<bool>)
    ensures
        count_true(s) <= s.len(),
    decreases s.len(),
{
    if s.len() > 0 {
        lemma_count_bounds(s.drop_last());
    }
}

proof fn lemma_count_flip(s: Seq<bool>, i: int, b: bool)
    requires
        0 <= i < s.len(),
    ensures
        count_true(s.update(i, b)) + (if s[i] {
            1nat
        } else {
            0nat
        }) == count_true(s) + (if b {
            1nat
        } else {
            0nat
        }),
    decreases s.len(),
{
    let t = s.update(i, b);
    if i == s.len() - 1 {
        assert(t.drop_last() =~= s.drop_last());
    } else {
        assert(t.drop_last() =~= s.drop_last().update(i, b));
        lemma_count_flip(s.drop_last(), i, b);
    }
}

/// Where every arc leads to a node of strictly smaller rank, no walk returns
/// to where it began.
pub proof fn lemma_ranked_graph_is_acyclic(m: Seq<Vec<bool>>, rank: Seq<int>, c: Seq<int>)
    requires
        rank.len() == m.len(),
        forall|i: int, j: int| #[trigger] arc(m, i, j) ==> rank[j] < rank[i],
    ensures
        !is_cycle(m, c),
{
    if is_cycle(m, c) {
        lemma_rank_falls_along(m, rank, c, c.len() - 1);
        assert(arc(m, c[c.len() - 1], c[0]));
    }
}

proof fn lemma_rank_falls_along(m: Seq<Vec<bool>>, rank: Seq<int>, c: Seq<int>, k: int)
    requires
        rank.len() == m.len(),
        forall|i: int, j: int| #[trigger] arc(m, i, j) ==> rank[j] < rank[i],
        is_cycle(m, c),
        0 <= k < c.len(),
    ensures
        rank[c[k]] <= rank[c[0]] - k,
    decreases k,
{
    if k > 0 {
        lemma_rank_falls_along(m, rank, c, k - 1);
        assert(arc(m, c[k - 1], c[k - 1 + 1]));
    }
}

fn live_successor(m: &Vec<Vec<bool>>, alive: &Vec<bool>, i: usize) -> (r: Option<usize>)
    requires
        square(m@),
        alive@.len() == m@.len(),
        i < m@.len(),
    ensures
        match r {
            Some(j) => arc(m@, i as int, j as int) && alive@[j as int],
            None => forall|j: int| #[trigger] arc(m@, i as int, j) ==> !alive@[j],
        },
{
    let n = m.len();
    let mut j: usize = 0;
    while j < n
        invariant
            n == m@.len(),
            square(m@),
            alive@.len() == n,
            i < n,
            j <= n,
            forall|k: int| 0 <= k < j && #[trigger] arc(m@, i as int, k) ==> !alive@[k],
        decreases n - j,
    {
        if j != i && m[i][j] && alive[j] {
            return Some(j);
        }
        j += 1;
    }
    None
}

/// Removes, pass after pass, every node all of whose arcs lead to nodes
/// removed before it. What is left when a pass removes nothing is returned as
/// `alive`, together with an arc from each such node to another.
fn prune(m: &Vec<Vec<bool>>) -> (r: (Vec<bool>, Vec<usize>, Ghost<Seq<int>>))
    requires
        square(m@),
    ensures
        r.0@.len() == m@.len(),
        r.1@.len() == m@.len(),
        r.2@.len() == m@.len(),
        forall|i: int, j: int|
            0 <= i < m@.len() && !r.0@[i] && #[trigger] arc(
                m@,
                i,
                j,
            ) ==> !r.0@[j] && r.2@[j] < r.2@[i],
        forall|i: int|
            0 <= i < m@.len() && r.0@[i] ==> arc(
                m@,
                i,
                #[trigger] r.1@[i] as int,
            ) && r.0@[r.1@[i] as int],
{
    let n = m.len();
    let mut alive: Vec<bool> = vec![true; n];
    let mut succ: Vec<usize> = vec![0usize; n];
    let ghost mut rank: Seq<int> = Seq::new(n as nat, |i: int| 0int);
    let ghost mut clock: int = 0;
    let mut changed = true;
    while changed
        invariant
            n == m@.len(),
            square(m@),
            alive@.len() == n,
            succ@.len() == n,
            rank.len() == n,
            forall|i: int| 0 <= i < n && !alive@[i] ==> #[trigger] rank[i] < clock,
            forall|i: int, j: int|
                0 <= i < n && !alive@[i] && #[trigger] arc(
                    m@,
                    i,
                    j,
                ) ==> !alive@[j] && rank[j] < rank[i],
            !changed ==> forall|i: int|
                0 <= i < n && alive@[i] ==> arc(
                    m@,
                    i,
                    #[trigger] succ@[i] as int,
                ) && alive@[succ@[i] as int],
        decreases
                count_true(alive@),
                (if changed {
                    1int
                } else {
                    0int
                }),
    {
        changed = false;
        let ghost before = alive@;
        let mut i: usize = 0;
        while i < n
            invariant
                n == m@.len(),
                square(m@),
                alive@.len() == n,
                succ@.len() == n,
                rank.len() == n,
                before.len() == n,
                i <= n,
                forall|k: int| 0 <= k < n && !alive@[k] ==> #[trigger] rank[k] < clock,
                forall|k: int, j: int|
                    0 <= k < n && !alive@[k] && #[trigger] arc(m@, k, j) ==> !alive@[j] && rank[j]
                        < rank[k],
                !changed ==> alive@ == before,
                !changed ==> forall|k: int|
                    0 <= k < i && alive@[k] ==> arc(
                        m@,
                        k,
                        #[trigger] succ@[k] as int,
                    ) && alive@[succ@[k] as int],
                changed ==> count_true(alive@) < count_true(before),
                count_true(alive@) <= count_true(before),
            decreases n - i,
        {
            if alive[i] {
                match live_successor(m, &alive, i) {
                    Some(j) => {
                        succ[i] = j;
                    },
                    None => {
                        proof {
                            lemma_count_flip(alive@, i as int, false);
                            rank = rank.update(i as int, clock);
                            clock = clock + 1;
                        }
                        alive[i] = false;
                        changed = true;
                    },
                }
            }
            i += 1;
        }
    }
    (alive, succ, Ghost(rank))
}

/// Searches the graph for a cycle through at least two nodes.
///
/// Returns the nodes of one such cycle in the order of its arcs, each node
/// once, or `None` when the graph has no such cycle at all.
pub fn find_cycle(m: &Vec<Vec<bool>>) -> (r: Option<Vec<usize>>)
    requires
        square(m@),
    ensures
        match r {
            Some(c) => is_cycle(m@, as_ints(c@)) && distinct(as_ints(c@)),
            None => forall|c: Seq<int>| !is_cycle(m@, c),
        },
{
    let n = m.len();
    let (alive, succ, Ghost(rank)) = prune(m);
    let mut s: usize = 0;
    while s < n && !alive[s]
        invariant
            n == m@.len(),
            alive@.len() == n,
            s <= n,
            forall|k: int| 0 <= k < s ==> !alive@[k],
        decreases n - s,
    {
        s += 1;
    }
    if s == n {
        proof {
            assert forall|c: Seq<int>| !is_cycle(m@, c) by {
                lemma_ranked_graph_is_acyclic(m@, rank, c);
            }
        }
        return None;
    }
    let mut visited: Vec<bool> = vec![false; n];
    visited[s] = true;
    let mut path: Vec<usize> = Vec::new();
    path.push(s);
    let mut cur: usize = s;
    proof {
        lemma_count_bounds(visited@);
        assert forall|x: int| 0 <= x < n implies (#[trigger] visited@[x] <==> exists|k: int|
            0 <= k < path@.len() && #[trigger] path@[k] == x) by {
            if x == s {
                assert(path@[0] == x);
            }
        }
    }
    loop
        invariant
            n == m@.len(),
            square(m@),
            alive@.len() == n,
            succ@.len() == n,
            visited@.len() == n,
            forall|i: int|
                0 <= i < n && alive@[i] ==> arc(
                    m@,
                    i,
                    #[trigger] succ@[i] as int,
                ) && alive@[succ@[i] as int],
            path@.len() >= 1,
            cur == path@[path@.len() - 1],
            forall|k: int| 0 <= k < path@.len() ==> (
                #[trigger] path@[k]
            ) < n && alive@[path@[k] as int],
            forall|k: int| 0 <= k < path@.len() - 1 ==> arc(
                m@,
                #[trigger] path@[k] as int,
                path@[k + 1] as int,
            ),
            forall|x: int|
                0 <= x < n ==> (#[trigger] visited@[x] <==> exists|k: int|
                    0 <= k < path@.len() && #[trigger] path@[k] == x),
            forall|a: int, b: int| 0 <= a < b < path@.len() ==> path@[a] != path@[b],
            count_true(visited@) <= n,
        decreases n - count_true(visited@),
    {
        let nxt = succ[cur];
        assert(arc(m@, cur as int, nxt as int) && alive@[nxt as int]);
        if visited[nxt] {
            let len = path.len();
            let mut k: usize = 0;
            while path[k] != nxt
                invariant
                    len == path@.len(),
                    k < len,
                    exists|w: int| k <= w < path@.len() && #[trigger] path@[w] == nxt,
                decreases path@.len() - k,
            {
                k += 1;
            }
            assert(k != len - 1);
            let mut cycle: Vec<usize> = Vec::new();
            let mut t: usize = k;
            while t < len
                invariant
                    len == path@.len(),
                    k <= t <= len,
                    cycle@.len() == t - k,
                    forall|q: int| 0 <= q < cycle@.len() ==> #[trigger] cycle@[q] == path@[k + q],
                decreases len - t,
            {
                cycle.push(path[t]);
                t += 1;
            }
            proof {
                let c = as_ints(cycle@);
                assert(c.len() >= 2);
                assert forall|q: int| 0 <= q < c.len() - 1 implies arc(
                    m@,
                    #[trigger] c[q],
                    c[q + 1],
                ) by {
                    assert(arc(m@, path@[k + q] as int, path@[k + q + 1] as int));
                }
                assert(c[c.len() - 1] == cur as int);
                assert(c[0] == nxt as int);
            }
            return Some(cycle);
        }
        proof {
            lemma_count_flip(visited@, nxt as int, true);
            lemma_count_bounds(visited@.update(nxt as int, true));
        }
        let ghost old_path = path@;
        visited[nxt] = true;
        path.push(nxt);
        cur = nxt;
        proof {
            assert forall|x: int| 0 <= x < n implies (#[trigger] visited@[x] <==> exists|k: int|
                0 <= k < path@.len() && #[trigger] path@[k] == x) by {
                if x == nxt {
                    assert(path@[path@.len() - 1] == x);
                } else if visited@[x] {
                    let k = choose|k: int| 0 <= k < old_path.len() && #[trigger] old_path[k] == x;
                    assert(path@[k] == x);
                } else {
                    if exists|k: int| 0 <= k < path@.len() && #[trigger] path@[k] == x {
                        let k = choose|k: int| 0 <= k < path@.len() && #[trigger] path@[k] == x;
                        assert(old_path[k] == x);
                    }
                }
            }
        }
    }
}

} // verus!
