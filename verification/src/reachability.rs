//! Reachability over an adjacency table, restricted to available switches.
//!
//! The mathematical model: an adjacency table is a `Seq<Seq<usize>>` giving,
//! for each dense switch index, the dense indices of its directly wired
//! neighbors.  A switch pair is reachable when a path of currently available
//! switches connects them; an unavailable switch can neither originate nor
//! relay traffic, so every node of the path, the endpoints included, must be
//! available.  In particular a switch reaches itself exactly when it is
//! available.

use vstd::prelude::*;
use vstd::set_lib::{lemma_int_range, lemma_len_subset, set_int_range};
use crate::topology::NetworkTopology;

verus! {

/// The adjacency table mentions only dense indices below its own length.
pub open spec fn adjacency_in_bounds(adj: Seq<Seq<usize>>) -> bool {
    forall|i: int, k: int|
        0 <= i < adj.len() && 0 <= k < adj[i].len() ==> (#[trigger] adj[i][k]) < adj.len()
}

/// Wiring is undirected: every listed neighbor lists the node back.
pub open spec fn adjacency_symmetric(adj: Seq<Seq<usize>>) -> bool {
    forall|a: int, b: int| edge(adj, a, b) ==> edge(adj, b, a)
}

/// There is a direct wire from dense index `a` to dense index `b`.
pub open spec fn edge(adj: Seq<Seq<usize>>, a: int, b: int) -> bool {
    &&& 0 <= a < adj.len()
    &&& 0 <= b < adj.len()
    &&& exists|k: int| 0 <= k < adj[a].len() && adj[a][k] == b
}

/// `p` is a chain of directly wired, currently available switches.
pub open spec fn valid_path(adj: Seq<Seq<usize>>, avail: Seq<bool>, p: Seq<int>) -> bool {
    &&& p.len() > 0
    &&& forall|k: int| 0 <= k < p.len() ==> 0 <= #[trigger] p[k] < avail.len() && avail[p[k]]
    &&& forall|k: int| 0 < k < p.len() ==> edge(adj, p[k - 1], #[trigger] p[k])
}

/// Switch `from` can currently communicate with switch `to`: some path of
/// available switches starts at `from` and ends at `to`.  The one-element
/// path makes a switch reach itself exactly when it is available.
pub open spec fn reachable(adj: Seq<Seq<usize>>, avail: Seq<bool>, from: int, to: int) -> bool {
    exists|p: Seq<int>|
        valid_path(adj, avail, p) && p.first() == from && p.last() == to
}

/// Both endpoints of a reachable pair are available.
pub proof fn lemma_reachable_endpoints_available(
    adj: Seq<Seq<usize>>,
    avail: Seq<bool>,
    from: int,
    to: int,
)
    requires
        reachable(adj, avail, from, to),
    ensures
        0 <= from < avail.len() && avail[from],
        0 <= to < avail.len() && avail[to],
{
    let p = choose|p: Seq<int>|
        valid_path(adj, avail, p) && p.first() == from && p.last() == to;
    assert(avail[p[0]]);
    assert(avail[p[p.len() - 1]]);
}

/// A switch is reachable from itself exactly when it is available.
pub proof fn lemma_self_reachability(adj: Seq<Seq<usize>>, avail: Seq<bool>, x: int)
    requires
        0 <= x < avail.len(),
    ensures
        reachable(adj, avail, x, x) <==> avail[x],
{
    if avail[x] {
        let p = seq![x];
        assert(valid_path(adj, avail, p) && p.first() == x && p.last() == x);
    }
    if reachable(adj, avail, x, x) {
        lemma_reachable_endpoints_available(adj, avail, x, x);
    }
}

/// Reachability extends along a wire to an available neighbor.
pub proof fn lemma_reachable_step(
    adj: Seq<Seq<usize>>,
    avail: Seq<bool>,
    from: int,
    via: int,
    to: int,
)
    requires
        reachable(adj, avail, from, via),
        edge(adj, via, to),
        0 <= to < avail.len(),
        avail[to],
    ensures
        reachable(adj, avail, from, to),
{
    let p = choose|p: Seq<int>|
        valid_path(adj, avail, p) && p.first() == from && p.last() == via;
    let q = p.push(to);
    assert forall|k: int| 0 < k < q.len() implies edge(adj, q[k - 1], #[trigger] q[k]) by {
        if k < q.len() - 1 {
            assert(q[k - 1] == p[k - 1] && q[k] == p[k]);
        } else {
            assert(q[k - 1] == p.last() && q[k] == to);
        }
    }
    assert(valid_path(adj, avail, q) && q.first() == from && q.last() == to);
}

/// Granting availability to more switches never severs a connection: every
/// pair reachable under the sparser availability stays reachable under the
/// wider one.
pub proof fn lemma_reachable_monotone(
    adj: Seq<Seq<usize>>,
    avail_sparse: Seq<bool>,
    avail_wide: Seq<bool>,
    from: int,
    to: int,
)
    requires
        avail_sparse.len() == avail_wide.len(),
        forall|i: int| 0 <= i < avail_sparse.len() && avail_sparse[i] ==> avail_wide[i],
        reachable(adj, avail_sparse, from, to),
    ensures
        reachable(adj, avail_wide, from, to),
{
    let p = choose|p: Seq<int>|
        valid_path(adj, avail_sparse, p) && p.first() == from && p.last() == to;
    assert forall|k: int| 0 <= k < p.len() implies 0 <= #[trigger] p[k] < avail_wide.len()
        && avail_wide[p[k]] by {
        assert(avail_sparse[p[k]]);
    }
    assert(valid_path(adj, avail_wide, p) && p.first() == from && p.last() == to);
}

/// Removing availability of switch `s` cannot increase reachability between
/// two other switches: failures only partition the network, never connect it.
pub proof fn lemma_failure_monotone(
    adj: Seq<Seq<usize>>,
    avail: Seq<bool>,
    s: int,
    from: int,
    to: int,
)
    requires
        0 <= s < avail.len(),
        from != s,
        to != s,
        reachable(adj, avail.update(s, false), from, to),
    ensures
        reachable(adj, avail, from, to),
{
    let sparse = avail.update(s, false);
    assert forall|i: int| 0 <= i < sparse.len() && sparse[i] implies avail[i] by {
        if i != s {
            assert(sparse[i] == avail[i]);
        }
    }
    lemma_reachable_monotone(adj, sparse, avail, from, to);
}

/// With no switch available at all, no pair is reachable, self-pairs included.
pub proof fn lemma_no_availability_no_reachability(
    adj: Seq<Seq<usize>>,
    avail: Seq<bool>,
    from: int,
    to: int,
)
    requires
        forall|i: int| 0 <= i < avail.len() ==> !avail[i],
    ensures
        !reachable(adj, avail, from, to),
{
    if reachable(adj, avail, from, to) {
        lemma_reachable_endpoints_available(adj, avail, from, to);
    }
}

/// Reachability chains: a pair of paths meeting at a common switch joins
/// into one.
pub proof fn lemma_reachable_trans(
    adj: Seq<Seq<usize>>,
    avail: Seq<bool>,
    from: int,
    via: int,
    to: int,
)
    requires
        reachable(adj, avail, from, via),
        reachable(adj, avail, via, to),
    ensures
        reachable(adj, avail, from, to),
{
    let p = choose|p: Seq<int>|
        valid_path(adj, avail, p) && p.first() == from && p.last() == via;
    let q = choose|q: Seq<int>|
        valid_path(adj, avail, q) && q.first() == via && q.last() == to;
    let r = p + q.skip(1);
    assert(r.len() == p.len() + q.len() - 1);
    assert(forall|k: int| 0 <= k < p.len() ==> r[k] == p[k]);
    assert(forall|k: int| p.len() <= k < r.len() ==> r[k] == q[k - p.len() + 1]);
    assert forall|k: int| 0 < k < r.len() implies edge(adj, r[k - 1], #[trigger] r[k]) by {
        if k < p.len() {
            assert(edge(adj, p[k - 1], p[k]));
        } else if k == p.len() {
            assert(r[k - 1] == p.last() && p.last() == q[0]);
            assert(edge(adj, q[0], q[1]));
        } else {
            assert(edge(adj, q[k - p.len()], q[k - p.len() + 1]));
        }
    }
    assert(valid_path(adj, avail, r) && r.first() == from && r.last() == to);
}

/// Under symmetric wiring, reachability itself is symmetric: the reversed
/// path connects the pair the other way round.
pub proof fn lemma_reachable_symmetric(
    adj: Seq<Seq<usize>>,
    avail: Seq<bool>,
    from: int,
    to: int,
)
    requires
        adjacency_symmetric(adj),
        reachable(adj, avail, from, to),
    ensures
        reachable(adj, avail, to, from),
{
    let p = choose|p: Seq<int>|
        valid_path(adj, avail, p) && p.first() == from && p.last() == to;
    let r = Seq::new(p.len(), |k: int| p[p.len() - 1 - k]);
    assert forall|k: int| 0 < k < r.len() implies edge(adj, r[k - 1], #[trigger] r[k]) by {
        assert(edge(adj, p[p.len() - 1 - k], p[p.len() - k]));
    }
    assert(valid_path(adj, avail, r) && r.first() == to && r.last() == from);
}

/// A set of switches that contains the start of a path and is closed under
/// stepping to available neighbors contains the end of that path as well.
pub proof fn lemma_path_stays_in_closed_set(
    adj: Seq<Seq<usize>>,
    avail: Seq<bool>,
    member: Seq<bool>,
    p: Seq<int>,
)
    requires
        member.len() == avail.len(),
        valid_path(adj, avail, p),
        member[p.first()],
        forall|a: int, b: int|
            0 <= a < member.len() && member[a] && edge(adj, a, b) && 0 <= b < avail.len()
                && avail[b] ==> member[b],
    ensures
        member[p.last()],
    decreases p.len(),
{
    if p.len() > 1 {
        let q = p.drop_last();
        assert(valid_path(adj, avail, q)) by {
            assert(forall|k: int| 0 <= k < q.len() ==> q[k] == p[k]);
            assert forall|k: int| 0 < k < q.len() implies edge(adj, q[k - 1], #[trigger] q[k]) by {
                assert(edge(adj, p[k - 1], p[k]));
            }
        }
        lemma_path_stays_in_closed_set(adj, avail, member, q);
        assert(edge(adj, p[p.len() - 2], p.last()));
        assert(avail[p.last()]);
    }
}

/// An available switch whose wired neighbors are all unavailable reaches
/// only itself.
pub proof fn lemma_isolated_switch(
    adj: Seq<Seq<usize>>,
    avail: Seq<bool>,
    from: int,
    to: int,
)
    requires
        forall|b: int| edge(adj, from, b) ==> !(0 <= b < avail.len() && avail[b]),
        from != to,
    ensures
        !reachable(adj, avail, from, to),
{
    if reachable(adj, avail, from, to) {
        let p = choose|p: Seq<int>|
            valid_path(adj, avail, p) && p.first() == from && p.last() == to;
        assert(p.len() > 1);
        assert(edge(adj, p[0], p[1]));
        assert(avail[p[1]]);
    }
}

/// A duplicate-free sequence of dense indices below `n` has at most `n`
/// elements; this bounds the breadth-first frontier.
proof fn lemma_distinct_bounded_len(s: Seq<usize>, n: nat)
    requires
        s.no_duplicates(),
        forall|k: int| 0 <= k < s.len() ==> (#[trigger] s[k]) < n,
    ensures
        s.len() <= n,
{
    let t = s.map_values(|x: usize| x as int);
    assert(t.no_duplicates()) by {
        assert forall|i: int, j: int|
            0 <= i < t.len() && 0 <= j < t.len() && i != j implies t[i] != t[j] by {
            assert(s[i] != s[j]);
        }
    }
    t.unique_seq_to_set();
    assert(t.to_set().subset_of(set_int_range(0, n as int))) by {
        assert forall|e: int| t.to_set().contains(e)
            implies set_int_range(0, n as int).contains(e) by {
            let idx = choose|idx: int| 0 <= idx < t.len() && t[idx] == e;
            assert(s[idx] < n);
        }
    }
    lemma_int_range(0, n as int);
    lemma_len_subset(t.to_set(), set_int_range(0, n as int));
}

/// Breadth-first search over available switches only.  Answers whether
/// switch `from` can currently communicate with switch `to`: an unavailable
/// source reaches nothing, not even itself, and only available switches are
/// ever entered into the frontier, so an unavailable target is never found.
#[verifier::loop_isolation(false)]
pub fn switches_reachable(
    availability: &Vec<bool>,
    network: &NetworkTopology,
    from: usize,
    to: usize,
) -> (r: bool)
    requires
        network.wf(),
        availability@.len() == network.spec_node_count(),
        from < network.spec_node_count(),
        to < network.spec_node_count(),
    ensures
        r == reachable(network.adj(), availability@, from as int, to as int),
{
    let ghost adj = network.adj();
    let ghost avail = availability@;

    if !availability[from] {
        proof {
            if reachable(adj, avail, from as int, to as int) {
                lemma_reachable_endpoints_available(adj, avail, from as int, to as int);
            }
        }
        return false;
    }

    let n = network.node_count();
    let mut visited: Vec<bool> = Vec::new();
    let mut i: usize = 0;
    while i < n
        invariant
            i <= n,
            visited@.len() == i,
            forall|j: int| 0 <= j < i ==> !visited@[j],
        decreases n - i,
    {
        visited.push(false);
        i = i + 1;
    }

    let mut frontier: Vec<usize> = Vec::new();
    visited.set(from, true);
    frontier.push(from);
    proof {
        lemma_self_reachability(adj, avail, from as int);
        assert forall|j: int|
            0 <= j < n && #[trigger] visited@[j] implies frontier@.contains(j as usize) by {
            assert(j == from as int);
            assert(frontier@[0] == j as usize);
        }
    }

    let mut head: usize = 0;
    while head < frontier.len()
        invariant
            visited@.len() == n,
            head <= frontier@.len() <= n,
            frontier@.no_duplicates(),
            forall|k: int|
                0 <= k < frontier@.len() ==> (#[trigger] frontier@[k]) < n
                    && visited@[frontier@[k] as int] && avail[frontier@[k] as int],
            forall|j: int|
                0 <= j < n && #[trigger] visited@[j] ==> frontier@.contains(j as usize),
            visited@[from as int],
            forall|j: int|
                0 <= j < n && #[trigger] visited@[j] ==> avail[j]
                    && reachable(adj, avail, from as int, j),
            forall|k: int| 0 <= k < head ==> frontier@[k] != to,
            forall|k: int, b: int|
                0 <= k < head && edge(adj, frontier@[k] as int, b) && avail[b] ==> visited@[b],
        decreases n - head,
    {
        let node = frontier[head];
        if node == to {
            return true;
        }
        let nbrs = network.neighbors(node);
        let mut k: usize = 0;
        while k < nbrs.len()
            invariant
                k <= nbrs@.len(),
                nbrs@ == adj[node as int],
                head < frontier@.len(),
                frontier@[head as int] == node,
                visited@.len() == n,
                frontier@.len() <= n,
                frontier@.no_duplicates(),
                forall|m: int|
                    0 <= m < frontier@.len() ==> (#[trigger] frontier@[m]) < n
                        && visited@[frontier@[m] as int] && avail[frontier@[m] as int],
                forall|j: int|
                    0 <= j < n && #[trigger] visited@[j] ==> frontier@.contains(j as usize),
                visited@[from as int],
                forall|j: int|
                    0 <= j < n && #[trigger] visited@[j] ==> avail[j]
                        && reachable(adj, avail, from as int, j),
                forall|m: int| 0 <= m < head ==> frontier@[m] != to,
                forall|m: int, b: int|
                    0 <= m < head && edge(adj, frontier@[m] as int, b) && avail[b]
                        ==> visited@[b],
                forall|m: int|
                    0 <= m < k && avail[nbrs@[m] as int] ==> visited@[nbrs@[m] as int],
            decreases nbrs@.len() - k,
        {
            let nb = nbrs[k];
            assert(nb < n);
            if availability[nb] && !visited[nb] {
                assert(!frontier@.contains(nb));
                proof {
                    assert(edge(adj, node as int, nb as int)) by {
                        assert(adj[node as int][k as int] == nb);
                    }
                    lemma_reachable_step(adj, avail, from as int, node as int, nb as int);
                }
                let ghost old_frontier = frontier@;
                visited.set(nb, true);
                frontier.push(nb);
                proof {
                    assert forall|i2: int, j2: int|
                        0 <= i2 < frontier@.len() && 0 <= j2 < frontier@.len() && i2 != j2
                        implies frontier@[i2] != frontier@[j2] by {
                        if i2 < old_frontier.len() && j2 < old_frontier.len() {
                            assert(old_frontier[i2] != old_frontier[j2]);
                        } else if i2 < old_frontier.len() {
                            assert(old_frontier.contains(old_frontier[i2]));
                        } else {
                            assert(old_frontier.contains(old_frontier[j2]));
                        }
                    }
                    assert forall|j: int|
                        0 <= j < n && #[trigger] visited@[j]
                        implies frontier@.contains(j as usize) by {
                        if j == nb {
                            assert(frontier@[frontier@.len() - 1] == nb);
                        } else {
                            let idx = choose|idx: int|
                                0 <= idx < old_frontier.len() && old_frontier[idx] == j as usize;
                            assert(frontier@[idx] == j as usize);
                        }
                    }
                    lemma_distinct_bounded_len(frontier@, n as nat);
                }
            }
            k = k + 1;
        }
        head = head + 1;
    }

    proof {
        if reachable(adj, avail, from as int, to as int) {
            assert forall|a: int, b: int|
                0 <= a < n && visited@[a] && edge(adj, a, b) && 0 <= b < avail.len()
                    && avail[b] implies visited@[b] by {
                let idx = choose|idx: int|
                    0 <= idx < frontier@.len() && frontier@[idx] == a as usize;
                assert(edge(adj, frontier@[idx] as int, b));
            }
            let p = choose|p: Seq<int>|
                valid_path(adj, avail, p) && p.first() == from as int && p.last() == to as int;
            lemma_path_stays_in_closed_set(adj, avail, visited@, p);
            let idx = choose|idx: int|
                0 <= idx < frontier@.len() && frontier@[idx] == to;
            assert(frontier@[idx] != to);
        }
    }
    false
}

} // verus!
