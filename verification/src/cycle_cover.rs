//! Why the cycle search misses no circular group of fixtures: reachability
//! over the fixture graph, and the facts the depth-first search keeps about
//! it.
use vstd::prelude::*;

use crate::cycles::{
    cycle_members, cycle_step, first_of_name, is_edge_list, is_fixture_cycle, is_known, is_node_list,
    lemma_known_has_node, lemma_named_first, lemma_node_names_distinct, node_named, node_names, node_step,
};
use crate::types::DefinitionView;

verus! {

// ---------------------------------------------------------------------------
// Fixture level

/// `p` follows dependencies from its first fixture to its last.
pub open spec fn dep_path(ds: Seq<DefinitionView>, p: Seq<Seq<char>>) -> bool {
    &&& p.len() >= 1
    &&& forall|i: int| 0 <= i < p.len() - 1 ==> #[trigger] cycle_step(ds, p, i)
}

/// Fixture `a` leads to fixture `b` through dependencies (in no steps when
/// they are the same).
pub open spec fn reaches(ds: Seq<DefinitionView>, a: Seq<char>, b: Seq<char>) -> bool {
    exists|p: Seq<Seq<char>>| #[trigger] dep_path(ds, p) && p[0] == a && p.last() == b
}

/// Fixture `n` lies on a dependency cycle.
pub open spec fn on_a_cycle(ds: Seq<DefinitionView>, n: Seq<char>) -> bool {
    exists|p: Seq<Seq<char>>| #[trigger] is_fixture_cycle(ds, p) && p[0] == n
}

/// Every fixture on a cycle shares a circular group with a fixture of some
/// reported cycle: each leads to the other.
pub open spec fn cycles_cover(ds: Seq<DefinitionView>, cs: Seq<(Seq<Seq<char>>, DefinitionView)>) -> bool {
    forall|n: Seq<char>|
        #[trigger] on_a_cycle(ds, n) ==> exists|i: int, m: Seq<char>|
            0 <= i < cs.len() && #[trigger] cycle_members(cs[i]).contains(m) && reaches(ds, n, m) && reaches(
                ds,
                m,
                n,
            )
}

// ---------------------------------------------------------------------------
// Node level

/// `q` walks along edges from node `u` to node `v`.
pub open spec fn node_walk(adj: Seq<Vec<usize>>, q: Seq<usize>, u: int, v: int) -> bool {
    &&& q.len() >= 1
    &&& q[0] == u
    &&& q.last() == v
    &&& forall|i: int| 0 <= i < q.len() ==> #[trigger] q[i] < adj.len()
    &&& forall|i: int| 0 <= i < q.len() - 1 ==> #[trigger] node_step(adj, q, i)
}

pub open spec fn node_reach(adj: Seq<Vec<usize>>, u: int, v: int) -> bool {
    exists|q: Seq<usize>| #[trigger] node_walk(adj, q, u, v)
}

pub open spec fn node_on_cycle(adj: Seq<Vec<usize>>, u: int) -> bool {
    exists|q: Seq<usize>| #[trigger] node_walk(adj, q, u, u) && q.len() >= 2
}

pub open spec fn mutual(adj: Seq<Vec<usize>>, u: int, v: int) -> bool {
    node_reach(adj, u, v) && node_reach(adj, v, u)
}

/// Fixture `n` is a member of some recorded cycle.
pub open spec fn recorded_member(cs: Seq<(Seq<Seq<char>>, DefinitionView)>, n: Seq<char>) -> bool {
    exists|i: int| 0 <= i < cs.len() && #[trigger] cycle_members(cs[i]).contains(n)
}

/// Node `u` shares a circular group with a member of a recorded cycle.
pub open spec fn covered(adj: Seq<Vec<usize>>, nm: Seq<Seq<char>>, cs: Seq<(Seq<Seq<char>>, DefinitionView)>, u: int) -> bool {
    exists|x: int| 0 <= x < adj.len() && #[trigger] recorded_member(cs, nm[x]) && mutual(adj, u, x)
}

/// Every finished node on a cycle is covered, or shares a circular group with
/// a node still in progress.
pub open spec fn black_covered(
    adj: Seq<Vec<usize>>,
    nm: Seq<Seq<char>>,
    cs: Seq<(Seq<Seq<char>>, DefinitionView)>,
    color: Seq<u8>,
) -> bool {
    forall|v: int|
        0 <= v < color.len() && color[v] == 2 && #[trigger] node_on_cycle(adj, v) ==> covered(adj, nm, cs, v)
            || exists|g: int| 0 <= g < color.len() && color[g] == 1 && #[trigger] mutual(adj, v, g)
}

/// Where an explored edge leads: to a finished node, or to one in progress
/// that a recorded cycle goes through.
pub open spec fn edge_target_ok(nm: Seq<Seq<char>>, cs: Seq<(Seq<Seq<char>>, DefinitionView)>, color: Seq<u8>, t: int) -> bool {
    color[t] == 2 || (color[t] == 1 && recorded_member(cs, nm[t]))
}

/// The edges of finished nodes lead to finished nodes or to recorded cycles.
pub open spec fn black_edges_ok(
    adj: Seq<Vec<usize>>,
    nm: Seq<Seq<char>>,
    cs: Seq<(Seq<Seq<char>>, DefinitionView)>,
    color: Seq<u8>,
) -> bool {
    forall|b: int, j: int|
        0 <= b < color.len() && color[b] == 2 && 0 <= j < adj[b]@.len() ==> edge_target_ok(
            nm,
            cs,
            color,
            #[trigger] adj[b]@[j] as int,
        )
}

/// The explored edges of each frame, but for the one each lower frame is
/// exploring, lead to finished nodes or to recorded cycles.
pub open spec fn frames_edges_ok(
    s: Seq<(usize, usize)>,
    adj: Seq<Vec<usize>>,
    nm: Seq<Seq<char>>,
    cs: Seq<(Seq<Seq<char>>, DefinitionView)>,
    color: Seq<u8>,
) -> bool {
    forall|k: int, j: int|
        0 <= k < s.len() && 0 <= j < s[k].1 && !(k < s.len() - 1 && j == s[k].1 - 1) ==> edge_target_ok(
            nm,
            cs,
            color,
            #[trigger] adj[s[k].0 as int]@[j] as int,
        )
}

pub open spec fn grows(cs0: Seq<(Seq<Seq<char>>, DefinitionView)>, cs1: Seq<(Seq<Seq<char>>, DefinitionView)>) -> bool {
    forall|n: Seq<char>| #[trigger] recorded_member(cs0, n) ==> recorded_member(cs1, n)
}

// ---------------------------------------------------------------------------
// Walks

pub proof fn lemma_reach_refl(adj: Seq<Vec<usize>>, u: int)
    requires
        0 <= u < adj.len(),
        u <= usize::MAX,
    ensures
        node_reach(adj, u, u),
{
    let q = seq![u as usize];
    assert(node_walk(adj, q, u, u));
}

pub proof fn lemma_walk_concat(adj: Seq<Vec<usize>>, q1: Seq<usize>, q2: Seq<usize>, u: int, v: int, w: int)
    requires
        node_walk(adj, q1, u, v),
        node_walk(adj, q2, v, w),
    ensures
        node_walk(adj, q1 + q2.skip(1), u, w),
        (q1 + q2.skip(1)).len() == q1.len() + q2.len() - 1,
{
    let q = q1 + q2.skip(1);
    assert(q.len() == q1.len() + q2.len() - 1);
    assert forall|i: int| 0 <= i < q.len() implies #[trigger] q[i] < adj.len() by {
        if i < q1.len() {
            assert(q[i] == q1[i]);
        } else {
            assert(q[i] == q2[i - q1.len() + 1]);
        }
    }
    assert forall|i: int| 0 <= i < q.len() - 1 implies #[trigger] node_step(adj, q, i) by {
        if i < q1.len() - 1 {
            assert(node_step(adj, q1, i));
            assert(q[i] == q1[i] && q[i + 1] == q1[i + 1]);
        } else {
            let i2 = i - q1.len() + 1;
            assert(node_step(adj, q2, i2));
            if i == q1.len() - 1 {
                assert(q[i] == q1.last());
                assert(q2[0] == v);
            } else {
                assert(q[i] == q2[i2]);
            }
            assert(q[i + 1] == q2[i2 + 1]);
        }
    }
    if q2.len() == 1 {
        assert(q.last() == q1.last());
    } else {
        assert(q.last() == q2.last());
    }
}

pub proof fn lemma_reach_trans(adj: Seq<Vec<usize>>, u: int, v: int, w: int)
    requires
        node_reach(adj, u, v),
        node_reach(adj, v, w),
    ensures
        node_reach(adj, u, w),
{
    let q1 = choose|q: Seq<usize>| #[trigger] node_walk(adj, q, u, v);
    let q2 = choose|q: Seq<usize>| #[trigger] node_walk(adj, q, v, w);
    lemma_walk_concat(adj, q1, q2, u, v, w);
}

/// A node that leads to a different node and back lies on a cycle.
pub proof fn lemma_mutual_on_cycle(adj: Seq<Vec<usize>>, u: int, v: int)
    requires
        mutual(adj, u, v),
        u != v,
    ensures
        node_on_cycle(adj, u),
{
    let q1 = choose|q: Seq<usize>| #[trigger] node_walk(adj, q, u, v);
    let q2 = choose|q: Seq<usize>| #[trigger] node_walk(adj, q, v, u);
    assert(q1.len() >= 2) by {
        if q1.len() == 1 {
            assert(q1[0] == q1.last());
        }
    }
    lemma_walk_concat(adj, q1, q2, u, v, u);
    assert(node_walk(adj, q1 + q2.skip(1), u, u));
}

/// Every node of a walk is reached from its start and leads to its end.
pub proof fn lemma_walk_split(adj: Seq<Vec<usize>>, q: Seq<usize>, u: int, v: int, i: int)
    requires
        node_walk(adj, q, u, v),
        0 <= i < q.len(),
    ensures
        node_reach(adj, u, q[i] as int),
        node_reach(adj, q[i] as int, v),
{
    let a = q.take(i + 1);
    let b = q.skip(i);
    assert forall|k: int| 0 <= k < a.len() - 1 implies #[trigger] node_step(adj, a, k) by {
        assert(node_step(adj, q, k));
        assert(a[k] == q[k] && a[k + 1] == q[k + 1]);
    }
    assert forall|k: int| 0 <= k < a.len() implies #[trigger] a[k] < adj.len() by {
        assert(a[k] == q[k]);
    }
    assert(node_walk(adj, a, u, q[i] as int));
    assert forall|k: int| 0 <= k < b.len() - 1 implies #[trigger] node_step(adj, b, k) by {
        assert(node_step(adj, q, k + i));
        assert(b[k] == q[k + i] && b[k + 1] == q[k + i + 1]);
    }
    assert forall|k: int| 0 <= k < b.len() implies #[trigger] b[k] < adj.len() by {
        assert(b[k] == q[k + i]);
    }
    assert(node_walk(adj, b, q[i] as int, v));
}

// ---------------------------------------------------------------------------
// Facts kept by the search

pub proof fn lemma_grows_keeps(
    s: Seq<(usize, usize)>,
    adj: Seq<Vec<usize>>,
    nm: Seq<Seq<char>>,
    cs0: Seq<(Seq<Seq<char>>, DefinitionView)>,
    cs1: Seq<(Seq<Seq<char>>, DefinitionView)>,
    color: Seq<u8>,
)
    requires
        grows(cs0, cs1),
        black_covered(adj, nm, cs0, color),
        black_edges_ok(adj, nm, cs0, color),
        frames_edges_ok(s, adj, nm, cs0, color),
    ensures
        black_covered(adj, nm, cs1, color),
        black_edges_ok(adj, nm, cs1, color),
        frames_edges_ok(s, adj, nm, cs1, color),
{
    assert forall|v: int|
        0 <= v < color.len() && color[v] == 2 && #[trigger] node_on_cycle(adj, v) implies covered(adj, nm, cs1, v)
        || exists|g: int| 0 <= g < color.len() && color[g] == 1 && #[trigger] mutual(adj, v, g) by {
        if covered(adj, nm, cs0, v) {
            let x = choose|x: int| 0 <= x < adj.len() && #[trigger] recorded_member(cs0, nm[x]) && mutual(adj, v, x);
            assert(recorded_member(cs1, nm[x]));
        }
    }
    assert forall|b: int, j: int|
        0 <= b < color.len() && color[b] == 2 && 0 <= j < adj[b]@.len() implies edge_target_ok(
        nm,
        cs1,
        color,
        #[trigger] adj[b]@[j] as int,
    ) by {
        let t = adj[b]@[j] as int;
        assert(edge_target_ok(nm, cs0, color, t));
        if color[t] != 2 {
            assert(recorded_member(cs0, nm[t]));
        }
    }
    assert forall|k: int, j: int|
        0 <= k < s.len() && 0 <= j < s[k].1 && !(k < s.len() - 1 && j == s[k].1 - 1) implies edge_target_ok(
        nm,
        cs1,
        color,
        #[trigger] adj[s[k].0 as int]@[j] as int,
    ) by {
        let t = adj[s[k].0 as int]@[j] as int;
        assert(edge_target_ok(nm, cs0, color, t));
        if color[t] != 2 {
            assert(recorded_member(cs0, nm[t]));
        }
    }
}

/// Marking a node not yet reached as in progress keeps the facts about
/// finished nodes.
pub proof fn lemma_gray_keeps(
    adj: Seq<Vec<usize>>,
    nm: Seq<Seq<char>>,
    cs: Seq<(Seq<Seq<char>>, DefinitionView)>,
    c0: Seq<u8>,
    v: int,
)
    requires
        0 <= v < c0.len(),
        c0[v] == 0,
        c0.len() == adj.len(),
        crate::cycles::edges_in_range(adj),
        black_covered(adj, nm, cs, c0),
        black_edges_ok(adj, nm, cs, c0),
    ensures
        black_covered(adj, nm, cs, c0.update(v, 1)),
        black_edges_ok(adj, nm, cs, c0.update(v, 1)),
{
    let c = c0.update(v, 1);
    assert forall|w: int|
        0 <= w < c.len() && c[w] == 2 && #[trigger] node_on_cycle(adj, w) implies covered(adj, nm, cs, w)
        || exists|g: int| 0 <= g < c.len() && c[g] == 1 && #[trigger] mutual(adj, w, g) by {
        assert(c0[w] == 2);
        if !covered(adj, nm, cs, w) {
            let g = choose|g: int| 0 <= g < c0.len() && c0[g] == 1 && #[trigger] mutual(adj, w, g);
            assert(c[g] == 1);
        }
    }
    assert forall|b: int, j: int|
        0 <= b < c.len() && c[b] == 2 && 0 <= j < adj[b]@.len() implies edge_target_ok(
        nm,
        cs,
        c,
        #[trigger] adj[b]@[j] as int,
    ) by {
        assert(c0[b] == 2);
        assert(adj[b]@[j] < adj.len());
        assert(edge_target_ok(nm, cs, c0, adj[b]@[j] as int));
    }
}

/// Following the top frame's next edge to a node that is finished or on a
/// recorded cycle keeps the explored edges in order.
pub proof fn lemma_advance_keeps(
    s0: Seq<(usize, usize)>,
    adj: Seq<Vec<usize>>,
    nm: Seq<Seq<char>>,
    cs: Seq<(Seq<Seq<char>>, DefinitionView)>,
    c: Seq<u8>,
)
    requires
        frames_edges_ok(s0, adj, nm, cs, c),
        s0.len() > 0,
        s0.last().1 < adj[s0.last().0 as int]@.len(),
        edge_target_ok(nm, cs, c, adj[s0.last().0 as int]@[s0.last().1 as int] as int),
    ensures
        frames_edges_ok(s0.update(s0.len() - 1, (s0.last().0, (s0.last().1 + 1) as usize)), adj, nm, cs, c),
{
    let top = s0.len() - 1;
    let s = s0.update(top, (s0.last().0, (s0.last().1 + 1) as usize));
    assert forall|k: int, j: int|
        0 <= k < s.len() && 0 <= j < s[k].1 && !(k < s.len() - 1 && j == s[k].1 - 1) implies edge_target_ok(
        nm,
        cs,
        c,
        #[trigger] adj[s[k].0 as int]@[j] as int,
    ) by {
        if k == top {
            if j < s0[k].1 {
                assert(edge_target_ok(nm, cs, c, adj[s0[k].0 as int]@[j] as int));
            }
        } else {
            assert(s[k] == s0[k]);
        }
    }
}

/// Following the top frame's next edge to a node not yet reached, and
/// pushing it, keeps the explored edges in order.
pub proof fn lemma_push_keeps(
    s0: Seq<(usize, usize)>,
    adj: Seq<Vec<usize>>,
    nm: Seq<Seq<char>>,
    cs: Seq<(Seq<Seq<char>>, DefinitionView)>,
    c0: Seq<u8>,
    v: usize,
)
    requires
        frames_edges_ok(s0, adj, nm, cs, c0),
        s0.len() > 0,
        s0.last().1 < adj[s0.last().0 as int]@.len(),
        adj[s0.last().0 as int]@[s0.last().1 as int] == v,
        v < c0.len(),
        c0[v as int] == 0,
        c0.len() == adj.len(),
        crate::cycles::edges_in_range(adj),
        crate::cycles::frames_ok(s0, adj, c0),
    ensures
        frames_edges_ok(
            s0.update(s0.len() - 1, (s0.last().0, (s0.last().1 + 1) as usize)).push((v, 0usize)),
            adj,
            nm,
            cs,
            c0.update(v as int, 1),
        ),
{
    let top = s0.len() - 1;
    let s1 = s0.update(top, (s0.last().0, (s0.last().1 + 1) as usize));
    let s = s1.push((v, 0usize));
    let c = c0.update(v as int, 1);
    assert forall|k: int, j: int|
        0 <= k < s.len() && 0 <= j < s[k].1 && !(k < s.len() - 1 && j == s[k].1 - 1) implies edge_target_ok(
        nm,
        cs,
        c,
        #[trigger] adj[s[k].0 as int]@[j] as int,
    ) by {
        assert(k < s1.len());
        assert(s[k] == s1[k]);
        if k == top {
            assert(j < s0[k].1);
        }
        assert(s0[k].0 == s1[k].0);
        assert(s0[k].0 < adj.len());
        let t = adj[s0[k].0 as int]@[j] as int;
        assert(t < adj.len());
        assert(edge_target_ok(nm, cs, c0, t));
        assert(t != v as int);
    }
}

proof fn lemma_walk_colors(
    adj: Seq<Vec<usize>>,
    nm: Seq<Seq<char>>,
    cs: Seq<(Seq<Seq<char>>, DefinitionView)>,
    c0: Seq<u8>,
    s0: Seq<(usize, usize)>,
    q: Seq<usize>,
    u: int,
    i: int,
)
    requires
        s0.len() > 0,
        s0.last().0 == u,
        s0.last().1 == adj[u]@.len(),
        frames_edges_ok(s0, adj, nm, cs, c0),
        black_edges_ok(adj, nm, cs, c0),
        c0.len() == adj.len(),
        node_walk(adj, q, u, u),
        0 <= i <= q.len(),
        forall|k: int| 0 <= k < i ==> q[k] == u || c0[q[k] as int] == 2,
    ensures
        (exists|k: int| 1 <= k < q.len() && q[k] != u && c0[q[k] as int] == 1) || (forall|k: int|
            0 <= k < q.len() ==> q[k] == u || c0[q[k] as int] == 2),
    decreases q.len() - i,
{
    if i < q.len() {
        if i == 0 {
            lemma_walk_colors(adj, nm, cs, c0, s0, q, u, 1);
        } else {
            let prev = q[i - 1] as int;
            assert(node_step(adj, q, i - 1));
            let j = choose|j: int| 0 <= j < adj[q[i - 1] as int]@.len() && #[trigger] adj[q[i - 1] as int]@[j] == q[i];
            if prev == u {
                let k = s0.len() - 1;
                assert(s0[k].0 == u && j < s0[k].1);
                assert(edge_target_ok(nm, cs, c0, adj[s0[k].0 as int]@[j] as int));
            } else {
                assert(c0[prev] == 2);
                assert(prev < c0.len());
                assert(edge_target_ok(nm, cs, c0, adj[prev]@[j] as int));
            }
            if q[i] != u && c0[q[i] as int] == 1 {
            } else {
                lemma_walk_colors(adj, nm, cs, c0, s0, q, u, i + 1);
            }
        }
    }
}

/// A node on a cycle that finishes is covered, or shares a circular group
/// with another node still in progress.
proof fn lemma_new_black(
    adj: Seq<Vec<usize>>,
    nm: Seq<Seq<char>>,
    cs: Seq<(Seq<Seq<char>>, DefinitionView)>,
    c0: Seq<u8>,
    s0: Seq<(usize, usize)>,
    u: int,
)
    requires
        s0.len() > 0,
        s0.last().0 == u,
        s0.last().1 == adj[u]@.len(),
        c0[u] == 1,
        0 <= u < adj.len(),
        adj.len() <= usize::MAX,
        frames_edges_ok(s0, adj, nm, cs, c0),
        black_edges_ok(adj, nm, cs, c0),
        c0.len() == adj.len(),
        node_on_cycle(adj, u),
    ensures
        covered(adj, nm, cs, u) || exists|g: int| 0 <= g < c0.len() && c0[g] == 1 && g != u && #[trigger] mutual(adj, u, g),
{
    let q = choose|q: Seq<usize>| #[trigger] node_walk(adj, q, u, u) && q.len() >= 2;
    lemma_walk_colors(adj, nm, cs, c0, s0, q, u, 0);
    if exists|k: int| 1 <= k < q.len() && q[k] != u && c0[q[k] as int] == 1 {
        let k = choose|k: int| 1 <= k < q.len() && q[k] != u && c0[q[k] as int] == 1;
        lemma_walk_split(adj, q, u, u, k);
        assert(mutual(adj, u, q[k] as int));
    } else {
        let i = q.len() - 2;
        let w = q[i] as int;
        assert(node_step(adj, q, i));
        let j = choose|j: int| 0 <= j < adj[q[i] as int]@.len() && #[trigger] adj[q[i] as int]@[j] == q[i + 1];
        assert(q[i + 1] == u);
        if w == u {
            let k = s0.len() - 1;
            assert(s0[k].0 == u && j < s0[k].1);
            assert(edge_target_ok(nm, cs, c0, adj[s0[k].0 as int]@[j] as int));
        } else {
            assert(c0[w] == 2);
            assert(edge_target_ok(nm, cs, c0, adj[w]@[j] as int));
        }
        assert(recorded_member(cs, nm[u]));
        lemma_reach_refl(adj, u);
        assert(mutual(adj, u, u));
    }
}

/// Finishing the top node keeps every fact the search keeps about finished
/// nodes and explored edges.
pub proof fn lemma_pop_keeps(
    adj: Seq<Vec<usize>>,
    nm: Seq<Seq<char>>,
    cs: Seq<(Seq<Seq<char>>, DefinitionView)>,
    c0: Seq<u8>,
    s0: Seq<(usize, usize)>,
)
    requires
        crate::cycles::frames_ok(s0, adj, c0),
        s0.len() > 0,
        s0.last().1 == adj[s0.last().0 as int]@.len(),
        c0.len() == adj.len(),
        adj.len() <= usize::MAX,
        crate::cycles::edges_in_range(adj),
        frames_edges_ok(s0, adj, nm, cs, c0),
        black_edges_ok(adj, nm, cs, c0),
        black_covered(adj, nm, cs, c0),
    ensures
        black_covered(adj, nm, cs, c0.update(s0.last().0 as int, 2)),
        black_edges_ok(adj, nm, cs, c0.update(s0.last().0 as int, 2)),
        frames_edges_ok(s0.drop_last(), adj, nm, cs, c0.update(s0.last().0 as int, 2)),
{
    let top = s0.len() - 1;
    let u = s0.last().0 as int;
    let c = c0.update(u, 2);
    let s = s0.drop_last();
    assert(s0[top].0 < adj.len() && c0[s0[top].0 as int] == 1);
    assert forall|v: int|
        0 <= v < c.len() && c[v] == 2 && #[trigger] node_on_cycle(adj, v) implies covered(adj, nm, cs, v)
        || exists|g: int| 0 <= g < c.len() && c[g] == 1 && #[trigger] mutual(adj, v, g) by {
        if v == u {
            lemma_new_black(adj, nm, cs, c0, s0, u);
            if !covered(adj, nm, cs, u) {
                let g = choose|g: int| 0 <= g < c0.len() && c0[g] == 1 && g != u && #[trigger] mutual(adj, u, g);
                assert(c[g] == 1);
            }
        } else {
            assert(c0[v] == 2);
            if !covered(adj, nm, cs, v) {
                let g = choose|g: int| 0 <= g < c0.len() && c0[g] == 1 && #[trigger] mutual(adj, v, g);
                if g != u {
                    assert(c[g] == 1);
                } else {
                    lemma_mutual_on_cycle(adj, u, v);
                    lemma_new_black(adj, nm, cs, c0, s0, u);
                    if covered(adj, nm, cs, u) {
                        let x = choose|x: int| 0 <= x < adj.len() && #[trigger] recorded_member(cs, nm[x]) && mutual(adj, u, x);
                        lemma_reach_trans(adj, v, u, x);
                        lemma_reach_trans(adj, x, u, v);
                        assert(mutual(adj, v, x));
                    } else {
                        let g2 = choose|g2: int| 0 <= g2 < c0.len() && c0[g2] == 1 && g2 != u && #[trigger] mutual(adj, u, g2);
                        lemma_reach_trans(adj, v, u, g2);
                        lemma_reach_trans(adj, g2, u, v);
                        assert(mutual(adj, v, g2));
                        assert(c[g2] == 1);
                    }
                }
            }
        }
    }
    assert forall|b: int, j: int|
        0 <= b < c.len() && c[b] == 2 && 0 <= j < adj[b]@.len() implies edge_target_ok(
        nm,
        cs,
        c,
        #[trigger] adj[b]@[j] as int,
    ) by {
        let t = adj[b]@[j] as int;
        assert(t < adj.len());
        if b == u {
            assert(s0[top].0 == u && j < s0[top].1);
            assert(edge_target_ok(nm, cs, c0, adj[s0[top].0 as int]@[j] as int));
        } else {
            assert(c0[b] == 2);
            assert(edge_target_ok(nm, cs, c0, t));
        }
    }
    assert forall|k: int, j: int|
        0 <= k < s.len() && 0 <= j < s[k].1 && !(k < s.len() - 1 && j == s[k].1 - 1) implies edge_target_ok(
        nm,
        cs,
        c,
        #[trigger] adj[s[k].0 as int]@[j] as int,
    ) by {
        assert(s[k] == s0[k]);
        assert(s0[k].0 < adj.len());
        assert(adj[s0[k].0 as int]@[j] < adj.len());
        if k == s.len() - 1 && j == s[k].1 - 1 {
            assert(crate::cycles::linked(s0, adj, k));
            assert(adj[s0[k].0 as int]@[j] == s0[k + 1].0);
        } else {
            assert(edge_target_ok(nm, cs, c0, adj[s0[k].0 as int]@[j] as int));
        }
    }
}

// ---------------------------------------------------------------------------
// From nodes to fixtures and back

/// A walk along edges names a path along dependencies.
pub proof fn lemma_walk_names(
    ds: Seq<DefinitionView>,
    nodes: Seq<usize>,
    nm: Seq<Seq<char>>,
    adj: Seq<Vec<usize>>,
    q: Seq<usize>,
    u: int,
    v: int,
)
    requires
        is_node_list(ds, nodes, nm),
        is_edge_list(ds, nodes, nm, adj),
        node_walk(adj, q, u, v),
    ensures
        dep_path(ds, node_names(nm, q)),
        node_names(nm, q)[0] == nm[u],
        node_names(nm, q).last() == nm[v],
{
    let p = node_names(nm, q);
    assert forall|i: int| 0 <= i < p.len() - 1 implies #[trigger] cycle_step(ds, p, i) by {
        assert(node_step(adj, q, i));
        let j = choose|j: int| 0 <= j < adj[q[i] as int]@.len() && #[trigger] adj[q[i] as int]@[j] == q[i + 1];
        assert(q[i] < adj.len() && q[i + 1] < adj.len());
        let a = nodes[q[i] as int] as int;
        assert(first_of_name(ds, a) && nm[q[i] as int] == ds[a].name);
        lemma_named_first(ds, a);
        assert(adj[q[i] as int]@[j] < nm.len());
        let b = nodes[q[i + 1] as int] as int;
        assert(first_of_name(ds, b) && nm[q[i + 1] as int] == ds[b].name);
        assert(p[i] == nm[q[i] as int]);
        assert(p[i + 1] == nm[q[i + 1] as int]);
        assert(is_known(ds, p[i + 1]));
    }
}

/// A dependency cycle through `p[0]` is a cycle of the node named `p[0]`.
pub proof fn lemma_cycle_node(
    ds: Seq<DefinitionView>,
    nodes: Seq<usize>,
    nm: Seq<Seq<char>>,
    adj: Seq<Vec<usize>>,
    p: Seq<Seq<char>>,
)
    requires
        is_node_list(ds, nodes, nm),
        is_edge_list(ds, nodes, nm, adj),
        is_fixture_cycle(ds, p),
        nodes.len() <= usize::MAX,
    ensures
        0 <= node_named(nm, p[0]) < adj.len(),
        nm[node_named(nm, p[0])] == p[0],
        node_on_cycle(adj, node_named(nm, p[0])),
{
    assert forall|i: int| 0 <= i < p.len() implies is_known(ds, #[trigger] p[i]) by {
        let i0 = if i == p.len() - 1 { 0 } else { i };
        assert(p[i0] == p[i]);
        assert(cycle_step(ds, p, i0));
        crate::db::lemma_named_nonempty(ds, p[i0]);
    }
    let ks = Seq::new(p.len(), |i: int| node_named(nm, p[i]) as usize);
    assert forall|i: int| 0 <= i < p.len() implies 0 <= node_named(nm, #[trigger] p[i]) < nodes.len() && nm[node_named(nm, p[i])]
        == p[i] by {
        assert(is_known(ds, p[i]));
        lemma_known_has_node(ds, nodes, nm, p[i]);
    }
    assert forall|i: int| 0 <= i < ks.len() implies #[trigger] ks[i] < adj.len() && ks[i] as int == node_named(nm, p[i]) by {
        assert(0 <= node_named(nm, p[i]) < nodes.len());
    }
    assert forall|i: int| 0 <= i < ks.len() - 1 implies #[trigger] node_step(adj, ks, i) by {
        assert(cycle_step(ds, p, i));
        assert(0 <= node_named(nm, p[i]) < nodes.len() && nm[node_named(nm, p[i])] == p[i]);
        assert(0 <= node_named(nm, p[i + 1]) < nodes.len() && nm[node_named(nm, p[i + 1])] == p[i + 1]);
        assert(ks[i] as int == node_named(nm, p[i]));
        assert(ks[i + 1] as int == node_named(nm, p[i + 1]));
        let a = nodes[ks[i] as int] as int;
        assert(first_of_name(ds, a) && nm[ks[i] as int] == ds[a].name);
        lemma_named_first(ds, a);
        let deps = ds[a].dependencies;
        let t = choose|t: int| 0 <= t < deps.len() && deps[t] == p[i + 1];
        assert(is_known(ds, deps[t]));
        let j = choose|j: int| 0 <= j < adj[ks[i] as int]@.len() && nm[#[trigger] adj[ks[i] as int]@[j] as int] == deps[t];
        let w = adj[ks[i] as int]@[j] as int;
        assert(w < nm.len());
        if w != ks[i + 1] as int {
            lemma_node_names_distinct(ds, nodes, nm, w, ks[i + 1] as int);
        }
        assert(adj[ks[i] as int]@[j] == ks[i + 1]);
    }
    let u = node_named(nm, p[0]);
    assert(ks[0] as int == u);
    assert(ks[ks.len() - 1] as int == node_named(nm, p[p.len() - 1]));
    assert(node_walk(adj, ks, u, u));
}

/// When every node is finished, the facts the search keeps say that every
/// fixture on a cycle shares a circular group with a reported one.
pub proof fn lemma_cover_names(
    ds: Seq<DefinitionView>,
    nodes: Seq<usize>,
    nm: Seq<Seq<char>>,
    adj: Seq<Vec<usize>>,
    cs: Seq<(Seq<Seq<char>>, DefinitionView)>,
    color: Seq<u8>,
)
    requires
        is_node_list(ds, nodes, nm),
        is_edge_list(ds, nodes, nm, adj),
        nodes.len() <= usize::MAX,
        color.len() == adj.len(),
        forall|v: int| 0 <= v < color.len() ==> #[trigger] color[v] == 2,
        black_covered(adj, nm, cs, color),
    ensures
        cycles_cover(ds, cs),
{
    assert forall|n: Seq<char>| #[trigger] on_a_cycle(ds, n) implies exists|i: int, m: Seq<char>|
        0 <= i < cs.len() && #[trigger] cycle_members(cs[i]).contains(m) && reaches(ds, n, m) && reaches(ds, m, n) by {
        let p = choose|p: Seq<Seq<char>>| #[trigger] is_fixture_cycle(ds, p) && p[0] == n;
        lemma_cycle_node(ds, nodes, nm, adj, p);
        let u = node_named(nm, p[0]);
        assert(color[u] == 2);
        if !covered(adj, nm, cs, u) {
            let g = choose|g: int| 0 <= g < color.len() && color[g] == 1 && #[trigger] mutual(adj, u, g);
            assert(color[g] == 2);
        }
        let x = choose|x: int| 0 <= x < adj.len() && #[trigger] recorded_member(cs, nm[x]) && mutual(adj, u, x);
        let i = choose|i: int| 0 <= i < cs.len() && #[trigger] cycle_members(cs[i]).contains(nm[x]);
        let q1 = choose|q: Seq<usize>| #[trigger] node_walk(adj, q, u, x);
        let q2 = choose|q: Seq<usize>| #[trigger] node_walk(adj, q, x, u);
        lemma_walk_names(ds, nodes, nm, adj, q1, u, x);
        lemma_walk_names(ds, nodes, nm, adj, q2, x, u);
        assert(reaches(ds, n, nm[x]));
        assert(reaches(ds, nm[x], n));
    }
}

} // verus!
