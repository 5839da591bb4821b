//! Circular dependencies between fixtures.
//!
//! The fixtures form a graph: each fixture name stands for its first recorded
//! definition, and its edges go to the parameters of that definition that
//! are fixtures themselves. A depth-first search over that graph reports the
//! cycles it closes.
use vstd::prelude::*;

use crate::cycle_cover::{
    black_covered, black_edges_ok, cycles_cover, edge_target_ok, frames_edges_ok, grows, lemma_advance_keeps,
    lemma_cover_names, lemma_gray_keeps, lemma_grows_keeps, lemma_pop_keeps, lemma_push_keeps, recorded_member,
};
use crate::db::{named, FixtureDatabase};
use crate::text::{chars_eq, chars_of};
use crate::types::{def_views, string_views, DefinitionView, FixtureCycle, FixtureDefinition};

verus! {

/// Whether some definition in `ds` is named `n`.
pub open spec fn is_known(ds: Seq<DefinitionView>, n: Seq<char>) -> bool {
    exists|i: int| 0 <= i < ds.len() && (#[trigger] ds[i]).name == n
}

/// Fixture `a` depends on fixture `b`: both are defined, and the first
/// definition of `a` takes `b` as a parameter.
pub open spec fn depends_on(ds: Seq<DefinitionView>, a: Seq<char>, b: Seq<char>) -> bool {
    &&& named(ds, a).len() > 0
    &&& is_known(ds, b)
    &&& named(ds, a)[0].dependencies.contains(b)
}

/// Step `i` of path `p` follows a dependency.
pub open spec fn cycle_step(ds: Seq<DefinitionView>, p: Seq<Seq<char>>, i: int) -> bool {
    depends_on(ds, p[i], p[i + 1])
}

/// `p` follows dependencies for at least one step and ends where it started.
pub open spec fn is_fixture_cycle(ds: Seq<DefinitionView>, p: Seq<Seq<char>>) -> bool {
    &&& p.len() >= 2
    &&& p[0] == p.last()
    &&& forall|i: int| 0 <= i < p.len() - 1 ==> #[trigger] cycle_step(ds, p, i)
}

/// Whether the fixtures of `ds` depend on each other in a circle.
pub open spec fn has_cycle(ds: Seq<DefinitionView>) -> bool {
    exists|p: Seq<Seq<char>>| #[trigger] is_fixture_cycle(ds, p)
}

/// The mathematical value of a reported cycle: its path and its definition.
pub open spec fn cycle_view(c: FixtureCycle) -> (Seq<Seq<char>>, DefinitionView) {
    (string_views(c.cycle_path@), c.fixture@)
}

pub open spec fn cycle_views(v: Seq<FixtureCycle>) -> Seq<(Seq<Seq<char>>, DefinitionView)> {
    v.map_values(|c: FixtureCycle| cycle_view(c))
}

/// A reported cycle: a dependency cycle that visits no fixture twice before
/// closing, given with the first definition of the fixture it starts at.
pub open spec fn is_reported_cycle(ds: Seq<DefinitionView>, c: (Seq<Seq<char>>, DefinitionView)) -> bool {
    &&& is_fixture_cycle(ds, c.0)
    &&& c.0.drop_last().no_duplicates()
    &&& c.1 == named(ds, c.0[0])[0]
}

/// The fixtures a cycle goes through.
pub open spec fn cycle_members(c: (Seq<Seq<char>>, DefinitionView)) -> Set<Seq<char>> {
    c.0.drop_last().to_set()
}

/// What a search for cycles reports: genuine cycles, no two through the same
/// set of fixtures, at least one exactly when the fixtures are circular, and
/// for every fixture on a cycle one that shares a circular group with it.
pub open spec fn is_cycle_report(ds: Seq<DefinitionView>, cs: Seq<(Seq<Seq<char>>, DefinitionView)>) -> bool {
    &&& are_distinct_cycles(ds, cs)
    &&& (cs.len() == 0 <==> !has_cycle(ds))
    &&& cycles_cover(ds, cs)
}

/// Genuine cycles, no two through the same set of fixtures.
pub open spec fn are_distinct_cycles(ds: Seq<DefinitionView>, cs: Seq<(Seq<Seq<char>>, DefinitionView)>) -> bool {
    &&& forall|i: int| 0 <= i < cs.len() ==> #[trigger] is_reported_cycle(ds, cs[i])
    &&& forall|i: int, j: int|
        0 <= i < j < cs.len() ==> cycle_members(#[trigger] cs[i]) != cycle_members(#[trigger] cs[j])
}

/// Definition `i` is the first recorded under its name.
pub open spec fn first_of_name(ds: Seq<DefinitionView>, d: int) -> bool {
    &&& 0 <= d < ds.len()
    &&& forall|j: int| 0 <= j < d ==> (#[trigger] ds[j]).name != ds[d].name
}

/// The nodes of the graph: node `k` is the name `names[k]`, whose first
/// definition is `nodes[k]`; every name has a node, in recording order.
pub open spec fn is_node_list(ds: Seq<DefinitionView>, nodes: Seq<usize>, names: Seq<Seq<char>>) -> bool {
    &&& nodes.len() == names.len()
    &&& forall|k: int|
        #![trigger nodes[k]]
        #![trigger names[k]]
        0 <= k < nodes.len() ==> first_of_name(ds, nodes[k] as int) && names[k] == ds[nodes[k] as int].name
    &&& forall|k1: int, k2: int| 0 <= k1 < k2 < nodes.len() ==> #[trigger] nodes[k1] < #[trigger] nodes[k2]
    &&& forall|i: int| #[trigger] first_of_name(ds, i) ==> exists|k: int| 0 <= k < nodes.len() && nodes[k] == i
}

/// The edges of the graph: `adj[k]` lists nodes whose names the first
/// definition of node `k` takes as parameters, and every such parameter that
/// names a fixture is listed.
pub open spec fn is_edge_list(
    ds: Seq<DefinitionView>,
    nodes: Seq<usize>,
    names: Seq<Seq<char>>,
    adj: Seq<Vec<usize>>,
) -> bool {
    &&& adj.len() == nodes.len()
    &&& forall|k: int, j: int|
        0 <= k < adj.len() && 0 <= j < adj[k]@.len() ==> #[trigger] adj[k]@[j] < names.len()
            && ds[nodes[k] as int].dependencies.contains(names[adj[k]@[j] as int])
    &&& forall|k: int, t: int|
        0 <= k < adj.len() && 0 <= t < ds[nodes[k] as int].dependencies.len() && is_known(
            ds,
            #[trigger] ds[nodes[k] as int].dependencies[t],
        ) ==> exists|j: int|
            0 <= j < adj[k]@.len() && names[#[trigger] adj[k]@[j] as int]
                == ds[nodes[k] as int].dependencies[t]
}

/// A name with no definition has no definitions listed under it.
pub proof fn lemma_named_empty(ds: Seq<DefinitionView>, n: Seq<char>)
    requires
        forall|j: int| 0 <= j < ds.len() ==> (#[trigger] ds[j]).name != n,
    ensures
        named(ds, n).len() == 0,
    decreases ds.len(),
{
    if ds.len() > 0 {
        assert(ds[ds.len() - 1].name != n);
        assert forall|j: int| 0 <= j < ds.drop_last().len() implies (#[trigger] ds.drop_last()[j]).name
            != n by {
            assert(ds.drop_last()[j] == ds[j]);
        }
        lemma_named_empty(ds.drop_last(), n);
    }
}

/// The first definition listed under a name is the first recorded with it.
pub proof fn lemma_named_first(ds: Seq<DefinitionView>, i: int)
    requires
        first_of_name(ds, i),
    ensures
        named(ds, ds[i].name).len() > 0,
        named(ds, ds[i].name)[0] == ds[i],
    decreases ds.len(),
{
    let n = ds[i].name;
    if i == ds.len() - 1 {
        assert forall|j: int| 0 <= j < ds.drop_last().len() implies (#[trigger] ds.drop_last()[j]).name
            != n by {
            assert(ds.drop_last()[j] == ds[j]);
        }
        lemma_named_empty(ds.drop_last(), n);
    } else {
        let d = ds.drop_last();
        assert(d[i] == ds[i]);
        assert forall|j: int| 0 <= j < i implies (#[trigger] d[j]).name != d[i].name by {
            assert(d[j] == ds[j]);
        }
        lemma_named_first(d, i);
    }
}

/// A defined name has a first definition.
pub proof fn lemma_first_exists(ds: Seq<DefinitionView>, i: int)
    requires
        0 <= i < ds.len(),
    ensures
        exists|f: int| #[trigger] first_of_name(ds, f) && ds[f].name == ds[i].name,
    decreases i,
{
    if first_of_name(ds, i) {
    } else {
        let j = choose|j: int| 0 <= j < i && (#[trigger] ds[j]).name == ds[i].name;
        lemma_first_exists(ds, j);
    }
}

/// Distinct nodes have distinct names.
pub proof fn lemma_node_names_distinct(
    ds: Seq<DefinitionView>,
    nodes: Seq<usize>,
    names: Seq<Seq<char>>,
    k1: int,
    k2: int,
)
    requires
        is_node_list(ds, nodes, names),
        0 <= k1 < nodes.len(),
        0 <= k2 < nodes.len(),
        k1 != k2,
    ensures
        names[k1] != names[k2],
{
    assert(names[k1] == ds[nodes[k1] as int].name);
    assert(names[k2] == ds[nodes[k2] as int].name);
    if k1 < k2 {
        assert(nodes[k1] < nodes[k2]);
        assert(first_of_name(ds, nodes[k2] as int));
        assert(ds[nodes[k1] as int].name != ds[nodes[k2] as int].name);
    } else {
        assert(nodes[k2] < nodes[k1]);
        assert(first_of_name(ds, nodes[k1] as int));
        assert(ds[nodes[k2] as int].name != ds[nodes[k1] as int].name);
    }
}

/// Every defined name is the name of some node.
pub proof fn lemma_known_has_node(
    ds: Seq<DefinitionView>,
    nodes: Seq<usize>,
    names: Seq<Seq<char>>,
    n: Seq<char>,
)
    requires
        is_node_list(ds, nodes, names),
        is_known(ds, n),
    ensures
        exists|k: int| 0 <= k < nodes.len() && #[trigger] names[k] == n,
{
    let i = choose|i: int| 0 <= i < ds.len() && (#[trigger] ds[i]).name == n;
    lemma_first_exists(ds, i);
    let f = choose|f: int| #[trigger] first_of_name(ds, f) && ds[f].name == ds[i].name;
    let k = choose|k: int| 0 <= k < nodes.len() && nodes[k] == f;
    assert(names[k] == n);
}

/// Where `n` sits in `names`, if anywhere.
fn position_of(names: &Vec<Vec<char>>, n: &[char]) -> (r: Option<usize>)
    ensures
        match r {
            Some(k) => k < names@.len() && names@[k as int]@ == n@,
            None => forall|k: int| 0 <= k < names@.len() ==> (#[trigger] names@[k])@ != n@,
        },
{
    let mut k: usize = 0;
    while k < names.len()
        invariant
            k <= names@.len(),
            forall|q: int| 0 <= q < k ==> (#[trigger] names@[q])@ != n@,
        decreases names@.len() - k,
    {
        if chars_eq(names[k].as_slice(), n) {
            return Some(k);
        }
        k = k + 1;
    }
    None
}

pub open spec fn char_views(v: Seq<Vec<char>>) -> Seq<Seq<char>> {
    v.map_values(|c: Vec<char>| c@)
}

/// The first definition of each name, with the name, in recording order.
#[verifier::spinoff_prover]
fn graph_nodes(defs: &Vec<FixtureDefinition>) -> (r: (Vec<usize>, Vec<Vec<char>>))
    ensures
        is_node_list(def_views(defs@), r.0@, char_views(r.1@)),
{
    let ghost ds = def_views(defs@);
    let mut nodes: Vec<usize> = Vec::new();
    let mut names: Vec<Vec<char>> = Vec::new();
    let mut i: usize = 0;
    while i < defs.len()
        invariant
            i <= ds.len(),
            ds == def_views(defs@),
            nodes@.len() == names@.len(),
            forall|k: int|
                #![trigger nodes@[k]]
                #![trigger names@[k]]
                0 <= k < nodes@.len() ==> first_of_name(ds, nodes@[k] as int) && nodes@[k] < i
                    && names@[k]@ == ds[nodes@[k] as int].name,
            forall|k1: int, k2: int|
                0 <= k1 < k2 < nodes@.len() ==> #[trigger] nodes@[k1] < #[trigger] nodes@[k2],
            forall|f: int|
                #[trigger] first_of_name(ds, f) && f < i ==> exists|k: int|
                    0 <= k < nodes@.len() && nodes@[k] == f,
            forall|j: int|
                0 <= j < i ==> exists|k: int|
                    0 <= k < names@.len() && (#[trigger] names@[k])@ == (#[trigger] ds[j]).name,
        decreases ds.len() - i,
    {
        let n = chars_of(defs[i].name.as_str());
        assert(ds[i as int] == defs@[i as int]@);
        match position_of(&names, n.as_slice()) {
            Some(k) => {
                proof {
                    assert(!first_of_name(ds, i as int)) by {
                        let j = nodes@[k as int] as int;
                        assert(ds[j].name == ds[i as int].name);
                    }
                    assert forall|j: int| 0 <= j < i + 1 implies exists|q: int|
                        0 <= q < names@.len() && (#[trigger] names@[q])@ == (#[trigger] ds[j]).name by {
                        if j == i {
                            assert(names@[k as int]@ == ds[j].name);
                        }
                    }
                }
            },
            None => {
                proof {
                    assert forall|j: int| 0 <= j < i implies (#[trigger] ds[j]).name != ds[i as int].name by {
                        let q = choose|q: int|
                            0 <= q < names@.len() && (#[trigger] names@[q])@ == (#[trigger] ds[j]).name;
                        assert(names@[q]@ != n@);
                    }
                }
                let ghost old_nodes = nodes@;
                let ghost old_names = names@;
                nodes.push(i);
                names.push(n);
                proof {
                    assert forall|k: int| 0 <= k < nodes@.len() implies #[trigger] first_of_name(ds, nodes@[k] as int)
                        && nodes@[k] < i + 1 && names@[k]@ == ds[nodes@[k] as int].name by {
                        if k < old_nodes.len() {
                            assert(names@[k] == old_names[k]);
                            assert(nodes@[k] == old_nodes[k]);
                        }
                    }
                    assert forall|k1: int, k2: int|
                        0 <= k1 < k2 < nodes@.len() implies #[trigger] nodes@[k1] < #[trigger] nodes@[k2] by {
                        if k2 == old_nodes.len() {
                            assert(old_names[k1] == names@[k1]);
                            assert(first_of_name(ds, old_nodes[k1] as int) && old_nodes[k1] < i);
                        } else {
                            assert(old_nodes[k1] < old_nodes[k2]);
                        }
                    }
                    assert forall|f: int| #[trigger] first_of_name(ds, f) && f < i + 1 implies exists|k: int|
                        0 <= k < nodes@.len() && nodes@[k] == f by {
                        if f == i {
                            assert(nodes@[old_nodes.len() as int] == f);
                        } else {
                            let k = choose|k: int| 0 <= k < old_nodes.len() && old_nodes[k] == f;
                            assert(nodes@[k] == f);
                        }
                    }
                    assert forall|j: int| 0 <= j < i + 1 implies exists|q: int|
                        0 <= q < names@.len() && (#[trigger] names@[q])@ == (#[trigger] ds[j]).name by {
                        if j == i {
                            assert(names@[old_names.len() as int]@ == ds[j].name);
                        } else {
                            let q = choose|q: int|
                                0 <= q < old_names.len() && (#[trigger] old_names[q])@ == (#[trigger] ds[j]).name;
                            assert(names@[q] == old_names[q]);
                        }
                    }
                }
            },
        }
        i = i + 1;
    }
    proof {
        assert forall|k: int| 0 <= k < nodes@.len() implies #[trigger] first_of_name(ds, nodes@[k] as int)
            && char_views(names@)[k] == ds[nodes@[k] as int].name by {
            assert(char_views(names@)[k] == names@[k]@);
        }
        assert forall|f: int| #[trigger] first_of_name(ds, f) implies exists|k: int|
            0 <= k < nodes@.len() && nodes@[k] == f by {
            assert(f < i);
        }
    }
    (nodes, names)
}

/// For each node, the nodes among the parameters of its first definition.
fn graph_edges(defs: &Vec<FixtureDefinition>, nodes: &Vec<usize>, names: &Vec<Vec<char>>) -> (adj: Vec<
    Vec<usize>,
>)
    requires
        is_node_list(def_views(defs@), nodes@, char_views(names@)),
    ensures
        is_edge_list(def_views(defs@), nodes@, char_views(names@), adj@),
{
    let ghost ds = def_views(defs@);
    let ghost nm = char_views(names@);
    let mut adj: Vec<Vec<usize>> = Vec::new();
    let mut k: usize = 0;
    while k < nodes.len()
        invariant
            k <= nodes@.len(),
            ds == def_views(defs@),
            nm == char_views(names@),
            is_node_list(ds, nodes@, nm),
            adj@.len() == k,
            forall|q: int, j: int|
                0 <= q < k && 0 <= j < adj@[q]@.len() ==> #[trigger] adj@[q]@[j] < nm.len()
                    && ds[nodes@[q] as int].dependencies.contains(nm[adj@[q]@[j] as int]),
            forall|q: int, t: int|
                0 <= q < k && 0 <= t < ds[nodes@[q] as int].dependencies.len() && is_known(
                    ds,
                    #[trigger] ds[nodes@[q] as int].dependencies[t],
                ) ==> exists|j: int|
                    0 <= j < adj@[q]@.len() && nm[#[trigger] adj@[q]@[j] as int]
                        == ds[nodes@[q] as int].dependencies[t],
        decreases nodes@.len() - k,
    {
        assert(nm[k as int] == ds[nodes@[k as int] as int].name);
        assert(first_of_name(ds, nodes@[k as int] as int));
        let d = &defs[nodes[k]];
        let ghost deps = ds[nodes@[k as int] as int].dependencies;
        assert(d@ == ds[nodes@[k as int] as int]);
        let mut row: Vec<usize> = Vec::new();
        let mut t: usize = 0;
        while t < d.dependencies.len()
            invariant
                t <= deps.len(),
                deps == d@.dependencies,
                ds == def_views(defs@),
                nm == char_views(names@),
                is_node_list(ds, nodes@, nm),
                forall|j: int|
                    0 <= j < row@.len() ==> #[trigger] row@[j] < nm.len() && deps.contains(
                        nm[row@[j] as int],
                    ),
                forall|s: int|
                    0 <= s < t && is_known(ds, #[trigger] deps[s]) ==> exists|j: int|
                        0 <= j < row@.len() && nm[#[trigger] row@[j] as int] == deps[s],
            decreases deps.len() - t,
        {
            let dep = chars_of(d.dependencies[t].as_str());
            assert(deps[t as int] == dep@);
            match position_of(names, dep.as_slice()) {
                Some(m) => {
                    let ghost old_row = row@;
                    row.push(m);
                    proof {
                        assert(nm[m as int] == names@[m as int]@);
                        assert forall|s: int|
                            0 <= s < t + 1 && is_known(ds, #[trigger] deps[s]) implies exists|j: int|
                            0 <= j < row@.len() && nm[#[trigger] row@[j] as int] == deps[s] by {
                            if s == t {
                                assert(row@[old_row.len() as int] == m);
                            } else {
                                let j = choose|j: int|
                                    0 <= j < old_row.len() && nm[#[trigger] old_row[j] as int] == deps[s];
                                assert(row@[j] == old_row[j]);
                            }
                        }
                    }
                },
                None => {
                    proof {
                        if is_known(ds, deps[t as int]) {
                            lemma_known_has_node(ds, nodes@, nm, deps[t as int]);
                            let q = choose|q: int| 0 <= q < nodes@.len() && #[trigger] nm[q] == deps[t as int];
                            assert(nm[q] == names@[q]@);
                        }
                    }
                },
            }
            t = t + 1;
        }
        let ghost old_adj = adj@;
        let ghost r = row@;
        adj.push(row);
        proof {
            assert(adj@[k as int]@ == r);
            assert forall|q: int, j: int|
                0 <= q < k + 1 && 0 <= j < adj@[q]@.len() implies #[trigger] adj@[q]@[j] < nm.len()
                    && ds[nodes@[q] as int].dependencies.contains(nm[adj@[q]@[j] as int]) by {
                if q < k {
                    assert(adj@[q] == old_adj[q]);
                }
            }
            assert forall|q: int, t: int|
                0 <= q < k + 1 && 0 <= t < ds[nodes@[q] as int].dependencies.len() && is_known(
                    ds,
                    #[trigger] ds[nodes@[q] as int].dependencies[t],
                ) implies exists|j: int|
                    0 <= j < adj@[q]@.len() && nm[#[trigger] adj@[q]@[j] as int]
                        == ds[nodes@[q] as int].dependencies[t] by {
                if q < k {
                    assert(adj@[q] == old_adj[q]);
                } else {
                    let j = choose|j: int| 0 <= j < r.len() && nm[#[trigger] r[j] as int] == deps[t];
                    assert(adj@[q]@[j] == r[j]);
                }
            }
        }
        k = k + 1;
    }
    adj
}

/// A step of node path `q` along an edge.
pub open spec fn node_step(adj: Seq<Vec<usize>>, q: Seq<usize>, i: int) -> bool {
    exists|j: int| 0 <= j < adj[q[i] as int]@.len() && adj[q[i] as int]@[j] == q[i + 1]
}

pub open spec fn node_names(nm: Seq<Seq<char>>, q: Seq<usize>) -> Seq<Seq<char>> {
    q.map_values(|x: usize| nm[x as int])
}

/// A closed walk along edges names a dependency cycle.
pub proof fn lemma_node_cycle(
    ds: Seq<DefinitionView>,
    nodes: Seq<usize>,
    nm: Seq<Seq<char>>,
    adj: Seq<Vec<usize>>,
    q: Seq<usize>,
)
    requires
        is_node_list(ds, nodes, nm),
        is_edge_list(ds, nodes, nm, adj),
        q.len() >= 2,
        q[0] == q.last(),
        forall|i: int| 0 <= i < q.len() ==> #[trigger] q[i] < nodes.len(),
        forall|i: int| 0 <= i < q.len() - 1 ==> #[trigger] node_step(adj, q, i),
    ensures
        is_fixture_cycle(ds, node_names(nm, q)),
{
    let p = node_names(nm, q);
    assert forall|i: int| 0 <= i < p.len() - 1 implies #[trigger] cycle_step(ds, p, i) by {
        assert(node_step(adj, q, i));
        let j = choose|j: int| 0 <= j < adj[q[i] as int]@.len() && adj[q[i] as int]@[j] == q[i + 1];
        assert(q[i] < nodes.len() && q[i + 1] < nodes.len());
        let a = nodes[q[i] as int] as int;
        assert(first_of_name(ds, a) && nm[q[i] as int] == ds[a].name);
        lemma_named_first(ds, a);
        assert(adj[q[i] as int]@[j] < nm.len());
        let b = nodes[q[i + 1] as int] as int;
        assert(first_of_name(ds, b) && nm[q[i + 1] as int] == ds[b].name);
        assert(p[i] == nm[q[i] as int]);
        assert(p[i + 1] == nm[q[i + 1] as int]);
        assert(is_known(ds, p[i + 1]));
    }
}

/// The node whose name is `n`.
pub open spec fn node_named(nm: Seq<Seq<char>>, n: Seq<char>) -> int {
    choose|k: int| 0 <= k < nm.len() && nm[k] == n
}

/// Step `i` of `ks` goes to an earlier finishing time.
pub open spec fn descends(fin: Seq<int>, ks: Seq<int>, i: int) -> bool {
    fin[ks[i + 1]] < fin[ks[i]]
}

proof fn lemma_descends(fin: Seq<int>, ks: Seq<int>, m: int)
    requires
        0 <= m < ks.len(),
        forall|i: int| 0 <= i < m ==> #[trigger] descends(fin, ks, i),
    ensures
        fin[ks[0]] >= fin[ks[m]] + m,
    decreases m,
{
    if m > 0 {
        lemma_descends(fin, ks, m - 1);
        assert(descends(fin, ks, m - 1));
    }
}

/// With every edge going to a node finished earlier, there is no cycle.
proof fn lemma_no_cycle(
    ds: Seq<DefinitionView>,
    nodes: Seq<usize>,
    nm: Seq<Seq<char>>,
    adj: Seq<Vec<usize>>,
    fin: Seq<int>,
    p: Seq<Seq<char>>,
)
    requires
        is_node_list(ds, nodes, nm),
        is_edge_list(ds, nodes, nm, adj),
        fin.len() == nodes.len(),
        forall|u: int, j: int|
            0 <= u < adj.len() && 0 <= j < adj[u]@.len() ==> fin[#[trigger] adj[u]@[j] as int] < fin[u],
    ensures
        !is_fixture_cycle(ds, p),
{
    if is_fixture_cycle(ds, p) {
        lemma_cycle_descends(ds, nodes, nm, adj, fin, p);
    }
}

proof fn lemma_cycle_descends(
    ds: Seq<DefinitionView>,
    nodes: Seq<usize>,
    nm: Seq<Seq<char>>,
    adj: Seq<Vec<usize>>,
    fin: Seq<int>,
    p: Seq<Seq<char>>,
)
    requires
        is_node_list(ds, nodes, nm),
        is_edge_list(ds, nodes, nm, adj),
        fin.len() == nodes.len(),
        forall|u: int, j: int|
            0 <= u < adj.len() && 0 <= j < adj[u]@.len() ==> fin[#[trigger] adj[u]@[j] as int] < fin[u],
        is_fixture_cycle(ds, p),
    ensures
        fin[node_named(nm, p[0])] >= fin[node_named(nm, p.last())] + p.len() - 1,
        node_named(nm, p[0]) == node_named(nm, p.last()),
{
    assert forall|i: int| 0 <= i < p.len() implies is_known(ds, #[trigger] p[i]) by {
        let i0 = if i == p.len() - 1 { 0 } else { i };
        assert(p[i0] == p[i]);
        assert(cycle_step(ds, p, i0));
        crate::db::lemma_named_nonempty(ds, p[i0]);
    }
    let ks = Seq::new(p.len(), |i: int| node_named(nm, p[i]));
    assert forall|i: int| 0 <= i < p.len() implies 0 <= #[trigger] ks[i] < nodes.len() && nm[ks[i]] == p[i] by {
        assert(is_known(ds, p[i]));
        lemma_known_has_node(ds, nodes, nm, p[i]);
    }
    assert forall|i: int| 0 <= i < p.len() - 1 implies #[trigger] descends(fin, ks, i) by {
        assert(cycle_step(ds, p, i));
        assert(0 <= ks[i] < nodes.len() && nm[ks[i]] == p[i]);
        assert(0 <= ks[i + 1] < nodes.len() && nm[ks[i + 1]] == p[i + 1]);
        let a = nodes[ks[i]] as int;
        assert(first_of_name(ds, a) && nm[ks[i]] == ds[a].name);
        lemma_named_first(ds, a);
        let deps = ds[a].dependencies;
        let t = choose|t: int| 0 <= t < deps.len() && deps[t] == p[i + 1];
        assert(is_known(ds, deps[t]));
        let j = choose|j: int| 0 <= j < adj[ks[i]]@.len() && nm[#[trigger] adj[ks[i]]@[j] as int] == deps[t];
        let w = adj[ks[i]]@[j] as int;
        assert(w < nm.len());
        if w != ks[i + 1] {
            lemma_node_names_distinct(ds, nodes, nm, w, ks[i + 1]);
        }
        assert(fin[w] < fin[ks[i]]);
    }
    lemma_descends(fin, ks, p.len() - 1);
    assert(ks[0] == node_named(nm, p[0]));
    assert(ks[p.len() - 1] == node_named(nm, p.last()));
}

/// Number of nodes not yet reached.
pub open spec fn count_unreached(c: Seq<u8>) -> nat
    decreases c.len(),
{
    if c.len() == 0 {
        0
    } else {
        count_unreached(c.drop_last()) + if c.last() == 0 {
            1nat
        } else {
            0nat
        }
    }
}

proof fn lemma_count_update(c: Seq<u8>, v: int, x: u8)
    requires
        0 <= v < c.len(),
        x != 0,
    ensures
        c[v] == 0 ==> count_unreached(c.update(v, x)) + 1 == count_unreached(c),
        c[v] != 0 ==> count_unreached(c.update(v, x)) == count_unreached(c),
    decreases c.len(),
{
    let d = c.update(v, x);
    if v == c.len() - 1 {
        assert(d.drop_last() =~= c.drop_last());
    } else {
        assert(d.drop_last() =~= c.drop_last().update(v, x));
        lemma_count_update(c.drop_last(), v, x);
    }
}

/// The work left on the stack: for each frame, its unexplored edges and
/// its own finishing.
pub open spec fn stack_work(s: Seq<(usize, usize)>, adj: Seq<Vec<usize>>) -> nat
    decreases s.len(),
{
    if s.len() == 0 {
        0
    } else {
        stack_work(s.drop_last(), adj) + (adj[s.last().0 as int]@.len() - s.last().1) as nat + 1
    }
}

/// Frame `k` went to frame `k + 1` along its last explored edge.
pub open spec fn linked(s: Seq<(usize, usize)>, adj: Seq<Vec<usize>>, k: int) -> bool {
    &&& s[k].1 >= 1
    &&& adj[s[k].0 as int]@[s[k].1 - 1] == s[k + 1].0
}

/// The stack of the search: frames of distinct in-progress nodes, each the
/// target of the last edge its predecessor explored; in-progress nodes are
/// exactly those on the stack.
pub open spec fn frames_ok(s: Seq<(usize, usize)>, adj: Seq<Vec<usize>>, color: Seq<u8>) -> bool {
    &&& forall|k: int|
        0 <= k < s.len() ==> (#[trigger] s[k]).0 < adj.len() && s[k].1 <= adj[s[k].0 as int]@.len()
            && color[s[k].0 as int] == 1
    &&& forall|k1: int, k2: int| 0 <= k1 < k2 < s.len() ==> (#[trigger] s[k1]).0 != (#[trigger] s[k2]).0
    &&& forall|v: int| 0 <= v < color.len() && #[trigger] color[v] == 1 ==> exists|k: int| 0 <= k < s.len() && s[k].0 == v
    &&& forall|k: int| 0 <= k < s.len() - 1 ==> #[trigger] linked(s, adj, k)
}

/// Every edge goes to a node.
pub open spec fn edges_in_range(adj: Seq<Vec<usize>>) -> bool {
    forall|u: int, j: int| 0 <= u < adj.len() && 0 <= j < adj[u]@.len() ==> #[trigger] adj[u]@[j] < adj.len()
}

/// Finished nodes got increasing finishing times, later than those of all
/// the nodes they lead to, which are finished too.
pub open spec fn finish_order(adj: Seq<Vec<usize>>, color: Seq<u8>, fin: Seq<int>, counter: int) -> bool {
    &&& forall|u: int| 0 <= u < color.len() && #[trigger] color[u] == 2 ==> fin[u] < counter
    &&& forall|u: int, j: int|
        0 <= u < color.len() && color[u] == 2 && 0 <= j < adj[u]@.len() ==> color[#[trigger] adj[u]@[j] as int] == 2
            && fin[adj[u]@[j] as int] < fin[u]
}

/// The edges explored from each frame lead to finished nodes, but for the
/// one each lower frame is exploring.
pub open spec fn explored_finished(s: Seq<(usize, usize)>, adj: Seq<Vec<usize>>, color: Seq<u8>) -> bool {
    forall|k: int, j: int|
        0 <= k < s.len() && 0 <= j < s[k].1 && !(k < s.len() - 1 && j == s[k].1 - 1) ==> color[#[trigger] adj[s[k].0 as int]@[j] as int] == 2
}

/// Whether `x` is among the first `n` names of `v`.
fn name_among(v: &Vec<String>, n: usize, x: &Vec<char>) -> (r: bool)
    requires
        n <= v@.len(),
    ensures
        r == string_views(v@).take(n as int).contains(x@),
{
    let mut k: usize = 0;
    while k < n
        invariant
            k <= n,
            n <= v@.len(),
            forall|q: int| 0 <= q < k ==> (#[trigger] v@[q])@ != x@,
        decreases n - k,
    {
        let c = chars_of(v[k].as_str());
        if chars_eq(c.as_slice(), x.as_slice()) {
            assert(string_views(v@).take(n as int)[k as int] == x@);
            return true;
        }
        k = k + 1;
    }
    proof {
        if string_views(v@).take(n as int).contains(x@) {
            let q = choose|q: int| 0 <= q < n && string_views(v@).take(n as int)[q] == x@;
            assert(v@[q]@ == x@);
        }
    }
    false
}

/// Whether each name of `a` but the last is among those of `b` but the last.
fn names_within(a: &Vec<String>, b: &Vec<String>) -> (r: bool)
    requires
        a@.len() >= 1,
        b@.len() >= 1,
    ensures
        r == forall|i: int|
            0 <= i < a@.len() - 1 ==> string_views(b@).drop_last().contains(#[trigger] string_views(a@)[i]),
{
    let nb = b.len() - 1;
    assert(string_views(b@).take(nb as int) =~= string_views(b@).drop_last());
    let mut i: usize = 0;
    while i < a.len() - 1
        invariant
            i <= a@.len() - 1,
            nb == b@.len() - 1,
            string_views(b@).take(nb as int) == string_views(b@).drop_last(),
            forall|q: int| 0 <= q < i ==> string_views(b@).drop_last().contains(#[trigger] string_views(a@)[q]),
        decreases a@.len() - i,
    {
        let x = chars_of(a[i].as_str());
        assert(string_views(a@)[i as int] == x@);
        if !name_among(b, nb, &x) {
            return false;
        }
        i = i + 1;
    }
    true
}

/// Whether two cycle paths go through the same fixtures.
fn same_members(a: &Vec<String>, b: &Vec<String>) -> (r: bool)
    requires
        a@.len() >= 1,
        b@.len() >= 1,
    ensures
        r == (string_views(a@).drop_last().to_set() == string_views(b@).drop_last().to_set()),
{
    let sa = Ghost(string_views(a@).drop_last());
    let sb = Ghost(string_views(b@).drop_last());
    let ab = names_within(a, b);
    let ba = names_within(b, a);
    proof {
        if ab && ba {
            assert forall|x: Seq<char>| sa@.to_set().contains(x) == sb@.to_set().contains(x) by {
                if sa@.contains(x) {
                    let i = choose|i: int| 0 <= i < sa@.len() && sa@[i] == x;
                    assert(string_views(a@)[i] == x);
                }
                if sb@.contains(x) {
                    let i = choose|i: int| 0 <= i < sb@.len() && sb@[i] == x;
                    assert(string_views(b@)[i] == x);
                }
            }
            assert(sa@.to_set() =~= sb@.to_set());
        } else if !ab {
            let i = choose|i: int|
                0 <= i < a@.len() - 1 && !sb@.contains(#[trigger] string_views(a@)[i]);
            assert(sa@[i] == string_views(a@)[i]);
            assert(sa@.to_set().contains(sa@[i]));
            assert(!sb@.to_set().contains(sa@[i]));
        } else {
            let i = choose|i: int|
                0 <= i < b@.len() - 1 && !sa@.contains(#[trigger] string_views(b@)[i]);
            assert(sb@[i] == string_views(b@)[i]);
            assert(sb@.to_set().contains(sb@[i]));
            assert(!sa@.to_set().contains(sb@[i]));
        }
    }
    ab && ba
}

/// Records the cycle that the edge from the top frame to the in-progress
/// node `v` closes, unless a cycle through the same fixtures is recorded.
fn record_cycle(
    defs: &Vec<FixtureDefinition>,
    nodes: &Vec<usize>,
    adj: &Vec<Vec<usize>>,
    stack: &Vec<(usize, usize)>,
    v: usize,
    cycles: &mut Vec<FixtureCycle>,
    Ghost(nm): Ghost<Seq<Seq<char>>>,
    Ghost(color): Ghost<Seq<u8>>,
)
    requires
        is_node_list(def_views(defs@), nodes@, nm),
        is_edge_list(def_views(defs@), nodes@, nm, adj@),
        color.len() == nodes@.len(),
        frames_ok(stack@, adj@, color),
        stack@.len() > 0,
        v < nodes@.len(),
        color[v as int] == 1,
        stack@.last().1 >= 1,
        adj@[stack@.last().0 as int]@[stack@.last().1 - 1] == v,
        are_distinct_cycles(def_views(defs@), cycle_views(old(cycles)@)),
    ensures
        are_distinct_cycles(def_views(defs@), cycle_views(final(cycles)@)),
        final(cycles)@.len() > 0,
        grows(cycle_views(old(cycles)@), cycle_views(final(cycles)@)),
        recorded_member(cycle_views(final(cycles)@), nm[v as int]),
{
    let ghost ds = def_views(defs@);
    let ghost s = stack@;
    let ghost len = s.len() as int;
    // where `v` sits on the stack
    let sl = stack.len();
    let mut p: usize = 0;
    while stack[p].0 != v
        invariant
            p < s.len(),
            sl == s.len(),
            s == stack@,
            frames_ok(s, adj@, color),
            color[v as int] == 1,
            v < color.len(),
            forall|k: int| 0 <= k < p ==> (#[trigger] s[k]).0 != v,
        decreases s.len() - p,
    {
        proof {
            assert(s[p as int].0 != v);
            let k = choose|k: int| 0 <= k < s.len() && s[k].0 == v;
            assert(k != p as int);
            assert(p + 1 < s.len());
        }
        p = p + 1;
    }
    let ghost q = Seq::new((len - p + 1) as nat, |i: int| if i < len - p { s[p + i].0 } else { v });
    let mut path: Vec<String> = Vec::new();
    let mut k: usize = p;
    while k < stack.len()
        invariant
            p <= k <= len,
            len == s.len(),
            s == stack@,
            frames_ok(s, adj@, color),
            is_node_list(ds, nodes@, nm),
            is_edge_list(ds, nodes@, nm, adj@),
            ds == def_views(defs@),
            q.len() == len - p + 1,
            forall|i: int| 0 <= i < len - p ==> #[trigger] q[i] == s[p + i].0,
            string_views(path@) == node_names(nm, q).take(k - p),
        decreases len - k,
    {
        let x = stack[k].0;
        assert(s[k as int].0 < adj@.len());
        assert(nm[x as int] == ds[nodes@[x as int] as int].name);
        assert(first_of_name(ds, nodes@[x as int] as int));
        let nmx = defs[nodes[x]].name.clone();
        assert(defs@[nodes@[x as int] as int]@ == ds[nodes@[x as int] as int]);
        let ghost before = path@;
        path.push(nmx);
        assert(string_views(path@) =~= node_names(nm, q).take(k + 1 - p)) by {
            assert(q[k - p] == x);
            assert(string_views(path@) =~= string_views(before).push(nmx@));
        }
        k = k + 1;
    }
    assert(nm[v as int] == ds[nodes@[v as int] as int].name);
    assert(first_of_name(ds, nodes@[v as int] as int));
    let head = &defs[nodes[v]];
    assert(head@ == ds[nodes@[v as int] as int]);
    let ghost before = path@;
    path.push(head.name.clone());
    proof {
        assert(string_views(path@) =~= node_names(nm, q)) by {
            assert(q[len - p] == v);
            assert(string_views(path@) =~= string_views(before).push(nm[v as int]));
            assert(node_names(nm, q) =~= node_names(nm, q).take(len - p).push(nm[v as int]));
        }
        assert forall|i: int| 0 <= i < q.len() implies #[trigger] q[i] < nodes@.len() by {
            if i < len - p {
                assert(s[p + i].0 < adj@.len());
            }
        }
        assert forall|i: int| 0 <= i < q.len() - 1 implies #[trigger] node_step(adj@, q, i) by {
            if i < len - p - 1 {
                assert(linked(s, adj@, p + i));
                assert(q[i] == s[p + i].0 && q[i + 1] == s[p + i + 1].0);
                assert(s[p + i].1 <= adj@[s[p + i].0 as int]@.len());
                let j = s[p + i].1 - 1;
                assert(adj@[q[i] as int]@[j] == q[i + 1]);
            } else {
                assert(q[i] == s[len - 1].0 && q[i + 1] == v);
                assert(s[len - 1].1 <= adj@[s[len - 1].0 as int]@.len());
                let j = s.last().1 - 1;
                assert(adj@[q[i] as int]@[j] == q[i + 1]);
            }
        }
        assert(q[0] == q.last());
        lemma_node_cycle(ds, nodes@, nm, adj@, q);
        assert(node_names(nm, q).drop_last().no_duplicates()) by {
            assert forall|i: int, j: int|
                0 <= i < len - p && 0 <= j < len - p && i != j implies node_names(nm, q).drop_last()[i]
                != node_names(nm, q).drop_last()[j] by {
                assert(q[i] == s[p + i].0 && q[j] == s[p + j].0);
                if p + i < p + j {
                    assert(s[p + i].0 != s[p + j].0);
                } else {
                    assert(s[p + j].0 != s[p + i].0);
                }
                assert(s[p + i].0 < adj@.len() && s[p + j].0 < adj@.len());
                lemma_node_names_distinct(ds, nodes@, nm, q[i] as int, q[j] as int);
            }
        }
        lemma_named_first(ds, nodes@[v as int] as int);
    }
    let mut dup = false;
    let mut t: usize = 0;
    while t < cycles.len()
        invariant
            t <= cycles@.len(),
            path@.len() >= 2,
            dup == exists|i: int|
                0 <= i < t && string_views((#[trigger] cycles@[i]).cycle_path@).drop_last().to_set()
                    == string_views(path@).drop_last().to_set(),
            are_distinct_cycles(ds, cycle_views(cycles@)),
        decreases cycles@.len() - t,
    {
        assert(is_reported_cycle(ds, cycle_views(cycles@)[t as int]));
        assert(cycle_views(cycles@)[t as int] == cycle_view(cycles@[t as int]));
        if same_members(&cycles[t].cycle_path, &path) {
            dup = true;
        }
        t = t + 1;
    }
    proof {
        assert(string_views(path@).drop_last()[0] == nm[v as int]) by {
            assert(q[0] == v);
        }
        assert(string_views(path@).drop_last().to_set().contains(nm[v as int]));
        if dup {
            let i = choose|i: int|
                0 <= i < t && string_views((#[trigger] cycles@[i]).cycle_path@).drop_last().to_set()
                    == string_views(path@).drop_last().to_set();
            assert(cycle_views(cycles@)[i] == cycle_view(cycles@[i]));
            assert(cycle_members(cycle_views(cycles@)[i]).contains(nm[v as int]));
        }
    }
    if !dup {
        let ghost old_cycles = cycles@;
        let c = FixtureCycle { cycle_path: path, fixture: head.duplicate() };
        let ghost cv = cycle_view(c);
        cycles.push(c);
        proof {
            assert(cycle_views(cycles@) =~= cycle_views(old_cycles).push(cv));
            assert(is_reported_cycle(ds, cv));
            assert(cycle_views(cycles@)[old_cycles.len() as int] == cv);
            assert(cycle_members(cv).contains(nm[v as int]));
            assert forall|n: Seq<char>| #[trigger] recorded_member(cycle_views(old_cycles), n) implies recorded_member(
                cycle_views(cycles@),
                n,
            ) by {
                let i = choose|i: int|
                    0 <= i < cycle_views(old_cycles).len() && #[trigger] cycle_members(cycle_views(old_cycles)[i]).contains(n);
                assert(cycle_views(cycles@)[i] == cycle_views(old_cycles)[i]);
            }
            assert forall|i: int, j: int|
                0 <= i < j < cycles@.len() implies cycle_members(#[trigger] cycle_views(cycles@)[i])
                != cycle_members(#[trigger] cycle_views(cycles@)[j]) by {
                if j == old_cycles.len() {
                    assert(cycle_views(cycles@)[i] == cycle_view(old_cycles[i]));
                } else {
                    assert(cycle_views(cycles@)[i] == cycle_views(old_cycles)[i]);
                    assert(cycle_views(cycles@)[j] == cycle_views(old_cycles)[j]);
                }
            }
        }
    }
}

/// Depth-first search over the graph for the cycles it closes: from each
/// node in order that no earlier search reached, following edges in order.
#[verifier::rlimit(40)]
fn search_cycles(
    defs: &Vec<FixtureDefinition>,
    nodes: &Vec<usize>,
    adj: &Vec<Vec<usize>>,
    Ghost(nm): Ghost<Seq<Seq<char>>>,
) -> (r: Vec<FixtureCycle>)
    requires
        is_node_list(def_views(defs@), nodes@, nm),
        is_edge_list(def_views(defs@), nodes@, nm, adj@),
    ensures
        is_cycle_report(def_views(defs@), cycle_views(r@)),
{
    let ghost ds = def_views(defs@);
    let n = nodes.len();
    assert(edges_in_range(adj@)) by {
        assert forall|u: int, j: int| 0 <= u < adj@.len() && 0 <= j < adj@[u]@.len() implies #[trigger] adj@[u]@[j]
            < adj@.len() by {
            assert(adj@[u]@[j] < nm.len());
        }
    }
    let mut color: Vec<u8> = Vec::new();
    while color.len() < n
        invariant
            color@.len() <= n,
            forall|v: int| 0 <= v < color@.len() ==> #[trigger] color@[v] == 0,
        decreases n - color@.len(),
    {
        color.push(0);
    }
    let ghost mut fin: Seq<int> = Seq::new(n as nat, |i: int| 0);
    let ghost mut counter: int = 0;
    let mut cycles: Vec<FixtureCycle> = Vec::new();
    let mut s: usize = 0;
    while s < n
        invariant
            n == nodes@.len(),
            ds == def_views(defs@),
            is_node_list(ds, nodes@, nm),
            is_edge_list(ds, nodes@, nm, adj@),
            edges_in_range(adj@),
            color@.len() == n,
            fin.len() == n,
            s <= n,
            forall|v: int| 0 <= v < n ==> #[trigger] color@[v] <= 2 && color@[v] != 1,
            forall|v: int| 0 <= v < s ==> #[trigger] color@[v] == 2,
            are_distinct_cycles(ds, cycle_views(cycles@)),
            cycles@.len() == 0 ==> finish_order(adj@, color@, fin, counter),
            adj@.len() == n,
            nm.len() == n,
            black_covered(adj@, nm, cycle_views(cycles@), color@),
            black_edges_ok(adj@, nm, cycle_views(cycles@), color@),
        decreases n - s,
    {
        if color[s] == 0 {
            proof {
                lemma_count_update(color@, s as int, 1);
                lemma_gray_keeps(adj@, nm, cycle_views(cycles@), color@, s as int);
            }
            color.set(s, 1);
            let mut stack: Vec<(usize, usize)> = Vec::new();
            stack.push((s, 0));
            proof {
                assert forall|v: int| 0 <= v < color@.len() && #[trigger] color@[v] == 1 implies exists|k: int|
                    0 <= k < stack@.len() && stack@[k].0 == v by {
                    assert(stack@[0].0 == v);
                }
                assert(adj@[s as int]@.len() >= 0);
            }
            while stack.len() > 0
                invariant
                    n == nodes@.len(),
                    s < n,
                    ds == def_views(defs@),
                    is_node_list(ds, nodes@, nm),
                    is_edge_list(ds, nodes@, nm, adj@),
                    edges_in_range(adj@),
                    color@.len() == n,
                    fin.len() == n,
                    forall|v: int| 0 <= v < n ==> #[trigger] color@[v] <= 2,
                    forall|v: int| 0 <= v < s ==> #[trigger] color@[v] == 2,
                    frames_ok(stack@, adj@, color@),
                    stack@.len() > 0 ==> stack@[0].0 == s,
                    stack@.len() == 0 ==> color@[s as int] == 2,
                    are_distinct_cycles(ds, cycle_views(cycles@)),
                    cycles@.len() == 0 ==> finish_order(adj@, color@, fin, counter),
                    cycles@.len() == 0 ==> explored_finished(stack@, adj@, color@),
                    adj@.len() == n,
                    nm.len() == n,
                    black_covered(adj@, nm, cycle_views(cycles@), color@),
                    black_edges_ok(adj@, nm, cycle_views(cycles@), color@),
                    frames_edges_ok(stack@, adj@, nm, cycle_views(cycles@), color@),
                decreases count_unreached(color@), stack_work(stack@, adj@),
            {
                let top = stack.len() - 1;
                let (u, idx) = stack[top];
                assert(stack@[top as int].0 < adj@.len());
                if idx < adj[u].len() {
                    let v = adj[u][idx];
                    assert(v < n);
                    let ghost s0 = stack@;
                    stack.set(top, (u, idx + 1));
                    proof {
                        assert(stack@.drop_last() =~= s0.drop_last());
                        assert(stack_work(s0, adj@) == stack_work(stack@, adj@) + 1);
                        lemma_frames_advance(s0, adj@, color@);
                    }
                    if color[v] == 1 {
                        let ghost cs0 = cycle_views(cycles@);
                        record_cycle(defs, nodes, adj, &stack, v, &mut cycles, Ghost(nm), Ghost(color@));
                        proof {
                            lemma_grows_keeps(s0, adj@, nm, cs0, cycle_views(cycles@), color@);
                            assert(edge_target_ok(nm, cycle_views(cycles@), color@, v as int));
                            lemma_advance_keeps(s0, adj@, nm, cycle_views(cycles@), color@);
                        }
                    } else if color[v] == 0 {
                        let ghost c0 = color@;
                        proof {
                            lemma_count_update(color@, v as int, 1);
                            if cycles@.len() == 0 {
                                lemma_explored_push(s0, adj@, c0, v);
                            }
                            lemma_push_keeps(s0, adj@, nm, cycle_views(cycles@), c0, v);
                            lemma_gray_keeps(adj@, nm, cycle_views(cycles@), c0, v as int);
                        }
                        color.set(v, 1);
                        let ghost s1 = stack@;
                        stack.push((v, 0));
                        proof {
                            lemma_frames_push(s1, adj@, c0, v);
                            if cycles@.len() == 0 {
                                assert forall|w: int, j: int|
                                    0 <= w < color@.len() && color@[w] == 2 && 0 <= j < adj@[w]@.len() implies color@[
                                    #[trigger] adj@[w]@[j] as int] == 2 && fin[adj@[w]@[j] as int] < fin[w] by {
                                    assert(c0[w] == 2);
                                }
                                assert forall|w: int| 0 <= w < color@.len() && #[trigger] color@[w] == 2 implies fin[w]
                                    < counter by {
                                    assert(c0[w] == 2);
                                }
                            }
                        }
                    } else {
                        proof {
                            assert(edge_target_ok(nm, cycle_views(cycles@), color@, v as int));
                            lemma_advance_keeps(s0, adj@, nm, cycle_views(cycles@), color@);
                            if cycles@.len() == 0 {
                                assert forall|k: int, j: int|
                                    0 <= k < stack@.len() && 0 <= j < stack@[k].1 && !(k < stack@.len() - 1 && j
                                        == stack@[k].1 - 1) implies color@[#[trigger] adj@[stack@[k].0 as int]@[j] as int]
                                    == 2 by {
                                    if k == top as int && j == idx as int {
                                    } else {
                                        assert(stack@[k] == s0[k] || k == top as int);
                                    }
                                }
                            }
                        }
                    }
                } else {
                    let ghost c0 = color@;
                    let ghost s0 = stack@;
                    proof {
                        lemma_count_update(color@, u as int, 2);
                        lemma_pop_keeps(adj@, nm, cycle_views(cycles@), c0, s0);
                    }
                    color.set(u, 2);
                    proof {
                        if cycles@.len() == 0 {
                            lemma_finish(s0, adj@, c0, fin, counter);
                        }
                        fin = fin.update(u as int, counter);
                        counter = counter + 1;
                    }
                    stack.pop();
                    proof {
                        assert(stack@ =~= s0.drop_last());
                        lemma_frames_pop(s0, adj@, c0);
                        if cycles@.len() == 0 {
                            lemma_explored_pop(s0, adj@, c0);
                        }
                    }
                }
            }
        }
        s = s + 1;
    }
    proof {
        lemma_cover_names(ds, nodes@, nm, adj@, cycle_views(cycles@), color@);
        if cycles@.len() == 0 {
            assert forall|u: int, j: int|
                0 <= u < adj@.len() && 0 <= j < adj@[u]@.len() implies fin[#[trigger] adj@[u]@[j] as int] < fin[u] by {
                assert(color@[u] == 2);
            }
            assert forall|p: Seq<Seq<char>>| !#[trigger] is_fixture_cycle(ds, p) by {
                lemma_no_cycle(ds, nodes@, nm, adj@, fin, p);
            }
        } else {
            assert(is_reported_cycle(ds, cycle_views(cycles@)[0]));
            assert(is_fixture_cycle(ds, cycle_views(cycles@)[0].0));
        }
    }
    cycles
}

impl FixtureDatabase {
    /// The circular dependencies among the fixtures. Each fixture name stands
    /// for its first recorded definition; the search starts from the names in
    /// the order they were first recorded and follows parameters in order.
    /// Which cycles come out depends on that order; the result always holds
    /// genuine cycles, no two through the same fixtures, and at least one
    /// exactly when some fixtures depend on each other in a circle.
    pub fn detect_fixture_cycles(&self) -> (r: Vec<FixtureCycle>)
        ensures
            is_cycle_report(self.defs(), cycle_views(r@)),
    {
        let (nodes, names) = graph_nodes(&self.definitions);
        let adj = graph_edges(&self.definitions, &nodes, &names);
        search_cycles(&self.definitions, &nodes, &adj, Ghost(char_views(names@)))
    }

    /// The cycles found by [`Self::detect_fixture_cycles`] whose fixture is
    /// defined in `file_path`.
    pub fn detect_fixture_cycles_in_file(&self, file_path: &str) -> (r: Vec<FixtureCycle>)
        ensures
            exists|all: Seq<(Seq<Seq<char>>, DefinitionView)>|
                #[trigger] is_cycle_report(self.defs(), all) && cycle_views(r@) == cycles_in(all, file_path@),
    {
        let all = self.detect_fixture_cycles();
        let r = cycles_in_file(&all, file_path);
        assert(is_cycle_report(self.defs(), cycle_views(all@)));
        r
    }
}

/// The cycles of `cs` whose fixture is defined in file `f`, in order.
pub open spec fn cycles_in(cs: Seq<(Seq<Seq<char>>, DefinitionView)>, f: Seq<char>) -> Seq<
    (Seq<Seq<char>>, DefinitionView),
>
    decreases cs.len(),
{
    if cs.len() == 0 {
        Seq::empty()
    } else {
        let r = cycles_in(cs.drop_last(), f);
        if cs.last().1.file_path == f {
            r.push(cs.last())
        } else {
            r
        }
    }
}

/// The cycles among `cycles` whose fixture is defined in `file_path`.
pub fn cycles_in_file(cycles: &Vec<FixtureCycle>, file_path: &str) -> (r: Vec<FixtureCycle>)
    ensures
        cycle_views(r@) == cycles_in(cycle_views(cycles@), file_path@),
{
    let f = chars_of(file_path);
    let ghost cs = cycle_views(cycles@);
    let mut r: Vec<FixtureCycle> = Vec::new();
    let mut i: usize = 0;
    while i < cycles.len()
        invariant
            i <= cycles@.len(),
            cs == cycle_views(cycles@),
            f@ == file_path@,
            cycle_views(r@) == cycles_in(cs.take(i as int), f@),
        decreases cycles@.len() - i,
    {
        let c = &cycles[i];
        assert(cs.take(i + 1).drop_last() =~= cs.take(i as int));
        assert(cs.take(i + 1).last() == cycle_view(*c));
        let fp = chars_of(c.fixture.file_path.as_str());
        if chars_eq(fp.as_slice(), f.as_slice()) {
            let ghost before = r@;
            let d = FixtureCycle { cycle_path: clone_names(&c.cycle_path), fixture: c.fixture.duplicate() };
            r.push(d);
            assert(cycle_views(r@) =~= cycle_views(before).push(cycle_view(*c)));
        }
        i = i + 1;
    }
    assert(cs.take(cs.len() as int) =~= cs);
    r
}

/// A copy of a list of names.
fn clone_names(v: &Vec<String>) -> (r: Vec<String>)
    ensures
        string_views(r@) == string_views(v@),
{
    let mut r: Vec<String> = Vec::new();
    let mut i: usize = 0;
    while i < v.len()
        invariant
            i <= v@.len(),
            string_views(r@) == string_views(v@).take(i as int),
        decreases v@.len() - i,
    {
        let ghost before = r@;
        r.push(v[i].clone());
        assert(string_views(r@) =~= string_views(before).push(v@[i as int]@));
        assert(string_views(v@).take(i + 1) =~= string_views(v@).take(i as int).push(v@[i as int]@));
        i = i + 1;
    }
    assert(string_views(v@).take(v@.len() as int) =~= string_views(v@));
    r
}

/// Advancing the top frame keeps the stack well formed.
proof fn lemma_frames_advance(s0: Seq<(usize, usize)>, adj: Seq<Vec<usize>>, color: Seq<u8>)
    requires
        frames_ok(s0, adj, color),
        s0.len() > 0,
        s0.last().1 < adj[s0.last().0 as int]@.len(),
    ensures
        frames_ok(s0.update(s0.len() - 1, (s0.last().0, (s0.last().1 + 1) as usize)), adj, color),
{
    let top = s0.len() - 1;
    let s = s0.update(top, (s0.last().0, (s0.last().1 + 1) as usize));
    assert forall|k: int| 0 <= k < s.len() implies (#[trigger] s[k]).0 < adj.len() && s[k].1 <= adj[s[k].0 as int]@.len()
        && color[s[k].0 as int] == 1 by {
        assert(s0[k].0 < adj.len());
    }
    assert forall|k1: int, k2: int| 0 <= k1 < k2 < s.len() implies (#[trigger] s[k1]).0 != (#[trigger] s[k2]).0 by {
        assert(s0[k1].0 != s0[k2].0);
    }
    assert forall|v: int| 0 <= v < color.len() && #[trigger] color[v] == 1 implies exists|k: int|
        0 <= k < s.len() && s[k].0 == v by {
        let k = choose|k: int| 0 <= k < s0.len() && s0[k].0 == v;
        assert(s[k].0 == v);
    }
    assert forall|k: int| 0 <= k < s.len() - 1 implies #[trigger] linked(s, adj, k) by {
        assert(linked(s0, adj, k));
        assert(s[k] == s0[k]);
        if k + 1 < top {
            assert(s[k + 1] == s0[k + 1]);
        }
    }
}

/// Pushing a frame for a newly reached node keeps the stack well formed.
proof fn lemma_frames_push(s1: Seq<(usize, usize)>, adj: Seq<Vec<usize>>, c0: Seq<u8>, v: usize)
    requires
        frames_ok(s1, adj, c0),
        s1.len() > 0,
        s1.last().1 >= 1,
        adj[s1.last().0 as int]@[s1.last().1 - 1] == v,
        v < adj.len(),
        c0.len() == adj.len(),
        c0[v as int] == 0,
    ensures
        frames_ok(s1.push((v, 0usize)), adj, c0.update(v as int, 1)),
{
    let s = s1.push((v, 0usize));
    let c = c0.update(v as int, 1);
    assert forall|k: int| 0 <= k < s.len() implies (#[trigger] s[k]).0 < adj.len() && s[k].1 <= adj[s[k].0 as int]@.len()
        && c[s[k].0 as int] == 1 by {
        if k < s1.len() {
            assert(s[k] == s1[k]);
            assert(s1[k].0 < adj.len());
            assert(c0[s1[k].0 as int] == 1);
        }
    }
    assert forall|k1: int, k2: int| 0 <= k1 < k2 < s.len() implies (#[trigger] s[k1]).0 != (#[trigger] s[k2]).0 by {
        assert(s[k1] == s1[k1]);
        if k2 < s1.len() {
            assert(s[k2] == s1[k2]);
            assert(s1[k1].0 != s1[k2].0);
        } else {
            assert(c0[s1[k1].0 as int] == 1);
        }
    }
    assert forall|w: int| 0 <= w < c.len() && #[trigger] c[w] == 1 implies exists|k: int| 0 <= k < s.len() && s[k].0 == w by {
        if w == v as int {
            assert(s[s1.len() as int].0 == w);
        } else {
            assert(c0[w] == 1);
            let k = choose|k: int| 0 <= k < s1.len() && s1[k].0 == w;
            assert(s[k].0 == w);
        }
    }
    assert forall|k: int| 0 <= k < s.len() - 1 implies #[trigger] linked(s, adj, k) by {
        assert(s[k] == s1[k]);
        if k < s1.len() - 1 {
            assert(linked(s1, adj, k));
            assert(s[k + 1] == s1[k + 1]);
        }
    }
}

/// Popping a finished node keeps the stack well formed.
proof fn lemma_frames_pop(s0: Seq<(usize, usize)>, adj: Seq<Vec<usize>>, c0: Seq<u8>)
    requires
        frames_ok(s0, adj, c0),
        s0.len() > 0,
        c0.len() == adj.len(),
    ensures
        frames_ok(s0.drop_last(), adj, c0.update(s0.last().0 as int, 2)),
{
    let s = s0.drop_last();
    let u = s0.last().0;
    let c = c0.update(u as int, 2);
    assert(s0[s0.len() - 1].0 < adj.len());
    assert forall|k: int| 0 <= k < s.len() implies (#[trigger] s[k]).0 < adj.len() && s[k].1 <= adj[s[k].0 as int]@.len()
        && c[s[k].0 as int] == 1 by {
        assert(s[k] == s0[k]);
        assert(s0[k].0 < adj.len());
        assert(s0[k].0 != s0[s0.len() - 1].0);
    }
    assert forall|k1: int, k2: int| 0 <= k1 < k2 < s.len() implies (#[trigger] s[k1]).0 != (#[trigger] s[k2]).0 by {
        assert(s0[k1].0 != s0[k2].0);
    }
    assert forall|w: int| 0 <= w < c.len() && #[trigger] c[w] == 1 implies exists|k: int| 0 <= k < s.len() && s[k].0 == w by {
        assert(w != u as int);
        assert(c0[w] == 1);
        let k = choose|k: int| 0 <= k < s0.len() && s0[k].0 == w;
        assert(k != s0.len() - 1);
        assert(s[k].0 == w);
    }
    assert forall|k: int| 0 <= k < s.len() - 1 implies #[trigger] linked(s, adj, k) by {
        assert(linked(s0, adj, k));
    }
}

/// Reaching a new node keeps the explored edges finished.
proof fn lemma_explored_push(s0: Seq<(usize, usize)>, adj: Seq<Vec<usize>>, c0: Seq<u8>, v: usize)
    requires
        explored_finished(s0, adj, c0),
        frames_ok(s0, adj, c0),
        edges_in_range(adj),
        c0.len() == adj.len(),
        s0.len() > 0,
        s0.last().0 < adj.len(),
        s0.last().1 < adj[s0.last().0 as int]@.len(),
        v < c0.len(),
        c0[v as int] == 0,
    ensures
        explored_finished(
            s0.update(s0.len() - 1, (s0.last().0, (s0.last().1 + 1) as usize)).push((v, 0usize)),
            adj,
            c0.update(v as int, 1),
        ),
{
    let top = s0.len() - 1;
    let s1 = s0.update(top, (s0.last().0, (s0.last().1 + 1) as usize));
    let s = s1.push((v, 0usize));
    let c = c0.update(v as int, 1);
    assert forall|k: int, j: int|
        0 <= k < s.len() && 0 <= j < s[k].1 && !(k < s.len() - 1 && j == s[k].1 - 1) implies c[
        #[trigger] adj[s[k].0 as int]@[j] as int] == 2 by {
        assert(s[k] == s1[k]);
        assert(s0[k].0 == s1[k].0);
        if k == top {
            assert(j < s0[k].1);
        }
        assert(s0[k].0 < adj.len());
        let x = adj[s0[k].0 as int]@[j] as int;
        assert(x < adj.len());
        assert(c0[x] == 2);
    }
}

/// Popping a finished node keeps the explored edges finished.
proof fn lemma_explored_pop(s0: Seq<(usize, usize)>, adj: Seq<Vec<usize>>, c0: Seq<u8>)
    requires
        explored_finished(s0, adj, c0),
        frames_ok(s0, adj, c0),
        edges_in_range(adj),
        c0.len() == adj.len(),
        s0.len() > 0,
        s0.last().1 == adj[s0.last().0 as int]@.len(),
    ensures
        explored_finished(s0.drop_last(), adj, c0.update(s0.last().0 as int, 2)),
{
    let s = s0.drop_last();
    let u = s0.last().0;
    let c = c0.update(u as int, 2);
    assert forall|k: int, j: int|
        0 <= k < s.len() && 0 <= j < s[k].1 && !(k < s.len() - 1 && j == s[k].1 - 1) implies c[
        #[trigger] adj[s[k].0 as int]@[j] as int] == 2 by {
        assert(s[k] == s0[k]);
        assert(s0[k].0 < adj.len());
        assert(s0[s0.len() - 1].0 < adj.len());
        if k == s.len() - 1 && j == s[k].1 - 1 {
            assert(linked(s0, adj, k));
        } else {
            assert(c0[adj[s0[k].0 as int]@[j] as int] == 2);
        }
    }
}

/// Finishing the top node keeps the finishing order.
proof fn lemma_finish(s0: Seq<(usize, usize)>, adj: Seq<Vec<usize>>, c0: Seq<u8>, fin: Seq<int>, counter: int)
    requires
        finish_order(adj, c0, fin, counter),
        explored_finished(s0, adj, c0),
        frames_ok(s0, adj, c0),
        s0.len() > 0,
        s0.last().1 == adj[s0.last().0 as int]@.len(),
        edges_in_range(adj),
        c0.len() == adj.len(),
        fin.len() == adj.len(),
    ensures
        finish_order(
            adj,
            c0.update(s0.last().0 as int, 2),
            fin.update(s0.last().0 as int, counter),
            counter + 1,
        ),
{
    let u = s0.last().0 as int;
    let c = c0.update(u, 2);
    let f = fin.update(u, counter);
    assert(s0[s0.len() - 1].0 < adj.len());
    assert(c0[u] == 1);
    assert forall|w: int| 0 <= w < c.len() && #[trigger] c[w] == 2 implies f[w] < counter + 1 by {
        if w != u {
            assert(c0[w] == 2);
        }
    }
    assert forall|w: int, j: int|
        0 <= w < c.len() && c[w] == 2 && 0 <= j < adj[w]@.len() implies c[#[trigger] adj[w]@[j] as int] == 2
        && f[adj[w]@[j] as int] < f[w] by {
        if w == u {
            assert(c0[adj[s0[s0.len() - 1].0 as int]@[j] as int] == 2);
            assert(adj[w]@[j] as int != u);
        } else {
            assert(c0[w] == 2);
            assert(c0[adj[w]@[j] as int] == 2);
        }
    }
}

} // verus!
