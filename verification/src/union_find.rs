//! Disjoint sets with path compression.

use vstd::prelude::*;
use crate::order::selected;

verus! {

/// The representative of node `v` once the edges have been joined in order:
/// joining `(x, y)` hands every node represented like `y` to the
/// representative of `x`.
pub open spec fn representative(edges: Seq<(usize, usize)>, v: usize) -> usize
    decreases edges.len(),
{
    if edges.len() == 0 {
        v
    } else {
        let before = edges.drop_last();
        let (x, y) = edges.last();
        if representative(before, v) == representative(before, y) {
            representative(before, x)
        } else {
            representative(before, v)
        }
    }
}

/// One step of a walk along an edge, in either direction.
pub open spec fn adjacent(edges: Seq<(usize, usize)>, a: usize, b: usize) -> bool {
    exists|k: int|
        0 <= k < edges.len() && (#[trigger] edges[k] == (a, b) || edges[k] == (b, a))
}

/// A walk whose consecutive nodes are adjacent.
pub open spec fn is_walk(edges: Seq<(usize, usize)>, walk: Seq<usize>) -> bool {
    forall|k: int|
        #![trigger walk[k]]
        0 <= k < walk.len() - 1 ==> adjacent(edges, walk[k], walk[k + 1])
}

/// Some walk leads from `a` to `b`.
pub open spec fn connected(edges: Seq<(usize, usize)>, a: usize, b: usize) -> bool {
    exists|walk: Seq<usize>| #[trigger]
        is_walk(edges, walk) && walk.len() > 0 && walk.first() == a && walk.last() == b
}

/// Which of `n` nodes represent their component.
pub open spec fn representative_flags(edges: Seq<(usize, usize)>, n: nat) -> Seq<bool> {
    Seq::new(n, |v: int| representative(edges, v as usize) == v as usize)
}

/// The number of components of the graph on `n` nodes.
pub open spec fn component_count(edges: Seq<(usize, usize)>, n: nat) -> nat {
    selected(representative_flags(edges, n)).len()
}

/// All edges run between the first `n` nodes.
pub open spec fn edges_below(edges: Seq<(usize, usize)>, n: nat) -> bool {
    forall|k: int| 0 <= k < edges.len() ==> (#[trigger] edges[k]).0 < n && edges[k].1 < n
}

/// A representative represents itself and is one of the nodes.
pub proof fn representative_is_fixed(edges: Seq<(usize, usize)>, n: nat, v: usize)
    requires
        edges_below(edges, n),
        v < n,
    ensures
        representative(edges, v) < n,
        representative(edges, representative(edges, v)) == representative(edges, v),
    decreases edges.len(),
{
    if edges.len() > 0 {
        let before = edges.drop_last();
        let (x, y) = edges.last();
        assert(edges[edges.len() - 1] == (x, y));
        assert(edges_below(before, n)) by {
            assert forall|k: int| 0 <= k < before.len() implies (#[trigger] before[k]).0 < n
                && before[k].1 < n by {
                assert(edges[k] == before[k]);
            }
        }
        representative_is_fixed(before, n, v);
        representative_is_fixed(before, n, x);
        representative_is_fixed(before, n, y);
    }
}

/// Adjacent nodes have one representative.
proof fn adjacent_share(edges: Seq<(usize, usize)>, a: usize, b: usize)
    requires
        adjacent(edges, a, b),
    ensures
        representative(edges, a) == representative(edges, b),
    decreases edges.len(),
{
    let before = edges.drop_last();
    let k = choose|k: int|
        0 <= k < edges.len() && (#[trigger] edges[k] == (a, b) || edges[k] == (b, a));
    if k < edges.len() - 1 {
        assert(before[k] == edges[k]);
        adjacent_share(before, a, b);
    }
}

proof fn walk_shares(edges: Seq<(usize, usize)>, walk: Seq<usize>)
    requires
        is_walk(edges, walk),
        walk.len() > 0,
    ensures
        representative(edges, walk.first()) == representative(edges, walk.last()),
    decreases walk.len(),
{
    if walk.len() > 1 {
        let shorter = walk.drop_last();
        assert(is_walk(edges, shorter)) by {
            assert forall|k: int| #![trigger shorter[k]] 0 <= k < shorter.len() - 1 implies adjacent(
                edges,
                shorter[k],
                shorter[k + 1],
            ) by {
                assert(walk[k] == shorter[k]);
                assert(walk[k + 1] == shorter[k + 1]);
            }
        }
        walk_shares(edges, shorter);
        let k = walk.len() - 2;
        assert(adjacent(edges, walk[k], walk[k + 1]));
        adjacent_share(edges, walk[k], walk[k + 1]);
    }
}

proof fn join_walks(edges: Seq<(usize, usize)>, a: usize, b: usize, c: usize)
    requires
        connected(edges, a, b),
        connected(edges, b, c),
    ensures
        connected(edges, a, c),
{
    let p = choose|walk: Seq<usize>| #[trigger]
        is_walk(edges, walk) && walk.len() > 0 && walk.first() == a && walk.last() == b;
    let q = choose|walk: Seq<usize>| #[trigger]
        is_walk(edges, walk) && walk.len() > 0 && walk.first() == b && walk.last() == c;
    let joined = p + q.drop_first();
    assert(is_walk(edges, joined)) by {
        assert forall|k: int| #![trigger joined[k]] 0 <= k < joined.len() - 1 implies adjacent(
            edges,
            joined[k],
            joined[k + 1],
        ) by {
            if k < p.len() - 1 {
                assert(joined[k] == p[k] && joined[k + 1] == p[k + 1]);
            } else {
                let m = k - (p.len() - 1);
                assert(q[m] == joined[k]);
                assert(joined[k + 1] == q[m + 1]);
            }
        }
    }
    assert(joined.first() == a);
    assert(joined.last() == c) by {
        if q.len() == 1 {
            assert(q.drop_first().len() == 0);
            assert(joined =~= p);
        }
    }
}

proof fn reverse_walk(edges: Seq<(usize, usize)>, a: usize, b: usize)
    requires
        connected(edges, a, b),
    ensures
        connected(edges, b, a),
{
    let p = choose|walk: Seq<usize>| #[trigger]
        is_walk(edges, walk) && walk.len() > 0 && walk.first() == a && walk.last() == b;
    let q = p.reverse();
    assert(is_walk(edges, q)) by {
        assert forall|k: int| #![trigger q[k]] 0 <= k < q.len() - 1 implies adjacent(
            edges,
            q[k],
            q[k + 1],
        ) by {
            let m = p.len() - 2 - k;
            assert(p[m] == q[k + 1]);
            assert(p[m + 1] == q[k]);
            assert(adjacent(edges, p[m], p[m + 1]));
            let e = choose|e: int|
                0 <= e < edges.len() && (#[trigger] edges[e] == (p[m], p[m + 1]) || edges[e] == (
                p[m + 1],
                p[m],
                ));
            assert(edges[e] == (q[k], q[k + 1]) || edges[e] == (q[k + 1], q[k]));
        }
    }
    assert(q.first() == b && q.last() == a);
}

proof fn walk_survives(before: Seq<(usize, usize)>, edges: Seq<(usize, usize)>, a: usize, b: usize)
    requires
        edges.len() > 0,
        before == edges.drop_last(),
        connected(before, a, b),
    ensures
        connected(edges, a, b),
{
    let p = choose|walk: Seq<usize>| #[trigger]
        is_walk(before, walk) && walk.len() > 0 && walk.first() == a && walk.last() == b;
    assert(is_walk(edges, p)) by {
        assert forall|k: int| #![trigger p[k]] 0 <= k < p.len() - 1 implies adjacent(
            edges,
            p[k],
            p[k + 1],
        ) by {
            assert(adjacent(before, p[k], p[k + 1]));
            let e = choose|e: int|
                0 <= e < before.len() && (#[trigger] before[e] == (p[k], p[k + 1]) || before[e] == (
                p[k + 1],
                p[k],
                ));
            assert(edges[e] == before[e]);
        }
    }
}

proof fn reaches_representative(edges: Seq<(usize, usize)>, v: usize)
    ensures
        connected(edges, v, representative(edges, v)),
    decreases edges.len(),
{
    if edges.len() == 0 {
        let walk = seq![v];
        assert(is_walk(edges, walk));
        assert(walk.first() == v && walk.last() == v);
    } else {
        let before = edges.drop_last();
        let (x, y) = edges.last();
        reaches_representative(before, v);
        walk_survives(before, edges, v, representative(before, v));
        if representative(before, v) == representative(before, y) {
            reaches_representative(before, y);
            reaches_representative(before, x);
            walk_survives(before, edges, y, representative(before, y));
            walk_survives(before, edges, x, representative(before, x));
            reverse_walk(edges, y, representative(before, y));
            join_walks(edges, v, representative(before, v), y);
            let step = seq![y, x];
            assert(is_walk(edges, step)) by {
                assert(edges[edges.len() - 1] == (x, y));
                assert(adjacent(edges, y, x));
                assert forall|k: int| #![trigger step[k]] 0 <= k < step.len() - 1 implies adjacent(
                    edges,
                    step[k],
                    step[k + 1],
                ) by {
                    assert(step[0] == y && step[1] == x);
                }
            }
            assert(step.first() == y && step.last() == x);
            assert(connected(edges, y, x));
            join_walks(edges, v, y, x);
            join_walks(edges, v, x, representative(before, x));
        }
    }
}

/// Two nodes share a representative exactly if a walk connects them.
pub proof fn representatives_decide_connection(edges: Seq<(usize, usize)>, a: usize, b: usize)
    ensures
        representative(edges, a) == representative(edges, b) <==> connected(edges, a, b),
{
    if connected(edges, a, b) {
        let p = choose|walk: Seq<usize>| #[trigger]
            is_walk(edges, walk) && walk.len() > 0 && walk.first() == a && walk.last() == b;
        walk_shares(edges, p);
    }
    if representative(edges, a) == representative(edges, b) {
        reaches_representative(edges, a);
        reaches_representative(edges, b);
        reverse_walk(edges, b, representative(edges, b));
        join_walks(edges, a, representative(edges, a), b);
    }
}

proof fn lowering_one_flag(flags: Seq<bool>, i: int)
    requires
        0 <= i < flags.len(),
        flags[i],
    ensures
        selected(flags.update(i, false)).len() == selected(flags).len() - 1,
    decreases flags.len(),
{
    let lowered = flags.update(i, false);
    if i == flags.len() - 1 {
        assert(lowered.drop_last() =~= flags.drop_last());
    } else {
        assert(lowered.drop_last() =~= flags.drop_last().update(i, false));
        lowering_one_flag(flags.drop_last(), i);
    }
}

proof fn raised_everywhere(flags: Seq<bool>)
    requires
        forall|k: int| 0 <= k < flags.len() ==> #[trigger] flags[k],
    ensures
        selected(flags).len() == flags.len(),
    decreases flags.len(),
{
    if flags.len() > 0 {
        raised_everywhere(flags.drop_last());
    }
}

/// Without edges every node is a component; an edge between two components
/// makes one of them, any other edge changes nothing.
pub proof fn edges_merge_components(edges: Seq<(usize, usize)>, n: nat, x: usize, y: usize)
    requires
        edges_below(edges, n),
        x < n,
        y < n,
        n <= usize::MAX,
    ensures
        component_count(Seq::<(usize, usize)>::empty(), n) == n,
        component_count(edges.push((x, y)), n) == component_count(edges, n) - (if connected(
            edges,
            x,
            y,
        ) {
            0int
        } else {
            1int
        }),
{
    let none = Seq::<(usize, usize)>::empty();
    raised_everywhere(representative_flags(none, n));
    representatives_decide_connection(edges, x, y);
    let grown = edges.push((x, y));
    assert(grown.drop_last() =~= edges);
    let old_flags = representative_flags(edges, n);
    let new_flags = representative_flags(grown, n);
    representative_is_fixed(edges, n, x);
    representative_is_fixed(edges, n, y);
    let rx = representative(edges, x);
    let ry = representative(edges, y);
    if rx == ry {
        assert(new_flags =~= old_flags);
    } else {
        assert(new_flags =~= old_flags.update(ry as int, false)) by {
            assert forall|v: int| 0 <= v < n implies #[trigger] new_flags[v] == old_flags.update(
                ry as int,
                false,
            )[v] by {
                representative_is_fixed(edges, n, v as usize);
                if representative(edges, v as usize) == ry && v != ry as int {
                    assert(representative(grown, v as usize) == rx);
                    assert(!old_flags[v]);
                    if rx as int == v {
                        assert(representative(edges, rx) == rx);
                        assert(false);
                    }
                }
            }
        }
        assert(old_flags[ry as int]);
        lowering_one_flag(old_flags, ry as int);
    }
}

/// A partition of `n` nodes into the components of a growing graph.
pub struct UnionFind {
    parent: Vec<usize>,
    edges: Ghost<Seq<(usize, usize)>>,
    height: Ghost<Seq<nat>>,
    limit: Ghost<nat>,
}

impl UnionFind {
    /// The number of nodes.
    pub closed spec fn size(&self) -> nat {
        self.parent@.len()
    }

    /// The edges joined so far.
    pub closed spec fn joined(&self) -> Seq<(usize, usize)> {
        self.edges@
    }

    /// Parents lead up, within a component, to its representative.
    pub closed spec fn wf(&self) -> bool {
        let n = self.parent@.len();
        &&& edges_below(self.edges@, n)
        &&& self.height@.len() == n
        &&& forall|v: int|
            0 <= v < n ==> {
                let p = #[trigger] self.parent@[v];
                &&& p < n
                &&& representative(self.edges@, p) == representative(self.edges@, v as usize)
                &&& (p == v <==> representative(self.edges@, v as usize) == v)
                &&& (p != v ==> self.height@[v] < self.height@[p as int])
                &&& self.height@[v] < self.limit@
            }
    }

    /// `size` nodes, each a component of its own.
    pub fn new(size: usize) -> (r: UnionFind)
        ensures
            r.wf(),
            r.size() == size,
            r.joined() == Seq::<(usize, usize)>::empty(),
    {
        let mut parent: Vec<usize> = Vec::new();
        let mut v: usize = 0;
        while v < size
            invariant
                v <= size,
                parent@.len() == v,
                forall|k: int| 0 <= k < v ==> #[trigger] parent@[k] == k,
            decreases size - v,
        {
            parent.push(v);
            v += 1;
        }
        UnionFind {
            parent,
            edges: Ghost(Seq::empty()),
            height: Ghost(Seq::new(size as nat, |k: int| 0nat)),
            limit: Ghost(1nat),
        }
    }

    /// The representative of a node's component.  The nodes passed on the way
    /// are attached to it directly.
    pub fn find(&mut self, value: usize) -> (r: usize)
        requires
            old(self).wf(),
            value < old(self).size(),
        ensures
            final(self).wf(),
            final(self).size() == old(self).size(),
            final(self).joined() == old(self).joined(),
            r == representative(old(self).joined(), value),
            r < old(self).size(),
    {
        self.climb(value)
    }

    fn climb(&mut self, value: usize) -> (r: usize)
        requires
            old(self).wf(),
            value < old(self).size(),
        ensures
            final(self).wf(),
            final(self).size() == old(self).size(),
            final(self).joined() == old(self).joined(),
            r == representative(old(self).joined(), value),
            r < old(self).size(),
            final(self).height@ == old(self).height@,
            final(self).limit@ == old(self).limit@,
        decreases old(self).limit@ - old(self).height@[value as int],
    {
        let parent: usize = self.parent[value];
        proof {
            assert(self.parent@[value as int] == parent);
            assert(self.parent@[parent as int] < self.parent@.len());
            representative_is_fixed(self.edges@, self.parent@.len(), value);
        }
        if parent != value {
            let root = self.climb(parent);
            let ghost before = self.parent@;
            proof {
                root_is_highest(*self, value);
            }
            self.parent.set(value, root);
            proof {
                assert forall|v: int| 0 <= v < self.parent@.len() implies {
                    let p = #[trigger] self.parent@[v];
                    &&& p < self.parent@.len()
                    &&& representative(self.edges@, p) == representative(self.edges@, v as usize)
                    &&& (p == v <==> representative(self.edges@, v as usize) == v)
                    &&& (p != v ==> self.height@[v] < self.height@[p as int])
                    &&& self.height@[v] < self.limit@
                } by {
                    let q = before[v];
                    if v == value {
                        representative_is_fixed(self.edges@, self.parent@.len(), value);
                    }
                }
            }
        }
        self.parent[value]
    }

    /// Joins the components of two nodes; the representative of `left` becomes
    /// that of both.
    pub fn union(&mut self, left: usize, right: usize)
        requires
            old(self).wf(),
            left < old(self).size(),
            right < old(self).size(),
        ensures
            final(self).wf(),
            final(self).size() == old(self).size(),
            final(self).joined() == old(self).joined().push((left, right)),
    {
        let left_root = self.find(left);
        let right_root = self.find(right);
        let ghost edges = self.edges@;
        let ghost grown = self.edges@.push((left, right));
        let ghost before = self.parent@;
        let ghost heights = self.height@;
        let ghost n = self.parent@.len();
        proof {
            assert(grown.drop_last() =~= edges);
            representative_is_fixed(edges, n, left);
            representative_is_fixed(edges, n, right);
            assert(edges_below(grown, n)) by {
                assert forall|k: int| 0 <= k < grown.len() implies (#[trigger] grown[k]).0 < n
                    && grown[k].1 < n by {
                    if k < edges.len() {
                        assert(edges[k] == grown[k]);
                    }
                }
            }
        }
        if left_root != right_root {
            self.parent.set(right_root, left_root);
            proof {
                let raised = if heights[left_root as int] > heights[right_root as int] {
                    heights[left_root as int]
                } else {
                    heights[right_root as int] + 1
                };
                self.height@ = heights.update(left_root as int, raised);
                self.limit@ = self.limit@ + 1;
            }
        }
        proof {
            self.edges@ = grown;
            assert forall|v: int| 0 <= v < n implies {
                let p = #[trigger] self.parent@[v];
                &&& p < n
                &&& representative(grown, p) == representative(grown, v as usize)
                &&& (p == v <==> representative(grown, v as usize) == v)
                &&& (p != v ==> self.height@[v] < self.height@[p as int])
                &&& self.height@[v] < self.limit@
            } by {
                let q = before[v];
                representative_is_fixed(edges, n, v as usize);
                representative_is_fixed(edges, n, q);
                assert(before[left_root as int] == left_root);
                assert(before[right_root as int] == right_root);
            }
        }
    }

    /// The number of components.
    pub fn count_components(&mut self) -> (r: usize)
        requires
            old(self).wf(),
        ensures
            final(self).wf(),
            final(self).size() == old(self).size(),
            final(self).joined() == old(self).joined(),
            r == component_count(old(self).joined(), old(self).size()),
    {
        let n = self.parent.len();
        let mut seen: Vec<bool> = vec![false; n];
        let mut v: usize = 0;
        while v < n
            invariant
                self.wf(),
                n == self.size(),
                self.size() == old(self).size(),
                self.joined() == old(self).joined(),
                v <= n,
                seen@.len() == n,
                forall|k: int|
                    0 <= k < n ==> #[trigger] seen@[k] == (exists|u: int|
                        0 <= u < v && #[trigger] representative(self.joined(), u as usize) == k),
            decreases n - v,
        {
            let ghost before = seen@;
            let root = self.find(v);
            seen.set(root, true);
            v += 1;
            proof {
                let edges = self.joined();
                assert(representative(edges, (v - 1) as usize) == root);
                assert forall|k: int| 0 <= k < n implies #[trigger] seen@[k] == (exists|u: int|
                    0 <= u < v && #[trigger] representative(edges, u as usize) == k) by {
                    let was = before[k];
                }
            }
        }
        proof {
            let edges = self.joined();
            assert(seen@ =~= representative_flags(edges, n as nat)) by {
                assert forall|k: int| 0 <= k < n implies #[trigger] seen@[k]
                    == representative_flags(edges, n as nat)[k] by {
                    if seen@[k] {
                        let u = choose|u: int|
                            0 <= u < n && #[trigger] representative(edges, u as usize) == k;
                        representative_is_fixed(edges, n as nat, u as usize);
                    }
                    if representative(edges, k as usize) == k as usize {
                        assert(representative(edges, k as usize) == k);
                    }
                }
            }
        }
        crate::order::select(&seen).len()
    }
}

proof fn root_is_highest(u: UnionFind, v: usize)
    requires
        u.wf(),
        v < u.size(),
        u.parent@[v as int] != v,
    ensures
        u.height@[v as int] < u.height@[representative(u.edges@, v) as int],
    decreases u.limit@ - u.height@[v as int],
{
    let p = u.parent@[v as int];
    let q = u.parent@[p as int];
    if q != p {
        root_is_highest(u, p);
    } else {
        assert(representative(u.edges@, p) == p);
    }
}

/// Edges are usable where each one has both ends.
pub proof fn edges_are_bounded_one_by_one(items: Seq<(usize, usize)>, last: (usize, usize), n: nat)
    ensures
        edges_below(Seq::<(usize, usize)>::empty(), n),
        edges_below(items.push(last), n) <==> edges_below(items, n) && last.0 < n && last.1 < n,
{
    let longer = items.push(last);
    assert(longer[items.len() as int] == last);
    assert forall|i: int| 0 <= i < items.len() implies #[trigger] items[i] == longer[i] by {}
}

} // verus!
