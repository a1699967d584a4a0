//! Geometry reconstruction: BSP tree traversal, sign-encoded edge
//! resolution, fan triangulation, and the per-face assembly of boundary
//! loops, normals and texture projections.

use vstd::prelude::*;

use crate::bytes::Vec3Bits;
use crate::gold_src_30::{Edge, Face, GoldSrc30Bsp, Lighting, Model, Node};
use crate::gold_src_30::SurfEdge;

verus! {

/// A node's child pointer with its sign-encoding resolved: a non-negative
/// value is a node index, `-1` is empty space, and any other negative
/// value `c` is leaf number `-c - 1`.
#[derive(Debug, Clone, Copy, PartialEq, Eq, Structural)]
pub enum NodeChild {
    Node(u16),
    Empty,
    Leaf(u16),
}

pub open spec fn node_child_from_raw(c: i16) -> NodeChild {
    if c >= 0 {
        NodeChild::Node(c as u16)
    } else if c == -1 {
        NodeChild::Empty
    } else {
        NodeChild::Leaf((-(c as int) - 1) as u16)
    }
}

impl NodeChild {
    /// Resolves a stored child value: `c >= 0` is node index `c`,
    /// `c == -1` is empty, and `c < -1` is leaf index `-c - 1`.
    pub fn from_raw(c: i16) -> (res: NodeChild)
        ensures
            res == node_child_from_raw(c),
            c >= 0 ==> res == NodeChild::Node(c as u16),
            c == -1 ==> res == NodeChild::Empty,
            c < -1 ==> (res matches NodeChild::Leaf(l) && l as int == -(c as int) - 1),
    {
        if c >= 0 {
            NodeChild::Node(c as u16)
        } else if c == -1 {
            NodeChild::Empty
        } else {
            let l = (-(c as i32) - 1) as u16;
            NodeChild::Leaf(l)
        }
    }
}

/// A surfedge with its sign-encoding resolved: the edge index it refers
/// to, and whether the edge's stored vertex order is kept or reversed.
#[derive(Debug, Clone, Copy, PartialEq, Eq, Structural)]
pub enum EdgeRef {
    Forward(u32),
    Reversed(u32),
}

pub open spec fn edge_ref_of(v: i32) -> EdgeRef {
    if v >= 0 {
        EdgeRef::Forward(v as u32)
    } else {
        EdgeRef::Reversed((-(v as int)) as u32)
    }
}

impl SurfEdge {
    /// Resolves the sign-encoding: a non-negative value references its
    /// edge forward, a negative value references edge `|v|` reversed.
    pub fn edge_ref(&self) -> (res: EdgeRef)
        ensures
            res == edge_ref_of(self.0),
    {
        if self.0 >= 0 {
            EdgeRef::Forward(self.0 as u32)
        } else {
            EdgeRef::Reversed((-(self.0 as i64)) as u32)
        }
    }

    /// The ordered vertex pair this surfedge contributes: the referenced
    /// edge's `(v0, v1)` when the surfedge is non-negative, `(v1, v0)`
    /// when it is negative; `None` when the edge index is out of range.
    pub fn vertex_pair(&self, edges: &Vec<Edge>) -> (res: Option<(u16, u16)>)
        ensures
            res == surfedge_pair(self.0, edges@),
            self.0 >= 0 && self.0 < edges@.len() ==> res == Some(
                (edges@[self.0 as int].v0, edges@[self.0 as int].v1),
            ),
            self.0 < 0 && -(self.0 as int) < edges@.len() ==> res == Some(
                (edges@[-(self.0 as int)].v1, edges@[-(self.0 as int)].v0),
            ),
    {
        let idx: u64 = if self.0 >= 0 {
            self.0 as u64
        } else {
            (-(self.0 as i64)) as u64
        };
        if idx >= edges.len() as u64 {
            return None;
        }
        let e = edges[idx as usize];
        if self.0 >= 0 {
            Some((e.v0, e.v1))
        } else {
            Some((e.v1, e.v0))
        }
    }
}

/// The ordered vertex pair surfedge value `v` derives from `edges`, or
/// `None` when `|v|` is out of range.
pub open spec fn surfedge_pair(v: i32, edges: Seq<Edge>) -> Option<(u16, u16)> {
    let idx = if v >= 0 {
        v as int
    } else {
        -(v as int)
    };
    if idx >= edges.len() {
        None
    } else if v >= 0 {
        Some((edges[idx].v0, edges[idx].v1))
    } else {
        Some((edges[idx].v1, edges[idx].v0))
    }
}

/// The raw value of child `side` of node `p`.
pub open spec fn child_of(nodes: Seq<Node>, p: int, side: int) -> int {
    nodes[p].idx_children@[side] as int
}

/// Whether node `n` can be reached from node `head` in at most `fuel`
/// child steps, each step following a non-negative (node) child that is in
/// range.
pub open spec fn node_reachable(nodes: Seq<Node>, head: int, n: int, fuel: nat) -> bool
    decreases fuel,
{
    if n == head && 0 <= head < nodes.len() {
        true
    } else if fuel == 0 {
        false
    } else {
        exists|p: int, side: int|
            {
                &&& #[trigger] child_of(nodes, p, side) == n
                &&& node_reachable(nodes, head, p, (fuel - 1) as nat)
                &&& 0 <= p < nodes.len()
                &&& 0 <= side < 2
                &&& nodes[p].idx_children@[side] >= 0
                &&& 0 <= n < nodes.len()
            }
    }
}

/// Whether leaf number `leaf` hangs off some node reachable from `head`:
/// a reachable node has a child `c < -1` with `-c - 1 == leaf`.
pub open spec fn leaf_reached(nodes: Seq<Node>, head: int, leaf: int) -> bool {
    exists|p: int, side: int, fuel: nat|
        #![trigger node_reachable(nodes, head, p, fuel), child_of(nodes, p, side)]
        {
            &&& node_reachable(nodes, head, p, fuel)
            &&& 0 <= p < nodes.len()
            &&& 0 <= side < 2
            &&& child_of(nodes, p, side) < -1
            &&& -child_of(nodes, p, side) - 1 == leaf
        }
}

/// How many entries of `s` are set.
pub closed spec fn count_marked(s: Seq<bool>) -> nat
    decreases s.len(),
{
    if s.len() == 0 {
        0
    } else {
        count_marked(s.drop_last()) + (if s.last() {
            1nat
        } else {
            0nat
        })
    }
}

proof fn lemma_count_marked_le(s: Seq<bool>)
    ensures
        count_marked(s) <= s.len(),
    decreases s.len(),
{
    if s.len() > 0 {
        lemma_count_marked_le(s.drop_last());
    }
}

proof fn lemma_count_marked_update(s: Seq<bool>, i: int)
    requires
        0 <= i < s.len(),
        !s[i],
    ensures
        count_marked(s.update(i, true)) == count_marked(s) + 1,
    decreases s.len(),
{
    let t = s.update(i, true);
    if i == s.len() - 1 {
        assert(t.drop_last() =~= s.drop_last());
    } else {
        assert(t.drop_last() =~= s.drop_last().update(i, true));
        lemma_count_marked_update(s.drop_last(), i);
    }
}

/// Whether node index `p` occurs in the stack.
spec fn on_stack(st: Seq<usize>, p: int) -> bool {
    exists|i: int| 0 <= i < st.len() && (#[trigger] st[i]) as int == p
}

/// Whether leaf number `leaf` occurs in the list.
pub open spec fn leaf_listed(leaves: Seq<u16>, leaf: int) -> bool {
    exists|i: int| 0 <= i < leaves.len() && (#[trigger] leaves[i]) as int == leaf
}

/// Whether child `side` of node `p` is accounted for: an in-range node
/// child is marked in `vis`, a leaf child is listed in `leaves`.
pub open spec fn child_handled(
    nodes: Seq<Node>,
    vis: Seq<bool>,
    leaves: Seq<u16>,
    p: int,
    side: int,
) -> bool {
    let c = child_of(nodes, p, side);
    &&& (0 <= c < nodes.len() ==> vis[c])
    &&& (c < -1 ==> leaf_listed(leaves, -c - 1))
}

/// Whether the marked set is closed: both children of every marked node
/// are accounted for.
pub open spec fn closed_under_children(nodes: Seq<Node>, vis: Seq<bool>, leaves: Seq<u16>) -> bool {
    forall|p: int, side: int|
        0 <= p < nodes.len() && vis[p] && 0 <= side < 2 ==> #[trigger] child_handled(
            nodes,
            vis,
            leaves,
            p,
            side,
        )
}

proof fn lemma_on_stack_push(st: Seq<usize>, x: usize, q: int)
    ensures
        on_stack(st.push(x), q) == (on_stack(st, q) || q == x as int),
{
    let st2 = st.push(x);
    if on_stack(st, q) {
        let i = choose|i: int| 0 <= i < st.len() && (#[trigger] st[i]) as int == q;
        assert((st2[i]) as int == q);
    }
    if q == x as int {
        assert((st2[st.len() as int]) as int == q);
    }
    if on_stack(st2, q) && q != x as int {
        let i = choose|i: int| 0 <= i < st2.len() && (#[trigger] st2[i]) as int == q;
        assert(i < st.len());
        assert((st[i]) as int == q);
    }
}

proof fn lemma_leaf_listed_push(leaves: Seq<u16>, x: u16, leaf: int)
    ensures
        leaf_listed(leaves.push(x), leaf) == (leaf_listed(leaves, leaf) || leaf == x as int),
{
    let ls2 = leaves.push(x);
    if leaf_listed(leaves, leaf) {
        let i = choose|i: int| 0 <= i < leaves.len() && (#[trigger] leaves[i]) as int == leaf;
        assert((ls2[i]) as int == leaf);
    }
    if leaf == x as int {
        assert((ls2[leaves.len() as int]) as int == leaf);
    }
    if leaf_listed(ls2, leaf) && leaf != x as int {
        let i = choose|i: int| 0 <= i < ls2.len() && (#[trigger] ls2[i]) as int == leaf;
        assert(i < leaves.len());
        assert((leaves[i]) as int == leaf);
    }
}

proof fn lemma_child_handled_grow(
    nodes: Seq<Node>,
    vis: Seq<bool>,
    vis2: Seq<bool>,
    leaves: Seq<u16>,
    leaves2: Seq<u16>,
    p: int,
    side: int,
)
    requires
        child_handled(nodes, vis, leaves, p, side),
        vis.len() == nodes.len(),
        vis2.len() == vis.len(),
        forall|i: int| 0 <= i < vis.len() && (#[trigger] vis[i]) ==> vis2[i],
        forall|leaf: int| #[trigger] leaf_listed(leaves, leaf) ==> leaf_listed(leaves2, leaf),
    ensures
        child_handled(nodes, vis2, leaves2, p, side),
{
}

/// A closed marked set that holds the head holds every node reachable
/// from it, whatever the step count.
pub proof fn lemma_closure_covers(
    nodes: Seq<Node>,
    head: int,
    vis: Seq<bool>,
    leaves: Seq<u16>,
    n: int,
    fuel: nat,
)
    requires
        vis.len() == nodes.len(),
        0 <= head < nodes.len(),
        vis[head],
        closed_under_children(nodes, vis, leaves),
        node_reachable(nodes, head, n, fuel),
    ensures
        0 <= n < nodes.len(),
        vis[n],
    decreases fuel,
{
    if n != head {
        let (p, side) = choose|p: int, side: int|
            {
                &&& #[trigger] child_of(nodes, p, side) == n
                &&& node_reachable(nodes, head, p, (fuel - 1) as nat)
                &&& 0 <= p < nodes.len()
                &&& 0 <= side < 2
                &&& nodes[p].idx_children@[side] >= 0
                &&& 0 <= n < nodes.len()
            };
        lemma_closure_covers(nodes, head, vis, leaves, p, (fuel - 1) as nat);
        assert(child_handled(nodes, vis, leaves, p, side));
    }
}

/// The traversal law: a certificate that is closed under children and
/// holds the head lists every leaf reachable from the head. Together
/// with the soundness clause of [`reachable_leaves`], the returned list
/// carries exactly the reachable leaves.
pub proof fn lemma_closure_lists_reached_leaves(
    nodes: Seq<Node>,
    head: int,
    vis: Seq<bool>,
    leaves: Seq<u16>,
    leaf: int,
)
    requires
        vis.len() == nodes.len(),
        0 <= head < nodes.len(),
        vis[head],
        closed_under_children(nodes, vis, leaves),
        leaf_reached(nodes, head, leaf),
    ensures
        leaf_listed(leaves, leaf),
{
    let (p, side, fuel) = choose|p: int, side: int, fuel: nat|
        #![trigger node_reachable(nodes, head, p, fuel), child_of(nodes, p, side)]
        {
            &&& node_reachable(nodes, head, p, fuel)
            &&& 0 <= p < nodes.len()
            &&& 0 <= side < 2
            &&& child_of(nodes, p, side) < -1
            &&& -child_of(nodes, p, side) - 1 == leaf
        };
    lemma_closure_covers(nodes, head, vis, leaves, p, fuel);
    assert(child_handled(nodes, vis, leaves, p, side));
}

/// Walks the node tree from `head` with an explicit stack and returns the
/// leaf numbers reached. Every returned number is a leaf reachable from
/// `head` (soundness), and the walk also yields a marked set, closed
/// under children and holding the head, of which the result is the leaf
/// fringe: by [`lemma_closure_lists_reached_leaves`] every reachable leaf
/// is therefore in the result (completeness). An out-of-range head or
/// child contributes nothing. Only the set of returned leaves is
/// contractual: their order and multiplicity follow from the walk and
/// must not be relied on.
pub fn reachable_leaves(nodes: &Vec<Node>, head: i32) -> (res: Vec<u16>)
    ensures
        forall|i: int|
            0 <= i < res@.len() ==> leaf_reached(nodes@, head as int, (#[trigger] res@[i]) as int),
        head < 0 || head >= nodes@.len() ==> res@.len() == 0,
        0 <= head < nodes@.len() ==> exists|vis: Seq<bool>|
            {
                &&& #[trigger] closed_under_children(nodes@, vis, res@)
                &&& vis.len() == nodes@.len()
                &&& vis[head as int]
            },
{
    let mut leaves: Vec<u16> = Vec::new();
    if head < 0 || head as u64 >= nodes.len() as u64 {
        return leaves;
    }
    let n = nodes.len();
    let mut visited: Vec<bool> = Vec::new();
    let mut v: usize = 0;
    while v < n
        invariant
            v <= n,
            visited@.len() == v,
            count_marked(visited@) == 0,
            forall|j: int| 0 <= j < v ==> !visited@[j],
        decreases n - v,
    {
        proof {
            assert(visited@.push(false).drop_last() =~= visited@);
        }
        visited.push(false);
        v = v + 1;
    }
    let mut stack: Vec<usize> = Vec::new();
    let head_idx = head as usize;
    let ghost vis0 = visited@;
    visited.set(head_idx, true);
    proof {
        lemma_count_marked_update(vis0, head as int);
        assert(node_reachable(nodes@, head as int, head_idx as int, 0));
    }
    stack.push(head_idx);
    proof {
        assert((stack@[0]) as int == head);
        assert forall|q: int, sd: int|
            0 <= q < n && visited@[q] && !on_stack(stack@, q) && 0 <= sd
                < 2 implies #[trigger] child_handled(nodes@, visited@, leaves@, q, sd) by {
            assert(q == head);
            assert(on_stack(stack@, q));
        }
    }
    while stack.len() > 0
        invariant
            n == nodes@.len(),
            visited@.len() == n,
            count_marked(visited@) <= n,
            0 <= head < n,
            visited@[head as int],
            forall|i: int, j: int| 0 <= i < j < stack@.len() ==> stack@[i] != stack@[j],
            forall|i: int| 0 <= i < stack@.len() ==> visited@[(#[trigger] stack@[i]) as int],
            forall|i: int|
                0 <= i < stack@.len() ==> (#[trigger] stack@[i]) < n && exists|f: nat|
                    node_reachable(nodes@, head as int, stack@[i] as int, f),
            forall|i: int|
                0 <= i < leaves@.len() ==> leaf_reached(
                    nodes@,
                    head as int,
                    (#[trigger] leaves@[i]) as int,
                ),
            forall|q: int, sd: int|
                0 <= q < n && visited@[q] && !on_stack(stack@, q) && 0 <= sd
                    < 2 ==> #[trigger] child_handled(nodes@, visited@, leaves@, q, sd),
        decreases 2 * (n - count_marked(visited@)) + stack@.len(),
    {
        let ghost old_marked = count_marked(visited@);
        let ghost old_stack_len = stack@.len();
        let ghost pre_stack = stack@;
        let p = match stack.pop() {
            Some(p) => p,
            None => {
                return leaves;
            },
        };
        let ghost pf = choose|f: nat| node_reachable(nodes@, head as int, p as int, f);
        proof {
            assert(!on_stack(stack@, p as int)) by {
                if on_stack(stack@, p as int) {
                    let i = choose|i: int|
                        0 <= i < stack@.len() && (#[trigger] stack@[i]) as int == p;
                    assert(pre_stack[i] == pre_stack[pre_stack.len() - 1]);
                }
            }
            assert forall|q: int, sd: int|
                0 <= q < n && visited@[q] && !on_stack(stack@, q) && q != p && 0 <= sd
                    < 2 implies #[trigger] child_handled(nodes@, visited@, leaves@, q, sd) by {
                assert(!on_stack(pre_stack, q)) by {
                    if on_stack(pre_stack, q) {
                        let i = choose|i: int|
                            0 <= i < pre_stack.len() && (#[trigger] pre_stack[i]) as int == q;
                        assert(i < pre_stack.len() - 1);
                        assert((stack@[i]) as int == q);
                    }
                }
            }
        }
        let mut side: usize = 0;
        while side < 2
            invariant
                side <= 2,
                n == nodes@.len(),
                p < n,
                node_reachable(nodes@, head as int, p as int, pf),
                visited@.len() == n,
                count_marked(visited@) <= n,
                old_marked <= count_marked(visited@),
                stack@.len() <= old_stack_len - 1 + 2 * (count_marked(visited@) - old_marked),
                0 <= head < n,
                visited@[head as int],
                visited@[p as int],
                !on_stack(stack@, p as int),
                forall|i: int, j: int| 0 <= i < j < stack@.len() ==> stack@[i] != stack@[j],
                forall|i: int| 0 <= i < stack@.len() ==> visited@[(#[trigger] stack@[i]) as int],
                forall|i: int|
                    0 <= i < stack@.len() ==> (#[trigger] stack@[i]) < n && exists|f: nat|
                        node_reachable(nodes@, head as int, stack@[i] as int, f),
                forall|i: int|
                    0 <= i < leaves@.len() ==> leaf_reached(
                        nodes@,
                        head as int,
                        (#[trigger] leaves@[i]) as int,
                    ),
                forall|q: int, sd: int|
                    0 <= q < n && visited@[q] && !on_stack(stack@, q) && q != p && 0 <= sd
                        < 2 ==> #[trigger] child_handled(nodes@, visited@, leaves@, q, sd),
                forall|sd: int|
                    0 <= sd < side ==> #[trigger] child_handled(
                        nodes@,
                        visited@,
                        leaves@,
                        p as int,
                        sd,
                    ),
            decreases 2 - side,
        {
            let c = nodes[p].idx_children[side];
            proof {
                assert(child_of(nodes@, p as int, side as int) == c as int);
            }
            match NodeChild::from_raw(c) {
                NodeChild::Node(ni) => {
                    let ni_us = ni as usize;
                    if ni_us < n && !visited[ni_us] {
                        let ghost vis_b = visited@;
                        let ghost st_b = stack@;
                        proof {
                            lemma_count_marked_update(visited@, ni_us as int);
                            assert(node_reachable(nodes@, head as int, ni_us as int, pf + 1));
                            lemma_count_marked_le(visited@.update(ni_us as int, true));
                        }
                        visited.set(ni_us, true);
                        stack.push(ni_us);
                        proof {
                            assert(forall|i: int|
                                0 <= i < vis_b.len() && (#[trigger] vis_b[i]) ==> visited@[i]);
                            assert(forall|leaf: int|
                                #[trigger] leaf_listed(leaves@, leaf) ==> leaf_listed(
                                    leaves@,
                                    leaf,
                                ));
                            assert((stack@[st_b.len() as int]) as int == ni_us);
                            assert forall|i: int, j: int|
                                0 <= i < j < stack@.len() implies stack@[i] != stack@[j] by {
                                if j == stack@.len() - 1 {
                                    assert(vis_b[(st_b[i]) as int]);
                                }
                            }
                            assert forall|i: int|
                                0 <= i < stack@.len() implies visited@[(
                            #[trigger] stack@[i]) as int] by {
                                if i < stack@.len() - 1 {
                                    assert(vis_b[(st_b[i]) as int]);
                                }
                            }
                            assert forall|i: int|
                                0 <= i < stack@.len() implies (#[trigger] stack@[i]) < n
                                    && exists|f: nat|
                                    node_reachable(nodes@, head as int, stack@[i] as int, f) by {
                                if i == stack@.len() - 1 {
                                    assert(stack@[i] == ni_us);
                                    assert(node_reachable(
                                        nodes@,
                                        head as int,
                                        ni_us as int,
                                        pf + 1,
                                    ));
                                } else {
                                    assert(stack@[i] == st_b[i]);
                                    assert((#[trigger] st_b[i]) < n);
                                    let f0 = choose|f: nat|
                                        node_reachable(nodes@, head as int, st_b[i] as int, f);
                                    assert(node_reachable(
                                        nodes@,
                                        head as int,
                                        stack@[i] as int,
                                        f0,
                                    ));
                                }
                            }
                            assert forall|q: int, sd: int|
                                0 <= q < n && visited@[q] && !on_stack(stack@, q) && q != p && 0
                                    <= sd < 2 implies #[trigger] child_handled(
                                nodes@,
                                visited@,
                                leaves@,
                                q,
                                sd,
                            ) by {
                                lemma_on_stack_push(st_b, ni_us, q);
                                assert(q != ni_us);
                                assert(vis_b[q]);
                                assert(child_handled(nodes@, vis_b, leaves@, q, sd));
                                lemma_child_handled_grow(
                                    nodes@,
                                    vis_b,
                                    visited@,
                                    leaves@,
                                    leaves@,
                                    q,
                                    sd,
                                );
                            }
                            assert forall|sd: int|
                                0 <= sd < side + 1 implies #[trigger] child_handled(
                                nodes@,
                                visited@,
                                leaves@,
                                p as int,
                                sd,
                            ) by {
                                if sd < side {
                                    lemma_child_handled_grow(
                                        nodes@,
                                        vis_b,
                                        visited@,
                                        leaves@,
                                        leaves@,
                                        p as int,
                                        sd,
                                    );
                                } else {
                                    assert(visited@[ni_us as int]);
                                }
                            }
                            assert(!on_stack(stack@, p as int)) by {
                                lemma_on_stack_push(st_b, ni_us, p as int);
                                assert(vis_b[p as int]);
                            }
                        }
                    } else {
                        proof {
                            if ni_us < n {
                                assert(visited@[ni_us as int]);
                            }
                            assert(child_handled(
                                nodes@,
                                visited@,
                                leaves@,
                                p as int,
                                side as int,
                            ));
                        }
                    }
                },
                NodeChild::Empty => {
                    proof {
                        assert(child_handled(nodes@, visited@, leaves@, p as int, side as int));
                    }
                },
                NodeChild::Leaf(l) => {
                    let ghost ls_b = leaves@;
                    proof {
                        assert(child_of(nodes@, p as int, side as int) < -1);
                        assert(-child_of(nodes@, p as int, side as int) - 1 == l as int);
                        assert(leaf_reached(nodes@, head as int, l as int));
                    }
                    leaves.push(l);
                    proof {
                        assert((leaves@[ls_b.len() as int]) as int == l as int);
                        assert(leaf_listed(leaves@, l as int));
                        assert forall|leaf: int|
                            #[trigger] leaf_listed(ls_b, leaf) implies leaf_listed(
                            leaves@,
                            leaf,
                        ) by {
                            lemma_leaf_listed_push(ls_b, l, leaf);
                        }
                        assert(forall|i: int|
                            0 <= i < visited@.len() && (#[trigger] visited@[i]) ==> visited@[i]);
                        assert forall|q: int, sd: int|
                            0 <= q < n && visited@[q] && !on_stack(stack@, q) && q != p && 0 <= sd
                                < 2 implies #[trigger] child_handled(
                            nodes@,
                            visited@,
                            leaves@,
                            q,
                            sd,
                        ) by {
                            assert(child_handled(nodes@, visited@, ls_b, q, sd));
                            lemma_child_handled_grow(
                                nodes@,
                                visited@,
                                visited@,
                                ls_b,
                                leaves@,
                                q,
                                sd,
                            );
                        }
                        assert forall|sd: int|
                            0 <= sd < side + 1 implies #[trigger] child_handled(
                            nodes@,
                            visited@,
                            leaves@,
                            p as int,
                            sd,
                        ) by {
                            if sd < side {
                                lemma_child_handled_grow(
                                    nodes@,
                                    visited@,
                                    visited@,
                                    ls_b,
                                    leaves@,
                                    p as int,
                                    sd,
                                );
                            }
                        }
                    }
                },
            }
            side = side + 1;
        }
        proof {
            assert forall|q: int, sd: int|
                0 <= q < n && visited@[q] && !on_stack(stack@, q) && 0 <= sd
                    < 2 implies #[trigger] child_handled(nodes@, visited@, leaves@, q, sd) by {
                if q == p {
                    assert(child_handled(nodes@, visited@, leaves@, p as int, sd));
                }
            }
        }
    }
    proof {
        assert forall|q: int, sd: int|
            0 <= q < nodes@.len() && visited@[q] && 0 <= sd < 2 implies #[trigger] child_handled(
            nodes@,
            visited@,
            leaves@,
            q,
            sd,
        ) by {
            assert(!on_stack(stack@, q));
        }
        assert(closed_under_children(nodes@, visited@, leaves@));
    }
    leaves
}

/// The index entry at position `k` of a fan triangulation: the triples
/// `(0, i, i + 1)` for `i` in `1 .. n - 1`, flattened.
pub open spec fn fan_value(k: int) -> u16 {
    if k % 3 == 0 {
        0u16
    } else if k % 3 == 1 {
        ((k / 3) + 1) as u16
    } else {
        ((k / 3) + 2) as u16
    }
}

/// Fan-triangulates a convex boundary loop: triangles `(0, i, i + 1)` for
/// `i` in `1 .. n - 1`, wound in the stored boundary order; fewer than 3
/// vertices yield an empty index list. Indices are 16-bit, which bounds
/// the polygon at 65536 vertices (a face stores at most 65535 edges).
pub fn triangulate(verts: &Vec<Vec3Bits>) -> (res: Vec<u16>)
    requires
        verts@.len() <= 65536,
    ensures
        verts@.len() < 3 ==> res@.len() == 0,
        verts@.len() >= 3 ==> res@.len() == 3 * (verts@.len() - 2),
        forall|k: int| 0 <= k < res@.len() ==> (#[trigger] res@[k]) == fan_value(k),
{
    let mut indices: Vec<u16> = Vec::new();
    let n = verts.len();
    if n < 3 {
        return indices;
    }
    let mut i: usize = 1;
    while i < n - 1
        invariant
            3 <= n <= 65536,
            n == verts@.len(),
            1 <= i <= n - 1,
            indices@.len() == 3 * (i - 1),
            forall|k: int| 0 <= k < indices@.len() ==> (#[trigger] indices@[k]) == fan_value(k),
        decreases n - i,
    {
        indices.push(0);
        indices.push(i as u16);
        indices.push((i + 1) as u16);
        proof {
            assert(indices@[3 * (i - 1)] == fan_value(3 * (i - 1)));
            assert(indices@[3 * (i - 1) + 1] == fan_value(3 * (i - 1) + 1));
            assert(indices@[3 * (i - 1) + 2] == fan_value(3 * (i - 1) + 2));
        }
        i = i + 1;
    }
    indices
}

/// One non-fatal defect met while assembling a face's geometry. Dangling
/// references never abort the map: the face is emitted degenerate and the
/// defect is recorded.
#[derive(Debug, Clone, Copy, PartialEq, Eq, Structural)]
pub enum FaceDiagnostic {
    /// The face index itself lies outside the face lump.
    MissingFace { face: u64 },
    /// The face's plane index lies outside the plane lump.
    MissingPlane { face: u64, plane: u16 },
    /// A surfedge index of the face's range lies outside the surfedge lump.
    MissingSurfEdge { face: u64, surfedge: u64 },
    /// A referenced edge index lies outside the edge lump.
    MissingEdge { face: u64, surfedge: u64, edge: u32 },
}

/// The texture projection basis a face resolves through its texture info
/// and texture: the two axes and shifts (bit patterns) and the texture's
/// dimensions, everything the UV formula
/// `u = (dot(position, s_vector) + s_shift) / width` (and the analogous
/// `v`) consumes. Present only when both the texture info and the texture
/// it names are in range; absent, the face's UVs are defined as (0, 0).
#[derive(Debug, Clone, Copy, PartialEq, Eq, Structural)]
pub struct TexProjection {
    pub s_vector: Vec3Bits,
    pub s_shift: u32,
    pub t_vector: Vec3Bits,
    pub t_shift: u32,
    pub texture_width: u32,
    pub texture_height: u32,
}

/// One face's assembled geometry: the boundary loop in stored surfedge
/// order, the face normal (the plane normal, negated when `plane_side`
/// is set), the single lighting sample the whole face shares, the UV
/// projection basis, and the fan-triangulation indices over `positions`.
/// Triangles wind in the stored boundary order.
#[derive(Debug, Clone)]
pub struct FaceFrame {
    pub positions: Vec<Vec3Bits>,
    pub normal: Option<Vec3Bits>,
    pub lighting: Option<Lighting>,
    pub projection: Option<TexProjection>,
    pub indices: Vec<u16>,
}

/// The position (zero or one) that step `k` of the face's surfedge range
/// appends: the first vertex of the ordered pair the surfedge derives,
/// skipped when the surfedge, edge or vertex index is out of range.
pub open spec fn vertex_contribution(bsp: GoldSrc30Bsp, face: Face, k: int) -> Seq<Vec3Bits> {
    let se_idx = face.first_edge + k;
    if se_idx >= bsp.surf_edges@.len() {
        Seq::empty()
    } else {
        let v = bsp.surf_edges@[se_idx].0;
        let e_idx = if v >= 0 {
            v as int
        } else {
            -(v as int)
        };
        if e_idx >= bsp.edges@.len() {
            Seq::empty()
        } else {
            let first = if v >= 0 {
                bsp.edges@[e_idx].v0
            } else {
                bsp.edges@[e_idx].v1
            };
            if first >= bsp.vertices@.len() {
                Seq::empty()
            } else {
                seq![bsp.vertices@[first as int].0]
            }
        }
    }
}

/// The boundary loop after the first `k` steps of the surfedge range.
pub open spec fn face_positions(bsp: GoldSrc30Bsp, face: Face, k: int) -> Seq<Vec3Bits>
    decreases k,
{
    if k <= 0 {
        Seq::empty()
    } else {
        face_positions(bsp, face, k - 1) + vertex_contribution(bsp, face, k - 1)
    }
}

/// The diagnostics (zero or one) that step `k` of the surfedge range
/// records.
pub open spec fn diag_contribution(bsp: GoldSrc30Bsp, face: Face, face_idx: int, k: int) -> Seq<
    FaceDiagnostic,
> {
    let se_idx = face.first_edge + k;
    if se_idx >= bsp.surf_edges@.len() {
        seq![FaceDiagnostic::MissingSurfEdge { face: face_idx as u64, surfedge: se_idx as u64 }]
    } else {
        let v = bsp.surf_edges@[se_idx].0;
        let e_idx = if v >= 0 {
            v as int
        } else {
            -(v as int)
        };
        if e_idx >= bsp.edges@.len() {
            seq![
                FaceDiagnostic::MissingEdge {
                    face: face_idx as u64,
                    surfedge: se_idx as u64,
                    edge: e_idx as u32,
                },
            ]
        } else {
            Seq::empty()
        }
    }
}

/// The diagnostics after the first `k` steps of the surfedge range.
pub open spec fn face_diags(bsp: GoldSrc30Bsp, face: Face, face_idx: int, k: int) -> Seq<
    FaceDiagnostic,
>
    decreases k,
{
    if k <= 0 {
        Seq::empty()
    } else {
        face_diags(bsp, face, face_idx, k - 1) + diag_contribution(bsp, face, face_idx, k - 1)
    }
}

/// The single lighting sample the face carries: the entry at
/// `lightmap_offset / 3`, when it exists.
pub open spec fn lighting_sample(bsp: GoldSrc30Bsp, face: Face) -> Option<Lighting> {
    if face.lightmap_offset / 3 < bsp.lighting@.len() {
        Some(bsp.lighting@[face.lightmap_offset as int / 3])
    } else {
        None
    }
}

/// The UV projection the face resolves: its texture info, and through it
/// the named texture's dimensions; absent when either index is out of
/// range.
pub open spec fn projection_of(bsp: GoldSrc30Bsp, face: Face) -> Option<TexProjection> {
    if face.texture_info >= bsp.texture_info@.len() {
        None
    } else {
        let ti = bsp.texture_info@[face.texture_info as int];
        if ti.idx_miptex >= bsp.textures@.len() {
            None
        } else {
            let tex = bsp.textures@[ti.idx_miptex as int];
            Some(
                TexProjection {
                    s_vector: ti.s_vector,
                    s_shift: ti.s_shift,
                    t_vector: ti.t_vector,
                    t_shift: ti.t_shift,
                    texture_width: tex.width,
                    texture_height: tex.height,
                },
            )
        }
    }
}

/// The face normal: the plane's normal, negated (sign bits toggled) when
/// the face lies on the plane's back side.
pub open spec fn face_normal(bsp: GoldSrc30Bsp, face: Face) -> Vec3Bits {
    if face.plane_side > 0 {
        negate_vec3_spec(bsp.planes@[face.plane as int].normal)
    } else {
        bsp.planes@[face.plane as int].normal
    }
}

/// Whether `indices` is the fan triangulation of an `n`-vertex loop.
pub open spec fn fan_ok(indices: Seq<u16>, n: int) -> bool {
    if n < 3 {
        indices.len() == 0
    } else {
        &&& indices.len() == 3 * (n - 2)
        &&& forall|k: int| 0 <= k < indices.len() ==> (#[trigger] indices[k]) == fan_value(k)
    }
}

/// Whether `frame` is exactly the geometry face `face_idx` of `bsp`
/// assembles: an empty frame when the face or its plane is out of range,
/// otherwise the boundary loop of the surfedge range, the (possibly
/// negated) plane normal, the shared lighting sample, the UV projection,
/// and a fan over the loop.
pub open spec fn frame_ok(frame: FaceFrame, bsp: GoldSrc30Bsp, face_idx: int) -> bool {
    &&& fan_ok(frame.indices@, frame.positions@.len() as int)
    &&& if !(0 <= face_idx < bsp.faces@.len()) {
        &&& frame.positions@.len() == 0
        &&& frame.normal is None
        &&& frame.lighting is None
        &&& frame.projection is None
    } else {
        let face = bsp.faces@[face_idx];
        &&& frame.lighting == lighting_sample(bsp, face)
        &&& frame.projection == projection_of(bsp, face)
        &&& if face.plane >= bsp.planes@.len() {
            frame.positions@.len() == 0 && frame.normal is None
        } else {
            frame.normal == Some(face_normal(bsp, face)) && frame.positions@ == face_positions(
                bsp,
                face,
                face.edges as int,
            )
        }
    }
}

/// The diagnostics face `face_idx` of `bsp` records: its own index when
/// out of range, its plane when dangling, otherwise one entry per
/// dangling surfedge or edge of its range.
pub open spec fn face_all_diags(bsp: GoldSrc30Bsp, face_idx: int) -> Seq<FaceDiagnostic> {
    if !(0 <= face_idx < bsp.faces@.len()) {
        seq![FaceDiagnostic::MissingFace { face: face_idx as u64 }]
    } else {
        let face = bsp.faces@[face_idx];
        if face.plane >= bsp.planes@.len() {
            seq![FaceDiagnostic::MissingPlane { face: face_idx as u64, plane: face.plane }]
        } else {
            face_diags(bsp, face, face_idx, face.edges as int)
        }
    }
}

/// Assembles the geometry of one face, leniently: a dangling reference
/// yields a degenerate frame and a diagnostic, never a failure.
pub fn build_face_geometry(bsp: &GoldSrc30Bsp, face_idx: u64) -> (res: (
    FaceFrame,
    Vec<FaceDiagnostic>,
))
    ensures
        frame_ok(res.0, *bsp, face_idx as int),
        res.1@ == face_all_diags(*bsp, face_idx as int),
{
    let mut diags: Vec<FaceDiagnostic> = Vec::new();
    if face_idx >= bsp.faces.len() as u64 {
        diags.push(FaceDiagnostic::MissingFace { face: face_idx });
        let frame = FaceFrame {
            positions: Vec::new(),
            normal: None,
            lighting: None,
            projection: None,
            indices: Vec::new(),
        };
        return (frame, diags);
    }
    let face = bsp.faces[face_idx as usize];
    let lidx = (face.lightmap_offset / 3) as usize;
    let lighting = if lidx < bsp.lighting.len() {
        Some(bsp.lighting[lidx])
    } else {
        None
    };
    let projection = if (face.texture_info as usize) < bsp.texture_info.len() {
        let ti = bsp.texture_info[face.texture_info as usize];
        if (ti.idx_miptex as u64) < bsp.textures.len() as u64 {
            let tex = &bsp.textures[ti.idx_miptex as usize];
            Some(
                TexProjection {
                    s_vector: ti.s_vector,
                    s_shift: ti.s_shift,
                    t_vector: ti.t_vector,
                    t_shift: ti.t_shift,
                    texture_width: tex.width,
                    texture_height: tex.height,
                },
            )
        } else {
            None
        }
    } else {
        None
    };
    if (face.plane as usize) >= bsp.planes.len() {
        diags.push(FaceDiagnostic::MissingPlane { face: face_idx, plane: face.plane });
        let frame = FaceFrame {
            positions: Vec::new(),
            normal: None,
            lighting,
            projection,
            indices: Vec::new(),
        };
        return (frame, diags);
    }
    let plane_normal = bsp.planes[face.plane as usize].normal;
    let normal = if face.plane_side > 0 {
        negate_vec3(plane_normal)
    } else {
        plane_normal
    };
    let mut positions: Vec<Vec3Bits> = Vec::new();
    let mut k: u32 = 0;
    let edge_count = face.edges as u32;
    while k < edge_count
        invariant
            k <= edge_count,
            edge_count == bsp.faces@[face_idx as int].edges,
            face == bsp.faces@[face_idx as int],
            0 <= face_idx < bsp.faces@.len(),
            positions@ == face_positions(*bsp, face, k as int),
            positions@.len() <= k,
            diags@ == face_diags(*bsp, face, face_idx as int, k as int),
        decreases edge_count - k,
    {
        let se_idx: u64 = face.first_edge as u64 + k as u64;
        if se_idx >= bsp.surf_edges.len() as u64 {
            diags.push(FaceDiagnostic::MissingSurfEdge { face: face_idx, surfedge: se_idx });
        } else {
            let v = bsp.surf_edges[se_idx as usize].0;
            let e_idx: u64 = if v >= 0 {
                v as u64
            } else {
                (-(v as i64)) as u64
            };
            if e_idx >= bsp.edges.len() as u64 {
                diags.push(
                    FaceDiagnostic::MissingEdge {
                        face: face_idx,
                        surfedge: se_idx,
                        edge: e_idx as u32,
                    },
                );
            } else {
                let e = bsp.edges[e_idx as usize];
                let first = if v >= 0 {
                    e.v0
                } else {
                    e.v1
                };
                if (first as usize) < bsp.vertices.len() {
                    positions.push(bsp.vertices[first as usize].0);
                }
            }
        }
        proof {
            assert(positions@ =~= face_positions(*bsp, face, k + 1));
            assert(diags@ =~= face_diags(*bsp, face, face_idx as int, k + 1));
        }
        k = k + 1;
    }
    let indices = triangulate(&positions);
    let frame = FaceFrame { positions, normal: Some(normal), lighting, projection, indices };
    (frame, diags)
}

/// The first face index of a model's range, as the original reader's
/// cast computed it (a negative stored index wraps).
pub open spec fn model_face_base(m: Model) -> int {
    (m.idx_first_face as u64) as int
}

/// How many faces a model's range spans: none when the stored count is
/// not positive, or when the range's end would not be representable (the
/// original reader's index range is then empty).
pub open spec fn model_face_count(m: Model) -> int {
    if m.num_faces <= 0 {
        0
    } else if model_face_base(m) + m.num_faces > u64::MAX {
        0
    } else {
        m.num_faces as int
    }
}

/// The diagnostics the first `k` faces of a model's range record.
pub open spec fn model_diags(bsp: GoldSrc30Bsp, m: Model, k: int) -> Seq<FaceDiagnostic>
    decreases k,
{
    if k <= 0 {
        Seq::empty()
    } else {
        model_diags(bsp, m, k - 1) + face_all_diags(bsp, model_face_base(m) + k - 1)
    }
}

/// Assembles the geometry of every face of a model's range, leniently:
/// one frame per face, degenerate where references dangle, with all
/// diagnostics collected; the whole map is never aborted.
pub fn build_model_faces(bsp: &GoldSrc30Bsp, model: &Model) -> (res: (
    Vec<FaceFrame>,
    Vec<FaceDiagnostic>,
))
    ensures
        res.0@.len() == model_face_count(*model),
        forall|i: int|
            0 <= i < res.0@.len() ==> frame_ok(
                #[trigger] res.0@[i],
                *bsp,
                model_face_base(*model) + i,
            ),
        res.1@ == model_diags(*bsp, *model, model_face_count(*model)),
{
    let mut frames: Vec<FaceFrame> = Vec::new();
    let mut diags: Vec<FaceDiagnostic> = Vec::new();
    let base: u64 = model.idx_first_face as u64;
    let count: u32 = if model.num_faces <= 0 {
        0
    } else if base > u64::MAX - (model.num_faces as u64) {
        0
    } else {
        model.num_faces as u32
    };
    let mut i: u32 = 0;
    while i < count
        invariant
            i <= count,
            count as int == model_face_count(*model),
            base as int == model_face_base(*model),
            frames@.len() == i,
            forall|j: int|
                0 <= j < i ==> frame_ok(#[trigger] frames@[j], *bsp, model_face_base(*model) + j),
            diags@ == model_diags(*bsp, *model, i as int),
        decreases count - i,
    {
        let (frame, mut d) = build_face_geometry(bsp, base + i as u64);
        frames.push(frame);
        diags.append(&mut d);
        i = i + 1;
    }
    (frames, diags)
}

/// Toggles an IEEE-754 sign bit: the bit pattern of the negated value.
pub open spec fn flip_sign(x: u32) -> u32 {
    x ^ 0x8000_0000u32
}

/// The bit patterns of the componentwise negated vector. IEEE-754
/// negation toggles exactly the sign bit, so this is float negation
/// without floating-point arithmetic.
pub open spec fn negate_vec3_spec(v: Vec3Bits) -> Vec3Bits {
    Vec3Bits { x: flip_sign(v.x), y: flip_sign(v.y), z: flip_sign(v.z) }
}

/// Negates a vector of IEEE-754 bit patterns by toggling the sign bits.
pub fn negate_vec3(v: Vec3Bits) -> (res: Vec3Bits)
    ensures
        res == negate_vec3_spec(v),
{
    Vec3Bits { x: v.x ^ 0x8000_0000, y: v.y ^ 0x8000_0000, z: v.z ^ 0x8000_0000 }
}

} // verus!
