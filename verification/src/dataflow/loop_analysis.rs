//! Comparing the loop nests of attached edges: identical access maps, and
//! groups of loop-equal edges.

use std::rc::Rc;
use vstd::prelude::*;

use crate::access::AccessMap;
use crate::dataflow::edge::AttachedEdge;
use crate::dataflow::transfer::edge_values;

verus! {

/// Whether the two access maps are both missing, or identical.
pub open spec fn maps_identical(a: Option<Rc<AccessMap>>, b: Option<Rc<AccessMap>>) -> bool {
    match (a, b) {
        (None, None) => true,
        (Some(x), Some(y)) => x.identical(&*y),
        _ => false,
    }
}

/// Whether each of `edges` has an access map identical to that of the edge
/// behind it.
pub open spec fn all_identical(edges: Seq<AttachedEdge>) -> bool {
    forall|i: int|
        0 <= i < edges.len() - 1 ==> maps_identical(
            (#[trigger] edges[i]).access(),
            edges[i + 1].access(),
        )
}

/// The first of the first `k` groups whose first edge is loop-equal to `edge`.
pub open spec fn find_group(groups: Seq<Seq<AttachedEdge>>, edge: AttachedEdge, k: nat) -> Option<
    int,
>
    decreases k,
{
    if k == 0 {
        None
    } else {
        match find_group(groups, edge, (k - 1) as nat) {
            Some(i) => Some(i),
            None => if groups[k - 1].len() > 0 && groups[k - 1][0].loop_equal(&edge) {
                Some(k - 1)
            } else {
                None
            },
        }
    }
}

/// The first `n` of `edges` in groups of loop-equal edges: each edge in turn
/// joins the first group whose first edge it is loop-equal to, or starts a new
/// group behind the others.
pub open spec fn grouped(edges: Seq<AttachedEdge>, n: nat) -> Seq<Seq<AttachedEdge>>
    decreases n,
{
    if n == 0 {
        Seq::empty()
    } else {
        let groups = grouped(edges, (n - 1) as nat);
        let edge = edges[n - 1];
        match find_group(groups, edge, groups.len()) {
            Some(i) => groups.update(i, groups[i].push(edge)),
            None => groups.push(seq![edge]),
        }
    }
}

/// A group found among the first `k` is the group found among all.
pub proof fn lemma_find_group_sticks(
    groups: Seq<Seq<AttachedEdge>>,
    edge: AttachedEdge,
    k: nat,
    m: nat,
)
    requires
        k <= m,
        find_group(groups, edge, k) is Some,
    ensures
        find_group(groups, edge, m) == find_group(groups, edge, k),
    decreases m,
{
    if m > k {
        lemma_find_group_sticks(groups, edge, k, (m - 1) as nat);
    }
}

/// The group found is one of the first `k`, and its first edge is loop-equal
/// to the edge.
pub proof fn lemma_find_group_range(groups: Seq<Seq<AttachedEdge>>, edge: AttachedEdge, k: nat)
    ensures
        find_group(groups, edge, k) matches Some(i) ==> 0 <= i < k && groups[i].len() > 0
            && groups[i][0].loop_equal(&edge),
    decreases k,
{
    if k > 0 {
        lemma_find_group_range(groups, edge, (k - 1) as nat);
    }
}

/// Every input has an access map identical to that of the input behind it
/// just where any two inputs have identical access maps.
pub proof fn lemma_all_identical_pairwise(edges: Seq<AttachedEdge>)
    ensures
        all_identical(edges) <==> (forall|i: int, j: int|
            0 <= i < edges.len() && 0 <= j < edges.len() ==> maps_identical(
                #[trigger] edges[i].access(),
                #[trigger] edges[j].access(),
            )),
{
    if all_identical(edges) {
        assert forall|i: int, j: int| 0 <= i < edges.len() && 0 <= j < edges.len() implies maps_identical(
            #[trigger] edges[i].access(),
            #[trigger] edges[j].access(),
        ) by {
            lemma_identical_to_first(edges, i);
            lemma_identical_to_first(edges, j);
        }
    } else {
        let i = choose|i: int|
            0 <= i < edges.len() - 1 && !maps_identical(
                (#[trigger] edges[i]).access(),
                edges[i + 1].access(),
            );
        assert(!maps_identical(edges[i].access(), edges[i + 1].access()));
    }
}

/// Where every input has an access map identical to that of the input behind
/// it, the access map of each is identical to that of the first.
pub proof fn lemma_identical_to_first(edges: Seq<AttachedEdge>, i: int)
    requires
        all_identical(edges),
        0 <= i < edges.len(),
    ensures
        maps_identical(edges[0].access(), edges[i].access()),
        maps_identical(edges[i].access(), edges[0].access()),
    decreases i,
{
    if i > 0 {
        lemma_identical_to_first(edges, i - 1);
        assert(maps_identical(edges[i - 1].access(), edges[i].access()));
    }
}

/// Whether the edges `a` and `b` stand in one of `groups`.
pub open spec fn in_same_group(
    groups: Seq<Seq<AttachedEdge>>,
    a: AttachedEdge,
    b: AttachedEdge,
) -> bool {
    exists|k: int|
        0 <= k < groups.len() && #[trigger] groups[k].contains(a) && groups[k].contains(b)
}

/// The number of edges in the first `k` of `groups`.
pub open spec fn group_sizes(groups: Seq<Seq<AttachedEdge>>, k: nat) -> nat
    decreases k,
{
    if k == 0 {
        0
    } else {
        group_sizes(groups, (k - 1) as nat) + groups[k - 1].len()
    }
}

/// What holds of the groups of loop-equal edges: no group is empty, the edges of
/// a group are loop-equal to one another, and no edge is loop-equal to one of
/// another group.
pub open spec fn are_classes(groups: Seq<Seq<AttachedEdge>>) -> bool {
    &&& forall|k: int| 0 <= k < groups.len() ==> (#[trigger] groups[k]).len() > 0
    &&& forall|k: int, s: int, t: int|
        #![trigger groups[k][s], groups[k][t]]
        0 <= k < groups.len() && 0 <= s < groups[k].len() && 0 <= t < groups[k].len()
            ==> groups[k][s].loop_equal(&groups[k][t])
    &&& forall|k: int, l: int, s: int, t: int|
        #![trigger groups[k][s], groups[l][t]]
        0 <= k < groups.len() && 0 <= l < groups.len() && k != l && 0 <= s < groups[k].len() && 0
            <= t < groups[l].len() ==> !groups[k][s].loop_equal(&groups[l][t])
}

/// One more edge in one group is one more edge in all.
pub proof fn lemma_group_sizes_update(
    groups: Seq<Seq<AttachedEdge>>,
    at: int,
    edge: AttachedEdge,
    k: nat,
)
    requires
        0 <= at < groups.len(),
        k <= groups.len(),
    ensures
        group_sizes(groups.update(at, groups[at].push(edge)), k) == group_sizes(groups, k) + if at
            < k {
            1nat
        } else {
            0nat
        },
    decreases k,
{
    if k > 0 {
        lemma_group_sizes_update(groups, at, edge, (k - 1) as nat);
    }
}

/// The sizes of the first groups do not depend on the groups behind them.
pub proof fn lemma_group_sizes_push(
    groups: Seq<Seq<AttachedEdge>>,
    group: Seq<AttachedEdge>,
    k: nat,
)
    requires
        k <= groups.len(),
    ensures
        group_sizes(groups.push(group), k) == group_sizes(groups, k),
    decreases k,
{
    if k > 0 {
        lemma_group_sizes_push(groups, group, (k - 1) as nat);
    }
}

/// No group is found for an edge just where the edge is loop-equal to the
/// first edge of none of the first `k` groups.
pub proof fn lemma_find_group_none(groups: Seq<Seq<AttachedEdge>>, edge: AttachedEdge, k: nat)
    requires
        find_group(groups, edge, k) is None,
    ensures
        forall|i: int|
            0 <= i < k && (#[trigger] groups[i]).len() > 0 ==> !groups[i][0].loop_equal(&edge),
    decreases k,
{
    if k > 0 {
        lemma_find_group_none(groups, edge, (k - 1) as nat);
    }
}

/// An edge that joins a group to whose first edge it is loop-equal keeps the
/// groups classes.
pub proof fn lemma_classes_join(groups: Seq<Seq<AttachedEdge>>, g: int, edge: AttachedEdge)
    requires
        are_classes(groups),
        0 <= g < groups.len(),
        groups[g][0].loop_equal(&edge),
    ensures
        are_classes(groups.update(g, groups[g].push(edge))),
{
    let now = groups.update(g, groups[g].push(edge));
    assert forall|k: int, s: int, t: int|
        #![trigger now[k][s], now[k][t]]
        0 <= k < now.len() && 0 <= s < now[k].len() && 0 <= t < now[k].len() implies now[k][s].loop_equal(
        &now[k][t],
    ) by {
        if k == g {
            let a = if s < groups[g].len() {
                groups[g][s]
            } else {
                edge
            };
            let b = if t < groups[g].len() {
                groups[g][t]
            } else {
                edge
            };
            assert(groups[g][0].loop_equal(&a));
            assert(groups[g][0].loop_equal(&b));
        } else {
            assert(now[k] == groups[k]);
            assert(groups[k][s].loop_equal(&groups[k][t]));
        }
    }
    assert forall|k: int, l: int, s: int, t: int|
        #![trigger now[k][s], now[l][t]]
        0 <= k < now.len() && 0 <= l < now.len() && k != l && 0 <= s < now[k].len() && 0 <= t
            < now[l].len() implies !now[k][s].loop_equal(&now[l][t]) by {
        if k == g && s == groups[g].len() {
            assert(now[l] == groups[l]);
            assert(!groups[g][0].loop_equal(&groups[l][t]));
        } else if l == g && t == groups[g].len() {
            assert(now[k] == groups[k]);
            assert(!groups[k][s].loop_equal(&groups[g][0]));
        } else {
            assert(now[k][s] == groups[k][s]);
            assert(now[l][t] == groups[l][t]);
            assert(!groups[k][s].loop_equal(&groups[l][t]));
        }
    }
    assert forall|k: int| 0 <= k < now.len() implies (#[trigger] now[k]).len() > 0 by {
        assert(groups[k].len() > 0);
    }
}

/// An edge that starts a group, because it is loop-equal to the first edge of
/// none, keeps the groups classes.
pub proof fn lemma_classes_start(groups: Seq<Seq<AttachedEdge>>, edge: AttachedEdge)
    requires
        are_classes(groups),
        forall|i: int|
            0 <= i < groups.len() && (#[trigger] groups[i]).len() > 0 ==> !groups[i][0].loop_equal(
                &edge,
            ),
    ensures
        are_classes(groups.push(seq![edge])),
{
    let now = groups.push(seq![edge]);
    let last = groups.len() as int;
    assert forall|k: int, s: int, t: int|
        #![trigger now[k][s], now[k][t]]
        0 <= k < now.len() && 0 <= s < now[k].len() && 0 <= t < now[k].len() implies now[k][s].loop_equal(
        &now[k][t],
    ) by {
        if k < last {
            assert(now[k] == groups[k]);
            assert(groups[k][s].loop_equal(&groups[k][t]));
        }
    }
    assert forall|k: int, l: int, s: int, t: int|
        #![trigger now[k][s], now[l][t]]
        0 <= k < now.len() && 0 <= l < now.len() && k != l && 0 <= s < now[k].len() && 0 <= t
            < now[l].len() implies !now[k][s].loop_equal(&now[l][t]) by {
        if k == last {
            assert(now[l] == groups[l]);
            assert(groups[l].len() > 0);
            assert(groups[l][0].loop_equal(&groups[l][t]));
        } else if l == last {
            assert(now[k] == groups[k]);
            assert(groups[k].len() > 0);
            assert(groups[k][0].loop_equal(&groups[k][s]));
        } else {
            assert(now[k] == groups[k] && now[l] == groups[l]);
            assert(!groups[k][s].loop_equal(&groups[l][t]));
        }
    }
    assert forall|k: int| 0 <= k < now.len() implies (#[trigger] now[k]).len() > 0 by {
        if k < last {
            assert(groups[k].len() > 0);
        }
    }
}

/// The groups that `merge_loops` makes are classes: no group is empty, the edges
/// of a group are loop-equal to one another, and no edge is loop-equal to one of
/// another group.
pub proof fn lemma_grouped_classes(edges: Seq<AttachedEdge>, n: nat)
    requires
        n <= edges.len(),
    ensures
        are_classes(grouped(edges, n)),
    decreases n,
{
    if n > 0 {
        let before = grouped(edges, (n - 1) as nat);
        let edge = edges[n - 1];
        lemma_grouped_classes(edges, (n - 1) as nat);
        lemma_find_group_range(before, edge, before.len());
        match find_group(before, edge, before.len()) {
            Some(g) => {
                lemma_classes_join(before, g, edge);
            },
            None => {
                lemma_find_group_none(before, edge, before.len());
                lemma_classes_start(before, edge);
            },
        }
    }
}

/// The groups that `merge_loops` makes hold the edges and nothing else: every
/// edge stands in a group, every edge of a group is one of the edges, and the
/// groups hold as many edges as there are, so that none stands in two.
pub proof fn lemma_grouped_covers(edges: Seq<AttachedEdge>, n: nat)
    requires
        n <= edges.len(),
    ensures
        group_sizes(grouped(edges, n), grouped(edges, n).len()) == n,
        forall|i: int|
            0 <= i < n ==> exists|k: int|
                0 <= k < grouped(edges, n).len() && (#[trigger] grouped(edges, n)[k]).contains(
                    #[trigger] edges[i],
                ),
        forall|k: int, t: int|
            0 <= k < grouped(edges, n).len() && 0 <= t < grouped(edges, n)[k].len() ==> exists|
                i: int,
            |
                0 <= i < n && edges[i] == #[trigger] grouped(edges, n)[k][t],
    decreases n,
{
    let now = grouped(edges, n);
    if n > 0 {
        let before = grouped(edges, (n - 1) as nat);
        let edge = edges[n - 1];
        lemma_grouped_covers(edges, (n - 1) as nat);
        lemma_find_group_range(before, edge, before.len());
        let at = match find_group(before, edge, before.len()) {
            Some(g) => {
                lemma_group_sizes_update(before, g, edge, before.len());
                g
            },
            None => {
                lemma_group_sizes_push(before, seq![edge], before.len());
                before.len() as int
            },
        };
        assert(now[at].last() == edge);
        assert forall|i: int| 0 <= i < n implies exists|k: int|
            0 <= k < now.len() && (#[trigger] now[k]).contains(#[trigger] edges[i]) by {
            if i == n - 1 {
                assert(now[at][now[at].len() - 1] == edge);
                assert(now[at].contains(edges[i]));
            } else {
                let k = choose|k: int|
                    0 <= k < before.len() && (#[trigger] before[k]).contains(edges[i]);
                let t = choose|t: int| 0 <= t < before[k].len() && before[k][t] == edges[i];
                assert(now[k][t] == edges[i]);
                assert(now[k].contains(edges[i]));
            }
        }
        assert forall|k: int, t: int| 0 <= k < now.len() && 0 <= t < now[k].len() implies exists|
            i: int,
        |
            0 <= i < n && edges[i] == #[trigger] now[k][t] by {
            if k == at && t == now[at].len() - 1 {
                assert(edges[n - 1] == now[k][t]);
            } else {
                assert(now[k][t] == before[k][t]);
                let i = choose|i: int| 0 <= i < n - 1 && edges[i] == before[k][t];
                assert(edges[i] == now[k][t]);
            }
        }
    }
}

/// `merge_loops` places two of the edges in the same group just where they are
/// loop-equal.
pub proof fn lemma_grouped_by_loop_equality(edges: Seq<AttachedEdge>, i: int, j: int)
    requires
        0 <= i < edges.len(),
        0 <= j < edges.len(),
    ensures
        in_same_group(grouped(edges, edges.len()), edges[i], edges[j]) <==> edges[i].loop_equal(
            &edges[j],
        ),
{
    let now = grouped(edges, edges.len());
    lemma_grouped_classes(edges, edges.len());
    lemma_grouped_covers(edges, edges.len());
    let a = edges[i];
    let b = edges[j];
    if in_same_group(now, a, b) {
        let k = choose|k: int| 0 <= k < now.len() && #[trigger] now[k].contains(a) && now[k].contains(b);
        let s = choose|s: int| 0 <= s < now[k].len() && now[k][s] == a;
        let t = choose|t: int| 0 <= t < now[k].len() && now[k][t] == b;
        assert(now[k][s].loop_equal(&now[k][t]));
    }
    if a.loop_equal(&b) {
        let k = choose|k: int| 0 <= k < now.len() && (#[trigger] now[k]).contains(a);
        let l = choose|l: int| 0 <= l < now.len() && (#[trigger] now[l]).contains(b);
        let s = choose|s: int| 0 <= s < now[k].len() && now[k][s] == a;
        let t = choose|t: int| 0 <= t < now[l].len() && now[l][t] == b;
        if k != l {
            assert(!now[k][s].loop_equal(&now[l][t]));
        }
        assert(now[k].contains(a) && now[k].contains(b));
    }
}

/// The edges of each of `groups`.
pub open spec fn group_edges(groups: Seq<LoopGroup>) -> Seq<Seq<AttachedEdge>> {
    Seq::new(groups.len(), |k: int| groups[k].edges())
}

/// Attached edges of one block that are loop-equal to one another.
pub struct LoopGroup {
    index: usize,
    edges: Vec<Rc<AttachedEdge>>,
}

impl LoopGroup {
    /// The place of the group among the groups of its block.
    pub closed spec fn index(&self) -> usize {
        self.index
    }

    /// The edges of the group, in the order of the block's inputs.
    pub closed spec fn edges(&self) -> Seq<AttachedEdge> {
        edge_values(self.edges@)
    }

    /// A group of one edge.
    pub(crate) fn new(index: usize, edge: Rc<AttachedEdge>) -> (group: Self)
        ensures
            group.index() == index,
            group.edges() == seq![*edge],
    {
        let mut edges: Vec<Rc<AttachedEdge>> = Vec::new();
        edges.push(edge);
        let group = LoopGroup { index, edges };
        assert(group.edges() =~= seq![*edge]);
        group
    }

    /// Adds an edge to the group.
    pub(crate) fn add(&mut self, edge: Rc<AttachedEdge>)
        ensures
            final(self).index() == old(self).index(),
            final(self).edges() == old(self).edges().push(*edge),
    {
        self.edges.push(edge);
        assert(self.edges() =~= old(self).edges().push(*edge));
    }

    /// The place of the group among the groups of its block.
    pub fn get_index(&self) -> (index: usize)
        ensures
            index == self.index(),
    {
        self.index
    }

    /// The edges of the group.
    pub fn get_edges(&self) -> (edges: &Vec<Rc<AttachedEdge>>)
        ensures
            edge_values(edges@) == self.edges(),
    {
        &self.edges
    }
}

} // verus!
