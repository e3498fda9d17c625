//! The publish orchestrator: a dependency-respecting, idempotent publish
//! plan over the member graph, computed by an explicit iterative depth-first
//! traversal with cycle detection.

use vstd::prelude::*;
use crate::graph::{DependencyGraph, ReleaseError};

verus! {

/// The set of members successfully published so far in one release run.
/// It starts empty, grows monotonically, and is the sole source of
/// idempotency: a member in this set is never published again.
#[derive(Debug)]
pub struct PublishState {
    pub published: Vec<bool>,
}

impl PublishState {
    /// Sized to the member set of `g`.
    pub open spec fn wf(self, g: DependencyGraph) -> bool {
        self.published@.len() == g.names@.len()
    }

    /// Member `i` has been published.
    pub open spec fn spec_contains(self, i: int) -> bool {
        0 <= i < self.published@.len() && self.published@[i]
    }

    /// Fresh state for a release run over `g`: nothing published yet.
    pub fn new_for(g: &DependencyGraph) -> (s: PublishState)
        ensures
            s.wf(*g),
            forall|i: int| !s.spec_contains(i),
    {
        let v: Vec<bool> = vec![false; g.names.len()];
        PublishState { published: v }
    }

    /// Records that member `i` was published. Members are only ever added.
    pub fn mark_published(&mut self, i: usize)
        requires
            i < old(self).published@.len(),
        ensures
            final(self).published@ == old(self).published@.update(i as int, true),
    {
        self.published.set(i, true);
    }

    pub fn is_published(&self, i: usize) -> (r: bool)
        requires
            i < self.published@.len(),
        ensures
            r == self.spec_contains(i as int),
    {
        self.published[i]
    }
}

/// `p` is a nonempty closed walk in `g`: consecutive entries are edges, and
/// so is the step from the last entry back to the first.
pub open spec fn is_cycle(g: DependencyGraph, p: Seq<int>) -> bool {
    &&& p.len() >= 1
    &&& forall|k: int| 0 <= k < p.len() ==> 0 <= (#[trigger] p[k]) < g.n()
    &&& forall|k: int| 0 <= k < p.len() - 1 ==> g.edge(#[trigger] p[k], p[k + 1])
    &&& g.edge(p[p.len() - 1], p[0])
}

/// A dependency cycle none of whose members is already published.
pub open spec fn unpublished_cycle(g: DependencyGraph, pubs: Seq<bool>, p: Seq<int>) -> bool {
    is_cycle(g, p) && forall|k: int| 0 <= k < p.len() ==> !pubs[#[trigger] p[k]]
}

pub open spec fn has_unpublished_cycle(g: DependencyGraph, pubs: Seq<bool>) -> bool {
    exists|p: Seq<int>| unpublished_cycle(g, pubs, p)
}

/// `ord` is a valid publish plan over `g` for a run that has already
/// published `pubs`: it lists each not-yet-published member exactly once,
/// and every local dependency of a listed member is either already
/// published or listed strictly earlier.
pub open spec fn valid_plan(g: DependencyGraph, pubs: Seq<bool>, ord: Seq<usize>) -> bool {
    &&& ord.no_duplicates()
    &&& forall|k: int|
        0 <= k < ord.len() ==> (#[trigger] ord[k]) < g.names@.len() && !pubs[ord[k] as int]
    &&& forall|i: int| 0 <= i < g.n() && !pubs[i] ==> ord.contains(i as usize)
    &&& forall|k: int, j: int|
        0 <= k < ord.len() && 0 <= j < g.deps@[ord[k] as int]@.len()
            ==> {
                let d = #[trigger] g.deps@[ord[k] as int]@[j];
                pubs[d as int] || exists|m: int| 0 <= m < k && ord[m] == d
            }
}

/// Every member of a valid plan sits after all of its local dependencies:
/// walking a cycle through the plan would move strictly backwards forever,
/// so a plan excludes any cycle among the not-yet-published members.
proof fn lemma_cycle_walk(
    g: DependencyGraph,
    pubs: Seq<bool>,
    ord: Seq<usize>,
    p: Seq<int>,
    i: int,
    m0: int,
)
    requires
        g.wf(),
        pubs.len() == g.n(),
        g.names@.len() <= usize::MAX,
        valid_plan(g, pubs, ord),
        unpublished_cycle(g, pubs, p),
        0 <= i < p.len(),
        0 <= m0 < ord.len(),
        ord[m0] == p[0] as usize,
    ensures
        exists|m: int| 0 <= m < ord.len() && (#[trigger] ord[m]) == p[i] as usize && m + i <= m0,
    decreases i,
{
    if i == 0 {
        assert(0 <= m0 < ord.len() && ord[m0] == p[0] as usize && m0 + 0 <= m0);
    } else {
        lemma_cycle_walk(g, pubs, ord, p, i - 1, m0);
        let m = choose|m: int|
            0 <= m < ord.len() && (#[trigger] ord[m]) == p[i - 1] as usize && m + (i - 1) <= m0;
        // p[i] is a local dependency of p[i - 1] = ord[m]
        assert(g.edge(p[i - 1], p[i]));
        let j = choose|j: int|
            0 <= j < g.deps@[p[i - 1]]@.len() && (#[trigger] g.deps@[p[i - 1]]@[j]) == p[i] as usize;
        assert(g.deps@[ord[m] as int]@[j] == p[i] as usize);
        assert(!pubs[p[i]]);
        let d = g.deps@[ord[m] as int]@[j];
        assert(pubs[d as int] || exists|mm: int| 0 <= mm < m && ord[mm] == d);
        let mm = choose|mm: int| 0 <= mm < m && (#[trigger] ord[mm]) == d;
        assert(0 <= mm < ord.len() && ord[mm] == p[i] as usize && mm + i <= m0);
    }
}

/// A valid plan rules out any cycle among the not-yet-published members.
pub proof fn lemma_plan_no_cycle(g: DependencyGraph, pubs: Seq<bool>, ord: Seq<usize>)
    requires
        g.wf(),
        pubs.len() == g.n(),
        g.names@.len() <= usize::MAX,
        valid_plan(g, pubs, ord),
    ensures
        !has_unpublished_cycle(g, pubs),
{
    if has_unpublished_cycle(g, pubs) {
        let p = choose|p: Seq<int>| unpublished_cycle(g, pubs, p);
        assert(0 <= p[0] < g.n() && !pubs[p[0]]);
        assert(ord.contains(p[0] as usize));
        let m0 = choose|m: int| 0 <= m < ord.len() && (#[trigger] ord[m]) == p[0] as usize;
        let last = p.len() - 1;
        lemma_cycle_walk(g, pubs, ord, p, last, m0);
        let ml = choose|m: int|
            0 <= m < ord.len() && (#[trigger] ord[m]) == p[last] as usize && m + last <= m0;
        // the closing edge from p[last] back to p[0]
        assert(g.edge(p[last], p[0]));
        let j = choose|j: int|
            0 <= j < g.deps@[p[last]]@.len() && (#[trigger] g.deps@[p[last]]@[j]) == p[0] as usize;
        assert(g.deps@[ord[ml] as int]@[j] == p[0] as usize);
        let d = g.deps@[ord[ml] as int]@[j];
        assert(!pubs[d as int]);
        let mm = choose|mm: int| 0 <= mm < ml && (#[trigger] ord[mm]) == d;
        // two positions of the duplicate-free plan hold p[0]
        assert(ord[mm] == ord[m0]);
        assert(mm == m0);
        assert(false);
    }
}

/// Colors of the iterative depth-first traversal: `0` not yet visited,
/// `1` visit in progress (on the explicit stack), `2` done.
spec fn color_ok(color: Seq<u8>) -> bool {
    forall|i: int|
        0 <= i < color.len() ==> (#[trigger] color[i]) == 0 || color[i] == 1 || color[i] == 2
}

/// Traversal invariant tying the colors and the order built so far to the
/// graph and to the already-published set.
spec fn base_inv(g: DependencyGraph, pubs: Seq<bool>, color: Seq<u8>, order: Seq<usize>) -> bool {
    &&& pubs.len() == g.n()
    &&& color.len() == g.n()
    &&& color_ok(color)
    &&& forall|i: int| 0 <= i < g.n() && pubs[i] ==> (#[trigger] color[i]) == 2
    &&& order.no_duplicates()
    &&& forall|k: int|
        0 <= k < order.len() ==> (#[trigger] order[k]) < g.n() && color[order[k] as int] == 2
            && !pubs[order[k] as int]
    &&& forall|i: int|
        0 <= i < g.n() && (#[trigger] color[i]) == 2 && !pubs[i] ==> order.contains(i as usize)
    &&& forall|k: int, j: int|
        0 <= k < order.len() && 0 <= j < g.deps@[order[k] as int]@.len() ==> {
            let d = #[trigger] g.deps@[order[k] as int]@[j];
            pubs[d as int] || exists|m: int| 0 <= m < k && order[m] == d
        }
}

/// Invariant of the explicit stack: its entries are the in-progress members
/// (pairwise distinct), each remembers how many of its dependencies were
/// already examined, consecutive entries form a dependency path, and every
/// examined dependency is done, except the one whose visit is the next entry.
spec fn stack_inv(g: DependencyGraph, color: Seq<u8>, stack: Seq<(usize, usize)>) -> bool {
    &&& forall|t: int|
        0 <= t < stack.len() ==> {
            let e = #[trigger] stack[t];
            e.0 < g.n() && e.1 <= g.deps@[e.0 as int]@.len() && color[e.0 as int] == 1
        }
    &&& forall|i: int|
        0 <= i < color.len() && (#[trigger] color[i]) == 1 ==> exists|t: int|
            0 <= t < stack.len() && (#[trigger] stack[t]).0 as int == i
    &&& forall|t1: int, t2: int|
        0 <= t1 < t2 < stack.len() ==> (#[trigger] stack[t1]).0 != (#[trigger] stack[t2]).0
    &&& forall|t: int|
        0 <= t < stack.len() - 1 ==> {
            let e = #[trigger] stack[t];
            e.1 >= 1 && g.deps@[e.0 as int]@[e.1 - 1] == stack[t + 1].0
        }
    &&& forall|t: int, m: int|
        0 <= t < stack.len() && 0 <= m < (#[trigger] stack[t]).1 ==> {
            let d = #[trigger] g.deps@[stack[t].0 as int]@[m];
            color[d as int] == 2 || (t < stack.len() - 1 && m == stack[t].1 - 1)
        }
}

/// Number of not-yet-visited members; the primary termination measure.
spec fn count_white(color: Seq<u8>) -> int
    decreases color.len(),
{
    if color.len() == 0 {
        0
    } else {
        count_white(color.drop_last()) + if color.last() == 0 { 1int } else { 0int }
    }
}

proof fn lemma_count_white_nonneg(color: Seq<u8>)
    ensures
        count_white(color) >= 0,
    decreases color.len(),
{
    if color.len() > 0 {
        lemma_count_white_nonneg(color.drop_last());
    }
}

proof fn lemma_count_white_update(color: Seq<u8>, i: int, v: u8)
    requires
        0 <= i < color.len(),
    ensures
        count_white(color.update(i, v)) == count_white(color) - (
        if color[i] == 0 { 1int } else { 0int }) + (if v == 0 { 1int } else { 0int }),
    decreases color.len(),
{
    let c2 = color.update(i, v);
    if i == color.len() - 1 {
        assert(c2.drop_last() =~= color.drop_last());
        assert(c2.last() == v);
    } else {
        assert(c2.drop_last() =~= color.drop_last().update(i, v));
        lemma_count_white_update(color.drop_last(), i, v);
        assert(c2.last() == color.last());
    }
}

/// Dependencies still to examine across the whole stack; the second
/// termination measure.
spec fn stack_slack(g: DependencyGraph, stack: Seq<(usize, usize)>) -> int
    decreases stack.len(),
{
    if stack.len() == 0 {
        0
    } else {
        stack_slack(g, stack.drop_last()) + (g.deps@[stack.last().0 as int]@.len()
            - stack.last().1)
    }
}

proof fn lemma_stack_slack_nonneg(g: DependencyGraph, stack: Seq<(usize, usize)>)
    requires
        forall|t: int|
            0 <= t < stack.len() ==> (#[trigger] stack[t]).1 <= g.deps@[stack[t].0 as int]@.len(),
    ensures
        stack_slack(g, stack) >= 0,
    decreases stack.len(),
{
    if stack.len() > 0 {
        lemma_stack_slack_nonneg(g, stack.drop_last());
    }
}

/// Visits `root` depth first with an explicit stack, appending to `order`
/// every member the visit finishes (prerequisites strictly first), or
/// reports a dependency cycle among not-yet-published members.
#[verifier::rlimit(100)]
fn visit_member(
    g: &DependencyGraph,
    state: &PublishState,
    color: &mut Vec<u8>,
    order: &mut Vec<usize>,
    root: usize,
) -> (r: Result<(), ReleaseError>)
    requires
        g.wf(),
        state.wf(*g),
        base_inv(*g, state.published@, old(color)@, old(order)@),
        forall|i: int| 0 <= i < old(color)@.len() ==> (#[trigger] old(color)@[i]) != 1,
        root < g.names@.len(),
        old(color)@[root as int] == 0,
    ensures
        base_inv(*g, state.published@, final(color)@, final(order)@),
        final(color)@.len() == old(color)@.len(),
        match r {
            Ok(()) => {
                &&& forall|i: int|
                    0 <= i < final(color)@.len() ==> (#[trigger] final(color)@[i]) != 1
                &&& final(color)@[root as int] == 2
                &&& forall|i: int|
                    0 <= i < old(color)@.len() && old(color)@[i] == 2
                        ==> (#[trigger] final(color)@[i]) == 2
            },
            Err(e) => e == ReleaseError::DependencyCycle && has_unpublished_cycle(
                *g,
                state.published@,
            ),
        },
{
    let ghost pubs = state.published@;
    let mut stack: Vec<(usize, usize)> = Vec::new();
    color.set(root, 1);
    stack.push((root, 0));
    proof {
        lemma_count_white_update(old(color)@, root as int, 1);
        assert forall|i: int|
            0 <= i < color@.len() && (#[trigger] color@[i]) == 1 implies exists|t: int|
            0 <= t < stack@.len() && (#[trigger] stack@[t]).0 as int == i by {
            assert(i == root as int);
            assert(stack@[0].0 as int == i);
        }
    }
    while stack.len() > 0
        invariant
            g.wf(),
            state.wf(*g),
            pubs == state.published@,
            base_inv(*g, pubs, color@, order@),
            stack_inv(*g, color@, stack@),
            color@.len() == old(color)@.len(),
            root < g.names@.len(),
            forall|i: int|
                0 <= i < color@.len() && (#[trigger] old(color)@[i]) == 2 ==> color@[i] == 2,
            stack@.len() >= 1 ==> stack@[0].0 == root,
            stack@.len() == 0 ==> color@[root as int] == 2,
        decreases count_white(color@), stack_slack(*g, stack@), stack@.len(),
    {
        proof {
            lemma_count_white_nonneg(color@);
            lemma_stack_slack_nonneg(*g, stack@);
        }
        let ghost color0 = color@;
        let ghost stack0 = stack@;
        let ghost order0 = order@;
        let (v, k) = stack[stack.len() - 1];
        let dlen = g.deps[v].len();
        if k < dlen {
            let d = g.deps[v][k];
            let c = color[d];
            if c == 1 {
                proof {
                    let j = choose|t: int|
                        0 <= t < stack0.len() && (#[trigger] stack0[t]).0 as int == d as int;
                    let len = stack0.len() as int;
                    let p = Seq::new((len - j) as nat, |kk: int| stack0[j + kk].0 as int);
                    assert forall|kk: int| 0 <= kk < p.len() - 1 implies g.edge(
                        #[trigger] p[kk],
                        p[kk + 1],
                    ) by {
                        let t = j + kk;
                        let e = stack0[t];
                        assert(e.1 >= 1 && g.deps@[e.0 as int]@[e.1 - 1] == stack0[t + 1].0);
                        assert(g.deps@[p[kk]]@.contains(stack0[t + 1].0));
                    }
                    assert(p[p.len() - 1] == v as int);
                    assert(g.deps@[v as int]@[k as int] == d);
                    assert(g.deps@[v as int]@.contains(d));
                    assert(g.edge(p[p.len() - 1], p[0]));
                    assert forall|kk: int| 0 <= kk < p.len() implies !pubs[#[trigger] p[kk]] by {
                        assert(color0[p[kk]] == 1);
                    }
                    assert(unpublished_cycle(*g, pubs, p));
                }
                return Err(ReleaseError::DependencyCycle);
            }
            let _ = stack.pop();
            stack.push((v, k + 1));
            if c == 0 {
                color.set(d, 1);
                stack.push((d, 0));
                proof {
                    lemma_count_white_update(color0, d as int, 1);
                    let s1 = stack@;
                    assert(s1.drop_last() =~= stack0.drop_last().push((v, (k + 1) as usize)));
                    assert(s1.drop_last().drop_last() =~= stack0.drop_last());
                    assert forall|i: int|
                        0 <= i < color@.len() && (#[trigger] color@[i]) == 1 implies exists|t: int|
                        0 <= t < s1.len() && (#[trigger] s1[t]).0 as int == i by {
                        if i == d as int {
                            assert(s1[s1.len() - 1].0 as int == i);
                        } else {
                            assert(color0[i] == 1);
                            let t = choose|t: int|
                                0 <= t < stack0.len() && (#[trigger] stack0[t]).0 as int == i;
                            if t == stack0.len() - 1 {
                                assert(s1[s1.len() - 2].0 as int == i);
                            } else {
                                assert(s1[t].0 as int == i);
                            }
                        }
                    }
                }
            } else {
                proof {
                    let s1 = stack@;
                    assert(s1.drop_last() =~= stack0.drop_last());
                    assert forall|i: int|
                        0 <= i < color@.len() && (#[trigger] color@[i]) == 1 implies exists|t: int|
                        0 <= t < s1.len() && (#[trigger] s1[t]).0 as int == i by {
                        let t = choose|t: int|
                            0 <= t < stack0.len() && (#[trigger] stack0[t]).0 as int == i;
                        if t == stack0.len() - 1 {
                            assert(s1[s1.len() - 1].0 as int == i);
                        } else {
                            assert(s1[t].0 as int == i);
                        }
                    }
                }
            }
        } else {
            let _ = stack.pop();
            color.set(v, 2);
            order.push(v);
            proof {
                lemma_count_white_update(color0, v as int, 2);
                let s1 = stack@;
                assert(s1 =~= stack0.drop_last());
                // v is not already in the order: ordered members are done, v was in progress
                assert forall|kk: int| 0 <= kk < order0.len() implies (#[trigger] order0[kk])
                    != v by {
                    assert(color0[order0[kk] as int] == 2);
                }
                assert(order@ == order0.push(v));
                // the new order entry: every dependency of v is done, hence already
                // published or ordered earlier
                assert forall|j: int| 0 <= j < g.deps@[v as int]@.len() implies {
                    let d = #[trigger] g.deps@[v as int]@[j];
                    pubs[d as int] || exists|m: int| 0 <= m < order0.len() && order0[m] == d
                } by {
                    let d = g.deps@[v as int]@[j];
                    assert(color0[d as int] == 2);
                    if !pubs[d as int] {
                        assert(order0.contains(d));
                    }
                }
                assert forall|kk: int, j: int|
                    0 <= kk < order@.len() && 0 <= j < g.deps@[order@[kk] as int]@.len() implies {
                    let d = #[trigger] g.deps@[order@[kk] as int]@[j];
                    pubs[d as int] || exists|m: int| 0 <= m < kk && order@[m] == d
                } by {
                    let d = g.deps@[order@[kk] as int]@[j];
                    if kk < order0.len() {
                        assert(pubs[d as int] || exists|m: int| 0 <= m < kk && order0[m] == d);
                        if !pubs[d as int] {
                            let m = choose|m: int| 0 <= m < kk && order0[m] == d;
                            assert(order@[m] == d);
                        }
                    } else {
                        assert(order@[kk] == v);
                        if !pubs[d as int] {
                            let m = choose|m: int| 0 <= m < order0.len() && order0[m] == d;
                            assert(order@[m] == d);
                        }
                    }
                }
                // remaining in-progress members are still on the remaining stack
                assert forall|i: int|
                    0 <= i < color@.len() && (#[trigger] color@[i]) == 1 implies exists|t: int|
                    0 <= t < s1.len() && (#[trigger] s1[t]).0 as int == i by {
                    assert(color0[i] == 1);
                    let t = choose|t: int|
                        0 <= t < stack0.len() && (#[trigger] stack0[t]).0 as int == i;
                    assert(t != stack0.len() - 1);
                    assert(s1[t].0 as int == i);
                }
                // members already done keep every order-related fact
                assert forall|i: int|
                    0 <= i < g.n() && (#[trigger] color@[i]) == 2 && !pubs[i] implies order@.contains(
                    i as usize,
                ) by {
                    if i == v as int {
                        assert(order@[order@.len() - 1] == v);
                    } else {
                        assert(color0[i] == 2);
                        let m = choose|m: int| 0 <= m < order0.len() && order0[m] == i as usize;
                        assert(order@[m] == i as usize);
                    }
                }
            }
        }
        proof {
            lemma_count_white_nonneg(color@);
            assert forall|t: int|
                0 <= t < stack@.len() implies (#[trigger] stack@[t]).1 <= g.deps@[stack@[t].0 as int]@.len() by {}
            lemma_stack_slack_nonneg(*g, stack@);
        }
    }
    proof {
        assert forall|i: int| 0 <= i < color@.len() implies (#[trigger] color@[i]) != 1 by {
            if color@[i] == 1 {
                let t = choose|t: int|
                    0 <= t < stack@.len() && (#[trigger] stack@[t]).0 as int == i;
                assert(false);
            }
        }
    }
    Ok(())
}

/// Computes the publish plan for the whole workspace: every member not yet
/// in `state`, each strictly after all of its local prerequisites, or
/// reports a dependency cycle before any publish is attempted. Iteration is
/// deterministic: members are taken in graph (construction) order.
pub fn publish_workspace(g: &DependencyGraph, state: &PublishState) -> (r: Result<
    Vec<usize>,
    ReleaseError,
>)
    requires
        g.wf(),
        state.wf(*g),
    ensures
        match r {
            Ok(ord) => valid_plan(*g, state.published@, ord@) && !has_unpublished_cycle(
                *g,
                state.published@,
            ),
            Err(e) => e == ReleaseError::DependencyCycle && has_unpublished_cycle(
                *g,
                state.published@,
            ),
        },
        (forall|i: int| 0 <= i < g.n() ==> state.published@[i]) ==> match r {
            Ok(ord) => ord@.len() == 0,
            Err(e) => false,
        },
{
    let ghost pubs = state.published@;
    let n = g.names.len();
    let mut color: Vec<u8> = Vec::new();
    let mut i: usize = 0;
    while i < n
        invariant
            n == g.names@.len(),
            state.wf(*g),
            pubs == state.published@,
            i <= n,
            color@.len() == i,
            forall|k: int|
                0 <= k < i ==> (#[trigger] color@[k]) == (if pubs[k] { 2u8 } else { 0u8 }),
        decreases n - i,
    {
        if state.is_published(i) {
            color.push(2);
        } else {
            color.push(0);
        }
        i += 1;
    }
    let mut order: Vec<usize> = Vec::new();
    let mut root: usize = 0;
    while root < n
        invariant
            g.wf(),
            state.wf(*g),
            pubs == state.published@,
            n == g.names@.len(),
            root <= n,
            base_inv(*g, pubs, color@, order@),
            forall|i: int| 0 <= i < color@.len() ==> (#[trigger] color@[i]) != 1,
            forall|i: int| 0 <= i < root ==> (#[trigger] color@[i]) == 2,
        decreases n - root,
    {
        if color[root] == 0 {
            match visit_member(g, state, &mut color, &mut order, root) {
                Ok(()) => {
                    proof {
                        assert(color@[root as int] == 2);
                    }
                },
                Err(e) => {
                    return Err(e);
                },
            }
        } else {
            proof {
                assert(color@[root as int] != 0 && color@[root as int] != 1);
                assert(color@[root as int] == 2);
            }
        }
        root += 1;
    }
    proof {
        assert forall|i: int| 0 <= i < g.n() && !pubs[i] implies order@.contains(i as usize) by {
            assert(color@[i] == 2);
        }
        lemma_plan_no_cycle(*g, pubs, order@);
        if forall|i: int| 0 <= i < g.n() ==> pubs[i] {
            if order@.len() > 0 {
                assert(!pubs[order@[0] as int]);
                assert(false);
            }
        }
    }
    Ok(order)
}

/// The publish state after the first `k` members of a plan have been
/// published, starting from `pubs`.
pub open spec fn state_after(pubs: Seq<bool>, ord: Seq<usize>, k: int) -> Seq<bool>
    decreases k,
{
    if k <= 0 {
        pubs
    } else {
        state_after(pubs, ord, k - 1).update(ord[k - 1] as int, true)
    }
}

proof fn lemma_state_after_mem(pubs: Seq<bool>, ord: Seq<usize>, k: int, i: int)
    requires
        0 <= i < pubs.len(),
        pubs.len() <= usize::MAX,
        0 <= k <= ord.len(),
        forall|m: int| 0 <= m < ord.len() ==> (#[trigger] ord[m]) < pubs.len(),
    ensures
        state_after(pubs, ord, k).len() == pubs.len(),
        state_after(pubs, ord, k)[i] == (pubs[i] || exists|m: int|
            0 <= m < k && (#[trigger] ord[m]) == i as usize),
    decreases k,
{
    if k > 0 {
        lemma_state_after_mem(pubs, ord, k - 1, i);
        if ord[k - 1] as int == i {
            assert(state_after(pubs, ord, k)[i]);
            assert(ord[k - 1] == i as usize);
        } else {
            assert(state_after(pubs, ord, k)[i] == state_after(pubs, ord, k - 1)[i]);
            assert forall|m: int|
                0 <= m < k && (#[trigger] ord[m]) == i as usize implies 0 <= m < k - 1 by {
                assert(ord[k - 1] as int != i);
            }
        }
    }
}

/// Law: a run that publishes along a valid plan publishes each member at
/// most once (the plan is duplicate-free), and at the moment member
/// `ord[k]` is published, every local dependency of it already stands in
/// the publish state reached by the `k` earlier publishes.
pub proof fn lemma_plan_publishes_deps_first(
    g: DependencyGraph,
    pubs: Seq<bool>,
    ord: Seq<usize>,
    k: int,
    j: int,
)
    requires
        g.wf(),
        pubs.len() == g.n(),
        g.names@.len() <= usize::MAX,
        valid_plan(g, pubs, ord),
        0 <= k < ord.len(),
        0 <= j < g.deps@[ord[k] as int]@.len(),
    ensures
        ord.no_duplicates(),
        state_after(pubs, ord, k)[g.deps@[ord[k] as int]@[j] as int],
{
    let d = g.deps@[ord[k] as int]@[j];
    assert(d < g.names@.len());
    lemma_state_after_mem(pubs, ord, k, d as int);
    assert(pubs[d as int] || exists|m: int| 0 <= m < k && ord[m] == d);
    if !pubs[d as int] {
        let m = choose|m: int| 0 <= m < k && ord[m] == d;
        assert(state_after(pubs, ord, k)[d as int]);
    }
}

} // verus!
