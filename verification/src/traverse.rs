//! Group-tree traversal.
//!
//! The host arranges groups in a tree: every group owns projects directly
//! and may own subgroups, and the walk has to collect the projects of
//! every group reachable from the starting groups. The walk is an
//! explicit worklist rather than recursion, so a deep hierarchy cannot
//! exhaust the call stack, and a group is fetched at most once.
//!
//! [`Traversal`] is the walk's bookkeeping alone: it decides which group
//! to fetch next and accumulates what the fetches returned, while the
//! caller performs each fetch and hands back the group's project and
//! subgroup identifiers. [`collect_group_tree`] runs the same walk over an
//! in-memory tree, which states the walk's guarantees in full: every
//! reachable group is visited exactly once, and the collected projects
//! are exactly the visited groups' projects in visit order.

use vstd::prelude::*;
use vstd::relations::injective;
use vstd::set_lib::{lemma_int_range, lemma_len_subset, set_int_range};

verus! {

/// One group of an in-memory group tree: the identifiers of the projects
/// it owns directly and of its direct subgroups. A group's identifier is
/// its index in the containing tree.
pub struct GroupNode {
    pub projects: Vec<u64>,
    pub subgroups: Vec<u64>,
}

/// Every subgroup identifier of every node points into the tree.
pub open spec fn tree_wf(tree: Seq<GroupNode>) -> bool {
    forall|i: int, j: int|
        0 <= i < tree.len() && 0 <= j < tree[i].subgroups@.len() ==> (
        #[trigger] tree[i].subgroups@[j] as int) < tree.len()
}

/// Whether `child` is a direct subgroup of `parent` in `tree`.
pub open spec fn child_of(tree: Seq<GroupNode>, parent: u64, child: u64) -> bool {
    tree[parent as int].subgroups@.contains(child)
}

/// The projects of the groups of `visited`, concatenated in visit order.
pub open spec fn concat_projects(tree: Seq<GroupNode>, visited: Seq<u64>) -> Seq<u64>
    decreases visited.len(),
{
    if visited.len() == 0 {
        Seq::empty()
    } else {
        concat_projects(tree, visited.drop_last()) + tree[visited.last() as int].projects@
    }
}

/// The walk's bookkeeping: groups discovered but not yet fetched, groups
/// already fetched in fetch order, and the project identifiers collected
/// so far.
pub struct Traversal {
    pub pending: Vec<u64>,
    pub visited: Vec<u64>,
    pub project_ids: Vec<u64>,
}

/// Whether `v` holds `x`.
fn vec_contains(v: &Vec<u64>, x: u64) -> (r: bool)
    ensures
        r == v@.contains(x),
{
    let mut i: usize = 0;
    while i < v.len()
        invariant
            i <= v@.len(),
            forall|j: int| 0 <= j < i ==> v@[j] != x,
        decreases v@.len() - i,
    {
        if v[i] == x {
            return true;
        }
        i += 1;
    }
    false
}

impl Traversal {
    /// No group is listed twice for fetching, no group is fetched twice,
    /// and no fetched group is listed for fetching again.
    pub open spec fn wf(&self) -> bool {
        &&& self.pending@.no_duplicates()
        &&& self.visited@.no_duplicates()
        &&& forall|g: u64| self.pending@.contains(g) ==> !self.visited@.contains(g)
    }

    /// Starts a walk with nothing discovered.
    pub fn new() -> (t: Traversal)
        ensures
            t.wf(),
            t.pending@ == Seq::<u64>::empty(),
            t.visited@ == Seq::<u64>::empty(),
            t.project_ids@ == Seq::<u64>::empty(),
    {
        Traversal { pending: Vec::new(), visited: Vec::new(), project_ids: Vec::new() }
    }

    /// Discovers group `g`: lists it for fetching unless it was already
    /// discovered.
    pub fn enqueue(&mut self, g: u64)
        requires
            old(self).wf(),
        ensures
            final(self).wf(),
            final(self).visited@ == old(self).visited@,
            final(self).project_ids@ == old(self).project_ids@,
            old(self).pending@.contains(g) || old(self).visited@.contains(g)
                ==> final(self).pending@ == old(self).pending@,
            !(old(self).pending@.contains(g) || old(self).visited@.contains(g))
                ==> final(self).pending@ == old(self).pending@.push(g),
    {
        if !vec_contains(&self.pending, g) && !vec_contains(&self.visited, g) {
            self.pending.push(g);
            proof {
                let p0 = old(self).pending@;
                let p1 = self.pending@;
                assert forall|i: int, j: int|
                    0 <= i < p1.len() && 0 <= j < p1.len() && i != j implies p1[i] != p1[j] by {
                    if i < p0.len() && j < p0.len() {
                    } else if j == p0.len() && i < p0.len() {
                        assert(p0.contains(p0[i]));
                    } else if i == p0.len() && j < p0.len() {
                        assert(p0.contains(p0[j]));
                    }
                }
                assert forall|x: u64| p1.contains(x) implies !self.visited@.contains(x) by {
                    let i = choose|i: int| 0 <= i < p1.len() && p1[i] == x;
                    if i < p0.len() {
                        assert(p0.contains(x));
                    }
                }
            }
        }
    }

    /// Whether every discovered group has been fetched.
    pub fn is_done(&self) -> (r: bool)
        ensures
            r == (self.pending@.len() == 0),
    {
        self.pending.len() == 0
    }

    /// Picks the next group to fetch, moving it from the worklist to the
    /// fetched list; `None` once every discovered group is fetched.
    pub fn next_group(&mut self) -> (r: Option<u64>)
        requires
            old(self).wf(),
        ensures
            final(self).wf(),
            final(self).project_ids@ == old(self).project_ids@,
            old(self).pending@.len() == 0 ==> r is None && final(self).pending@ == old(
                self
            ).pending@ && final(self).visited@ == old(self).visited@,
            old(self).pending@.len() > 0 ==> {
                &&& r == Some(old(self).pending@.last())
                &&& final(self).pending@ == old(self).pending@.drop_last()
                &&& final(self).visited@ == old(self).visited@.push(old(self).pending@.last())
                &&& !old(self).visited@.contains(old(self).pending@.last())
            },
    {
        let g_opt = self.pending.pop();
        match g_opt {
            None => None,
            Some(g) => {
                proof {
                    assert(old(self).pending@[old(self).pending@.len() - 1] == g);
                    assert(old(self).pending@.contains(g));
                    assert(!old(self).visited@.contains(g));
                }
                self.visited.push(g);
                proof {
                    let p0 = old(self).pending@;
                    let v0 = old(self).visited@;
                    let v1 = self.visited@;
                    assert forall|i: int, j: int|
                        0 <= i < v1.len() && 0 <= j < v1.len() && i != j implies v1[i]
                        != v1[j] by {
                        if i < v0.len() && j < v0.len() {
                        } else if j == v0.len() && i < v0.len() {
                            assert(v0.contains(v0[i]));
                        } else if i == v0.len() && j < v0.len() {
                            assert(v0.contains(v0[j]));
                        }
                    }
                    assert forall|x: u64| self.pending@.contains(x) implies !v1.contains(x) by {
                        let i = choose|i: int|
                            0 <= i < self.pending@.len() && self.pending@[i] == x;
                        assert(p0[i] == x);
                        assert(p0.contains(x));
                        assert(x != g);
                        if v1.contains(x) {
                            let k = choose|k: int| 0 <= k < v1.len() && v1[k] == x;
                            assert(k < v0.len());
                            assert(v0.contains(x));
                        }
                    }
                }
                Some(g)
            },
        }
    }

    /// Records the project identifiers a fetch returned.
    pub fn record_project_ids(&mut self, ids: &Vec<u64>)
        requires
            old(self).wf(),
        ensures
            final(self).wf(),
            final(self).pending@ == old(self).pending@,
            final(self).visited@ == old(self).visited@,
            final(self).project_ids@ == old(self).project_ids@ + ids@,
    {
        self.project_ids.extend_from_slice(ids.as_slice());
        proof {
            assert(self.project_ids@ =~= old(self).project_ids@ + ids@);
        }
    }

    /// Discovers every subgroup a fetch returned: afterwards a group is
    /// listed for fetching exactly when it was already listed or is a
    /// newly reported group that was not fetched yet.
    pub fn enqueue_all(&mut self, subgroups: &Vec<u64>)
        requires
            old(self).wf(),
        ensures
            final(self).wf(),
            final(self).visited@ == old(self).visited@,
            final(self).project_ids@ == old(self).project_ids@,
            forall|x: u64|
                #![trigger final(self).pending@.contains(x)]
                #![trigger old(self).pending@.contains(x)]
                final(self).pending@.contains(x) <==> old(self).pending@.contains(x) || (
                subgroups@.contains(x) && !old(self).visited@.contains(x)),
    {
        let ghost subs = subgroups@;
        let mut i: usize = 0;
        while i < subgroups.len()
            invariant
                old(self).wf(),
                self.wf(),
                subgroups@ == subs,
                i <= subs.len(),
                self.visited@ == old(self).visited@,
                self.project_ids@ == old(self).project_ids@,
                forall|x: u64|
                    self.pending@.contains(x) <==> old(self).pending@.contains(x) || (
                    subs.take(i as int).contains(x) && !old(self).visited@.contains(x)),
            decreases subs.len() - i,
        {
            let ghost before = self.pending@;
            self.enqueue(subgroups[i]);
            proof {
                let s = subs[i as int];
                assert forall|x: u64| #[trigger]
                    subs.take(i as int + 1).contains(x) implies subs.take(i as int).contains(x)
                    || x == s by {
                    let j = choose|j: int|
                        0 <= j < i as int + 1 && #[trigger] subs.take(i as int + 1)[j] == x;
                    if j < i as int {
                        assert(subs.take(i as int)[j] == x);
                    }
                }
                assert forall|x: u64| subs.take(i as int).contains(x) implies subs.take(
                    i as int + 1,
                ).contains(x) by {
                    let j = choose|j: int|
                        0 <= j < i as int && #[trigger] subs.take(i as int)[j] == x;
                    assert(subs.take(i as int + 1)[j] == x);
                }
                assert(subs.take(i as int + 1)[i as int] == s);
                assert(subs.take(i as int + 1).contains(s));
                if !(before.contains(s) || old(self).visited@.contains(s)) {
                    assert(self.pending@ == before.push(s));
                    assert(self.pending@[before.len() as int] == s);
                    assert(self.pending@.contains(s));
                    assert forall|x: u64| self.pending@.contains(x) implies before.contains(x)
                        || x == s by {
                        let j = choose|j: int|
                            0 <= j < self.pending@.len() && self.pending@[j] == x;
                        if j < before.len() {
                            assert(before[j] == x);
                        }
                    }
                    assert forall|x: u64| before.contains(x) implies self.pending@.contains(
                        x,
                    ) by {
                        let j = choose|j: int| 0 <= j < before.len() && before[j] == x;
                        assert(self.pending@[j] == x);
                    }
                }
            }
            i += 1;
        }
        proof {
            assert(subs.take(subs.len() as int) =~= subs);
            assert forall|x: u64|
                #![trigger self.pending@.contains(x)]
                #![trigger old(self).pending@.contains(x)]
                self.pending@.contains(x) <==> old(self).pending@.contains(x) || (
            subs.contains(x) && !old(self).visited@.contains(x)) by {
                assert(self.pending@.contains(x) <==> old(self).pending@.contains(x) || (
                subs.take(subs.len() as int).contains(x) && !old(self).visited@.contains(x)));
            }
        }
    }
}

/// A fetched-group list of distinct identifiers below `n` cannot hold
/// more than `n` entries.
proof fn lemma_bounded_distinct_len(s: Seq<u64>, n: nat)
    requires
        s.no_duplicates(),
        forall|i: int| 0 <= i < s.len() ==> (s[i] as nat) < n,
    ensures
        s.len() <= n,
{
    let f = |g: u64| g as int;
    let m = s.map_values(f);
    assert(injective(f)) by {
        assert(forall|a: u64, b: u64| #[trigger] f(a) == #[trigger] f(b) ==> a == b);
    }
    s.lemma_no_duplicates_injective(f);
    m.unique_seq_to_set();
    lemma_int_range(0, n as int);
    assert(m.to_set().subset_of(set_int_range(0, n as int))) by {
        assert forall|x: int| m.to_set().contains(x) implies 0 <= x < n as int by {
            let i = choose|i: int| 0 <= i < m.len() && m[i] == x;
            assert((s[i] as nat) < n);
        }
    }
    lemma_len_subset(m.to_set(), set_int_range(0, n as int));
}

/// A walk of a uniform tree collects one project entry per visited group
/// and project: when every visited group owns `per_group` projects, the
/// collected identifiers number exactly the visited groups times
/// `per_group`. Together with the walk's guarantees this pins the yield of
/// a synthetic tree: with every reachable group visited exactly once, a
/// tree of `g` reachable groups holding `per_group` projects each yields
/// exactly `g * per_group` project identifiers, whatever order the groups
/// were fetched in.
pub proof fn lemma_uniform_tree_yield(tree: Seq<GroupNode>, visited: Seq<u64>, per_group: nat)
    requires
        forall|k: int| 0 <= k < visited.len() ==> (#[trigger] visited[k] as int) < tree.len(),
        forall|k: int|
            0 <= k < visited.len() ==> tree[#[trigger] visited[k] as int].projects@.len()
                == per_group,
    ensures
        concat_projects(tree, visited).len() == visited.len() * per_group,
    decreases visited.len(),
{
    if visited.len() == 0 {
        assert(0nat * per_group == 0) by (nonlinear_arith);
    } else {
        let rest = visited.drop_last();
        assert(forall|k: int| 0 <= k < rest.len() ==> rest[k] == visited[k]);
        lemma_uniform_tree_yield(tree, rest, per_group);
        assert(visited.contains(visited.last())) by {
            assert(visited[visited.len() - 1] == visited.last());
        }
        assert(tree[visited.last() as int].projects@.len() == per_group);
        assert((rest.len() + 1) * per_group == rest.len() * per_group + per_group)
            by (nonlinear_arith);
    }
}

/// A tree whose starting group owns no subgroups ends the walk after a
/// single level: the walk visits exactly that group, so it collects
/// exactly that group's projects. Stated over the guarantees of
/// [`collect_group_tree`] run with the one root `r`.
pub proof fn lemma_leaf_root_single_level(tree: Seq<GroupNode>, r: u64, visited: Seq<u64>)
    requires
        (r as int) < tree.len(),
        tree[r as int].subgroups@.len() == 0,
        visited.no_duplicates(),
        visited.contains(r),
        forall|k: int|
            0 <= k < visited.len() ==> seq![r].contains(#[trigger] visited[k]) || exists|j: int|
                0 <= j < k && child_of(tree, visited[j], visited[k]),
    ensures
        visited =~= seq![r],
        concat_projects(tree, visited) == tree[r as int].projects@,
{
    assert(visited.len() >= 1);
    assert(seq![r][0] == r);
    assert(visited[0] == r) by {
        if !seq![r].contains(visited[0]) {
            let j = choose|j: int| 0 <= j < 0 && child_of(tree, visited[j], visited[0]);
            assert(false);
        }
        let i = choose|i: int| 0 <= i < seq![r].len() && seq![r][i] == visited[0];
        assert(i == 0);
    }
    if visited.len() >= 2 {
        assert(visited[1] != r);
        if seq![r].contains(visited[1]) {
            let i = choose|i: int| 0 <= i < seq![r].len() && seq![r][i] == visited[1];
            assert(false);
        } else {
            let j = choose|j: int| 0 <= j < 1 && child_of(tree, visited[j], visited[1]);
            assert(child_of(tree, r, visited[1]));
            assert(false);
        }
    }
    assert(visited =~= seq![r]);
    assert(visited.drop_last() =~= Seq::<u64>::empty());
    assert(visited.last() == r);
    assert(concat_projects(tree, Seq::<u64>::empty()) =~= Seq::<u64>::empty());
    assert(concat_projects(tree, visited) == concat_projects(tree, visited.drop_last())
        + tree[r as int].projects@);
    assert(Seq::<u64>::empty() + tree[r as int].projects@ =~= tree[r as int].projects@);
}

/// Runs the walk to completion over an in-memory tree, starting from the
/// groups of `roots`.
///
/// The guarantees together say the walk visits every reachable group
/// exactly once, whatever order groups are fetched in: no group is
/// visited twice; every root and every subgroup of a visited group is
/// visited (so visiting is complete); every visited group is a root or a
/// subgroup of a group visited before it (so nothing unreachable is
/// visited); and the collected project identifiers are exactly the
/// visited groups' projects, concatenated in visit order.
pub fn collect_group_tree(tree: &Vec<GroupNode>, roots: &Vec<u64>) -> (t: Traversal)
    requires
        tree_wf(tree@),
        forall|i: int| 0 <= i < roots@.len() ==> (#[trigger] roots@[i] as int) < tree@.len(),
    ensures
        t.pending@.len() == 0,
        t.visited@.no_duplicates(),
        forall|i: int| 0 <= i < roots@.len() ==> t.visited@.contains(#[trigger] roots@[i]),
        forall|j: int, c: u64|
            0 <= j < t.visited@.len() && #[trigger] child_of(tree@, t.visited@[j], c)
                ==> t.visited@.contains(c),
        forall|k: int|
            0 <= k < t.visited@.len() ==> (#[trigger] t.visited@[k] as int) < tree@.len(),
        forall|k: int|
            0 <= k < t.visited@.len() ==> roots@.contains(#[trigger] t.visited@[k]) || exists|
                j: int,
            | 0 <= j < k && child_of(tree@, t.visited@[j], t.visited@[k]),
        t.project_ids@ == concat_projects(tree@, t.visited@),
{
    let mut t = Traversal::new();
    let mut i: usize = 0;
    while i < roots.len()
        invariant
            t.wf(),
            i <= roots@.len(),
            forall|k: int|
                0 <= k < roots@.len() ==> (#[trigger] roots@[k] as int) < tree@.len(),
            t.visited@ == Seq::<u64>::empty(),
            t.project_ids@ == Seq::<u64>::empty(),
            forall|x: u64|
                t.pending@.contains(x) ==> roots@.take(i as int).contains(x),
            forall|k: int|
                0 <= k < i ==> t.pending@.contains(#[trigger] roots@[k]),
        decreases roots@.len() - i,
    {
        let ghost before = t.pending@;
        t.enqueue(roots[i]);
        proof {
            assert forall|x: u64| t.pending@.contains(x) implies roots@.take(
                i as int + 1,
            ).contains(x) by {
                if before.contains(x) {
                    assert(roots@.take(i as int).contains(x));
                    let j = choose|j: int| 0 <= j < i as int && roots@.take(i as int)[j] == x;
                    assert(roots@.take(i as int + 1)[j] == x);
                } else {
                    assert(t.pending@ == before.push(roots@[i as int]));
                    let j = choose|j: int| 0 <= j < t.pending@.len() && t.pending@[j] == x;
                    if j < before.len() {
                        assert(before[j] == x);
                    } else {
                        assert(x == roots@[i as int]);
                        assert(roots@.take(i as int + 1)[i as int] == x);
                    }
                }
            }
            assert forall|k: int| 0 <= k < i as int + 1 implies t.pending@.contains(
                #[trigger] roots@[k],
            ) by {
                if k < i as int {
                    assert(before.contains(roots@[k]));
                    let j = choose|j: int| 0 <= j < before.len() && before[j] == roots@[k];
                    if t.pending@ == before.push(roots@[i as int]) {
                        assert(t.pending@[j] == roots@[k]);
                    }
                } else {
                    if !(before.contains(roots@[k]) || t.visited@.contains(roots@[k])) {
                        assert(t.pending@ == before.push(roots@[k]));
                        assert(t.pending@[before.len() as int] == roots@[k]);
                    }
                }
            }
        }
        i += 1;
    }
    proof {
        assert forall|x: u64| t.pending@.contains(x) implies (x as int) < tree@.len() by {
            assert(roots@.take(roots@.len() as int) =~= roots@);
            let j = choose|j: int| 0 <= j < roots@.len() && roots@[j] == x;
        }
    }
    while !t.is_done()
        invariant
            t.wf(),
            tree_wf(tree@),
            forall|k: int|
                0 <= k < roots@.len() ==> (#[trigger] roots@[k] as int) < tree@.len(),
            forall|x: u64| t.pending@.contains(x) ==> (x as int) < tree@.len(),
            forall|k: int|
                0 <= k < t.visited@.len() ==> (#[trigger] t.visited@[k] as int) < tree@.len(),
            t.visited@.len() <= tree@.len(),
            forall|k: int|
                0 <= k < roots@.len() ==> t.pending@.contains(#[trigger] roots@[k])
                    || t.visited@.contains(roots@[k]),
            forall|j: int, c: u64|
                0 <= j < t.visited@.len() && #[trigger] child_of(tree@, t.visited@[j], c)
                    ==> t.pending@.contains(c) || t.visited@.contains(c),
            forall|k: int|
                0 <= k < t.visited@.len() ==> roots@.contains(#[trigger] t.visited@[k])
                    || exists|j: int| 0 <= j < k && child_of(tree@, t.visited@[j], t.visited@[k]),
            forall|x: u64|
                #[trigger] t.pending@.contains(x) ==> roots@.contains(x) || exists|j: int|
                    0 <= j < t.visited@.len() && child_of(tree@, t.visited@[j], x),
            t.project_ids@ == concat_projects(tree@, t.visited@),
        decreases tree@.len() - t.visited@.len(),
    {
        let tree_len = tree.len();
        let ghost pend0 = t.pending@;
        let ghost vis0 = t.visited@;
        let g_opt = t.next_group();
        let g = match g_opt {
            Some(g) => g,
            None => {
                proof {
                    assert(false);
                }
                0
            },
        };
        proof {
            assert(g == pend0.last());
            assert(pend0[pend0.len() - 1] == g);
            assert(pend0.contains(g));
            assert((g as int) < tree@.len());
            lemma_bounded_distinct_len(t.visited@, tree@.len() as nat);
        }
        proof {
            assert((g as int) < (tree_len as int));
            assert((g as usize as int) == g as int);
        }
        let node = &tree[g as usize];
        proof {
            assert(node.projects@ == tree@[g as int].projects@);
            assert(node.subgroups@ == tree@[g as int].subgroups@);
        }
        t.record_project_ids(&node.projects);
        proof {
            assert(t.visited@.drop_last() =~= vis0);
            assert(t.visited@.last() == g);
            assert(t.project_ids@ =~= concat_projects(tree@, t.visited@));
        }
        let ghost pend1 = t.pending@;
        t.enqueue_all(&node.subgroups);
        proof {
            let vis = t.visited@;
            let k_new = vis.len() - 1;
            assert(vis == vis0.push(g));
            assert(vis[k_new] == g);
            assert(vis.contains(g));
            assert(pend1 == pend0.drop_last());
            // worklist membership only moved from pending to pending or visited
            assert forall|x: u64| pend1.contains(x) implies pend0.contains(x) by {
                let j = choose|j: int| 0 <= j < pend1.len() && pend1[j] == x;
                assert(pend0[j] == x);
            }
            // bounds on the new worklist
            assert forall|x: u64| t.pending@.contains(x) implies (x as int) < tree@.len() by {
                if !pend1.contains(x) {
                    assert(node.subgroups@.contains(x));
                    assert(child_of(tree@, g, x));
                    let j = choose|j: int|
                        0 <= j < tree@[g as int].subgroups@.len() && tree@[g as int].subgroups@[j]
                            == x;
                }
            }
            // roots stay discovered
            assert forall|k: int| 0 <= k < roots@.len() implies t.pending@.contains(
                #[trigger] roots@[k],
            ) || t.visited@.contains(roots@[k]) by {
                if pend0.contains(roots@[k]) {
                    if roots@[k] == g {
                        assert(vis[k_new] == g);
                        assert(vis.contains(g));
                    } else {
                        assert(pend1.contains(roots@[k])) by {
                            let j = choose|j: int|
                                0 <= j < pend0.len() && pend0[j] == roots@[k];
                            assert(j < pend0.len() - 1);
                            assert(pend1[j] == roots@[k]);
                        }
                    }
                } else {
                    assert(vis0.contains(roots@[k]));
                    let j = choose|j: int| 0 <= j < vis0.len() && vis0[j] == roots@[k];
                    assert(vis[j] == roots@[k]);
                }
            }
            // every child of a visited group stays discovered
            assert forall|j: int, c: u64|
                0 <= j < vis.len() && #[trigger] child_of(tree@, vis[j], c) implies t
                .pending@.contains(c) || vis.contains(c) by {
                if j < k_new {
                    assert(vis0[j] == vis[j]);
                    if pend0.contains(c) {
                        if c == g {
                            assert(vis[k_new] == g);
                            assert(vis.contains(g));
                        } else {
                            let l = choose|l: int| 0 <= l < pend0.len() && pend0[l] == c;
                            assert(l < pend0.len() - 1);
                            assert(pend1[l] == c);
                            assert(pend1.contains(c));
                        }
                    } else {
                        let l = choose|l: int| 0 <= l < vis0.len() && vis0[l] == c;
                        assert(vis[l] == c);
                    }
                } else {
                    assert(vis[j] == g);
                    assert(node.subgroups@.contains(c));
                    if !vis.contains(c) {
                        assert(t.pending@.contains(c));
                    } else {
                    }
                }
            }
            // discovery order of the newly visited group
            assert forall|k: int|
                0 <= k < vis.len() implies roots@.contains(#[trigger] vis[k]) || exists|j: int|
                0 <= j < k && child_of(tree@, vis[j], vis[k]) by {
                if k < k_new {
                    assert(vis0[k] == vis[k]);
                    if !roots@.contains(vis0[k]) {
                        let j = choose|j: int|
                            0 <= j < k && child_of(tree@, vis0[j], vis0[k]);
                        assert(vis[j] == vis0[j]);
                        assert(child_of(tree@, vis[j], vis[k]));
                    }
                } else {
                    assert(vis[k] == g);
                    if !roots@.contains(g) {
                        let j = choose|j: int|
                            0 <= j < vis0.len() && child_of(tree@, vis0[j], g);
                        assert(vis[j] == vis0[j]);
                        assert(child_of(tree@, vis[j], vis[k]));
                    }
                }
            }
            // every worklist entry is a root or a child of a visited group
            assert forall|x: u64| #[trigger]
                t.pending@.contains(x) implies roots@.contains(x) || exists|j: int|
                0 <= j < vis.len() && child_of(tree@, vis[j], x) by {
                if pend1.contains(x) {
                    if !roots@.contains(x) {
                        let j = choose|j: int|
                            0 <= j < vis0.len() && child_of(tree@, vis0[j], x);
                        assert(vis[j] == vis0[j]);
                        assert(child_of(tree@, vis[j], x));
                    }
                } else {
                    assert(node.subgroups@.contains(x));
                    assert(vis[k_new] == g);
                    assert(child_of(tree@, vis[k_new as int], x));
                }
            }
        }
    }
    proof {
        assert forall|i2: int| 0 <= i2 < roots@.len() implies t.visited@.contains(
            #[trigger] roots@[i2],
        ) by {
            assert(!t.pending@.contains(roots@[i2]));
        }
        assert forall|j: int, c: u64|
            0 <= j < t.visited@.len() && #[trigger] child_of(tree@, t.visited@[j], c) implies t
            .visited@.contains(c) by {
            assert(!t.pending@.contains(c));
        }
    }
    t
}

} // verus!

