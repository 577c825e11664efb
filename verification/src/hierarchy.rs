use vstd::prelude::*;

use crate::bytes::{AccountId, DelegationNodeId, H256};
use crate::permissions::Permissions;

verus! {

/// The root of a delegation hierarchy: the claim type it is for, the account
/// that owns it, and whether it has been revoked.
#[derive(Clone, Copy, Debug, PartialEq, Eq)]
pub struct DelegationRoot {
    pub ctype_hash: H256,
    pub owner: AccountId,
    pub revoked: bool,
}

/// A delegation: the root of its hierarchy, its parent delegation (none when
/// it hangs directly below the root), the delegate that owns it, the rights it
/// grants, and whether it has been revoked.
#[derive(Clone, Copy, Debug, PartialEq, Eq)]
pub struct DelegationNode {
    pub root_id: DelegationNodeId,
    pub parent: Option<DelegationNodeId>,
    pub owner: AccountId,
    pub permissions: Permissions,
    pub revoked: bool,
}

/// The storage of the delegation registry as maps: the roots, the
/// delegations, and for each root or delegation the list of delegations
/// created directly below it.
#[verifier::ext_equal]
pub struct DelegationView {
    pub roots: Map<DelegationNodeId, DelegationRoot>,
    pub nodes: Map<DelegationNodeId, DelegationNode>,
    pub children: Map<DelegationNodeId, Seq<DelegationNodeId>>,
}

/// The same delegation, revoked.
pub open spec fn revoked_node(n: DelegationNode) -> DelegationNode {
    DelegationNode { revoked: true, ..n }
}

/// The key under which a delegation is listed as a child: its parent, or its
/// root when it has no parent.
pub open spec fn parent_key(n: DelegationNode) -> DelegationNodeId {
    match n.parent {
        Some(p) => p,
        None => n.root_id,
    }
}

impl DelegationView {
    /// The delegations listed directly below `k`.
    pub open spec fn children_of(self, k: DelegationNodeId) -> Seq<DelegationNodeId> {
        if self.children.contains_key(k) {
            self.children[k]
        } else {
            Seq::empty()
        }
    }

    /// `x` is a delegation that has not been revoked.
    pub open spec fn is_unrevoked(self, x: DelegationNodeId) -> bool {
        self.nodes.contains_key(x) && !self.nodes[x].revoked
    }

    /// `path` goes from its first node down children lists, and every node
    /// after the first is a delegation that has not been revoked.
    pub open spec fn is_live_path(self, path: Seq<DelegationNodeId>) -> bool {
        &&& path.len() >= 2
        &&& forall|i: int|
            0 <= i < path.len() - 1 ==> #[trigger] self.children_of(path[i]).contains(path[i + 1])
        &&& forall|i: int| 1 <= i < path.len() ==> #[trigger] self.is_unrevoked(path[i])
    }

    /// `x` lies below `start` and is reached over delegations that are not revoked.
    pub open spec fn reaches(self, start: DelegationNodeId, x: DelegationNodeId) -> bool {
        exists|path: Seq<DelegationNodeId>|
            #[trigger] self.is_live_path(path) && path[0] == start && path.last() == x
    }

    /// The delegations that have not been revoked.
    pub open spec fn unrevoked_set(self) -> Set<DelegationNodeId> {
        self.nodes.dom().filter(|x: DelegationNodeId| !self.nodes[x].revoked)
    }

    /// How many delegations have not been revoked.
    pub open spec fn unrevoked_count(self) -> nat {
        self.unrevoked_set().len()
    }

    /// The delegations after every one that `start` reaches has been revoked.
    pub open spec fn nodes_after_revoking_below(self, start: DelegationNodeId) -> Map<
        DelegationNodeId,
        DelegationNode,
    > {
        Map::new(
            |x: DelegationNodeId| self.nodes.contains_key(x),
            |x: DelegationNodeId|
                if self.reaches(start, x) {
                    revoked_node(self.nodes[x])
                } else {
                    self.nodes[x]
                },
        )
    }

    /// `chain` starts at a delegation and follows parent links upwards.
    pub open spec fn is_parent_chain(self, chain: Seq<DelegationNodeId>) -> bool {
        &&& chain.len() > 0
        &&& forall|i: int| 0 <= i < chain.len() ==> #[trigger] self.nodes.contains_key(chain[i])
        &&& forall|i: int|
            0 <= i < chain.len() - 1 ==> #[trigger] self.nodes[chain[i]].parent == Some(
                chain[i + 1],
            )
    }

    /// `account` owns one of the delegations of `chain`, or `chain` reaches the
    /// top of its hierarchy and `account` owns the root there.
    pub open spec fn chain_grants(self, chain: Seq<DelegationNodeId>, account: AccountId) -> bool {
        ||| exists|i: int| 0 <= i < chain.len() && #[trigger] self.nodes[chain[i]].owner == account
        ||| {
            let top = self.nodes[chain.last()];
            &&& top.parent is None
            &&& self.roots.contains_key(top.root_id)
            &&& self.roots[top.root_id].owner == account
        }
    }

    /// `account` stands above delegation `d` or owns it: it owns `d`, one of
    /// the delegations above `d`, or the root of `d`'s hierarchy.
    pub open spec fn is_delegating(self, account: AccountId, d: DelegationNodeId) -> bool {
        exists|chain: Seq<DelegationNodeId>|
            #[trigger] self.is_parent_chain(chain) && chain[0] == d && self.chain_grants(
                chain,
                account,
            )
    }

    /// The storage after the root `root_id` has been created for `owner`.
    pub open spec fn with_root(
        self,
        root_id: DelegationNodeId,
        ctype_hash: H256,
        owner: AccountId,
    ) -> DelegationView {
        DelegationView {
            roots: self.roots.insert(root_id, DelegationRoot { ctype_hash, owner, revoked: false }),
            ..self
        }
    }

    /// The storage after the root `root_id` has been revoked, with every
    /// delegation that it reaches over unrevoked delegations.
    pub open spec fn after_revoking_root(self, root_id: DelegationNodeId) -> DelegationView {
        DelegationView {
            roots: self.roots.insert(root_id, DelegationRoot { revoked: true, ..self.roots[root_id] }),
            nodes: self.nodes_after_revoking_below(root_id),
            children: self.children,
        }
    }

    /// The storage after the delegation `d` has been revoked, with every
    /// delegation that it reaches over unrevoked delegations.
    pub open spec fn after_revoking_delegation(self, d: DelegationNodeId) -> DelegationView {
        DelegationView { nodes: self.nodes_after_revoking(d), ..self }
    }

    /// The storage after a new delegation `id` has been stored and listed
    /// below its parent (or root).
    pub open spec fn with_delegation(self, id: DelegationNodeId, n: DelegationNode) -> DelegationView {
        DelegationView {
            roots: self.roots,
            nodes: self.nodes.insert(id, n),
            children: self.children.insert(
                parent_key(n),
                self.children_of(parent_key(n)).push(id),
            ),
        }
    }

    /// The delegations after `d` and every delegation that `d` reaches have
    /// been revoked.
    pub open spec fn nodes_after_revoking(self, d: DelegationNodeId) -> Map<
        DelegationNodeId,
        DelegationNode,
    > {
        Map::new(
            |x: DelegationNodeId| self.nodes.contains_key(x),
            |x: DelegationNodeId|
                if x == d || self.reaches(d, x) {
                    revoked_node(self.nodes[x])
                } else {
                    self.nodes[x]
                },
        )
    }

    /// The invariant of one delegation: its root exists, its parent exists and
    /// is strictly shallower, and it is listed below its parent (or root).
    pub open spec fn node_wf(self, depth: Map<DelegationNodeId, nat>, d: DelegationNodeId) -> bool {
        let n = self.nodes[d];
        &&& self.roots.contains_key(n.root_id)
        &&& depth.contains_key(d)
        &&& (n.parent matches Some(p) ==> self.nodes.contains_key(p) && depth.contains_key(p)
            && depth[p] < depth[d])
        &&& self.children_of(parent_key(n)).contains(d)
    }

    /// The invariant of the registry: finitely many delegations, each
    /// well-formed, and children lists that name only delegations.
    pub open spec fn hierarchy_wf(self, depth: Map<DelegationNodeId, nat>) -> bool {
        &&& self.nodes.dom().finite()
        &&& forall|d: DelegationNodeId| #[trigger]
            self.nodes.contains_key(d) ==> self.node_wf(depth, d)
        &&& forall|k: DelegationNodeId, c: DelegationNodeId| #[trigger]
            self.children_of(k).contains(c) ==> self.nodes.contains_key(c)
    }
}

/// From `a` to `b` only revocations of delegations happened: the children
/// lists and the set of delegations are the same, and each delegation is
/// either unchanged or revoked.
pub open spec fn only_revocations(a: DelegationView, b: DelegationView) -> bool {
    &&& b.children == a.children
    &&& b.nodes.dom() == a.nodes.dom()
    &&& forall|x: DelegationNodeId| #[trigger]
        a.nodes.contains_key(x) ==> b.nodes[x] == a.nodes[x] || b.nodes[x] == revoked_node(
            a.nodes[x],
        )
}

/// `x` is revoked in `b` and was not in `a`.
pub open spec fn newly_revoked(a: DelegationView, b: DelegationView, x: DelegationNodeId) -> bool {
    a.nodes.contains_key(x) && !a.nodes[x].revoked && b.nodes[x].revoked
}

/// Every delegation that became revoked from `a` to `b` has its children
/// revoked in `b`.
pub open spec fn closed_under_children(a: DelegationView, b: DelegationView) -> bool {
    forall|y: DelegationNodeId, c: DelegationNodeId|
        #[trigger] newly_revoked(a, b, y) && #[trigger] a.children_of(y).contains(c)
            ==> b.nodes.contains_key(c) && b.nodes[c].revoked
}

/// Only revocations happen from `a` to `b` and from `b` to `c`, so from `a` to `c` too.
pub proof fn lemma_only_revocations_trans(a: DelegationView, b: DelegationView, c: DelegationView)
    requires
        only_revocations(a, b),
        only_revocations(b, c),
    ensures
        only_revocations(a, c),
{
    assert forall|x: DelegationNodeId| #[trigger] a.nodes.contains_key(x) implies c.nodes[x]
        == a.nodes[x] || c.nodes[x] == revoked_node(a.nodes[x]) by {
        assert(b.nodes.contains_key(x));
    }
}

/// Revocations never make a revoked delegation unrevoked.
pub proof fn lemma_only_revocations_monotone(a: DelegationView, b: DelegationView, x: DelegationNodeId)
    requires
        only_revocations(a, b),
        a.nodes.contains_key(x),
    ensures
        b.nodes.contains_key(x),
        a.nodes[x].revoked ==> b.nodes[x].revoked,
        b.is_unrevoked(x) ==> a.is_unrevoked(x),
        b.nodes[x].revoked == (a.nodes[x].revoked || newly_revoked(a, b, x)),
{
}

/// Revocations do not add unrevoked delegations, and revoking one that was
/// unrevoked lowers their count.
pub proof fn lemma_unrevoked_count(a: DelegationView, b: DelegationView)
    requires
        only_revocations(a, b),
        a.nodes.dom().finite(),
    ensures
        b.unrevoked_set().subset_of(a.unrevoked_set()),
        b.unrevoked_count() <= a.unrevoked_count(),
        forall|x: DelegationNodeId| #[trigger]
            newly_revoked(a, b, x) ==> b.unrevoked_count() < a.unrevoked_count(),
{
    let sa = a.unrevoked_set();
    let sb = b.unrevoked_set();
    assert forall|x: DelegationNodeId| sb.contains(x) implies sa.contains(x) by {
        lemma_only_revocations_monotone(a, b, x);
    }
    assert(sa.finite());
    vstd::set_lib::lemma_len_subset(sb, sa);
    assert forall|x: DelegationNodeId| #[trigger]
        newly_revoked(a, b, x) implies b.unrevoked_count() < a.unrevoked_count() by {
        assert(sb.subset_of(sa.remove(x)));
        vstd::set_lib::lemma_len_subset(sb, sa.remove(x));
    }
}

/// A path over delegations unrevoked in `b` is one in `a` as well.
pub proof fn lemma_reaches_before(
    a: DelegationView,
    b: DelegationView,
    start: DelegationNodeId,
    x: DelegationNodeId,
)
    requires
        only_revocations(a, b),
        b.reaches(start, x),
    ensures
        a.reaches(start, x),
{
    let path = choose|path: Seq<DelegationNodeId>|
        #[trigger] b.is_live_path(path) && path[0] == start && path.last() == x;
    assert forall|i: int| 0 <= i < path.len() - 1 implies #[trigger] a.children_of(path[i]).contains(
        path[i + 1],
    ) by {
        assert(b.children_of(path[i]).contains(path[i + 1]));
    }
    assert forall|i: int| 1 <= i < path.len() implies #[trigger] a.is_unrevoked(path[i]) by {
        assert(b.is_unrevoked(path[i]));
        lemma_only_revocations_monotone(a, b, path[i]);
    }
    assert(a.is_live_path(path));
}

/// A child `k` of `p` that is unrevoked leads from `p` to everything `k` reaches.
pub proof fn lemma_reaches_through_child(
    a: DelegationView,
    p: DelegationNodeId,
    k: DelegationNodeId,
    x: DelegationNodeId,
)
    requires
        a.children_of(p).contains(k),
        a.is_unrevoked(k),
        x == k || a.reaches(k, x),
    ensures
        a.reaches(p, x),
{
    if x == k {
        let path = seq![p, k];
        assert(path[0] == p && path[1] == k);
        assert(a.is_live_path(path));
    } else {
        let q = choose|q: Seq<DelegationNodeId>|
            #[trigger] a.is_live_path(q) && q[0] == k && q.last() == x;
        let path = seq![p].add(q);
        assert forall|i: int| 0 <= i < path.len() - 1 implies #[trigger] a.children_of(
            path[i],
        ).contains(path[i + 1]) by {
            if i > 0 {
                assert(path[i] == q[i - 1] && path[i + 1] == q[i]);
                assert(a.children_of(q[i - 1]).contains(q[i - 1 + 1]));
            }
        }
        assert forall|i: int| 1 <= i < path.len() implies #[trigger] a.is_unrevoked(path[i]) by {
            assert(path[i] == q[i - 1]);
            if i > 1 {
                assert(a.is_unrevoked(q[i - 1]));
            }
        }
        assert(a.is_live_path(path));
        assert(path.last() == q.last());
    }
}

/// A live path to `p` continues to an unrevoked child `c` of `p`.
pub proof fn lemma_reaches_extend(
    a: DelegationView,
    start: DelegationNodeId,
    p: DelegationNodeId,
    c: DelegationNodeId,
)
    requires
        a.reaches(start, p),
        a.children_of(p).contains(c),
        a.is_unrevoked(c),
    ensures
        a.reaches(start, c),
{
    let q = choose|q: Seq<DelegationNodeId>|
        #[trigger] a.is_live_path(q) && q[0] == start && q.last() == p;
    let path = q.push(c);
    assert forall|i: int| 0 <= i < path.len() - 1 implies #[trigger] a.children_of(path[i]).contains(
        path[i + 1],
    ) by {
        if i < q.len() - 1 {
            assert(a.children_of(q[i]).contains(q[i + 1]));
        } else {
            assert(path[i] == p);
        }
    }
    assert forall|i: int| 1 <= i < path.len() implies #[trigger] a.is_unrevoked(path[i]) by {
        if i < q.len() {
            assert(a.is_unrevoked(q[i]));
        }
    }
    assert(a.is_live_path(path));
}

/// Whoever stands above the parent of `d` stands above `d`.
pub proof fn lemma_delegating_through_parent(
    v: DelegationView,
    account: AccountId,
    d: DelegationNodeId,
    p: DelegationNodeId,
)
    requires
        v.nodes.contains_key(d),
        v.nodes[d].parent == Some(p),
        v.is_delegating(account, p),
    ensures
        v.is_delegating(account, d),
{
    let c = choose|c: Seq<DelegationNodeId>|
        #[trigger] v.is_parent_chain(c) && c[0] == p && v.chain_grants(c, account);
    let chain = seq![d] + c;
    assert forall|i: int| 0 <= i < chain.len() implies #[trigger] v.nodes.contains_key(chain[i]) by {
        if i > 0 {
            assert(chain[i] == c[i - 1]);
        }
    }
    assert forall|i: int| 0 <= i < chain.len() - 1 implies #[trigger] v.nodes[chain[i]].parent
        == Some(chain[i + 1]) by {
        if i > 0 {
            assert(chain[i] == c[i - 1]);
            assert(chain[i + 1] == c[i - 1 + 1]);
        }
    }
    assert(v.is_parent_chain(chain));
    assert(chain.last() == c.last());
    if exists|i: int| 0 <= i < c.len() && #[trigger] v.nodes[c[i]].owner == account {
        let i = choose|i: int| 0 <= i < c.len() && #[trigger] v.nodes[c[i]].owner == account;
        assert(chain[i + 1] == c[i]);
        assert(v.nodes[chain[i + 1]].owner == account);
    }
    assert(v.chain_grants(chain, account));
}

/// When the children of `start` and of every newly revoked delegation are
/// revoked, everything `start` reaches is revoked.
pub proof fn lemma_closure_revokes_reached(
    a: DelegationView,
    b: DelegationView,
    start: DelegationNodeId,
    x: DelegationNodeId,
)
    requires
        only_revocations(a, b),
        forall|c: DelegationNodeId| #[trigger]
            a.children_of(start).contains(c) ==> b.nodes.contains_key(c) && b.nodes[c].revoked,
        closed_under_children(a, b),
        a.reaches(start, x),
    ensures
        b.nodes[x].revoked,
{
    let path = choose|path: Seq<DelegationNodeId>|
        #[trigger] a.is_live_path(path) && path[0] == start && path.last() == x;
    lemma_live_path_revoked(a, b, path, path.len() - 1);
}

/// Every node after the first on a live path from `path[0]` is revoked in
/// `b`, when the children of `path[0]` are and `b` is closed under children.
proof fn lemma_live_path_revoked(
    a: DelegationView,
    b: DelegationView,
    path: Seq<DelegationNodeId>,
    i: int,
)
    requires
        only_revocations(a, b),
        a.is_live_path(path),
        forall|c: DelegationNodeId| #[trigger]
            a.children_of(path[0]).contains(c) ==> b.nodes.contains_key(c) && b.nodes[c].revoked,
        closed_under_children(a, b),
        1 <= i < path.len(),
    ensures
        b.nodes.contains_key(path[i]),
        b.nodes[path[i]].revoked,
    decreases i,
{
    let j = i - 1;
    assert(a.children_of(path[j]).contains(path[j + 1]));
    if i > 1 {
        lemma_live_path_revoked(a, b, path, i - 1);
        assert(a.is_unrevoked(path[i - 1]));
        assert(newly_revoked(a, b, path[i - 1]));
    }
}

/// The invariant survives revocations of delegations and changes to roots
/// that keep every root.
pub proof fn lemma_hierarchy_wf_after_revocations(
    a: DelegationView,
    b: DelegationView,
    depth: Map<DelegationNodeId, nat>,
)
    requires
        a.hierarchy_wf(depth),
        only_revocations(a, b),
        a.roots.dom().subset_of(b.roots.dom()),
    ensures
        b.hierarchy_wf(depth),
{
    assert(b.nodes.dom() =~= a.nodes.dom());
    assert forall|d: DelegationNodeId| #[trigger] b.nodes.contains_key(d) implies b.node_wf(
        depth,
        d,
    ) by {
        assert(a.nodes.contains_key(d));
        assert(a.node_wf(depth, d));
        assert(a.children_of(parent_key(a.nodes[d])) == b.children_of(parent_key(b.nodes[d])));
    }
    assert forall|k: DelegationNodeId, c: DelegationNodeId| #[trigger]
        b.children_of(k).contains(c) implies b.nodes.contains_key(c) by {
        assert(a.children_of(k) == b.children_of(k));
    }
}

} // verus!
