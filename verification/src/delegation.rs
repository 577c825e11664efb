use vstd::prelude::*;

use crate::bytes::{append_bytes32, bytes32_eq, copy_ids, hash_to_u8, AccountId, DelegationNodeId, H256};
use crate::crypto::{blake2_256, blake2_256_digest};
use crate::signature::{multi_signature_valid, verify_multi_signature, MultiSignature};
use crate::ctype::CTypeRegistry;
use crate::error::Error;
use crate::hierarchy::{
    closed_under_children, lemma_closure_revokes_reached, lemma_delegating_through_parent, lemma_hierarchy_wf_after_revocations,
    lemma_only_revocations_monotone, lemma_only_revocations_trans, lemma_reaches_before,
    lemma_reaches_extend, lemma_reaches_through_child, lemma_unrevoked_count, newly_revoked, only_revocations,
    parent_key, revoked_node, DelegationNode, DelegationRoot, DelegationView,
};
use crate::permissions::{holds_flags, le_bytes_u32, Permissions, DELEGATE_BITS};
use crate::table::Table;

verus! {

/// The bytes that a delegate signs, hashed, to accept a delegation: the
/// delegation's identifier, its root's, its parent's if it has one, and its
/// permission flags.
pub open spec fn delegation_preimage(
    delegation_id: DelegationNodeId,
    root_id: DelegationNodeId,
    parent_id: Option<DelegationNodeId>,
    permissions: u32,
) -> Seq<u8> {
    delegation_id@ + root_id@ + (match parent_id {
        Some(p) => p@,
        None => Seq::<u8>::empty(),
    }) + le_bytes_u32(permissions)
}

/// Why a new delegation is refused, checked in this order; none when it is
/// accepted.
pub open spec fn add_delegation_refusal(
    v: DelegationView,
    sender: AccountId,
    delegation_id: DelegationNodeId,
    root_id: DelegationNodeId,
    parent_id: Option<DelegationNodeId>,
    signature_valid: bool,
) -> Option<Error> {
    if !signature_valid {
        Some(Error::BadDelegationSignature)
    } else if v.nodes.contains_key(delegation_id) {
        Some(Error::DelegationAlreadyExists)
    } else if !v.roots.contains_key(root_id) {
        Some(Error::RootNotFound)
    } else {
        match parent_id {
            Some(p) => if !v.nodes.contains_key(p) {
                Some(Error::ParentNotFound)
            } else if v.nodes[p].owner != sender {
                Some(Error::NotOwnerOfParent)
            } else if !holds_flags(v.nodes[p].permissions@, DELEGATE_BITS) {
                Some(Error::NotAuthorizedToDelegate)
            } else {
                None
            },
            None => if v.roots[root_id].owner != sender {
                Some(Error::NotOwnerOfRoot)
            } else {
                None
            },
        }
    }
}

/// The result that a refusal (or none) stands for.
pub open spec fn refusal_result(refusal: Option<Error>) -> Result<(), Error> {
    match refusal {
        Some(e) => Err(e),
        None => Ok(()),
    }
}

/// The registry of delegation hierarchies: roots created by the owners of
/// claim types, delegations below them that grant attesting or delegating,
/// and the lists of delegations created below each root or delegation.
pub struct DelegationRegistry {
    roots: Table<DelegationRoot>,
    delegations: Table<DelegationNode>,
    children: Table<Vec<DelegationNodeId>>,
    /// The distance of each delegation from the top of its hierarchy.
    depth: Ghost<Map<DelegationNodeId, nat>>,
}

impl View for DelegationRegistry {
    type V = DelegationView;

    closed spec fn view(&self) -> DelegationView {
        DelegationView {
            roots: self.roots@,
            nodes: self.delegations@,
            children: self.children@.map_values(|l: Vec<DelegationNodeId>| l@),
        }
    }
}

impl DelegationRegistry {
    /// Well-formedness: the tables are and the hierarchy invariant holds.
    pub closed spec fn wf(&self) -> bool {
        &&& self.roots.wf()
        &&& self.delegations.wf()
        &&& self.children.wf()
        &&& self@.hierarchy_wf(self.depth@)
    }

    /// How far the delegation `d` lies below the top of its hierarchy.
    pub closed spec fn depth_of(&self, d: DelegationNodeId) -> nat {
        self.depth@[d]
    }

    /// A registry without roots or delegations.
    pub fn new() -> (r: Self)
        ensures
            r.wf(),
            r@.roots == Map::<DelegationNodeId, DelegationRoot>::empty(),
            r@.nodes == Map::<DelegationNodeId, DelegationNode>::empty(),
            r@.children == Map::<DelegationNodeId, Seq<DelegationNodeId>>::empty(),
    {
        let r = DelegationRegistry {
            roots: Table::new(),
            delegations: Table::new(),
            children: Table::new(),
            depth: Ghost(Map::empty()),
        };
        assert(r@.children =~= Map::<DelegationNodeId, Seq<DelegationNodeId>>::empty());
        r
    }

    /// The root stored under `root_id`.
    pub fn root(&self, root_id: &DelegationNodeId) -> (r: Option<DelegationRoot>)
        requires
            self.wf(),
        ensures
            r == self@.roots.get(*root_id),
    {
        match self.roots.get(root_id) {
            Some(root) => Some(*root),
            None => None,
        }
    }

    /// The delegation stored under `delegation_id`.
    pub fn delegation(&self, delegation_id: &DelegationNodeId) -> (r: Option<DelegationNode>)
        requires
            self.wf(),
        ensures
            r == self@.nodes.get(*delegation_id),
    {
        match self.delegations.get(delegation_id) {
            Some(node) => Some(*node),
            None => None,
        }
    }

    /// The delegations created directly below the root or delegation `id`.
    pub fn children(&self, id: &DelegationNodeId) -> (r: Vec<DelegationNodeId>)
        requires
            self.wf(),
        ensures
            r@ == self@.children_of(*id),
    {
        match self.children.get(id) {
            Some(list) => copy_ids(list),
            None => Vec::new(),
        }
    }

    /// Creates the root `root_id` of a hierarchy for the claim type
    /// `ctype_hash`, owned by `sender`.
    pub fn create_root(
        &mut self,
        ctypes: &CTypeRegistry,
        sender: AccountId,
        root_id: DelegationNodeId,
        ctype_hash: H256,
    ) -> (r: Result<(), Error>)
        requires
            old(self).wf(),
            ctypes.wf(),
        ensures
            final(self).wf(),
            r == (if old(self)@.roots.contains_key(root_id) {
                Err(Error::RootAlreadyExists)
            } else if !ctypes@.contains_key(ctype_hash) {
                Err(Error::CTypeNotFound)
            } else {
                Ok(())
            }),
            r is Err ==> final(self)@ == old(self)@,
            r is Ok ==> final(self)@ == old(self)@.with_root(root_id, ctype_hash, sender),
    {
        if self.roots.contains_key(&root_id) {
            return Err(Error::RootAlreadyExists);
        }
        if !ctypes.contains(&ctype_hash) {
            return Err(Error::CTypeNotFound);
        }
        let ghost a = self@;
        self.roots.insert(root_id, DelegationRoot { ctype_hash, owner: sender, revoked: false });
        proof {
            lemma_hierarchy_wf_after_revocations(a, self@, self.depth@);
        }
        Ok(())
    }

    /// The hash that the delegate of a new delegation signs: the BLAKE2b-256
    /// digest of the delegation's identifier, its root's, its parent's if any,
    /// and its permission flags.
    pub fn calculate_hash(
        delegation_id: &DelegationNodeId,
        root_id: &DelegationNodeId,
        parent_id: &Option<DelegationNodeId>,
        permissions: Permissions,
    ) -> (h: H256)
        ensures
            h@ == blake2_256_digest(
                delegation_preimage(*delegation_id, *root_id, *parent_id, permissions@),
            ),
    {
        let mut data: Vec<u8> = Vec::new();
        append_bytes32(&mut data, delegation_id);
        append_bytes32(&mut data, root_id);
        match parent_id {
            Some(p) => append_bytes32(&mut data, p),
            None => {},
        }
        let ghost before_flags = data@;
        let flags = permissions.as_u8();
        data.push(flags[0]);
        data.push(flags[1]);
        data.push(flags[2]);
        data.push(flags[3]);
        proof {
            broadcast use vstd::array::group_array_axioms;

            assert(data@ =~= before_flags + flags@);
            assert(data@ =~= delegation_preimage(*delegation_id, *root_id, *parent_id, permissions@));
        }
        blake2_256(data.as_slice())
    }

    /// Stores a new delegation and lists it below its parent (or root).
    fn insert_delegation(&mut self, id: DelegationNodeId, n: DelegationNode)
        requires
            old(self).wf(),
            !old(self)@.nodes.contains_key(id),
            old(self)@.roots.contains_key(n.root_id),
            n.parent matches Some(p) ==> old(self)@.nodes.contains_key(p),
        ensures
            final(self).wf(),
            final(self)@ == old(self)@.with_delegation(id, n),
    {
        let ghost a = self@;
        let ghost d0 = self.depth@;
        let key = match n.parent {
            Some(p) => p,
            None => n.root_id,
        };
        self.delegations.insert(id, n);
        let mut list = match self.children.remove(&key) {
            Some(l) => l,
            None => Vec::new(),
        };
        list.push(id);
        self.children.insert(key, list);
        let ghost new_depth: nat = match n.parent {
            Some(p) => d0[p] + 1,
            None => 0,
        };
        self.depth = Ghost(d0.insert(id, new_depth));
        proof {
            let b = self@;
            let dn = self.depth@;
            assert(b.children =~= a.children.insert(key, a.children_of(key).push(id)));
            assert(b == a.with_delegation(id, n));
            self.delegations.lemma_finite();
            assert forall|d: DelegationNodeId| #[trigger] b.nodes.contains_key(d) implies b.node_wf(
                dn,
                d,
            ) by {
                if d == id {
                    assert(b.children_of(key).contains(id)) by {
                        assert(b.children_of(key).last() == id);
                    }
                } else {
                    assert(a.nodes.contains_key(d));
                    assert(a.node_wf(d0, d));
                    let k = parent_key(a.nodes[d]);
                    if k == key {
                        let i = choose|i: int|
                            0 <= i < a.children_of(k).len() && a.children_of(k)[i] == d;
                        assert(b.children_of(k)[i] == d);
                    } else {
                        assert(b.children_of(k) == a.children_of(k));
                    }
                }
            }
            assert forall|k: DelegationNodeId, c: DelegationNodeId| #[trigger]
                b.children_of(k).contains(c) implies b.nodes.contains_key(c) by {
                if k == key {
                    let i = choose|i: int| 0 <= i < b.children_of(k).len() && b.children_of(k)[i] == c;
                    if i < a.children_of(k).len() {
                        assert(a.children_of(k)[i] == c);
                        assert(a.children_of(k).contains(c));
                    }
                } else {
                    assert(b.children_of(k) == a.children_of(k));
                }
            }
        }
    }

    /// Adds a delegation, given whether the delegate's signature over
    /// [`DelegationRegistry::calculate_hash`] of it is valid.
    pub fn add_delegation_with_verdict(
        &mut self,
        sender: AccountId,
        delegation_id: DelegationNodeId,
        root_id: DelegationNodeId,
        parent_id: Option<DelegationNodeId>,
        delegate: AccountId,
        permissions: Permissions,
        signature_valid: bool,
    ) -> (r: Result<(), Error>)
        requires
            old(self).wf(),
        ensures
            final(self).wf(),
            r == refusal_result(
                add_delegation_refusal(
                    old(self)@,
                    sender,
                    delegation_id,
                    root_id,
                    parent_id,
                    signature_valid,
                ),
            ),
            r is Err ==> final(self)@ == old(self)@,
            r is Ok ==> final(self)@ == old(self)@.with_delegation(
                delegation_id,
                DelegationNode {
                    root_id,
                    parent: parent_id,
                    owner: delegate,
                    permissions,
                    revoked: false,
                },
            ),
    {
        if !signature_valid {
            return Err(Error::BadDelegationSignature);
        }
        if self.delegations.contains_key(&delegation_id) {
            return Err(Error::DelegationAlreadyExists);
        }
        let root = match self.roots.get(&root_id) {
            Some(root) => *root,
            None => {
                return Err(Error::RootNotFound);
            },
        };
        let n = DelegationNode {
            root_id,
            parent: parent_id,
            owner: delegate,
            permissions,
            revoked: false,
        };
        match parent_id {
            Some(p) => {
                let parent = match self.delegations.get(&p) {
                    Some(parent) => *parent,
                    None => {
                        return Err(Error::ParentNotFound);
                    },
                };
                if !bytes32_eq(&parent.owner, &sender) {
                    return Err(Error::NotOwnerOfParent);
                }
                if !parent.permissions.contains(Permissions::delegate()) {
                    return Err(Error::NotAuthorizedToDelegate);
                }
                self.insert_delegation(delegation_id, n);
            },
            None => {
                if !bytes32_eq(&root.owner, &sender) {
                    return Err(Error::NotOwnerOfRoot);
                }
                self.insert_delegation(delegation_id, n);
            },
        }
        Ok(())
    }

    /// Adds the delegation `delegation_id` below `parent_id`, or directly
    /// below the root `root_id` when there is no parent, to `delegate` with
    /// `permissions`. The delegate accepts by signing the hash of the
    /// delegation; `sender` must own the parent (and may delegate there) or,
    /// without a parent, the root.
    ///
    /// The signature, in any scheme of [`MultiSignature`], is checked over
    /// the encoding of [`DelegationRegistry::calculate_hash`] by [`hash_to_u8`].
    pub fn add_delegation(
        &mut self,
        sender: AccountId,
        delegation_id: DelegationNodeId,
        root_id: DelegationNodeId,
        parent_id: Option<DelegationNodeId>,
        delegate: AccountId,
        permissions: Permissions,
        delegate_signature: MultiSignature,
    ) -> (r: Result<(), Error>)
        requires
            old(self).wf(),
        ensures
            final(self).wf(),
            r == refusal_result(
                add_delegation_refusal(
                    old(self)@,
                    sender,
                    delegation_id,
                    root_id,
                    parent_id,
                    multi_signature_valid(
                        delegate_signature,
                        blake2_256_digest(
                            delegation_preimage(delegation_id, root_id, parent_id, permissions@),
                        ),
                        delegate@,
                    ),
                ),
            ),
            r is Err ==> final(self)@ == old(self)@,
            r is Ok ==> final(self)@ == old(self)@.with_delegation(
                delegation_id,
                DelegationNode {
                    root_id,
                    parent: parent_id,
                    owner: delegate,
                    permissions,
                    revoked: false,
                },
            ),
    {
        let hash = Self::calculate_hash(&delegation_id, &root_id, &parent_id, permissions);
        let message = hash_to_u8(&hash);
        let valid = verify_multi_signature(&delegate_signature, message.as_slice(), &delegate);
        self.add_delegation_with_verdict(
            sender,
            delegation_id,
            root_id,
            parent_id,
            delegate,
            permissions,
            valid,
        )
    }

    /// Revokes the delegation `id`, unless it is revoked already, and then
    /// everything below it.
    fn revoke(&mut self, id: &DelegationNodeId)
        requires
            old(self).wf(),
            old(self)@.nodes.contains_key(*id),
        ensures
            final(self).wf(),
            final(self).depth@ == old(self).depth@,
            final(self)@.roots == old(self)@.roots,
            only_revocations(old(self)@, final(self)@),
            final(self)@.nodes[*id].revoked,
            old(self)@.nodes[*id].revoked ==> final(self)@ == old(self)@,
            forall|x: DelegationNodeId| #[trigger]
                newly_revoked(old(self)@, final(self)@, x) ==> x == *id || old(self)@.reaches(
                    *id,
                    x,
                ),
            closed_under_children(old(self)@, final(self)@),
        decreases old(self)@.unrevoked_count(), 0nat,
    {
        let n = match self.delegations.get(id) {
            Some(n) => *n,
            None => {
                return ;
            },
        };
        if n.revoked {
            return ;
        }
        let ghost a = self@;
        self.delegations.insert(
            *id,
            DelegationNode {
                root_id: n.root_id,
                parent: n.parent,
                owner: n.owner,
                permissions: n.permissions,
                revoked: true,
            },
        );
        let ghost s1 = self@;
        proof {
            assert(s1.nodes.dom() =~= a.nodes.dom());
            assert(s1.children == a.children);
            assert(only_revocations(a, s1));
            lemma_hierarchy_wf_after_revocations(a, s1, self.depth@);
            lemma_unrevoked_count(a, s1);
            assert(newly_revoked(a, s1, *id));
        }
        self.revoke_children(id);
        proof {
            let t = self@;
            lemma_only_revocations_trans(a, s1, t);
            lemma_only_revocations_monotone(s1, t, *id);
            assert forall|x: DelegationNodeId| #[trigger] newly_revoked(a, t, x) implies x == *id
                || a.reaches(*id, x) by {
                if x != *id {
                    assert(newly_revoked(s1, t, x));
                    lemma_reaches_before(a, s1, *id, x);
                }
            }
            assert forall|y: DelegationNodeId, c: DelegationNodeId| #[trigger]
                newly_revoked(a, t, y) && #[trigger] a.children_of(y).contains(c) implies t.nodes.contains_key(
                c,
            ) && t.nodes[c].revoked by {
                assert(s1.children_of(y) == a.children_of(y));
                if y != *id {
                    assert(newly_revoked(s1, t, y));
                }
            }
        }
    }

    /// Revokes every delegation listed below `parent` that is not revoked
    /// yet, and everything below those.
    fn revoke_children(&mut self, parent: &DelegationNodeId)
        requires
            old(self).wf(),
        ensures
            final(self).wf(),
            final(self).depth@ == old(self).depth@,
            final(self)@.roots == old(self)@.roots,
            only_revocations(old(self)@, final(self)@),
            forall|c: DelegationNodeId| #[trigger]
                old(self)@.children_of(*parent).contains(c) ==> final(self)@.nodes.contains_key(c)
                    && final(self)@.nodes[c].revoked,
            forall|x: DelegationNodeId| #[trigger]
                newly_revoked(old(self)@, final(self)@, x) ==> old(self)@.reaches(*parent, x),
            closed_under_children(old(self)@, final(self)@),
        decreases old(self)@.unrevoked_count(), 1nat,
    {
        let ghost a = self@;
        let ghost depth0 = self.depth@;
        let kids = match self.children.get(parent) {
            Some(list) => copy_ids(list),
            None => Vec::new(),
        };
        let mut i: usize = 0;
        while i < kids.len()
            invariant
                a == old(self)@,
                self.wf(),
                self.depth@ == depth0,
                self@.roots == a.roots,
                a.hierarchy_wf(depth0),
                only_revocations(a, self@),
                self@.unrevoked_count() <= a.unrevoked_count(),
                kids@ == a.children_of(*parent),
                0 <= i <= kids@.len(),
                forall|j: int|
                    0 <= j < i ==> self@.nodes.contains_key(#[trigger] kids@[j]) && self@.nodes[kids@[j]].revoked,
                forall|x: DelegationNodeId| #[trigger]
                    newly_revoked(a, self@, x) ==> a.reaches(*parent, x),
                closed_under_children(a, self@),
            decreases kids@.len() - i,
        {
            let ghost s = self@;
            let k = kids[i];
            proof {
                assert(a.children_of(*parent).contains(k)) by {
                    assert(kids@[i as int] == k);
                }
                assert(a.nodes.contains_key(k));
            }
            self.revoke(&k);
            proof {
                let t = self@;
                lemma_only_revocations_trans(a, s, t);
                lemma_unrevoked_count(s, t);
                assert forall|j: int| 0 <= j < i + 1 implies t.nodes.contains_key(
                    #[trigger] kids@[j],
                ) && t.nodes[kids@[j]].revoked by {
                    if j < i {
                        lemma_only_revocations_monotone(s, t, kids@[j]);
                    }
                }
                assert forall|x: DelegationNodeId| #[trigger] newly_revoked(a, t, x) implies a.reaches(
                    *parent,
                    x,
                ) by {
                    lemma_only_revocations_monotone(s, t, x);
                    if !newly_revoked(a, s, x) {
                        assert(newly_revoked(s, t, x));
                        lemma_only_revocations_monotone(a, s, k);
                        if s.reaches(k, x) {
                            lemma_reaches_before(a, s, k, x);
                        }
                        lemma_reaches_through_child(a, *parent, k, x);
                    }
                }
                assert forall|y: DelegationNodeId, c: DelegationNodeId| #[trigger]
                    newly_revoked(a, t, y) && #[trigger] a.children_of(y).contains(c) implies t.nodes.contains_key(
                    c,
                ) && t.nodes[c].revoked by {
                    lemma_only_revocations_monotone(s, t, y);
                    assert(s.children_of(y) == a.children_of(y));
                    if newly_revoked(a, s, y) {
                        assert(s.nodes.contains_key(c) && s.nodes[c].revoked);
                        lemma_only_revocations_monotone(s, t, c);
                    } else {
                        assert(newly_revoked(s, t, y));
                    }
                }
            }
            i = i + 1;
        }
        proof {
            assert forall|c: DelegationNodeId| #[trigger] a.children_of(*parent).contains(c) implies self@.nodes.contains_key(
                c,
            ) && self@.nodes[c].revoked by {
                let j = choose|j: int| 0 <= j < kids@.len() && kids@[j] == c;
            }
        }
    }

    /// Revokes the root `root_id`, which `sender` must own, and every
    /// delegation that the root reaches over delegations not revoked yet. A
    /// root that is revoked already is left as it is.
    pub fn revoke_root(&mut self, sender: AccountId, root_id: DelegationNodeId) -> (r: Result<
        (),
        Error,
    >)
        requires
            old(self).wf(),
        ensures
            final(self).wf(),
            r == (if !old(self)@.roots.contains_key(root_id) {
                Err(Error::RootNotFound)
            } else if old(self)@.roots[root_id].owner != sender {
                Err(Error::NotPermittedToRevoke)
            } else {
                Ok(())
            }),
            r is Err || old(self)@.roots[root_id].revoked ==> final(self)@ == old(self)@,
            r is Ok && !old(self)@.roots[root_id].revoked ==> final(self)@
                == old(self)@.after_revoking_root(root_id),
    {
        let root = match self.roots.get(&root_id) {
            Some(root) => *root,
            None => {
                return Err(Error::RootNotFound);
            },
        };
        if !bytes32_eq(&root.owner, &sender) {
            return Err(Error::NotPermittedToRevoke);
        }
        if !root.revoked {
            let ghost o = self@;
            self.roots.insert(
                root_id,
                DelegationRoot { ctype_hash: root.ctype_hash, owner: root.owner, revoked: true },
            );
            let ghost a = self@;
            proof {
                assert(a.roots.dom() =~= o.roots.dom());
                lemma_hierarchy_wf_after_revocations(o, a, self.depth@);
            }
            self.revoke_children(&root_id);
            proof {
                let b = self@;
                let expected = o.nodes_after_revoking_below(root_id);
                assert forall|x: DelegationNodeId| #[trigger] b.nodes.contains_key(x) implies b.nodes[x]
                    == expected[x] by {
                    lemma_only_revocations_monotone(a, b, x);
                    if o.reaches(root_id, x) {
                        lemma_reaches_before(a, o, root_id, x);
                        lemma_closure_revokes_reached(a, b, root_id, x);
                        let path = choose|path: Seq<DelegationNodeId>|
                            #[trigger] a.is_live_path(path) && path[0] == root_id && path.last()
                                == x;
                        assert(a.is_unrevoked(path[path.len() - 1]));
                    } else {
                        if newly_revoked(a, b, x) {
                            lemma_reaches_before(o, a, root_id, x);
                        }
                    }
                }
                assert(b.nodes =~= expected);
                assert(b.roots =~= o.roots.insert(
                    root_id,
                    DelegationRoot { revoked: true, ..o.roots[root_id] },
                ));
            }
        }
        Ok(())
    }

    /// Whether `account` owns the delegation `delegation`, a delegation above
    /// it, or the root of its hierarchy; an error when there is no such
    /// delegation.
    pub fn is_delegating(&self, account: &AccountId, delegation: &DelegationNodeId) -> (r: Result<
        bool,
        Error,
    >)
        requires
            self.wf(),
        ensures
            !self@.nodes.contains_key(*delegation) ==> r == Err::<bool, Error>(
                Error::DelegationNotFound,
            ),
            self@.nodes.contains_key(*delegation) ==> r == Ok::<bool, Error>(
                self@.is_delegating(*account, *delegation),
            ),
        decreases self.depth_of(*delegation),
    {
        let ghost v = self@;
        let n = match self.delegations.get(delegation) {
            Some(n) => *n,
            None => {
                return Err(Error::DelegationNotFound);
            },
        };
        proof {
            assert(v.node_wf(self.depth@, *delegation));
        }
        let ghost single = seq![*delegation];
        proof {
            assert(v.is_parent_chain(single));
        }
        if bytes32_eq(&n.owner, account) {
            proof {
                assert(v.nodes[single[0]].owner == *account);
                assert(v.chain_grants(single, *account));
            }
            return Ok(true);
        }
        match n.parent {
            None => {
                let root = match self.roots.get(&n.root_id) {
                    Some(root) => *root,
                    None => {
                        return Err(Error::RootNotFound);
                    },
                };
                let owns_root = bytes32_eq(&root.owner, account);
                proof {
                    if owns_root {
                        assert(v.chain_grants(single, *account));
                    } else if v.is_delegating(*account, *delegation) {
                        let chain = choose|chain: Seq<DelegationNodeId>|
                            #[trigger] v.is_parent_chain(chain) && chain[0] == *delegation
                                && v.chain_grants(chain, *account);
                        if chain.len() > 1 {
                            assert(v.nodes[chain[0int]].parent == Some(chain[0int + 1]));
                        }
                        assert(chain.len() == 1);
                        if exists|i: int|
                            0 <= i < chain.len() && #[trigger] v.nodes[chain[i]].owner == *account {
                            let i = choose|i: int|
                                0 <= i < chain.len() && #[trigger] v.nodes[chain[i]].owner
                                    == *account;
                            assert(i == 0);
                        }
                    }
                }
                Ok(owns_root)
            },
            Some(p) => {
                let above = self.is_delegating(account, &p);
                proof {
                    assert(v.nodes.contains_key(p));
                    let up = above->Ok_0;
                    if up {
                        lemma_delegating_through_parent(v, *account, *delegation, p);
                    } else if v.is_delegating(*account, *delegation) {
                        let chain = choose|chain: Seq<DelegationNodeId>|
                            #[trigger] v.is_parent_chain(chain) && chain[0] == *delegation
                                && v.chain_grants(chain, *account);
                        assert(chain.len() > 1);
                        assert(v.nodes[chain[0int]].parent == Some(chain[0int + 1]));
                        let c = chain.drop_first();
                        assert forall|i: int| 0 <= i < c.len() implies #[trigger] v.nodes.contains_key(
                            c[i],
                        ) by {
                            assert(c[i] == chain[i + 1]);
                        }
                        assert forall|i: int| 0 <= i < c.len() - 1 implies #[trigger] v.nodes[c[i]].parent
                            == Some(c[i + 1]) by {
                            assert(c[i] == chain[i + 1]);
                            assert(c[i + 1] == chain[i + 1 + 1]);
                        }
                        assert(v.is_parent_chain(c));
                        assert(c.last() == chain.last());
                        if exists|i: int|
                            0 <= i < chain.len() && #[trigger] v.nodes[chain[i]].owner == *account {
                            let i = choose|i: int|
                                0 <= i < chain.len() && #[trigger] v.nodes[chain[i]].owner
                                    == *account;
                            assert(i != 0);
                            assert(c[i - 1] == chain[i]);
                            assert(v.nodes[c[i - 1]].owner == *account);
                        }
                        assert(v.chain_grants(c, *account));
                    }
                }
                above
            },
        }
    }

    /// Revokes the delegation `delegation_id`, which `sender` must own or
    /// stand above, and everything below it that is not revoked yet. A
    /// delegation that is revoked already is left as it is.
    pub fn revoke_delegation(&mut self, sender: AccountId, delegation_id: DelegationNodeId) -> (r:
        Result<(), Error>)
        requires
            old(self).wf(),
        ensures
            final(self).wf(),
            r == (if !old(self)@.nodes.contains_key(delegation_id) {
                Err(Error::DelegationNotFound)
            } else if !old(self)@.is_delegating(sender, delegation_id) {
                Err(Error::NotPermittedToRevoke)
            } else {
                Ok(())
            }),
            r is Err || old(self)@.nodes[delegation_id].revoked ==> final(self)@ == old(self)@,
            r is Ok && !old(self)@.nodes[delegation_id].revoked ==> final(self)@
                == old(self)@.after_revoking_delegation(delegation_id),
    {
        if !self.delegations.contains_key(&delegation_id) {
            return Err(Error::DelegationNotFound);
        }
        match self.is_delegating(&sender, &delegation_id) {
            Ok(true) => {},
            Ok(false) => {
                return Err(Error::NotPermittedToRevoke);
            },
            Err(e) => {
                return Err(e);
            },
        }
        let ghost a = self@;
        self.revoke(&delegation_id);
        proof {
            let b = self@;
            if !a.nodes[delegation_id].revoked {
                let expected = a.nodes_after_revoking(delegation_id);
                assert(newly_revoked(a, b, delegation_id));
                assert forall|x: DelegationNodeId| #[trigger] b.nodes.contains_key(x) implies b.nodes[x]
                    == expected[x] by {
                    lemma_only_revocations_monotone(a, b, x);
                    if x != delegation_id && a.reaches(delegation_id, x) {
                        let path = choose|path: Seq<DelegationNodeId>|
                            #[trigger] a.is_live_path(path) && path[0] == delegation_id
                                && path.last() == x;
                        assert(a.is_unrevoked(path[path.len() - 1]));
                        assert forall|c: DelegationNodeId| #[trigger]
                            a.children_of(delegation_id).contains(c) implies b.nodes.contains_key(c)
                            && b.nodes[c].revoked by {
                            assert(newly_revoked(a, b, delegation_id));
                        }
                        lemma_closure_revokes_reached(a, b, delegation_id, x);
                    }
                }
                assert(b.nodes =~= expected);
            }
        }
        Ok(())
    }

    /// No delegation lies above itself: following parent links upwards from a
    /// delegation never leads back to it.
    pub proof fn lemma_parent_chains_acyclic(&self, chain: Seq<DelegationNodeId>)
        requires
            self.wf(),
            self@.is_parent_chain(chain),
        ensures
            forall|i: int| 1 <= i < chain.len() ==> #[trigger] chain[i] != chain[0],
    {
        assert forall|i: int| 1 <= i < chain.len() implies #[trigger] chain[i] != chain[0] by {
            self.lemma_chain_depth_decreases(chain, i);
        }
    }

    /// Depth strictly decreases along a parent chain.
    proof fn lemma_chain_depth_decreases(&self, chain: Seq<DelegationNodeId>, i: int)
        requires
            self.wf(),
            self@.is_parent_chain(chain),
            1 <= i < chain.len(),
        ensures
            self.depth@[chain[i]] < self.depth@[chain[0]],
        decreases i,
    {
        let j = i - 1;
        assert(self@.nodes.contains_key(chain[j]));
        assert(self@.nodes[chain[j]].parent == Some(chain[j + 1]));
        assert(self@.node_wf(self.depth@, chain[j]));
        if j > 0 {
            self.lemma_chain_depth_decreases(chain, j);
        }
    }

    /// A delegation whose parent chain up to the top of its hierarchy holds
    /// no revoked delegation is reached from the root of that hierarchy.
    pub proof fn lemma_live_chain_reached(&self, chain: Seq<DelegationNodeId>)
        requires
            self.wf(),
            self@.is_parent_chain(chain),
            self@.nodes[chain.last()].parent is None,
            forall|i: int| 0 <= i < chain.len() ==> !(#[trigger] self@.nodes[chain[i]]).revoked,
        ensures
            self@.reaches(self@.nodes[chain.last()].root_id, chain[0]),
    {
        self.lemma_live_chain_reached_from(chain, 0);
    }

    /// The step of [`DelegationRegistry::lemma_live_chain_reached`]: the
    /// suffix of the chain from position `k` is reached.
    proof fn lemma_live_chain_reached_from(&self, chain: Seq<DelegationNodeId>, k: int)
        requires
            self.wf(),
            self@.is_parent_chain(chain),
            self@.nodes[chain.last()].parent is None,
            forall|i: int| 0 <= i < chain.len() ==> !(#[trigger] self@.nodes[chain[i]]).revoked,
            0 <= k < chain.len(),
        ensures
            self@.reaches(self@.nodes[chain.last()].root_id, chain[k]),
        decreases chain.len() - k,
    {
        let v = self@;
        let root = v.nodes[chain.last()].root_id;
        assert(v.nodes.contains_key(chain[k]));
        assert(v.node_wf(self.depth@, chain[k]));
        assert(!v.nodes[chain[k]].revoked);
        if k == chain.len() - 1 {
            let path = seq![root, chain[k]];
            assert(path[0] == root && path[1] == chain[k]);
            assert(v.is_live_path(path));
        } else {
            self.lemma_live_chain_reached_from(chain, k + 1);
            assert(v.nodes[chain[k]].parent == Some(chain[k + 1]));
            lemma_reaches_extend(v, root, chain[k + 1], chain[k]);
        }
    }

    /// A delegation whose parent chain up to a delegation `top` holds no
    /// revoked delegation below `top` is reached from `top`.
    pub proof fn lemma_live_chain_below_reached(&self, chain: Seq<DelegationNodeId>)
        requires
            self.wf(),
            self@.is_parent_chain(chain),
            chain.len() >= 2,
            forall|i: int| 0 <= i < chain.len() - 1 ==> !(#[trigger] self@.nodes[chain[i]]).revoked,
        ensures
            self@.reaches(chain.last(), chain[0]),
    {
        self.lemma_live_chain_below_reached_from(chain, 0);
    }

    /// The step of [`DelegationRegistry::lemma_live_chain_below_reached`]:
    /// the chain's delegation at position `k` is reached from its last one.
    proof fn lemma_live_chain_below_reached_from(&self, chain: Seq<DelegationNodeId>, k: int)
        requires
            self.wf(),
            self@.is_parent_chain(chain),
            chain.len() >= 2,
            forall|i: int| 0 <= i < chain.len() - 1 ==> !(#[trigger] self@.nodes[chain[i]]).revoked,
            0 <= k < chain.len() - 1,
        ensures
            self@.reaches(chain.last(), chain[k]),
        decreases chain.len() - k,
    {
        let v = self@;
        let top = chain.last();
        assert(v.nodes.contains_key(chain[k]));
        assert(v.node_wf(self.depth@, chain[k]));
        assert(!v.nodes[chain[k]].revoked);
        assert(v.nodes[chain[k]].parent == Some(chain[k + 1]));
        if k == chain.len() - 2 {
            let path = seq![top, chain[k]];
            assert(path[0] == top && path[1] == chain[k]);
            assert(v.is_live_path(path));
        } else {
            self.lemma_live_chain_below_reached_from(chain, k + 1);
            lemma_reaches_extend(v, top, chain[k + 1], chain[k]);
        }
    }
}

} // verus!
