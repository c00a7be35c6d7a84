//! The table of live joints: which entity's joint record is materialised as
//! which engine joint.
use std::collections::HashMap;
use vstd::prelude::*;
use crate::handles::{handle_key, lemma_handle_key_injective, JointHandle};

verus! {

broadcast use vstd::std_specs::hash::group_hash_axioms;

/// True when no two entities share an engine joint handle.
pub open spec fn one_to_one(m: Map<u64, JointHandle>) -> bool {
    forall|a: u64, b: u64|
        #![trigger m[a], m[b]]
        m.contains_key(a) && m.contains_key(b) && a != b ==> m[a] != m[b]
}

/// The back-references from joint entities to their live engine joints, kept
/// in both directions.
pub struct JointSync {
    by_entity: HashMap<u64, JointHandle>,
    by_handle: HashMap<u64, u64>,
}

/// How a `Build` decision ended once the engine answered.
#[derive(Clone, Copy, Debug, PartialEq, Eq, Structural)]
pub enum Completion {
    /// The engine joint is now the entity's live joint.
    Attached,
    /// No engine joint could be built (the engine refused it, or the record's
    /// parameters are unusable, such as a zero axis): the joint record is dropped.
    DropRecord,
    /// The entity already has a live joint, or the handle is already bound to
    /// another entity: the new engine joint is removed again.
    DiscardJoint(JointHandle),
}

impl View for JointSync {
    type V = Map<u64, JointHandle>;

    closed spec fn view(&self) -> Map<u64, JointHandle> {
        self.by_entity@
    }
}

impl JointSync {
    /// The forward and backward tables describe the same one-to-one binding.
    pub closed spec fn wf(&self) -> bool {
        &&& one_to_one(self.by_entity@)
        &&& forall|e: u64|
            #![trigger self.by_entity@[e]]
            self.by_entity@.contains_key(e) ==> {
                &&& self.by_handle@.contains_key(handle_key(self.by_entity@[e]))
                &&& self.by_handle@[handle_key(self.by_entity@[e])] == e
            }
        &&& forall|k: u64|
            #![trigger self.by_handle@[k]]
            self.by_handle@.contains_key(k) ==> {
                &&& self.by_entity@.contains_key(self.by_handle@[k])
                &&& handle_key(self.by_entity@[self.by_handle@[k]]) == k
            }
    }

    /// A well-formed table binds each handle to at most one entity.
    pub proof fn lemma_wf_one_to_one(&self)
        requires
            self.wf(),
        ensures
            one_to_one(self@),
    {
    }

    /// An empty table.
    pub fn new() -> (r: Self)
        ensures
            r.wf(),
            r@ == Map::<u64, JointHandle>::empty(),
    {
        JointSync { by_entity: HashMap::new(), by_handle: HashMap::new() }
    }

    /// The live engine joint of `entity`, if any.
    pub fn handle_of(&self, entity: u64) -> (r: Option<JointHandle>)
        requires
            self.wf(),
        ensures
            r == (if self@.contains_key(entity) { Some(self@[entity]) } else { None::<JointHandle> }),
    {
        match self.by_entity.get(&entity) {
            Some(h) => Some(*h),
            None => None,
        }
    }

    /// The entity whose live joint is `handle`, if any.
    pub fn entity_of(&self, handle: JointHandle) -> (r: Option<u64>)
        requires
            self.wf(),
        ensures
            r matches Some(e) ==> self@.contains_key(e) && self@[e] == handle,
            r is None ==> forall|e: u64| self@.contains_key(e) ==> self@[e] != handle,
    {
        let k = handle.key();
        match self.by_handle.get(&k) {
            Some(e) => {
                let e = *e;
                proof {
                    lemma_handle_key_injective(self.by_entity@[e], handle);
                }
                Some(e)
            },
            None => {
                proof {
                    assert forall|e: u64| self@.contains_key(e) implies self@[e] != handle by {
                        assert(self.by_handle@.contains_key(handle_key(self.by_entity@[e])));
                    }
                }
                None
            },
        }
    }

    /// Forgets the live joint of `entity` and hands back its handle, so that
    /// the engine joint can be removed.
    pub fn invalidate(&mut self, entity: u64) -> (r: Option<JointHandle>)
        requires
            old(self).wf(),
        ensures
            final(self).wf(),
            final(self)@ == old(self)@.remove(entity),
            r == (if old(self)@.contains_key(entity) {
                Some(old(self)@[entity])
            } else {
                None::<JointHandle>
            }),
    {
        let removed = self.by_entity.remove(&entity);
        match removed {
            Some(h) => {
                let k = h.key();
                self.by_handle.remove(&k);
                proof {
                    let old_e = old(self).by_entity@;
                    let old_h = old(self).by_handle@;
                    assert forall|e: u64|
                        #![trigger self.by_entity@[e]]
                        self.by_entity@.contains_key(e) implies {
                            &&& self.by_handle@.contains_key(handle_key(self.by_entity@[e]))
                            &&& self.by_handle@[handle_key(self.by_entity@[e])] == e
                        } by {
                        assert(old_e.contains_key(e) && old_e[e] != h);
                        lemma_handle_key_injective(old_e[e], h);
                    }
                    assert forall|j: u64|
                        #![trigger self.by_handle@[j]]
                        self.by_handle@.contains_key(j) implies {
                            &&& self.by_entity@.contains_key(self.by_handle@[j])
                            &&& handle_key(self.by_entity@[self.by_handle@[j]]) == j
                        } by {
                        assert(old_h.contains_key(j) && j != k);
                        assert(old_h[j] != entity);
                    }
                }
                Some(h)
            },
            None => None,
        }
    }

    /// Binds `handle` to `entity` as its live joint.
    pub fn attach(&mut self, entity: u64, handle: JointHandle) -> (r: bool)
        requires
            old(self).wf(),
        ensures
            final(self).wf(),
            r == (!old(self)@.contains_key(entity) && forall|e: u64|
                old(self)@.contains_key(e) ==> old(self)@[e] != handle),
            r ==> final(self)@ == old(self)@.insert(entity, handle),
            !r ==> final(self)@ == old(self)@,
    {
        if self.by_entity.contains_key(&entity) {
            return false;
        }
        let bound = self.entity_of(handle);
        if bound.is_some() {
            return false;
        }
        let k = handle.key();
        self.by_entity.insert(entity, handle);
        self.by_handle.insert(k, entity);
        proof {
            let old_e = old(self).by_entity@;
            let old_h = old(self).by_handle@;
            assert(!old_h.contains_key(k)) by {
                if old_h.contains_key(k) {
                    let e = old_h[k];
                    assert(old_e.contains_key(e));
                    lemma_handle_key_injective(old_e[e], handle);
                    assert(old(self)@[e] != handle);
                }
            }
            assert forall|a: u64, b: u64|
                #![trigger self.by_entity@[a], self.by_entity@[b]]
                self.by_entity@.contains_key(a) && self.by_entity@.contains_key(b) && a != b
                implies self.by_entity@[a] != self.by_entity@[b] by {
                if a != entity && b != entity {
                    assert(old_e[a] != old_e[b]);
                }
            }
            assert forall|e: u64|
                #![trigger self.by_entity@[e]]
                self.by_entity@.contains_key(e) implies {
                    &&& self.by_handle@.contains_key(handle_key(self.by_entity@[e]))
                    &&& self.by_handle@[handle_key(self.by_entity@[e])] == e
                } by {
                if e != entity {
                    assert(old_e.contains_key(e));
                    assert(old_e[e] != handle);
                    lemma_handle_key_injective(old_e[e], handle);
                }
            }
            assert forall|j: u64|
                #![trigger self.by_handle@[j]]
                self.by_handle@.contains_key(j) implies {
                    &&& self.by_entity@.contains_key(self.by_handle@[j])
                    &&& handle_key(self.by_entity@[self.by_handle@[j]]) == j
                } by {
                if j != k {
                    assert(old_h.contains_key(j));
                    assert(old_h[j] != entity);
                }
            }
        }
        true
    }
}

} // verus!
