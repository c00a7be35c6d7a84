//! The per-tick synchronisation passes: tearing down engine joints whose
//! record went away or changed, then planning which joints to build.
use vstd::prelude::*;
use crate::handles::{BodyHandle, JointHandle};
use crate::table::{Completion, JointSync};

verus! {

/// A joint record as the creation pass sees it: the entity that holds it, and
/// its two body references resolved to engine bodies (`None` where the body
/// is missing or not ready for simulation).
#[derive(Clone, Copy, Debug, PartialEq, Eq, Structural)]
pub struct PendingRecord {
    pub entity: u64,
    pub body_1: Option<BodyHandle>,
    pub body_2: Option<BodyHandle>,
}

/// One decision of the creation pass.
#[derive(Clone, Copy, Debug, PartialEq, Eq, Structural)]
pub enum Creation {
    /// Insert an engine joint between the two bodies from the entity's record.
    Build { entity: u64, body_1: BodyHandle, body_2: BodyHandle },
    /// Remove the entity's joint record: one of its bodies cannot be used.
    Drop { entity: u64 },
}

/// Both body references of the record resolved.
pub open spec fn resolved(r: PendingRecord) -> bool {
    r.body_1 is Some && r.body_2 is Some
}

/// The table after forgetting the live joints of `entities`, one after another.
pub open spec fn invalidated(m: Map<u64, JointHandle>, entities: Seq<u64>) -> Map<u64, JointHandle>
    decreases entities.len(),
{
    if entities.len() == 0 {
        m
    } else {
        invalidated(m, entities.drop_last()).remove(entities.last())
    }
}

/// The handles released, in order, while forgetting the live joints of
/// `entities` one after another: one for each entity that still had a live
/// joint when its turn came.
pub open spec fn released(m: Map<u64, JointHandle>, entities: Seq<u64>) -> Seq<JointHandle>
    decreases entities.len(),
{
    if entities.len() == 0 {
        Seq::empty()
    } else {
        let before = invalidated(m, entities.drop_last());
        let e = entities.last();
        released(m, entities.drop_last()) + if before.contains_key(e) {
            seq![before[e]]
        } else {
            Seq::empty()
        }
    }
}

/// The released handles of both invalidation passes of a tick.
pub open spec fn released_in_tick(m: Map<u64, JointHandle>, removed: Seq<u64>, changed: Seq<u64>) -> Seq<JointHandle> {
    released(m, removed) + released(invalidated(m, removed), changed)
}

/// The table after both invalidation passes of a tick.
pub open spec fn after_invalidation(m: Map<u64, JointHandle>, removed: Seq<u64>, changed: Seq<u64>) -> Map<u64, JointHandle> {
    invalidated(invalidated(m, removed), changed)
}

/// The creation pass over `records`, one decision per record in order: a
/// record whose entity has a live joint is passed over; a resolved record is
/// built; an unresolved record is dropped, and the pass goes on with the next.
pub open spec fn plan(m: Map<u64, JointHandle>, records: Seq<PendingRecord>) -> Seq<Creation>
    decreases records.len(),
{
    if records.len() == 0 {
        Seq::empty()
    } else {
        let r = records[0];
        if m.contains_key(r.entity) {
            plan(m, records.skip(1))
        } else if resolved(r) {
            seq![Creation::Build { entity: r.entity, body_1: r.body_1->0, body_2: r.body_2->0 }]
                + plan(m, records.skip(1))
        } else {
            seq![Creation::Drop { entity: r.entity }] + plan(m, records.skip(1))
        }
    }
}

/// What binding a freshly inserted engine joint (or the engine's refusal,
/// `None`) to `entity` comes to.
pub open spec fn completion(m: Map<u64, JointHandle>, entity: u64, inserted: Option<JointHandle>) -> Completion {
    match inserted {
        None => Completion::DropRecord,
        Some(h) => if !m.contains_key(entity) && forall|e: u64| m.contains_key(e) ==> m[e] != h {
            Completion::Attached
        } else {
            Completion::DiscardJoint(h)
        },
    }
}

impl JointSync {
    /// Forgets the live joints of `entities` in order and hands back the
    /// released handles, whose engine joints are then removed.
    pub fn invalidate_all(&mut self, entities: &Vec<u64>) -> (r: Vec<JointHandle>)
        requires
            old(self).wf(),
        ensures
            final(self).wf(),
            final(self)@ == invalidated(old(self)@, entities@),
            r@ == released(old(self)@, entities@),
    {
        let mut out: Vec<JointHandle> = Vec::new();
        let mut i: usize = 0;
        while i < entities.len()
            invariant
                i <= entities@.len(),
                self.wf(),
                self@ == invalidated(old(self)@, entities@.take(i as int)),
                out@ == released(old(self)@, entities@.take(i as int)),
            decreases entities@.len() - i,
        {
            let e = entities[i];
            proof {
                let next = entities@.take(i as int + 1);
                assert(next.drop_last() =~= entities@.take(i as int));
                assert(next.last() == e);
            }
            let r = self.invalidate(e);
            match r {
                Some(h) => {
                    out.push(h);
                },
                None => {},
            }
            proof {
                let next = entities@.take(i as int + 1);
                let tail = if invalidated(old(self)@, entities@.take(i as int)).contains_key(e) {
                    seq![invalidated(old(self)@, entities@.take(i as int))[e]]
                } else {
                    Seq::<JointHandle>::empty()
                };
                assert(released(old(self)@, next) == released(old(self)@, entities@.take(i as int)) + tail);
                assert(out@ =~= released(old(self)@, next));
            }
            i = i + 1;
        }
        assert(entities@.take(entities@.len() as int) =~= entities@);
        out
    }

    /// The two invalidation passes of a tick, in their required order: first
    /// the entities whose joint record was removed, then those whose record
    /// changed. Hands back every released handle, in order.
    pub fn invalidation_pass(&mut self, removed: &Vec<u64>, changed: &Vec<u64>) -> (r: Vec<JointHandle>)
        requires
            old(self).wf(),
        ensures
            final(self).wf(),
            final(self)@ == after_invalidation(old(self)@, removed@, changed@),
            r@ == released_in_tick(old(self)@, removed@, changed@),
    {
        let mut first = self.invalidate_all(removed);
        let mut second = self.invalidate_all(changed);
        first.append(&mut second);
        first
    }

    /// The creation pass: what to do with each joint record, in order.
    pub fn creation_plan(&self, records: &Vec<PendingRecord>) -> (r: Vec<Creation>)
        requires
            self.wf(),
        ensures
            r@ == plan(self@, records@),
    {
        let mut out: Vec<Creation> = Vec::new();
        let mut i: usize = 0;
        assert(records@.skip(0) =~= records@);
        assert(out@ + plan(self@, records@) =~= plan(self@, records@));
        while i < records.len()
            invariant
                i <= records@.len(),
                self.wf(),
                plan(self@, records@) == out@ + plan(self@, records@.skip(i as int)),
            decreases records@.len() - i,
        {
            let r = records[i];
            proof {
                let rest = records@.skip(i as int);
                assert(rest[0] == r);
                assert(rest.skip(1) =~= records@.skip(i as int + 1));
            }
            if self.handle_of(r.entity).is_some() {
                i = i + 1;
            } else {
                match (r.body_1, r.body_2) {
                    (Some(b1), Some(b2)) => {
                        let c = Creation::Build { entity: r.entity, body_1: b1, body_2: b2 };
                        proof {
                            assert(out@ + plan(self@, records@.skip(i as int))
                                =~= out@.push(c) + plan(self@, records@.skip(i as int + 1)));
                        }
                        out.push(c);
                        i = i + 1;
                    },
                    _ => {
                        let c = Creation::Drop { entity: r.entity };
                        proof {
                            assert(out@ + plan(self@, records@.skip(i as int))
                                =~= out@.push(c) + plan(self@, records@.skip(i as int + 1)));
                        }
                        out.push(c);
                        i = i + 1;
                    },
                }
            }
        }
        proof {
            assert(records@.skip(i as int).len() == 0);
            assert(out@ + Seq::<Creation>::empty() =~= out@);
        }
        out
    }

    /// Settles a `Build` decision once the engine has answered: `inserted` is
    /// the new engine joint, or `None` where none could be built.
    pub fn complete_build(&mut self, entity: u64, inserted: Option<JointHandle>) -> (r: Completion)
        requires
            old(self).wf(),
        ensures
            final(self).wf(),
            r == completion(old(self)@, entity, inserted),
            r == Completion::Attached ==> final(self)@ == old(self)@.insert(entity, inserted->0),
            r != Completion::Attached ==> final(self)@ == old(self)@,
    {
        match inserted {
            None => Completion::DropRecord,
            Some(h) => {
                if self.attach(entity, h) {
                    Completion::Attached
                } else {
                    Completion::DiscardJoint(h)
                }
            },
        }
    }
}

} // verus!
