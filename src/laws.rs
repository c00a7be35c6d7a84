//! What a tick guarantees of the joint lifecycle, proved from the passes'
//! contracts.
use vstd::prelude::*;
use crate::handles::JointHandle;
use crate::passes::{
    after_invalidation, invalidated, plan, released, released_in_tick, resolved, Creation, PendingRecord,
};
use crate::table::{one_to_one, JointSync};

verus! {

/// How many times `h` occurs in `s`.
pub open spec fn occurrences(s: Seq<JointHandle>, h: JointHandle) -> nat
    decreases s.len(),
{
    if s.len() == 0 {
        0
    } else {
        occurrences(s.drop_last(), h) + if s.last() == h { 1nat } else { 0nat }
    }
}

/// How many records in `records` belong to `entity`.
pub open spec fn listed(records: Seq<PendingRecord>, entity: u64) -> nat
    decreases records.len(),
{
    if records.len() == 0 {
        0
    } else {
        listed(records.skip(1), entity) + if records[0].entity == entity { 1nat } else { 0nat }
    }
}

/// The entity that a creation decision is about.
pub open spec fn subject(c: Creation) -> u64 {
    match c {
        Creation::Build { entity, .. } => entity,
        Creation::Drop { entity } => entity,
    }
}

/// How many decisions in `p` are about `entity`.
pub open spec fn decisions_for(p: Seq<Creation>, entity: u64) -> nat
    decreases p.len(),
{
    if p.len() == 0 {
        0
    } else {
        decisions_for(p.skip(1), entity) + if subject(p[0]) == entity { 1nat } else { 0nat }
    }
}

/// How many decisions in `p` build a joint for `entity`.
pub open spec fn builds_for(p: Seq<Creation>, entity: u64) -> nat
    decreases p.len(),
{
    if p.len() == 0 {
        0
    } else {
        builds_for(p.skip(1), entity) + if p[0] is Build && subject(p[0]) == entity {
            1nat
        } else {
            0nat
        }
    }
}

/// How many decisions in `p` drop the joint record of `entity`.
pub open spec fn drops_for(p: Seq<Creation>, entity: u64) -> nat
    decreases p.len(),
{
    if p.len() == 0 {
        0
    } else {
        drops_for(p.skip(1), entity) + if p[0] is Drop && subject(p[0]) == entity {
            1nat
        } else {
            0nat
        }
    }
}

/// How many records in `records` belong to `entity` and have both bodies
/// resolved.
pub open spec fn ready_listed(records: Seq<PendingRecord>, entity: u64) -> nat
    decreases records.len(),
{
    if records.len() == 0 {
        0
    } else {
        ready_listed(records.skip(1), entity) + if records[0].entity == entity && resolved(records[0]) {
            1nat
        } else {
            0nat
        }
    }
}

proof fn lemma_occurrences_concat(a: Seq<JointHandle>, b: Seq<JointHandle>, h: JointHandle)
    ensures
        occurrences(a + b, h) == occurrences(a, h) + occurrences(b, h),
    decreases b.len(),
{
    if b.len() == 0 {
        assert(a + b =~= a);
    } else {
        assert((a + b).drop_last() =~= a + b.drop_last());
        lemma_occurrences_concat(a, b.drop_last(), h);
    }
}

proof fn lemma_occurrences_single(x: JointHandle, h: JointHandle)
    ensures
        occurrences(seq![x], h) == if x == h { 1nat } else { 0nat },
        occurrences(Seq::<JointHandle>::empty(), h) == 0,
{
    assert(seq![x].drop_last() =~= Seq::<JointHandle>::empty());
    assert(occurrences(Seq::<JointHandle>::empty(), h) == 0);
}

proof fn lemma_invalidated_entry(m: Map<u64, JointHandle>, s: Seq<u64>, e: u64)
    ensures
        invalidated(m, s).contains_key(e) <==> (m.contains_key(e) && !s.contains(e)),
        invalidated(m, s).contains_key(e) ==> invalidated(m, s)[e] == m[e],
    decreases s.len(),
{
    if s.len() > 0 {
        lemma_invalidated_entry(m, s.drop_last(), e);
        assert(s.contains(e) <==> (s.drop_last().contains(e) || s.last() == e)) by {
            if s.contains(e) {
                let i = choose|i: int| 0 <= i < s.len() && s[i] == e;
                if i < s.len() - 1 {
                    assert(s.drop_last()[i] == e);
                }
            }
            if s.drop_last().contains(e) {
                let i = choose|i: int| 0 <= i < s.len() - 1 && s.drop_last()[i] == e;
                assert(s[i] == e);
            }
        }
    }
}

proof fn lemma_invalidated_one_to_one(m: Map<u64, JointHandle>, s: Seq<u64>)
    requires
        one_to_one(m),
    ensures
        one_to_one(invalidated(m, s)),
{
    let n = invalidated(m, s);
    assert forall|a: u64, b: u64|
        #![trigger n[a], n[b]]
        n.contains_key(a) && n.contains_key(b) && a != b implies n[a] != n[b] by {
        lemma_invalidated_entry(m, s, a);
        lemma_invalidated_entry(m, s, b);
        assert(m[a] != m[b]);
    }
}

/// A handle that no entity of `m` holds is never released.
proof fn lemma_released_unheld(m: Map<u64, JointHandle>, s: Seq<u64>, h: JointHandle)
    requires
        forall|k: u64| m.contains_key(k) ==> m[k] != h,
    ensures
        occurrences(released(m, s), h) == 0,
    decreases s.len(),
{
    if s.len() > 0 {
        let p = s.drop_last();
        let x = s.last();
        lemma_released_unheld(m, p, h);
        lemma_invalidated_entry(m, p, x);
        let before = invalidated(m, p);
        let tail = if before.contains_key(x) { seq![before[x]] } else { Seq::<JointHandle>::empty() };
        lemma_occurrences_concat(released(m, p), tail, h);
        if before.contains_key(x) {
            lemma_occurrences_single(before[x], h);
        } else {
            lemma_occurrences_single(h, h);
        }
    }
}

/// The live joint of `e` is released once if `e` is listed, else never.
proof fn lemma_released_count(m: Map<u64, JointHandle>, s: Seq<u64>, e: u64)
    requires
        one_to_one(m),
        m.contains_key(e),
    ensures
        occurrences(released(m, s), m[e]) == if s.contains(e) { 1nat } else { 0nat },
    decreases s.len(),
{
    if s.len() > 0 {
        let p = s.drop_last();
        let x = s.last();
        lemma_released_count(m, p, e);
        lemma_invalidated_entry(m, p, x);
        lemma_invalidated_entry(m, s, e);
        lemma_invalidated_entry(m, p, e);
        let before = invalidated(m, p);
        let tail = if before.contains_key(x) { seq![before[x]] } else { Seq::<JointHandle>::empty() };
        lemma_occurrences_concat(released(m, p), tail, m[e]);
        if before.contains_key(x) {
            lemma_occurrences_single(before[x], m[e]);
            assert(m[x] == m[e] <==> x == e);
        } else {
            lemma_occurrences_single(m[e], m[e]);
        }
        assert(s.contains(e) <==> (p.contains(e) || x == e)) by {
            assert(invalidated(m, s) == before.remove(x));
        }
    }
}

proof fn lemma_tick_release_count(m: Map<u64, JointHandle>, removed: Seq<u64>, changed: Seq<u64>, e: u64)
    requires
        one_to_one(m),
        m.contains_key(e),
    ensures
        occurrences(released_in_tick(m, removed, changed), m[e]) == if removed.contains(e)
            || changed.contains(e) {
            1nat
        } else {
            0nat
        },
        after_invalidation(m, removed, changed).contains_key(e) <==> !(removed.contains(e)
            || changed.contains(e)),
        after_invalidation(m, removed, changed).contains_key(e) ==> after_invalidation(
            m,
            removed,
            changed,
        )[e] == m[e],
{
    let m1 = invalidated(m, removed);
    lemma_released_count(m, removed, e);
    lemma_occurrences_concat(released(m, removed), released(m1, changed), m[e]);
    lemma_invalidated_entry(m, removed, e);
    lemma_invalidated_entry(m1, changed, e);
    lemma_invalidated_one_to_one(m, removed);
    if m1.contains_key(e) {
        lemma_released_count(m1, changed, e);
    } else {
        assert forall|k: u64| m1.contains_key(k) implies m1[k] != m[e] by {
            lemma_invalidated_entry(m, removed, k);
        }
        lemma_released_unheld(m1, changed, m[e]);
    }
}

proof fn lemma_plan_passes_over_bound(m: Map<u64, JointHandle>, records: Seq<PendingRecord>, e: u64)
    requires
        m.contains_key(e),
    ensures
        decisions_for(plan(m, records), e) == 0,
    decreases records.len(),
{
    if records.len() > 0 {
        let r = records[0];
        let rest = plan(m, records.skip(1));
        lemma_plan_passes_over_bound(m, records.skip(1), e);
        if !m.contains_key(r.entity) {
            let c = plan(m, records)[0];
            assert((seq![c] + rest).skip(1) =~= rest);
            assert((seq![c] + rest)[0] == c);
        }
    }
}

proof fn lemma_plan_counts(m: Map<u64, JointHandle>, records: Seq<PendingRecord>, e: u64)
    requires
        !m.contains_key(e),
    ensures
        decisions_for(plan(m, records), e) == listed(records, e),
        builds_for(plan(m, records), e) == ready_listed(records, e),
        drops_for(plan(m, records), e) == listed(records, e) - ready_listed(records, e),
        ready_listed(records, e) <= listed(records, e),
    decreases records.len(),
{
    if records.len() > 0 {
        let r = records[0];
        let rest = plan(m, records.skip(1));
        lemma_plan_counts(m, records.skip(1), e);
        if !m.contains_key(r.entity) {
            let c = plan(m, records)[0];
            assert((seq![c] + rest).skip(1) =~= rest);
            assert((seq![c] + rest)[0] == c);
        }
    }
}

/// A joint record that neither went away nor changed keeps its engine joint
/// through a tick: no invalidation pass releases its handle, the creation
/// pass makes no decision about it, and the same handle stays bound to it.
pub proof fn lemma_unchanged_record_keeps_joint(
    table: JointSync,
    removed: Seq<u64>,
    changed: Seq<u64>,
    records: Seq<PendingRecord>,
    entity: u64,
)
    requires
        table.wf(),
        table@.contains_key(entity),
        !removed.contains(entity),
        !changed.contains(entity),
    ensures
        occurrences(released_in_tick(table@, removed, changed), table@[entity]) == 0,
        after_invalidation(table@, removed, changed).contains_key(entity),
        after_invalidation(table@, removed, changed)[entity] == table@[entity],
        decisions_for(plan(after_invalidation(table@, removed, changed), records), entity) == 0,
{
    table.lemma_wf_one_to_one();
    lemma_tick_release_count(table@, removed, changed, entity);
    lemma_plan_passes_over_bound(after_invalidation(table@, removed, changed), records, entity);
}

proof fn lemma_ready_listed_all(records: Seq<PendingRecord>, e: u64)
    requires
        forall|i: int| 0 <= i < records.len() && (#[trigger] records[i]).entity == e ==> resolved(records[i]),
    ensures
        ready_listed(records, e) == listed(records, e),
    decreases records.len(),
{
    if records.len() > 0 {
        assert forall|i: int| 0 <= i < records.skip(1).len() && (#[trigger] records.skip(1)[i]).entity == e
            implies resolved(records.skip(1)[i]) by {
            assert(records.skip(1)[i] == records[i + 1]);
        }
        lemma_ready_listed_all(records.skip(1), e);
    }
}

proof fn lemma_ready_listed_none(records: Seq<PendingRecord>, e: u64)
    requires
        forall|i: int| 0 <= i < records.len() && (#[trigger] records[i]).entity == e ==> !resolved(records[i]),
    ensures
        ready_listed(records, e) == 0,
    decreases records.len(),
{
    if records.len() > 0 {
        assert forall|i: int| 0 <= i < records.skip(1).len() && (#[trigger] records.skip(1)[i]).entity == e
            implies !resolved(records.skip(1)[i]) by {
            assert(records.skip(1)[i] == records[i + 1]);
        }
        lemma_ready_listed_none(records.skip(1), e);
    }
}

/// Every record whose entity has no live joint gets exactly one decision in
/// the creation pass, whatever the other records hold: it is built when both
/// its bodies resolved, and dropped otherwise.
pub proof fn lemma_unbound_records_decided(table: JointSync, records: Seq<PendingRecord>, entity: u64)
    requires
        table.wf(),
        !table@.contains_key(entity),
    ensures
        decisions_for(plan(table@, records), entity) == listed(records, entity),
        builds_for(plan(table@, records), entity) == ready_listed(records, entity),
        drops_for(plan(table@, records), entity) == listed(records, entity) - ready_listed(records, entity),
{
    lemma_plan_counts(table@, records, entity);
}

/// A joint record that changed in place has its engine joint removed exactly
/// once, and, when the entity is listed once with both bodies ready, exactly
/// one new joint is built for it in the same tick, whatever the other records
/// hold.
pub proof fn lemma_changed_record_rebuilt_once(
    table: JointSync,
    removed: Seq<u64>,
    changed: Seq<u64>,
    records: Seq<PendingRecord>,
    entity: u64,
)
    requires
        table.wf(),
        table@.contains_key(entity),
        changed.contains(entity),
        listed(records, entity) == 1,
        forall|i: int| 0 <= i < records.len() && (#[trigger] records[i]).entity == entity ==> resolved(records[i]),
    ensures
        occurrences(released_in_tick(table@, removed, changed), table@[entity]) == 1,
        !after_invalidation(table@, removed, changed).contains_key(entity),
        builds_for(plan(after_invalidation(table@, removed, changed), records), entity) == 1,
        decisions_for(plan(after_invalidation(table@, removed, changed), records), entity) == 1,
{
    table.lemma_wf_one_to_one();
    lemma_tick_release_count(table@, removed, changed, entity);
    lemma_ready_listed_all(records, entity);
    lemma_plan_counts(after_invalidation(table@, removed, changed), records, entity);
}

/// A joint record whose entity has no live joint and one of whose bodies is
/// missing is never built: each listing of it is dropped in the pass, whatever
/// the other records hold.
pub proof fn lemma_orphan_record_dropped(table: JointSync, records: Seq<PendingRecord>, entity: u64)
    requires
        table.wf(),
        !table@.contains_key(entity),
        forall|i: int| 0 <= i < records.len() && (#[trigger] records[i]).entity == entity ==> !resolved(records[i]),
    ensures
        builds_for(plan(table@, records), entity) == 0,
        drops_for(plan(table@, records), entity) == listed(records, entity),
{
    lemma_ready_listed_none(records, entity);
    lemma_plan_counts(table@, records, entity);
}

/// Removing a joint record whose entity has a live engine joint releases that
/// joint exactly once in the tick, and leaves the entity without a joint.
pub proof fn lemma_removed_record_released_once(
    table: JointSync,
    removed: Seq<u64>,
    changed: Seq<u64>,
    entity: u64,
)
    requires
        table.wf(),
        table@.contains_key(entity),
        removed.contains(entity),
    ensures
        occurrences(released_in_tick(table@, removed, changed), table@[entity]) == 1,
        !after_invalidation(table@, removed, changed).contains_key(entity),
{
    table.lemma_wf_one_to_one();
    lemma_tick_release_count(table@, removed, changed, entity);
}

} // verus!
