use heron_joints::{BodyHandle, Completion, Creation, JointHandle, JointSync, PendingRecord};

fn jh(index: u32, generation: u32) -> JointHandle {
    JointHandle { index, generation }
}

fn bh(index: u32) -> BodyHandle {
    BodyHandle { index, generation: 0 }
}

fn ready(entity: u64, b1: u32, b2: u32) -> PendingRecord {
    PendingRecord { entity, body_1: Some(bh(b1)), body_2: Some(bh(b2)) }
}

#[test]
fn new_table_is_empty() {
    let t = JointSync::new();
    assert_eq!(t.handle_of(1), None);
    assert_eq!(t.entity_of(jh(0, 0)), None);
}

#[test]
fn attach_binds_both_ways() {
    let mut t = JointSync::new();
    assert!(t.attach(7, jh(3, 1)));
    assert_eq!(t.handle_of(7), Some(jh(3, 1)));
    assert_eq!(t.entity_of(jh(3, 1)), Some(7));
    assert_eq!(t.entity_of(jh(3, 2)), None);
    assert_eq!(t.entity_of(jh(4, 1)), None);
}

#[test]
fn attach_refuses_bound_entity_or_handle() {
    let mut t = JointSync::new();
    assert!(t.attach(7, jh(3, 1)));
    assert!(!t.attach(7, jh(4, 1)));
    assert!(!t.attach(8, jh(3, 1)));
    assert_eq!(t.handle_of(7), Some(jh(3, 1)));
    assert_eq!(t.handle_of(8), None);
}

#[test]
fn handle_keys_separate_index_and_generation() {
    assert_eq!(jh(5, 0).key(), 5);
    assert_eq!(jh(0, 1).key(), 1u64 << 32);
    assert_eq!(jh(u32::MAX, u32::MAX).key(), u64::MAX);
    assert_ne!(jh(1, 2).key(), jh(2, 1).key());
}

#[test]
fn invalidate_releases_handle_once() {
    let mut t = JointSync::new();
    assert!(t.attach(1, jh(10, 0)));
    assert_eq!(t.invalidate(1), Some(jh(10, 0)));
    assert_eq!(t.invalidate(1), None);
    assert_eq!(t.handle_of(1), None);
    assert_eq!(t.entity_of(jh(10, 0)), None);
}

#[test]
fn invalidate_all_skips_unbound_and_repeats() {
    let mut t = JointSync::new();
    assert!(t.attach(1, jh(10, 0)));
    assert!(t.attach(2, jh(11, 0)));
    assert!(t.attach(3, jh(12, 0)));
    let r = t.invalidate_all(&vec![3, 9, 1, 3]);
    assert_eq!(r, vec![jh(12, 0), jh(10, 0)]);
    assert_eq!(t.handle_of(2), Some(jh(11, 0)));
    assert_eq!(t.handle_of(1), None);
    assert_eq!(t.handle_of(3), None);
}

#[test]
fn removed_record_loses_its_joint_in_one_pass() {
    let mut t = JointSync::new();
    assert!(t.attach(5, jh(1, 0)));
    let released = t.invalidation_pass(&vec![5], &vec![]);
    assert_eq!(released, vec![jh(1, 0)]);
    assert_eq!(t.handle_of(5), None);
    let plan = t.creation_plan(&vec![]);
    assert!(plan.is_empty());
}

#[test]
fn removed_and_changed_releases_once() {
    let mut t = JointSync::new();
    assert!(t.attach(5, jh(1, 0)));
    let released = t.invalidation_pass(&vec![5], &vec![5]);
    assert_eq!(released, vec![jh(1, 0)]);
}

#[test]
fn unchanged_record_keeps_handle_across_ticks() {
    let mut t = JointSync::new();
    assert!(t.attach(5, jh(1, 0)));
    assert!(t.attach(6, jh(2, 0)));
    for _ in 0..2 {
        let released = t.invalidation_pass(&vec![], &vec![6]);
        assert!(!released.contains(&jh(1, 0)));
        let plan = t.creation_plan(&vec![ready(5, 0, 1), ready(6, 0, 2)]);
        assert_eq!(plan, vec![Creation::Build { entity: 6, body_1: bh(0), body_2: bh(2) }]);
        assert_eq!(t.complete_build(6, Some(jh(2, 0))), Completion::Attached);
        assert_eq!(t.handle_of(5), Some(jh(1, 0)));
    }
}

#[test]
fn changed_record_is_rebuilt_once() {
    let mut t = JointSync::new();
    assert!(t.attach(4, jh(0, 0)));
    let released = t.invalidation_pass(&vec![], &vec![4]);
    assert_eq!(released, vec![jh(0, 0)]);
    let plan = t.creation_plan(&vec![ready(4, 1, 2)]);
    assert_eq!(plan, vec![Creation::Build { entity: 4, body_1: bh(1), body_2: bh(2) }]);
    assert_eq!(t.complete_build(4, Some(jh(0, 1))), Completion::Attached);
    assert_eq!(t.handle_of(4), Some(jh(0, 1)));
    let released = t.invalidation_pass(&vec![], &vec![]);
    assert!(released.is_empty());
    assert!(t.creation_plan(&vec![ready(4, 1, 2)]).is_empty());
}

#[test]
fn orphan_record_is_dropped_and_pass_goes_on() {
    let t = JointSync::new();
    let records = vec![
        ready(1, 0, 1),
        PendingRecord { entity: 2, body_1: Some(bh(0)), body_2: None },
        ready(3, 0, 1),
    ];
    let plan = t.creation_plan(&records);
    assert_eq!(
        plan,
        vec![
            Creation::Build { entity: 1, body_1: bh(0), body_2: bh(1) },
            Creation::Drop { entity: 2 },
            Creation::Build { entity: 3, body_1: bh(0), body_2: bh(1) },
        ]
    );
}

#[test]
fn every_orphan_record_is_dropped() {
    let t = JointSync::new();
    let records = vec![
        PendingRecord { entity: 1, body_1: None, body_2: Some(bh(1)) },
        PendingRecord { entity: 2, body_1: Some(bh(0)), body_2: None },
    ];
    assert_eq!(
        t.creation_plan(&records),
        vec![Creation::Drop { entity: 1 }, Creation::Drop { entity: 2 }]
    );
}

#[test]
fn changed_record_after_orphan_is_rebuilt() {
    let mut t = JointSync::new();
    assert!(t.attach(4, jh(0, 0)));
    let released = t.invalidation_pass(&vec![], &vec![4]);
    assert_eq!(released, vec![jh(0, 0)]);
    let records = vec![PendingRecord { entity: 9, body_1: None, body_2: None }, ready(4, 1, 2)];
    let plan = t.creation_plan(&records);
    assert_eq!(
        plan,
        vec![Creation::Drop { entity: 9 }, Creation::Build { entity: 4, body_1: bh(1), body_2: bh(2) }]
    );
    assert_eq!(t.complete_build(4, Some(jh(0, 1))), Completion::Attached);
    assert_eq!(t.handle_of(4), Some(jh(0, 1)));
}

#[test]
fn record_missing_first_body_is_dropped() {
    let t = JointSync::new();
    let records = vec![PendingRecord { entity: 2, body_1: None, body_2: Some(bh(1)) }];
    assert_eq!(t.creation_plan(&records), vec![Creation::Drop { entity: 2 }]);
}

#[test]
fn bound_records_are_passed_over() {
    let mut t = JointSync::new();
    assert!(t.attach(1, jh(0, 0)));
    let records = vec![
        PendingRecord { entity: 1, body_1: None, body_2: None },
        ready(2, 3, 4),
    ];
    assert_eq!(
        t.creation_plan(&records),
        vec![Creation::Build { entity: 2, body_1: bh(3), body_2: bh(4) }]
    );
}

#[test]
fn engine_refusal_drops_record() {
    let mut t = JointSync::new();
    assert_eq!(t.complete_build(1, None), Completion::DropRecord);
    assert_eq!(t.handle_of(1), None);
}

#[test]
fn conflicting_build_is_discarded() {
    let mut t = JointSync::new();
    assert_eq!(t.complete_build(1, Some(jh(0, 0))), Completion::Attached);
    assert_eq!(t.complete_build(1, Some(jh(1, 0))), Completion::DiscardJoint(jh(1, 0)));
    assert_eq!(t.complete_build(2, Some(jh(0, 0))), Completion::DiscardJoint(jh(0, 0)));
    assert_eq!(t.handle_of(1), Some(jh(0, 0)));
    assert_eq!(t.handle_of(2), None);
}
