use dirsoul::cognitive::{CognitiveView, ViewEvent, ViewStatus};
use dirsoul::concept::{CognitiveStore, ConceptStore, SweepOutcome};

const DAY: i64 = 86400;
const T0: i64 = 1_700_000_000;

fn view(id: u64, hypothesis: &str, evidence: usize, now: i64) -> CognitiveView {
    let ids: Vec<u64> = (0..evidence as u64).collect();
    CognitiveView::new(id, "test_user".to_string(), hypothesis.to_string(), "preference".to_string(), ids, now)
}

#[test]
fn test_view_status_active() {
    assert!(ViewStatus::Active.is_active());
    assert!(!ViewStatus::Expired.is_active());
    assert!(ViewStatus::Active.can_be_promoted());
    assert!(!ViewStatus::Promoted.can_be_promoted());
    assert_eq!(ViewStatus::Rejected.as_str(), "rejected");
}

#[test]
fn test_new_cognitive_view() {
    let v = view(0, "用户喜欢吃水果", 3, T0);
    assert_eq!(v.hypothesis, "用户喜欢吃水果");
    assert_eq!(v.evidence_count, 3);
    assert_eq!(v.confidence, 500);
    assert_eq!(v.status, ViewStatus::Active);
    assert_eq!(v.expires_at, T0 + 30 * DAY);
    assert_eq!(v.counter_evidence_count, 0);
}

#[test]
fn test_cognitive_view_ready_for_promotion() {
    let mut v = view(0, "用户喜欢吃水果", 10, T0);
    v.confidence = 900;
    v.validation_count = 5;
    assert!(v.is_ready_for_promotion(T0 + 31 * DAY));
    assert!(!v.is_ready_for_promotion(T0 + 10 * DAY));
    v.confidence = 800;
    assert!(!v.is_ready_for_promotion(T0 + 31 * DAY));
    v.confidence = 900;
    v.validation_count = 2;
    assert!(!v.is_ready_for_promotion(T0 + 31 * DAY));
}

#[test]
fn test_promotion_boundary_strict_confidence_inclusive_age() {
    let mut v = view(0, "用户喜欢喝咖啡", 10, T0);
    v.confidence = 850;
    v.validation_count = 5;
    assert!(!v.is_ready_for_promotion(T0 + 30 * DAY));
    v.confidence = 851;
    assert!(v.is_ready_for_promotion(T0 + 30 * DAY));
    assert!(!v.is_ready_for_promotion(T0 + 30 * DAY - 1));
}

#[test]
fn test_counter_evidence_ratio() {
    let mut v = view(0, "用户喜欢吃水果", 10, T0);
    assert_eq!(v.counter_evidence_ratio(), 0);
    v.add_counter_evidence(100);
    assert_eq!(v.counter_evidence_ratio(), 100);
    v.add_counter_evidence(101);
    assert_eq!(v.counter_evidence_ratio(), 200);
    let empty = view(1, "用户喜欢吃水果", 0, T0);
    assert_eq!(empty.counter_evidence_ratio(), 0);
}

#[test]
fn test_zero_evidence_ratio_is_zero() {
    let mut v = view(0, "用户喜欢吃水果", 0, T0);
    v.add_counter_evidence(7);
    assert_eq!(v.counter_evidence_ratio(), 0);
    assert!(!v.should_be_rejected());
}

#[test]
fn test_should_be_rejected() {
    let mut v = view(0, "用户喜欢吃水果", 10, T0);
    for i in 0..3 {
        v.add_counter_evidence(i);
    }
    assert!(!v.should_be_rejected());
    v.add_counter_evidence(3);
    assert!(v.should_be_rejected());
}

#[test]
fn test_promotion_gate_with_counter_evidence() {
    let mut v = view(0, "用户喜欢吃水果", 10, T0);
    v.confidence = 900;
    v.validation_count = 5;
    v.add_counter_evidence(1);
    assert!(v.is_ready_for_promotion(T0 + 31 * DAY));
    v.add_counter_evidence(2);
    assert!(!v.is_ready_for_promotion(T0 + 31 * DAY));
}

#[test]
fn test_has_conflict_with() {
    let a = view(0, "用户喜欢吃水果", 5, T0);
    let b = view(1, "用户讨厌吃水果", 5, T0);
    let c = view(2, "用户讨厌吃蔬菜", 5, T0);
    let d = view(3, "用户经常跑步", 5, T0);
    assert!(a.has_conflict_with(&b));
    assert!(b.has_conflict_with(&a));
    assert!(!a.has_conflict_with(&c));
    assert!(!a.has_conflict_with(&d));
    assert!(!a.has_conflict_with(&a));
}

#[test]
fn test_add_counter_evidence() {
    let mut v = view(0, "用户喜欢吃水果", 5, T0);
    assert_eq!(v.add_counter_evidence(42), 1);
    assert_eq!(v.add_counter_evidence(43), 2);
    assert_eq!(v.counter_evidence, vec![42, 43]);
}

#[test]
fn test_terminal_view_unchanged_but_back_pointer() {
    let mut v = view(0, "用户喜欢吃水果", 5, T0);
    v.apply(ViewEvent::Reject { at: T0 + 1 });
    assert_eq!(v.status, ViewStatus::Rejected);
    v.apply(ViewEvent::Validate { confidence: 990, at: T0 + 2 });
    v.apply(ViewEvent::CounterEvidence { event_id: 9 });
    v.apply(ViewEvent::Tick { now: T0 + 100 * DAY });
    assert_eq!(v.status, ViewStatus::Rejected);
    assert_eq!(v.confidence, 500);
    assert_eq!(v.validation_count, 0);
    assert_eq!(v.counter_evidence_count, 0);
    assert_eq!(v.updated_at, T0 + 1);
    v.apply(ViewEvent::LinkConcept { concept_id: 4 });
    assert_eq!(v.promoted_to, Some(4));
    assert_eq!(v.status, ViewStatus::Rejected);
}

#[test]
fn test_view_expiration() {
    let mut v = view(0, "用户喜欢吃水果", 5, T0);
    assert!(!v.is_expired(T0 + 30 * DAY));
    assert!(v.is_expired(T0 + 30 * DAY + 1));
    v.apply(ViewEvent::Tick { now: T0 + 31 * DAY });
    assert_eq!(v.status, ViewStatus::Expired);
}

fn mature(store: &mut CognitiveStore, i: usize, at: i64) {
    for _ in 0..5 {
        store.step_view(i, ViewEvent::Validate { confidence: 900, at });
    }
}

#[test]
fn test_daily_habit_promotion() {
    let mut store = CognitiveStore::new();
    let id = store.add_view("test_user".to_string(), "用户每天喝咖啡".to_string(), "habit".to_string(), (0..35).collect(), T0);
    mature(&mut store, id as usize, T0 + DAY);
    let outcome = store.sweep_view(id as usize, T0 + 32 * DAY);
    assert_eq!(outcome, SweepOutcome::Promoted(0));
    let c = &store.concepts.concepts[0];
    assert_eq!(c.canonical_name, "用户每天喝咖啡");
    assert_eq!(c.version, 1);
    assert!(!c.is_deprecated);
    assert_eq!(c.promoted_from, Some(id));
    assert_eq!(store.views[0].status, ViewStatus::Promoted);
    assert_eq!(store.views[0].promoted_to, Some(0));
}

#[test]
fn test_counter_evidence_rejection() {
    let mut store = CognitiveStore::new();
    let id = store.add_view("test_user".to_string(), "用户喜欢吃苹果".to_string(), "habit".to_string(), (0..20).collect(), T0);
    mature(&mut store, 0, T0 + DAY);
    for e in 0..7 {
        store.step_view(0, ViewEvent::CounterEvidence { event_id: 100 + e });
    }
    assert_eq!(store.views[0].counter_evidence_count, 7);
    let outcome = store.sweep_view(id as usize, T0 + 32 * DAY);
    assert_eq!(outcome, SweepOutcome::Rejected);
    assert_eq!(store.views[0].status, ViewStatus::Rejected);
    assert_eq!(store.concepts.len(), 0);
}

#[test]
fn test_conflict_blocks_promotion() {
    let mut store = CognitiveStore::new();
    store.add_view("test_user".to_string(), "用户喜欢吃水果".to_string(), "preference".to_string(), (0..10).collect(), T0);
    store.add_view("test_user".to_string(), "用户讨厌吃水果".to_string(), "preference".to_string(), (10..20).collect(), T0);
    mature(&mut store, 0, T0 + DAY);
    mature(&mut store, 1, T0 + DAY);
    assert!(store.views[1].is_ready_for_promotion(T0 + 30 * DAY));
    assert_eq!(store.sweep_view(1, T0 + 30 * DAY), SweepOutcome::Kept);
    assert_eq!(store.sweep_view(0, T0 + 30 * DAY), SweepOutcome::Kept);
    assert_eq!(store.concepts.len(), 0);
    assert_eq!(store.views[0].status, ViewStatus::Active);
    assert_eq!(store.views[1].status, ViewStatus::Active);
}

#[test]
fn test_sweep_expires_stale_view() {
    let mut store = CognitiveStore::new();
    store.add_view("test_user".to_string(), "用户喜欢散步".to_string(), "habit".to_string(), vec![1], T0);
    assert_eq!(store.sweep_view(0, T0 + 31 * DAY), SweepOutcome::Expired);
    assert_eq!(store.views[0].status, ViewStatus::Expired);
}

#[test]
fn test_create_new_version() {
    let mut store = ConceptStore::new();
    let v1 = store
        .insert_version("u".to_string(), "likes_fruit".to_string(), "Likes fruit".to_string(), "preference".to_string(), None, "{}".to_string(), Some(3), 900, "promotion_gate".to_string(), T0)
        .unwrap();
    let v2 = store
        .insert_version("u".to_string(), "likes_fruit".to_string(), "Loves fruit".to_string(), "preference".to_string(), None, "{}".to_string(), Some(4), 950, "promotion_gate".to_string(), T0 + DAY)
        .unwrap();
    assert_eq!(v1, 0);
    assert_eq!(v2, 1);
    let old = &store.concepts[0];
    let new = &store.concepts[1];
    assert_eq!(new.version, 2);
    assert_eq!(new.parent_concept_id, Some(0));
    assert!(!new.is_deprecated);
    assert!(old.is_deprecated);
    assert_eq!(old.deprecated_at, Some(T0 + DAY));
    assert!(new.is_latest_version());
    assert!(!old.is_active());
    assert!(new.can_rollback());
    assert!(!old.can_rollback());
    assert_eq!(new.version_string(), "v2");
}

#[test]
fn test_separate_owners_keep_separate_chains() {
    let mut store = ConceptStore::new();
    store.insert_version("a".to_string(), "x".to_string(), "X".to_string(), "t".to_string(), None, "{}".to_string(), None, 900, "s".to_string(), T0).unwrap();
    store.insert_version("b".to_string(), "x".to_string(), "X".to_string(), "t".to_string(), None, "{}".to_string(), None, 900, "s".to_string(), T0).unwrap();
    assert_eq!(store.concepts[1].version, 1);
    assert!(!store.concepts[0].is_deprecated);
    assert!(!store.concepts[1].is_deprecated);
}

#[test]
fn test_create_rollback_version() {
    let mut store = ConceptStore::new();
    store.insert_version("u".to_string(), "likes_fruit".to_string(), "Likes fruit".to_string(), "preference".to_string(), Some("first".to_string()), "{\"a\":1}".to_string(), Some(1), 900, "promotion_gate".to_string(), T0).unwrap();
    store.insert_version("u".to_string(), "likes_fruit".to_string(), "Loves fruit".to_string(), "preference".to_string(), Some("second".to_string()), "{\"a\":2}".to_string(), Some(2), 950, "promotion_gate".to_string(), T0 + DAY).unwrap();
    let id = store.rollback(1, 0, T0 + 2 * DAY).unwrap();
    assert_eq!(id, 2);
    let r = &store.concepts[2];
    assert_eq!(r.display_name, "Likes fruit");
    assert_eq!(r.description, Some("first".to_string()));
    assert_eq!(r.definition, "{\"a\":1}");
    assert_eq!(r.version, 3);
    assert_eq!(r.parent_concept_id, Some(1));
    assert_eq!(r.source, "rollback_from_v2");
    assert!(store.concepts[1].is_deprecated);
    assert!(store.rollback(1, 0, T0).is_err());
}

#[test]
fn test_stable_concept_increment_access() {
    let mut store = ConceptStore::new();
    store.insert_version("u".to_string(), "likes_fruit".to_string(), "Likes fruit".to_string(), "preference".to_string(), None, "{}".to_string(), None, 900, "s".to_string(), T0).unwrap();
    store.record_access(0, T0 + 5);
    store.record_access(0, T0 + 9);
    assert_eq!(store.concepts[0].access_count, 2);
    assert_eq!(store.concepts[0].last_accessed_at, Some(T0 + 9));
}

#[test]
fn test_promotion_sweep() {
    let mut store = CognitiveStore::new();
    store.add_view("u".to_string(), "用户每天跑步".to_string(), "habit".to_string(), (0..10).collect(), T0);
    store.add_view("u".to_string(), "用户喜欢吃苹果".to_string(), "habit".to_string(), (0..10).collect(), T0);
    store.add_view("u".to_string(), "用户很少看书".to_string(), "habit".to_string(), (0..10).collect(), T0 + 20 * DAY);
    mature(&mut store, 0, T0 + DAY);
    for e in 0..4 {
        store.step_view(1, ViewEvent::CounterEvidence { event_id: e });
    }
    let outcomes = store.promotion_sweep(T0 + 30 * DAY);
    assert_eq!(outcomes, vec![SweepOutcome::Promoted(0), SweepOutcome::Rejected, SweepOutcome::Kept]);
    assert_eq!(store.concepts.len(), 1);
}
