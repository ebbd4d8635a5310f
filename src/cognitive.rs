//! Derived views and their lifecycle, the promotion gate, and the store of
//! stable, versioned concepts.
use vstd::prelude::*;

use crate::clock::SECONDS_PER_DAY;
use crate::conflict::{conflicting_hypotheses, hypotheses_conflict};
use crate::models::CONFIDENCE_ONE;

verus! {

/// Lifetime of a new view, in days.
pub const VIEW_LIFETIME_DAYS: i64 = 30;

/// The least age, in days, at which a view may be promoted.
pub const PROMOTION_MIN_AGE_DAYS: i64 = 30;

/// Promotion needs a confidence strictly above this (thousandths).
pub const PROMOTION_MIN_CONFIDENCE: u32 = 850;

/// Promotion needs at least this many validations.
pub const PROMOTION_MIN_VALIDATIONS: u32 = 3;

/// Lifecycle state of a derived view.
#[derive(Debug, Clone, Copy, PartialEq, Eq, Structural)]
pub enum ViewStatus {
    Active,
    Expired,
    Promoted,
    Rejected,
}

impl ViewStatus {
    pub open spec fn is_terminal(self) -> bool {
        self != ViewStatus::Active
    }

    pub fn is_active(&self) -> (r: bool)
        ensures
            r == (*self == ViewStatus::Active),
    {
        *self == ViewStatus::Active
    }

    /// Only active views can be promoted.
    pub fn can_be_promoted(&self) -> (r: bool)
        ensures
            r == (*self == ViewStatus::Active),
    {
        *self == ViewStatus::Active
    }

    /// The lowercase name under which the status is stored.
    pub fn as_str(&self) -> (r: &'static str)
    {
        match self {
            ViewStatus::Active => "active",
            ViewStatus::Expired => "expired",
            ViewStatus::Promoted => "promoted",
            ViewStatus::Rejected => "rejected",
        }
    }
}

/// A provisional hypothesis about the owner.
#[derive(Debug, Clone)]
pub struct CognitiveView {
    pub view_id: u64,
    pub user_id: String,
    pub hypothesis: String,
    /// habit, trend, anomaly, routine or preference.
    pub view_type: String,
    pub description: Option<String>,
    /// Supporting event ids.
    pub derived_from: Vec<u64>,
    pub evidence_count: u32,
    /// Thousandths.
    pub confidence: u32,
    pub validation_count: u32,
    pub last_validated_at: Option<i64>,
    pub status: ViewStatus,
    pub created_at: i64,
    pub updated_at: i64,
    pub expires_at: i64,
    pub promoted_to: Option<u64>,
    pub source: String,
    /// Contradicting event ids.
    pub counter_evidence: Vec<u64>,
    pub counter_evidence_count: u32,
}

/// The counter-evidence ratio `counter / max(evidence, 1)` lies strictly
/// below `num / den`.
pub open spec fn counter_ratio_below(v: CognitiveView, num: int, den: int) -> bool {
    let evidence = if v.evidence_count == 0 { 1 } else { v.evidence_count as int };
    v.counter_evidence_count as int * den < num * evidence
}

/// The numeric part of the promotion gate: confidence above 0.85, at least
/// three validations, at least 30 days old, still active, and a
/// counter-evidence ratio below 0.15.
pub open spec fn meets_promotion_thresholds(v: CognitiveView, now: i64) -> bool {
    &&& v.confidence > PROMOTION_MIN_CONFIDENCE
    &&& v.validation_count >= PROMOTION_MIN_VALIDATIONS
    &&& now as int - v.created_at as int >= PROMOTION_MIN_AGE_DAYS * SECONDS_PER_DAY
    &&& v.status == ViewStatus::Active
    &&& counter_ratio_below(v, 15, 100)
}

/// Two distinct views of one owner whose hypotheses contradict each other.
pub open spec fn views_conflict(v: CognitiveView, w: CognitiveView) -> bool {
    &&& v.view_id != w.view_id
    &&& v.user_id@ == w.user_id@
    &&& hypotheses_conflict(v.hypothesis@, w.hypothesis@)
}

/// The whole promotion gate: the thresholds, and no active view among
/// `others` that conflicts with `v`.
pub open spec fn promotable(v: CognitiveView, now: i64, others: Seq<CognitiveView>) -> bool {
    &&& meets_promotion_thresholds(v, now)
    &&& forall|k: int| 0 <= k < others.len() ==> !(others[k].status == ViewStatus::Active && #[trigger] views_conflict(v, others[k]))
}

/// The view is rejected on counter-evidence: ratio above 0.30, counted as
/// zero when there is no evidence.
pub open spec fn rejected_by_counter_evidence(v: CognitiveView) -> bool {
    v.evidence_count > 0 && v.counter_evidence_count as int * 10 > 3 * v.evidence_count as int
}

/// What can happen to a view.
pub enum ViewEvent {
    /// A new supporting observation with the confidence it brings.
    Validate { confidence: u32, at: i64 },
    /// A contradicting event.
    CounterEvidence { event_id: u64 },
    /// Time passes: the view expires once `expires_at` lies before `now`.
    Tick { now: i64 },
    /// Promotion succeeded and the concept was written.
    Promote { concept_id: u64, at: i64 },
    /// Counter-evidence rejected the view.
    Reject { at: i64 },
    /// The back-pointer to the concept is set; allowed in any state.
    LinkConcept { concept_id: u64 },
}

/// The state machine of a view. A terminal view changes only through
/// `LinkConcept`, which touches `promoted_to` alone.
pub open spec fn view_step(v: CognitiveView, e: ViewEvent) -> CognitiveView {
    match e {
        ViewEvent::LinkConcept { concept_id } => CognitiveView { promoted_to: Some(concept_id), ..v },
        _ => if v.status.is_terminal() {
            v
        } else {
            match e {
                ViewEvent::Validate { confidence, at } => CognitiveView {
                    confidence: if confidence > CONFIDENCE_ONE { CONFIDENCE_ONE } else { confidence },
                    validation_count: if v.validation_count < u32::MAX { (v.validation_count + 1) as u32 } else { v.validation_count },
                    last_validated_at: Some(at),
                    updated_at: at,
                    ..v
                },
                ViewEvent::CounterEvidence { event_id } => if v.counter_evidence_count < u32::MAX {
                    CognitiveView {
                        counter_evidence: v.counter_evidence,
                        counter_evidence_count: (v.counter_evidence_count + 1) as u32,
                        ..v
                    }
                } else {
                    v
                },
                ViewEvent::Tick { now } => if v.expires_at < now {
                    CognitiveView { status: ViewStatus::Expired, ..v }
                } else {
                    v
                },
                ViewEvent::Promote { concept_id, at } => CognitiveView {
                    status: ViewStatus::Promoted,
                    promoted_to: Some(concept_id),
                    updated_at: at,
                    ..v
                },
                ViewEvent::Reject { at } => CognitiveView { status: ViewStatus::Rejected, updated_at: at, ..v },
                ViewEvent::LinkConcept { concept_id } => v,
            }
        },
    }
}

/// The fields of two views agree, but for `promoted_to` and the list of
/// counter-evidence ids (whose count is compared).
pub open spec fn same_but_promoted_to(a: CognitiveView, b: CognitiveView) -> bool {
    CognitiveView { promoted_to: None, counter_evidence: b.counter_evidence, ..a } == CognitiveView { promoted_to: None, ..b }
}

/// Once a view is promoted, expired or rejected, no event changes any field
/// of it other than `promoted_to`.
pub proof fn lemma_terminal_view_frozen(v: CognitiveView, e: ViewEvent)
    requires
        v.status.is_terminal(),
    ensures
        same_but_promoted_to(view_step(v, e), v),
        view_step(v, e).counter_evidence == v.counter_evidence,
        view_step(v, e).status == v.status,
{
}

impl CognitiveView {
    /// Counter-evidence ids and their count agree, and the view expires after
    /// it was created.
    pub open spec fn wf(&self) -> bool {
        &&& self.counter_evidence_count as int == self.counter_evidence@.len()
        &&& self.expires_at > self.created_at
        &&& self.confidence <= CONFIDENCE_ONE
    }

    /// A new active view created at `now`, expiring 30 days later, with
    /// confidence 0.5 and its evidence counted from the supporting events.
    pub fn new(view_id: u64, user_id: String, hypothesis: String, view_type: String, derived_from: Vec<u64>, now: i64) -> (r: CognitiveView)
        requires
            now <= i64::MAX - VIEW_LIFETIME_DAYS * SECONDS_PER_DAY,
            derived_from@.len() <= u32::MAX,
        ensures
            r.wf(),
            r.view_id == view_id,
            r.user_id == user_id,
            r.hypothesis == hypothesis,
            r.view_type == view_type,
            r.derived_from == derived_from,
            r.evidence_count == derived_from@.len(),
            r.confidence == 500,
            r.validation_count == 0,
            r.status == ViewStatus::Active,
            r.created_at == now,
            r.expires_at == now + VIEW_LIFETIME_DAYS * SECONDS_PER_DAY,
            r.promoted_to is None,
            r.counter_evidence_count == 0,
    {
        let evidence_count = derived_from.len() as u32;
        CognitiveView {
            view_id,
            user_id,
            hypothesis,
            view_type,
            description: None,
            derived_from,
            evidence_count,
            confidence: 500,
            validation_count: 0,
            last_validated_at: None,
            status: ViewStatus::Active,
            created_at: now,
            updated_at: now,
            expires_at: now + VIEW_LIFETIME_DAYS * SECONDS_PER_DAY,
            promoted_to: None,
            source: "pattern_detector".to_string(),
            counter_evidence: Vec::new(),
            counter_evidence_count: 0,
        }
    }

    /// The view has expired at `now`.
    pub fn is_expired(&self, now: i64) -> (r: bool)
        ensures
            r == (self.expires_at < now),
    {
        self.expires_at < now
    }

    /// Counter-evidence over evidence, in thousandths rounded down; zero when
    /// there is no evidence.
    pub fn counter_evidence_ratio(&self) -> (r: u64)
        ensures
            self.evidence_count == 0 ==> r == 0,
            self.evidence_count > 0 ==> r == self.counter_evidence_count as int * 1000 / self.evidence_count as int,
    {
        if self.evidence_count == 0 {
            return 0;
        }
        (self.counter_evidence_count as u64) * 1000 / (self.evidence_count as u64)
    }

    /// Counter-evidence above 30% of the evidence rejects the view.
    pub fn should_be_rejected(&self) -> (r: bool)
        ensures
            r == rejected_by_counter_evidence(*self),
    {
        self.evidence_count > 0 && (self.counter_evidence_count as u64) * 10 > 3 * (self.evidence_count as u64)
    }

    /// The numeric part of the promotion gate at `now`.
    pub fn is_ready_for_promotion(&self, now: i64) -> (r: bool)
        ensures
            r == meets_promotion_thresholds(*self, now),
    {
        if self.confidence <= PROMOTION_MIN_CONFIDENCE {
            return false;
        }
        if self.validation_count < PROMOTION_MIN_VALIDATIONS {
            return false;
        }
        if (now as i128) - (self.created_at as i128) < (PROMOTION_MIN_AGE_DAYS * SECONDS_PER_DAY) as i128 {
            return false;
        }
        if !self.status.can_be_promoted() {
            return false;
        }
        let evidence: u64 = if self.evidence_count == 0 { 1 } else { self.evidence_count as u64 };
        (self.counter_evidence_count as u64) * 100 < 15 * evidence
    }

    /// Whether this view and `other` are distinct views of one owner with
    /// contradicting hypotheses.
    pub fn has_conflict_with(&self, other: &CognitiveView) -> (r: bool)
        ensures
            r == views_conflict(*self, *other),
    {
        if self.view_id == other.view_id || self.user_id != other.user_id {
            return false;
        }
        conflicting_hypotheses(self.hypothesis.as_str(), other.hypothesis.as_str())
    }

    /// The promotion gate at `now`, against the other views of the store.
    pub fn passes_promotion_gate(&self, now: i64, others: &[CognitiveView]) -> (r: bool)
        ensures
            r == promotable(*self, now, others@),
    {
        if !self.is_ready_for_promotion(now) {
            return false;
        }
        let mut k: usize = 0;
        while k < others.len()
            invariant
                k <= others@.len(),
                meets_promotion_thresholds(*self, now),
                forall|m: int| 0 <= m < k ==> !(others@[m].status == ViewStatus::Active && #[trigger] views_conflict(*self, others@[m])),
            decreases others@.len() - k,
        {
            if others[k].status.is_active() && self.has_conflict_with(&others[k]) {
                return false;
            }
            k += 1;
        }
        true
    }

    /// Applies one lifecycle event.
    pub fn apply(&mut self, e: ViewEvent)
        requires
            old(self).wf(),
        ensures
            final(self).wf(),
            same_but_promoted_to(*final(self), view_step(*old(self), e)),
            final(self).promoted_to == view_step(*old(self), e).promoted_to,
            final(self).counter_evidence@ == if e is CounterEvidence && old(self).status == ViewStatus::Active
                && old(self).counter_evidence_count < u32::MAX {
                old(self).counter_evidence@.push(e->CounterEvidence_event_id)
            } else {
                old(self).counter_evidence@
            },
    {
        match e {
            ViewEvent::LinkConcept { concept_id } => {
                self.promoted_to = Some(concept_id);
            },
            ViewEvent::Validate { confidence, at } => {
                if self.status.is_active() {
                    self.confidence = if confidence > CONFIDENCE_ONE { CONFIDENCE_ONE } else { confidence };
                    if self.validation_count < u32::MAX {
                        self.validation_count = self.validation_count + 1;
                    }
                    self.last_validated_at = Some(at);
                    self.updated_at = at;
                }
            },
            ViewEvent::CounterEvidence { event_id } => {
                if self.status.is_active() && self.counter_evidence_count < u32::MAX {
                    self.counter_evidence.push(event_id);
                    self.counter_evidence_count = self.counter_evidence_count + 1;
                }
            },
            ViewEvent::Tick { now } => {
                if self.status.is_active() && self.expires_at < now {
                    self.status = ViewStatus::Expired;
                }
            },
            ViewEvent::Promote { concept_id, at } => {
                if self.status.is_active() {
                    self.status = ViewStatus::Promoted;
                    self.promoted_to = Some(concept_id);
                    self.updated_at = at;
                }
            },
            ViewEvent::Reject { at } => {
                if self.status.is_active() {
                    self.status = ViewStatus::Rejected;
                    self.updated_at = at;
                }
            },
        }
    }

    /// Records a contradicting event and returns the new counter-evidence count.
    pub fn add_counter_evidence(&mut self, event_id: u64) -> (r: u32)
        requires
            old(self).wf(),
        ensures
            final(self).wf(),
            same_but_promoted_to(*final(self), view_step(*old(self), ViewEvent::CounterEvidence { event_id })),
            (CognitiveView {
                counter_evidence: old(self).counter_evidence,
                counter_evidence_count: old(self).counter_evidence_count,
                ..*final(self)
            }) == *old(self),
            final(self).counter_evidence_count == if old(self).status == ViewStatus::Active && old(self).counter_evidence_count < u32::MAX {
                (old(self).counter_evidence_count + 1) as u32
            } else {
                old(self).counter_evidence_count
            },
            r == final(self).counter_evidence_count,
            final(self).promoted_to == old(self).promoted_to,
            final(self).counter_evidence@ == if old(self).status == ViewStatus::Active && old(self).counter_evidence_count < u32::MAX {
                old(self).counter_evidence@.push(event_id)
            } else {
                old(self).counter_evidence@
            },
    {
        self.apply(ViewEvent::CounterEvidence { event_id });
        self.counter_evidence_count
    }
}

/// A view with no evidence is never rejected on counter-evidence: its ratio
/// counts as zero.
pub proof fn lemma_zero_evidence_ratio(v: CognitiveView)
    requires
        v.evidence_count == 0,
    ensures
        !rejected_by_counter_evidence(v),
{
}

/// Every view the promotion rule admits has confidence above 0.85, at least three
/// validations, an age of at least 30 days and a counter-evidence ratio
/// below 0.15.
pub proof fn lemma_promoted_view_thresholds(v: CognitiveView, now: i64, others: Seq<CognitiveView>)
    requires
        promotable(v, now, others),
    ensures
        v.confidence > 850,
        v.validation_count >= 3,
        now as int - v.created_at as int >= 30 * 86400,
        v.counter_evidence_count as int * 100 < 15 * (if v.evidence_count == 0 { 1 } else { v.evidence_count as int }),
{
}

/// A view exactly 30 days old with confidence exactly 0.85 is not promoted:
/// the confidence bound is strict and the age bound inclusive.
pub proof fn lemma_confidence_bound_is_strict(v: CognitiveView, now: i64, others: Seq<CognitiveView>)
    requires
        v.confidence == 850,
    ensures
        !promotable(v, now, others),
{
}

} // verus!
