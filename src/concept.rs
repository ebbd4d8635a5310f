//! Stable concepts: validated beliefs kept as a chain of versions, and the
//! store that promotes views into them.
use vstd::prelude::*;

use crate::cognitive::{
    meets_promotion_thresholds, promotable, rejected_by_counter_evidence, view_step, CognitiveView, ViewEvent, ViewStatus,
};
use crate::error::DirSoulError;
use crate::text::{decimal, decimal_string};

verus! {

/// A validated, versioned belief. A new version is a new row whose parent
/// is the version it supersedes.
#[derive(Debug, Clone)]
pub struct StableConcept {
    pub concept_id: u64,
    pub user_id: String,
    pub canonical_name: String,
    pub display_name: String,
    pub concept_type: String,
    pub description: Option<String>,
    /// Structured definition, as JSON text.
    pub definition: String,
    pub version: u64,
    pub parent_concept_id: Option<u64>,
    pub is_deprecated: bool,
    pub promoted_from: Option<u64>,
    pub promoted_at: i64,
    /// Thousandths.
    pub promotion_confidence: u32,
    pub created_at: i64,
    pub updated_at: i64,
    pub deprecated_at: Option<i64>,
    pub access_count: u64,
    pub last_accessed_at: Option<i64>,
    pub source: String,
    /// Free-form metadata, as JSON text.
    pub metadata: String,
}

fn copy_opt(s: &Option<String>) -> (r: Option<String>)
    ensures
        r == *s,
{
    match s {
        Some(t) => Some(t.clone()),
        None => None,
    }
}

impl StableConcept {
    /// A field-by-field copy.
    pub fn duplicate(&self) -> (r: StableConcept)
        ensures
            r == *self,
    {
        StableConcept {
            concept_id: self.concept_id,
            user_id: self.user_id.clone(),
            canonical_name: self.canonical_name.clone(),
            display_name: self.display_name.clone(),
            concept_type: self.concept_type.clone(),
            description: copy_opt(&self.description),
            definition: self.definition.clone(),
            version: self.version,
            parent_concept_id: self.parent_concept_id,
            is_deprecated: self.is_deprecated,
            promoted_from: self.promoted_from,
            promoted_at: self.promoted_at,
            promotion_confidence: self.promotion_confidence,
            created_at: self.created_at,
            updated_at: self.updated_at,
            deprecated_at: self.deprecated_at,
            access_count: self.access_count,
            last_accessed_at: self.last_accessed_at,
            source: self.source.clone(),
            metadata: self.metadata.clone(),
        }
    }

    /// The current version of its name: not deprecated.
    pub fn is_active(&self) -> (r: bool)
        ensures
            r == !self.is_deprecated,
    {
        !self.is_deprecated
    }

    pub fn is_latest_version(&self) -> (r: bool)
        ensures
            r == !self.is_deprecated,
    {
        !self.is_deprecated
    }

    /// A concept with a parent can be rolled back to it.
    pub fn can_rollback(&self) -> (r: bool)
        ensures
            r == self.parent_concept_id.is_some(),
    {
        self.parent_concept_id.is_some()
    }

    /// `v` followed by the version number.
    pub fn version_string(&self) -> (r: String)
        ensures
            r@ == seq!['v'] + decimal(self.version as nat),
    {
        let mut s = String::new();
        s.push('v');
        let d = decimal_string(self.version);
        let r = s.concat(d.as_str());
        assert(r@ =~= seq!['v'] + decimal(self.version as nat));
        r
    }
}

/// Two concepts carry the same owner and canonical name.
pub open spec fn same_key(a: StableConcept, b: StableConcept) -> bool {
    a.user_id@ == b.user_id@ && a.canonical_name@ == b.canonical_name@
}

/// Concept `i` of `cs` is the current (not deprecated) version of the owner
/// and name given.
pub open spec fn is_current_for(cs: Seq<StableConcept>, i: int, user: Seq<char>, name: Seq<char>) -> bool {
    0 <= i < cs.len() && !cs[i].is_deprecated && cs[i].user_id@ == user && cs[i].canonical_name@ == name
}

/// Each row's id is its position; a parent comes earlier, has the same owner
/// and name and a smaller version; versions start at one; and at most one
/// row per owner and name is not deprecated.
#[verifier::opaque]
pub open spec fn concepts_wf(cs: Seq<StableConcept>) -> bool {
    &&& forall|i: int| 0 <= i < cs.len() ==> (#[trigger] cs[i]).concept_id == i
    &&& forall|i: int| 0 <= i < cs.len() ==> (#[trigger] cs[i]).version >= 1
    &&& forall|i: int| 0 <= i < cs.len() && (#[trigger] cs[i]).parent_concept_id is Some ==> {
            let p = cs[i].parent_concept_id->Some_0 as int;
            &&& 0 <= p < i
            &&& cs[p].version < cs[i].version
            &&& same_key(cs[p], cs[i])
        }
    &&& forall|i: int, j: int| 0 <= i < cs.len() && 0 <= j < cs.len() && i != j
            && !(#[trigger] cs[i]).is_deprecated && !(#[trigger] cs[j]).is_deprecated ==> !same_key(cs[i], cs[j])
}

/// Along every parent link versions strictly increase, and at most one row
/// per owner and canonical name is not deprecated.
pub proof fn lemma_concept_chain(cs: Seq<StableConcept>, i: int, j: int)
    requires
        concepts_wf(cs),
        0 <= i < cs.len(),
        0 <= j < cs.len(),
    ensures
        cs[i].parent_concept_id is Some ==> cs[cs[i].parent_concept_id->Some_0 as int].version < cs[i].version,
        i != j && same_key(cs[i], cs[j]) ==> cs[i].is_deprecated || cs[j].is_deprecated,
{
    reveal(concepts_wf);
}

/// Two rows agree on what the store's invariant reads.
pub open spec fn same_structure(a: StableConcept, b: StableConcept) -> bool {
    &&& a.concept_id == b.concept_id
    &&& a.version == b.version
    &&& a.parent_concept_id == b.parent_concept_id
    &&& a.is_deprecated == b.is_deprecated
    &&& a.user_id@ == b.user_id@
    &&& a.canonical_name@ == b.canonical_name@
}

proof fn lemma_wf_same_structure(before: Seq<StableConcept>, after: Seq<StableConcept>)
    requires
        concepts_wf(before),
        before.len() == after.len(),
        forall|k: int| 0 <= k < before.len() ==> same_structure(#[trigger] after[k], before[k]),
    ensures
        concepts_wf(after),
{
    reveal(concepts_wf);
    assert forall|i: int| 0 <= i < after.len() && (#[trigger] after[i]).parent_concept_id is Some implies ({
        let p = after[i].parent_concept_id->Some_0 as int;
        &&& 0 <= p < i
        &&& after[p].version < after[i].version
        &&& same_key(after[p], after[i])
    }) by {
        assert(same_structure(after[i], before[i]));
        assert(before[i].parent_concept_id is Some);
        let p = after[i].parent_concept_id->Some_0 as int;
        assert(same_structure(after[p], before[p]));
    }
    assert forall|i: int, j: int| 0 <= i < after.len() && 0 <= j < after.len() && i != j
        && !(#[trigger] after[i]).is_deprecated && !(#[trigger] after[j]).is_deprecated implies !same_key(after[i], after[j]) by {
        assert(same_structure(after[i], before[i]));
        assert(same_structure(after[j], before[j]));
        assert(!before[i].is_deprecated);
        assert(!before[j].is_deprecated);
    }
    assert forall|i: int| 0 <= i < after.len() implies (#[trigger] after[i]).version >= 1 by {
        assert(same_structure(after[i], before[i]));
    }
    assert forall|i: int| 0 <= i < after.len() implies (#[trigger] after[i]).concept_id == i by {
        assert(same_structure(after[i], before[i]));
    }
}

/// The concepts of all owners, addressed by id.
pub struct ConceptStore {
    pub concepts: Vec<StableConcept>,
}

impl ConceptStore {
    pub open spec fn wf(&self) -> bool {
        concepts_wf(self.concepts@)
    }

    pub fn new() -> (r: ConceptStore)
        ensures
            r.wf(),
            r.concepts@.len() == 0,
    {
        let r = ConceptStore { concepts: Vec::new() };
        proof {
            reveal(concepts_wf);
        }
        r
    }

    pub fn len(&self) -> (r: usize)
        ensures
            r == self.concepts@.len(),
    {
        self.concepts.len()
    }

    /// The current version for an owner and name, if there is one.
    pub fn find_current(&self, user_id: &String, canonical_name: &String) -> (r: Option<usize>)
        requires
            self.wf(),
        ensures
            r is Some ==> is_current_for(self.concepts@, r->Some_0 as int, user_id@, canonical_name@),
            r is None ==> forall|i: int| !is_current_for(self.concepts@, i, user_id@, canonical_name@),
    {
        let mut i: usize = 0;
        while i < self.concepts.len()
            invariant
                i <= self.concepts@.len(),
                forall|k: int| 0 <= k < i ==> !is_current_for(self.concepts@, k, user_id@, canonical_name@),
            decreases self.concepts@.len() - i,
        {
            let c = &self.concepts[i];
            if !c.is_deprecated && c.user_id == *user_id && c.canonical_name == *canonical_name {
                return Some(i);
            }
            i += 1;
        }
        None
    }

    /// Marks row `i` deprecated at `now`; the rest of it is left as it is.
    fn deprecate_row(&mut self, i: usize, now: i64)
        requires
            i < old(self).concepts@.len(),
        ensures
            final(self).concepts@.len() == old(self).concepts@.len(),
            final(self).concepts@[i as int] == (StableConcept {
                is_deprecated: true,
                deprecated_at: Some(now),
                updated_at: now,
                ..old(self).concepts@[i as int]
            }),
            forall|k: int| 0 <= k < old(self).concepts@.len() && k != i ==> final(self).concepts@[k] == old(self).concepts@[k],
    {
        let mut c = self.concepts[i].duplicate();
        c.is_deprecated = true;
        c.deprecated_at = Some(now);
        c.updated_at = now;
        self.concepts.set(i, c);
    }

    /// Writes a new current version for the owner and name: version 1 with
    /// no parent when there is none, otherwise the next version after the
    /// current one, whose row is deprecated at `now`. Returns the new id.
    #[verifier::rlimit(100)]
    pub fn insert_version(
        &mut self,
        user_id: String,
        canonical_name: String,
        display_name: String,
        concept_type: String,
        description: Option<String>,
        definition: String,
        promoted_from: Option<u64>,
        promotion_confidence: u32,
        source: String,
        now: i64,
    ) -> (r: Result<u64, DirSoulError>)
        requires
            old(self).wf(),
            old(self).concepts@.len() < u64::MAX,
        ensures
            final(self).wf(),
            r is Err <==> exists|i: int| is_current_for(old(self).concepts@, i, user_id@, canonical_name@)
                && old(self).concepts@[i].version == u64::MAX,
            r is Err ==> final(self).concepts@ == old(self).concepts@,
            r is Ok ==> ({
                let id = r->Ok_0 as int;
                let c = final(self).concepts@[id];
                &&& id == old(self).concepts@.len()
                &&& final(self).concepts@.len() == old(self).concepts@.len() + 1
                &&& c.user_id == user_id
                &&& c.canonical_name == canonical_name
                &&& c.display_name == display_name
                &&& c.concept_type == concept_type
                &&& c.description == description
                &&& c.definition == definition
                &&& c.promoted_from == promoted_from
                &&& c.promotion_confidence == promotion_confidence
                &&& !c.is_deprecated
                &&& c.deprecated_at is None
                &&& c.source == source
                &&& c.created_at == now
                &&& c.access_count == 0
                &&& (forall|i: int| !is_current_for(old(self).concepts@, i, user_id@, canonical_name@)) ==> {
                    &&& c.version == 1
                    &&& c.parent_concept_id is None
                    &&& forall|k: int| 0 <= k < id ==> final(self).concepts@[k] == old(self).concepts@[k]
                }
                &&& forall|i: int| is_current_for(old(self).concepts@, i, user_id@, canonical_name@) ==> {
                    &&& c.version == old(self).concepts@[i].version + 1
                    &&& c.parent_concept_id == Some(i as u64)
                    &&& final(self).concepts@[i] == (StableConcept {
                            is_deprecated: true,
                            deprecated_at: Some(now),
                            updated_at: now,
                            ..old(self).concepts@[i]
                        })
                    &&& forall|k: int| 0 <= k < id && k != i ==> final(self).concepts@[k] == old(self).concepts@[k]
                }
            }),
    {
        let ghost before = self.concepts@;
        proof {
            reveal(concepts_wf);
        }
        let n = self.concepts.len();
        let current = self.find_current(&user_id, &canonical_name);
        let (version, parent) = match current {
            Some(i) => {
                if self.concepts[i].version == u64::MAX {
                    return Err(DirSoulError::Validation("concept version limit reached".to_string()));
                }
                (self.concepts[i].version + 1, Some(i as u64))
            },
            None => (1u64, None),
        };
        if let Some(i) = current {
            self.deprecate_row(i, now);
        }
        let ghost mid = self.concepts@;
        let c = StableConcept {
            concept_id: n as u64,
            user_id,
            canonical_name,
            display_name,
            concept_type,
            description,
            definition,
            version,
            parent_concept_id: parent,
            is_deprecated: false,
            promoted_from,
            promoted_at: now,
            promotion_confidence,
            created_at: now,
            updated_at: now,
            deprecated_at: None,
            access_count: 0,
            last_accessed_at: Some(now),
            source,
            metadata: "{}".to_string(),
        };
        self.concepts.push(c);
        proof {
            reveal(concepts_wf);
            let cs = self.concepts@;
            assert forall|i: int| 0 <= i < cs.len() implies (#[trigger] cs[i]).concept_id == i by {
                if i < n as int { assert(cs[i] == mid[i]); }
            }
            assert forall|i: int| 0 <= i < cs.len() implies (#[trigger] cs[i]).version >= 1 by {
                if i < n as int { assert(cs[i] == mid[i]); }
            }
            assert forall|i: int| 0 <= i < cs.len() && (#[trigger] cs[i]).parent_concept_id is Some implies ({
                let p = cs[i].parent_concept_id->Some_0 as int;
                &&& 0 <= p < i
                &&& cs[p].version < cs[i].version
                &&& same_key(cs[p], cs[i])
            }) by {
                if i < n as int {
                    assert(cs[i] == mid[i]);
                    let p = before[i].parent_concept_id->Some_0 as int;
                    assert(cs[p] == mid[p]);
                    assert(before[i].parent_concept_id is Some);
                } else {
                    let p = current->Some_0 as int;
                    assert(cs[p] == mid[p]);
                }
            }
            assert forall|i: int, j: int| 0 <= i < cs.len() && 0 <= j < cs.len() && i != j
                && !(#[trigger] cs[i]).is_deprecated && !(#[trigger] cs[j]).is_deprecated implies !same_key(cs[i], cs[j]) by {
                if i < n as int && j < n as int {
                    assert(cs[i] == mid[i]);
                    assert(cs[j] == mid[j]);
                    assert(!before[i].is_deprecated);
                    assert(!before[j].is_deprecated);
                } else if i < n as int {
                    assert(cs[i] == mid[i]);
                    assert(!before[i].is_deprecated);
                    if same_key(cs[i], cs[j]) {
                        assert(is_current_for(before, i, cs[j].user_id@, cs[j].canonical_name@));
                    }
                } else {
                    assert(cs[j] == mid[j]);
                    assert(!before[j].is_deprecated);
                    if same_key(cs[i], cs[j]) {
                        assert(is_current_for(before, j, cs[i].user_id@, cs[i].canonical_name@));
                    }
                }
            }
            assert forall|i: int| is_current_for(before, i, self.concepts@[n as int].user_id@, self.concepts@[n as int].canonical_name@)
                implies i == current->Some_0 as int by {
                let c0 = current->Some_0 as int;
                assert(is_current_for(before, c0, self.concepts@[n as int].user_id@, self.concepts@[n as int].canonical_name@));
            }
        }
        Ok(n as u64)
    }

    /// Counts one read of concept `id` at `now`; nothing else changes.
    pub fn record_access(&mut self, id: usize, now: i64)
        requires
            old(self).wf(),
            id < old(self).concepts@.len(),
        ensures
            final(self).wf(),
            final(self).concepts@.len() == old(self).concepts@.len(),
            final(self).concepts@[id as int] == (StableConcept {
                access_count: if old(self).concepts@[id as int].access_count < u64::MAX {
                    (old(self).concepts@[id as int].access_count + 1) as u64
                } else {
                    old(self).concepts@[id as int].access_count
                },
                last_accessed_at: Some(now),
                ..old(self).concepts@[id as int]
            }),
            forall|k: int| 0 <= k < old(self).concepts@.len() && k != id ==> final(self).concepts@[k] == old(self).concepts@[k],
    {
        let ghost before = self.concepts@;
        let mut c = self.concepts[id].duplicate();
        if c.access_count < u64::MAX {
            c.access_count = c.access_count + 1;
        }
        c.last_accessed_at = Some(now);
        self.concepts.set(id, c);
        proof {
            assert forall|k: int| 0 <= k < before.len() implies same_structure(#[trigger] self.concepts@[k], before[k]) by {
                if k == id as int {
                } else {
                    assert(self.concepts@[k] == before[k]);
                }
            }
            lemma_wf_same_structure(before, self.concepts@);
        }
    }

    /// Rolls the current version `current` back to its earlier version
    /// `ancestor`: a new current version whose display name, description and
    /// definition copy the ancestor's, and whose source records the version
    /// rolled back from. The row `current` is deprecated.
    #[verifier::rlimit(40)]
    pub fn rollback(&mut self, current: usize, ancestor: usize, now: i64) -> (r: Result<u64, DirSoulError>)
        requires
            old(self).wf(),
            old(self).concepts@.len() < u64::MAX,
        ensures
            final(self).wf(),
            r is Ok <==> (current < old(self).concepts@.len() && ancestor < current
                && !old(self).concepts@[current as int].is_deprecated
                && same_key(old(self).concepts@[ancestor as int], old(self).concepts@[current as int])
                && old(self).concepts@[current as int].version < u64::MAX),
            r is Err ==> final(self).concepts@ == old(self).concepts@,
            r is Ok ==> ({
                let c = final(self).concepts@[r->Ok_0 as int];
                let a = old(self).concepts@[ancestor as int];
                &&& r->Ok_0 == old(self).concepts@.len()
                &&& c.display_name == a.display_name
                &&& c.description == a.description
                &&& c.definition == a.definition
                &&& c.version == old(self).concepts@[current as int].version + 1
                &&& c.parent_concept_id == Some(current as u64)
                &&& !c.is_deprecated
                &&& c.deprecated_at is None
                &&& c.source@ == "rollback_from_v"@ + decimal(old(self).concepts@[current as int].version as nat)
                &&& final(self).concepts@[current as int].is_deprecated
            }),
    {
        if current >= self.concepts.len() || ancestor >= current || self.concepts[current].is_deprecated {
            return Err(DirSoulError::NotFound("no such current concept version".to_string()));
        }
        let cur = &self.concepts[current];
        let anc = &self.concepts[ancestor];
        if anc.user_id != cur.user_id || anc.canonical_name != cur.canonical_name {
            return Err(DirSoulError::Validation("versions belong to different concepts".to_string()));
        }
        if cur.version == u64::MAX {
            return Err(DirSoulError::Validation("concept version limit reached".to_string()));
        }
        proof {
            reveal(concepts_wf);
            assert(is_current_for(self.concepts@, current as int, cur.user_id@, cur.canonical_name@));
            assert forall|k: int| is_current_for(self.concepts@, k, cur.user_id@, cur.canonical_name@) implies k == current as int by {
                if k != current as int {
                    assert(same_key(self.concepts@[k], self.concepts@[current as int]));
                }
            }
        }
        let source = "rollback_from_v".to_string().concat(decimal_string(cur.version).as_str());
        self.insert_version(
            cur.user_id.clone(),
            cur.canonical_name.clone(),
            anc.display_name.clone(),
            cur.concept_type.clone(),
            copy_opt(&anc.description),
            anc.definition.clone(),
            anc.promoted_from,
            anc.promotion_confidence,
            source,
            now,
        )
    }
}

/// What a promotion sweep did to a view.
#[derive(Debug, Clone, Copy, PartialEq, Eq, Structural)]
pub enum SweepOutcome {
    /// Left as it was.
    Kept,
    Expired,
    Rejected,
    /// Promoted into the concept with this id.
    Promoted(u64),
}

/// Derived views and stable concepts together, for the promotion sweep.
pub struct CognitiveStore {
    pub views: Vec<CognitiveView>,
    pub concepts: ConceptStore,
}

impl CognitiveStore {
    /// Each view's id is its position, and every view and the concepts are
    /// well formed.
    pub open spec fn wf(&self) -> bool {
        &&& self.concepts.wf()
        &&& forall|i: int| 0 <= i < self.views@.len() ==> (#[trigger] self.views@[i]).view_id == i && self.views@[i].wf()
    }

    pub fn new() -> (r: CognitiveStore)
        ensures
            r.wf(),
            r.views@.len() == 0,
            r.concepts.concepts@.len() == 0,
    {
        CognitiveStore { views: Vec::new(), concepts: ConceptStore::new() }
    }

    /// Adds a new active view created at `now` and returns its id.
    pub fn add_view(&mut self, user_id: String, hypothesis: String, view_type: String, derived_from: Vec<u64>, now: i64) -> (r: u64)
        requires
            old(self).wf(),
            now <= i64::MAX - 30 * 86400,
            derived_from@.len() <= u32::MAX,
        ensures
            final(self).wf(),
            r == old(self).views@.len(),
            final(self).views@.len() == old(self).views@.len() + 1,
            final(self).views@.subrange(0, r as int) == old(self).views@,
            final(self).views@[r as int].status == ViewStatus::Active,
            final(self).views@[r as int].user_id == user_id,
            final(self).views@[r as int].hypothesis == hypothesis,
            final(self).views@[r as int].created_at == now,
            final(self).views@[r as int].evidence_count == derived_from@.len(),
            final(self).concepts == old(self).concepts,
    {
        let id = self.views.len() as u64;
        let v = CognitiveView::new(id, user_id, hypothesis, view_type, derived_from, now);
        self.views.push(v);
        assert(self.views@.subrange(0, id as int) =~= old(self).views@);
        id
    }

    /// Applies the lifecycle event `e` to view `i`.
    pub fn step_view(&mut self, i: usize, e: ViewEvent)
        requires
            old(self).wf(),
            i < old(self).views@.len(),
        ensures
            final(self).wf(),
            final(self).views@.len() == old(self).views@.len(),
            final(self).concepts == old(self).concepts,
            crate::cognitive::same_but_promoted_to(final(self).views@[i as int], view_step(old(self).views@[i as int], e)),
            final(self).views@[i as int].status == view_step(old(self).views@[i as int], e).status,
            final(self).views@[i as int].promoted_to == view_step(old(self).views@[i as int], e).promoted_to,
            forall|k: int| 0 <= k < old(self).views@.len() && k != i ==> final(self).views@[k] == old(self).views@[k],
    {
        let ghost before = self.views@;
        let mut v = self.views.remove(i);
        v.apply(e);
        self.views.insert(i, v);
        proof {
            assert forall|k: int| 0 <= k < self.views@.len() && k != i implies self.views@[k] == before[k] by {
                if k < i { } else { }
            }
            assert forall|k: int| 0 <= k < self.views@.len() implies (#[trigger] self.views@[k]).view_id == k && self.views@[k].wf() by {
                if k != i as int { assert(self.views@[k] == before[k]); }
            }
        }
    }

    /// Sweeps view `i` at `now`. An active view that passes the promotion
    /// gate against all views of the store becomes a new concept version
    /// named by its hypothesis and is marked promoted; otherwise one whose
    /// counter-evidence ratio exceeds 0.30 is rejected; otherwise one whose
    /// expiry lies before `now` expires. Anything else is kept.
    #[verifier::rlimit(40)]
    pub fn sweep_view(&mut self, i: usize, now: i64) -> (r: SweepOutcome)
        requires
            old(self).wf(),
            i < old(self).views@.len(),
            old(self).concepts.concepts@.len() < u64::MAX,
        ensures
            final(self).wf(),
            final(self).views@.len() == old(self).views@.len(),
            forall|k: int| 0 <= k < old(self).views@.len() && k != i ==> final(self).views@[k] == old(self).views@[k],
            ({
                let v = old(self).views@[i as int];
                let fv = final(self).views@[i as int];
                match r {
                    SweepOutcome::Promoted(id) => {
                        &&& promotable(v, now, old(self).views@)
                        &&& fv.status == ViewStatus::Promoted
                        &&& fv.promoted_to == Some(id)
                        &&& id == old(self).concepts.concepts@.len()
                        &&& final(self).concepts.concepts@.len() == old(self).concepts.concepts@.len() + 1
                        &&& final(self).concepts.concepts@[id as int].canonical_name == v.hypothesis
                        &&& final(self).concepts.concepts@[id as int].promoted_from == Some(v.view_id)
                        &&& !final(self).concepts.concepts@[id as int].is_deprecated
                        &&& final(self).concepts.concepts@[id as int].user_id == v.user_id
                        &&& final(self).concepts.concepts@[id as int].promotion_confidence == v.confidence
                        &&& (forall|c: int| !is_current_for(old(self).concepts.concepts@, c, v.user_id@, v.hypothesis@)) ==> {
                            &&& final(self).concepts.concepts@[id as int].version == 1
                            &&& final(self).concepts.concepts@[id as int].parent_concept_id is None
                        }
                        &&& forall|c: int| is_current_for(old(self).concepts.concepts@, c, v.user_id@, v.hypothesis@) ==> {
                            &&& final(self).concepts.concepts@[id as int].version == old(self).concepts.concepts@[c].version + 1
                            &&& final(self).concepts.concepts@[id as int].parent_concept_id == Some(c as u64)
                            &&& final(self).concepts.concepts@[c].is_deprecated
                        }
                    },
                    SweepOutcome::Rejected => {
                        &&& !promotable(v, now, old(self).views@)
                        &&& v.status == ViewStatus::Active
                        &&& rejected_by_counter_evidence(v)
                        &&& fv.status == ViewStatus::Rejected
                        &&& final(self).concepts == old(self).concepts
                    },
                    SweepOutcome::Expired => {
                        &&& !promotable(v, now, old(self).views@)
                        &&& v.status == ViewStatus::Active
                        &&& !rejected_by_counter_evidence(v)
                        &&& v.expires_at < now
                        &&& fv.status == ViewStatus::Expired
                        &&& final(self).concepts == old(self).concepts
                    },
                    SweepOutcome::Kept => {
                        &&& fv == v
                        &&& final(self).concepts.concepts@ == old(self).concepts.concepts@
                        &&& (promotable(v, now, old(self).views@)
                            || !(v.status == ViewStatus::Active && (rejected_by_counter_evidence(v) || v.expires_at < now)))
                    },
                }
            }),
            // a promotable view is promoted, unless its concept
            // has no version left
            promotable(old(self).views@[i as int], now, old(self).views@) ==> (r is Promoted || r is Kept),
            promotable(old(self).views@[i as int], now, old(self).views@)
                && !(exists|c: int| is_current_for(old(self).concepts.concepts@, c,
                    old(self).views@[i as int].user_id@, old(self).views@[i as int].hypothesis@)
                    && old(self).concepts.concepts@[c].version == u64::MAX) ==> r is Promoted,
    {
        let ghost before = self.views@;
        let passes = self.views[i].passes_promotion_gate(now, self.views.as_slice());
        if passes {
            let v = &self.views[i];
            let res = self.concepts.insert_version(
                v.user_id.clone(),
                v.hypothesis.clone(),
                v.hypothesis.clone(),
                v.view_type.clone(),
                None,
                "{}".to_string(),
                Some(v.view_id),
                v.confidence,
                "promotion_gate".to_string(),
                now,
            );
            match res {
                Ok(id) => {
                    self.step_view(i, ViewEvent::Promote { concept_id: id, at: now });
                    return SweepOutcome::Promoted(id);
                },
                Err(_) => {
                    return SweepOutcome::Kept;
                },
            }
        }
        if self.views[i].status.is_active() && self.views[i].should_be_rejected() {
            self.step_view(i, ViewEvent::Reject { at: now });
            return SweepOutcome::Rejected;
        }
        if self.views[i].status.is_active() && self.views[i].is_expired(now) {
            self.step_view(i, ViewEvent::Tick { now });
            return SweepOutcome::Expired;
        }
        SweepOutcome::Kept
    }

    /// Sweeps every view in turn at `now`; returns what happened to each.
    pub fn promotion_sweep(&mut self, now: i64) -> (r: Vec<SweepOutcome>)
        requires
            old(self).wf(),
            old(self).concepts.concepts@.len() + old(self).views@.len() < u64::MAX,
        ensures
            final(self).wf(),
            final(self).views@.len() == old(self).views@.len(),
            r@.len() == old(self).views@.len(),
            forall|i: int| 0 <= i < r@.len() ==> match #[trigger] r@[i] {
                SweepOutcome::Promoted(id) => final(self).views@[i].status == ViewStatus::Promoted
                    && final(self).views@[i].promoted_to == Some(id)
                    && meets_promotion_thresholds(old(self).views@[i], now),
                SweepOutcome::Rejected => final(self).views@[i].status == ViewStatus::Rejected,
                SweepOutcome::Expired => final(self).views@[i].status == ViewStatus::Expired,
                SweepOutcome::Kept => final(self).views@[i] == old(self).views@[i],
            },
    {
        let mut out: Vec<SweepOutcome> = Vec::new();
        let n = self.views.len();
        let mut i: usize = 0;
        while i < n
            invariant
                self.wf(),
                n == self.views@.len(),
                n == old(self).views@.len(),
                i <= n,
                out@.len() == i,
                self.concepts.concepts@.len() <= old(self).concepts.concepts@.len() + i,
                old(self).concepts.concepts@.len() + n < u64::MAX,
                forall|k: int| i <= k < n ==> self.views@[k] == old(self).views@[k],
                forall|k: int| 0 <= k < i ==> match #[trigger] out@[k] {
                    SweepOutcome::Promoted(id) => self.views@[k].status == ViewStatus::Promoted
                        && self.views@[k].promoted_to == Some(id)
                        && meets_promotion_thresholds(old(self).views@[k], now),
                    SweepOutcome::Rejected => self.views@[k].status == ViewStatus::Rejected,
                    SweepOutcome::Expired => self.views@[k].status == ViewStatus::Expired,
                    SweepOutcome::Kept => self.views@[k] == old(self).views@[k],
                },
            decreases n - i,
        {
            let ghost before = self.views@;
            let o = self.sweep_view(i, now);
            out.push(o);
            proof {
                assert forall|k: int| 0 <= k < i + 1 implies match #[trigger] out@[k] {
                    SweepOutcome::Promoted(id) => self.views@[k].status == ViewStatus::Promoted
                        && self.views@[k].promoted_to == Some(id)
                        && meets_promotion_thresholds(old(self).views@[k], now),
                    SweepOutcome::Rejected => self.views@[k].status == ViewStatus::Rejected,
                    SweepOutcome::Expired => self.views@[k].status == ViewStatus::Expired,
                    SweepOutcome::Kept => self.views@[k] == old(self).views@[k],
                } by {
                    if k < i {
                        assert(self.views@[k] == before[k]);
                    }
                }
            }
            i += 1;
        }
        out
    }
}

} // verus!
