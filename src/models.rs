//! The three memory layers' records: raw inputs, structured events and
//! canonical entities, each with the invariants of its layer.
use vstd::prelude::*;

use crate::error::DirSoulError;

verus! {

/// Confidences are thousandths: `CONFIDENCE_ONE` stands for `1.0`.
pub const CONFIDENCE_ONE: u32 = 1000;

/// What kind of input a raw memory holds; fixed at creation.
#[derive(Debug, Clone, Copy, PartialEq, Eq, Structural)]
pub enum ContentType {
    Text,
    Voice,
    Image,
    Document,
    Action,
    External,
}

impl ContentType {
    /// The lowercase name under which the type is stored.
    pub fn as_str(&self) -> (r: &'static str)
    {
        match self {
            ContentType::Text => "text",
            ContentType::Voice => "voice",
            ContentType::Image => "image",
            ContentType::Document => "document",
            ContentType::Action => "action",
            ContentType::External => "external",
        }
    }
}

/// One ingested input. Exactly one of plaintext and ciphertext is present.
#[derive(Debug, Clone)]
pub struct RawMemory {
    pub memory_id: u64,
    pub user_id: String,
    pub created_at: i64,
    pub content_type: ContentType,
    pub content: Option<String>,
    pub encrypted: Option<Vec<u8>>,
    /// Free-form metadata, as JSON text.
    pub metadata: String,
    pub embedding: Option<Vec<i32>>,
}

impl RawMemory {
    /// Exactly one payload is present.
    pub open spec fn wf(&self) -> bool {
        self.content.is_some() != self.encrypted.is_some()
    }

    /// A raw memory holding plaintext.
    pub fn new_plaintext(memory_id: u64, user_id: String, created_at: i64, content_type: ContentType, content: String) -> (r: RawMemory)
        ensures
            r.wf(),
            r.content == Some(content),
            r.memory_id == memory_id,
            r.user_id == user_id,
            r.created_at == created_at,
            r.content_type == content_type,
            r.embedding is None,
    {
        RawMemory {
            memory_id,
            user_id,
            created_at,
            content_type,
            content: Some(content),
            encrypted: None,
            metadata: "{}".to_string(),
            embedding: None,
        }
    }

    /// A raw memory holding ciphertext.
    pub fn new_encrypted(memory_id: u64, user_id: String, created_at: i64, content_type: ContentType, encrypted: Vec<u8>) -> (r: RawMemory)
        ensures
            r.wf(),
            r.encrypted == Some(encrypted),
            r.memory_id == memory_id,
            r.user_id == user_id,
            r.created_at == created_at,
            r.content_type == content_type,
            r.embedding is None,
    {
        RawMemory {
            memory_id,
            user_id,
            created_at,
            content_type,
            content: None,
            encrypted: Some(encrypted),
            metadata: "{}".to_string(),
            embedding: None,
        }
    }

    /// Replaces the metadata; the payload is left as it is.
    pub fn set_metadata(&mut self, metadata: String)
        ensures
            final(self).metadata == metadata,
            final(self).content == old(self).content,
            final(self).encrypted == old(self).encrypted,
            final(self).content_type == old(self).content_type,
            final(self).created_at == old(self).created_at,
    {
        self.metadata = metadata;
    }

    /// Backfills the embedding; the payload is left as it is.
    pub fn set_embedding(&mut self, embedding: Vec<i32>)
        ensures
            final(self).embedding == Some(embedding),
            final(self).content == old(self).content,
            final(self).encrypted == old(self).encrypted,
            final(self).content_type == old(self).content_type,
            final(self).created_at == old(self).created_at,
    {
        self.embedding = Some(embedding);
    }

    pub fn content(&self) -> (r: &Option<String>)
        ensures
            *r == self.content,
    {
        &self.content
    }

    pub fn encrypted(&self) -> (r: &Option<Vec<u8>>)
        ensures
            *r == self.encrypted,
    {
        &self.encrypted
    }

    pub fn is_encrypted(&self) -> (r: bool)
        ensures
            r == self.encrypted.is_some(),
    {
        self.encrypted.is_some()
    }
}

/// Every raw memory that the constructors build, and that the setters keep,
/// holds exactly one of plaintext and ciphertext.
pub proof fn lemma_raw_memory_has_one_payload(r: RawMemory)
    requires
        r.wf(),
    ensures
        r.content is Some <==> !(r.encrypted is Some),
{
}

/// One structured observation derived from a raw memory.
#[derive(Debug, Clone)]
pub struct EventMemory {
    pub event_id: u64,
    /// The raw memory it came from.
    pub memory_id: u64,
    pub user_id: String,
    pub timestamp: i64,
    pub actor: Option<String>,
    pub action: String,
    pub target: String,
    pub quantity: Option<u64>,
    pub unit: Option<String>,
    /// Thousandths.
    pub confidence: u32,
    pub extractor_version: Option<String>,
}

/// Quantity and unit are both present or both absent, and the confidence
/// lies in `[0, 1]`.
pub open spec fn event_fields_valid(quantity: Option<u64>, unit: Option<String>, confidence: u32) -> bool {
    &&& quantity.is_some() == unit.is_some()
    &&& confidence <= CONFIDENCE_ONE
}

impl EventMemory {
    pub open spec fn wf(&self) -> bool {
        event_fields_valid(self.quantity, self.unit, self.confidence)
    }

    /// Builds an event after checking the pairing of quantity and unit and the
    /// bounds of the confidence.
    pub fn new(
        event_id: u64,
        memory_id: u64,
        user_id: String,
        timestamp: i64,
        actor: Option<String>,
        action: String,
        target: String,
        quantity: Option<u64>,
        unit: Option<String>,
        confidence: u32,
    ) -> (r: Result<EventMemory, DirSoulError>)
        ensures
            r is Ok <==> event_fields_valid(quantity, unit, confidence),
            r is Err ==> r->Err_0 is Validation,
            r is Ok ==> ({
                let e = r->Ok_0;
                &&& e.wf()
                &&& e.event_id == event_id
                &&& e.memory_id == memory_id
                &&& e.user_id == user_id
                &&& e.timestamp == timestamp
                &&& e.actor == actor
                &&& e.action == action
                &&& e.target == target
                &&& e.quantity == quantity
                &&& e.unit == unit
                &&& e.confidence == confidence
            }),
    {
        let e = EventMemory {
            event_id,
            memory_id,
            user_id,
            timestamp,
            actor,
            action,
            target,
            quantity,
            unit,
            confidence,
            extractor_version: Some("0.1.0".to_string()),
        };
        match e.validate() {
            Ok(()) => Ok(e),
            Err(err) => Err(err),
        }
    }

    /// Checks the confidence bounds and the pairing of quantity and unit.
    pub fn validate(&self) -> (r: Result<(), DirSoulError>)
        ensures
            r is Ok <==> self.wf(),
            r is Err ==> r->Err_0 is Validation,
    {
        if self.confidence > CONFIDENCE_ONE {
            return Err(DirSoulError::Validation("confidence must lie between 0 and 1".to_string()));
        }
        if self.quantity.is_some() != self.unit.is_some() {
            return Err(DirSoulError::Validation("quantity and unit must both be present or both absent".to_string()));
        }
        Ok(())
    }

    pub fn has_quantity(&self) -> (r: bool)
        ensures
            r == self.quantity.is_some(),
    {
        self.quantity.is_some()
    }

    /// Confidence at least `threshold` (thousandths).
    pub fn is_high_confidence(&self, threshold: u32) -> (r: bool)
        ensures
            r == (self.confidence >= threshold),
    {
        self.confidence >= threshold
    }
}

/// Every event that validates has quantity and unit paired and a bounded
/// confidence.
pub proof fn lemma_valid_event_fields(e: EventMemory)
    requires
        e.wf(),
    ensures
        e.quantity is Some <==> e.unit is Some,
        0 <= e.confidence <= CONFIDENCE_ONE,
{
}

/// What an entity refers to.
#[derive(Debug, Clone, Copy, PartialEq, Eq, Structural)]
pub enum EntityType {
    Person,
    Place,
    Object,
    Concept,
    Organization,
    Event,
}

impl EntityType {
    pub fn as_str(&self) -> (r: &'static str)
    {
        match self {
            EntityType::Person => "person",
            EntityType::Place => "place",
            EntityType::Object => "object",
            EntityType::Concept => "concept",
            EntityType::Organization => "organization",
            EntityType::Event => "event",
        }
    }
}

/// The canonical referent of one or more mentions for one owner.
#[derive(Debug, Clone)]
pub struct Entity {
    pub entity_id: u64,
    pub user_id: String,
    pub canonical_name: String,
    pub entity_type: EntityType,
    /// Attribute map, as JSON text.
    pub attributes: String,
    pub first_seen: i64,
    pub last_seen: i64,
    pub occurrence_count: u64,
    /// Thousandths.
    pub confidence: u32,
}

impl Entity {
    pub open spec fn wf(&self) -> bool {
        &&& self.last_seen >= self.first_seen
        &&& self.occurrence_count >= 1
    }

    /// A new entity first seen at `now`, with one occurrence.
    pub fn new(entity_id: u64, user_id: String, canonical_name: String, entity_type: EntityType, now: i64) -> (r: Entity)
        ensures
            r.wf(),
            r.entity_id == entity_id,
            r.user_id == user_id,
            r.canonical_name == canonical_name,
            r.entity_type == entity_type,
            r.first_seen == now,
            r.last_seen == now,
            r.occurrence_count == 1,
            r.confidence == 500,
    {
        Entity {
            entity_id,
            user_id,
            canonical_name,
            entity_type,
            attributes: "{}".to_string(),
            first_seen: now,
            last_seen: now,
            occurrence_count: 1,
            confidence: 500,
        }
    }

    /// Records one more mention seen at `now`: the count grows by one (it
    /// stays at its ceiling once there) and `last_seen` never moves back.
    pub fn record_occurrence(&mut self, now: i64)
        requires
            old(self).wf(),
        ensures
            final(self).wf(),
            final(self).occurrence_count == if old(self).occurrence_count < u64::MAX { old(self).occurrence_count + 1 } else { old(self).occurrence_count as int },
            final(self).last_seen == if now > old(self).last_seen { now } else { old(self).last_seen },
            final(self).first_seen == old(self).first_seen,
            final(self).entity_id == old(self).entity_id,
            final(self).canonical_name == old(self).canonical_name,
            final(self).user_id == old(self).user_id,
            final(self).entity_type == old(self).entity_type,
    {
        if self.occurrence_count < u64::MAX {
            self.occurrence_count = self.occurrence_count + 1;
        }
        if now > self.last_seen {
            self.last_seen = now;
        }
    }

    /// Confidence at least `threshold` (thousandths).
    pub fn is_high_confidence(&self, threshold: u32) -> (r: bool)
        ensures
            r == (self.confidence >= threshold),
    {
        self.confidence >= threshold
    }
}

/// Every entity that `Entity::new` builds and `record_occurrence` keeps has
/// been seen at least once, and not last before it was first seen.
pub proof fn lemma_entity_seen_order(x: Entity)
    requires
        x.wf(),
    ensures
        x.last_seen >= x.first_seen,
        x.occurrence_count >= 1,
{
}

} // verus!
