//! Settings of the embedding backend and the bounded embedding cache.
use vstd::prelude::*;

verus! {

/// Dimension of the embedding vectors of an install.
pub const EMBEDDING_DIM: usize = 512;

/// Where and how embeddings are generated.
#[derive(Debug, Clone)]
pub struct EmbeddingConfig {
    pub host: String,
    pub model: String,
    pub batch_size: usize,
    pub timeout_secs: u64,
}

impl Default for EmbeddingConfig {
    /// The local backend with the `nomic-embed-text:v1.5` model, batches of
    /// eight and a two-minute timeout.
    fn default() -> (r: EmbeddingConfig)
        ensures
            r.batch_size == 8,
            r.timeout_secs == 120,
    {
        EmbeddingConfig {
            host: "http://127.0.0.1:11434".to_string(),
            model: "nomic-embed-text:v1.5".to_string(),
            batch_size: 8,
            timeout_secs: 120,
        }
    }
}

/// Most entries the embedding cache holds.
pub const EMBEDDING_CACHE_LIMIT: usize = 1000;

/// A size-bounded cache of embeddings keyed by text; the oldest entry leaves
/// first.
pub struct EmbeddingCache {
    pub entries: Vec<(String, Vec<i32>)>,
    pub capacity: usize,
}

impl EmbeddingCache {
    pub open spec fn wf(&self) -> bool {
        self.entries@.len() <= self.capacity
    }

    pub fn new(capacity: usize) -> (r: EmbeddingCache)
        ensures
            r.wf(),
            r.capacity == capacity,
            r.entries@.len() == 0,
    {
        EmbeddingCache { entries: Vec::new(), capacity }
    }

    /// The position of the entry for `text`.
    pub fn position(&self, text: &String) -> (r: Option<usize>)
        ensures
            r is Some ==> r->Some_0 < self.entries@.len() && self.entries@[r->Some_0 as int].0@ == text@,
            r is None ==> forall|i: int| 0 <= i < self.entries@.len() ==> self.entries@[i].0@ != text@,
    {
        let mut i: usize = 0;
        while i < self.entries.len()
            invariant
                i <= self.entries@.len(),
                forall|k: int| 0 <= k < i ==> self.entries@[k].0@ != text@,
            decreases self.entries@.len() - i,
        {
            if self.entries[i].0 == *text {
                return Some(i);
            }
            i += 1;
        }
        None
    }

    /// Stores an embedding; when the cache is full the oldest entry leaves.
    /// A cache of capacity zero stores nothing.
    pub fn set(&mut self, text: String, embedding: Vec<i32>)
        requires
            old(self).wf(),
        ensures
            final(self).wf(),
            final(self).capacity == old(self).capacity,
            old(self).capacity > 0 ==> final(self).entries@.last() == (text, embedding),
            old(self).capacity > 0 && old(self).entries@.len() < old(self).capacity
                ==> final(self).entries@ == old(self).entries@.push((text, embedding)),
            old(self).capacity > 0 && old(self).entries@.len() == old(self).capacity
                ==> final(self).entries@ == old(self).entries@.drop_first().push((text, embedding)),
            old(self).capacity == 0 ==> final(self).entries@.len() == 0,
    {
        if self.capacity == 0 {
            return;
        }
        if self.entries.len() >= self.capacity {
            self.entries.remove(0);
        }
        self.entries.push((text, embedding));
    }

    pub fn size(&self) -> (r: usize)
        ensures
            r == self.entries@.len(),
    {
        self.entries.len()
    }

    pub fn clear(&mut self)
        ensures
            final(self).entries@.len() == 0,
            final(self).capacity == old(self).capacity,
    {
        self.entries = Vec::new();
    }
}

} // verus!
