//! Contexts that the built-in decision and psychology plugins gather.
use vstd::prelude::*;

use crate::deeptalk::EmotionalTrend;

verus! {

/// What the decision helper weighs.
#[derive(Debug, Clone)]
pub struct DecisionContext {
    /// Relevant past decisions.
    pub relevant_events: Vec<String>,
    pub beliefs: Vec<String>,
    pub emotional_state: String,
}

impl Default for DecisionContext {
    fn default() -> (r: DecisionContext)
        ensures
            r.relevant_events@.len() == 0,
            r.beliefs@.len() == 0,
            r.emotional_state@.len() == 0,
    {
        DecisionContext { relevant_events: Vec::new(), beliefs: Vec::new(), emotional_state: String::new() }
    }
}

/// What the psychology plugin analyses.
#[derive(Debug, Clone)]
pub struct PsychologyContext {
    pub recent_events: Vec<String>,
    pub behavioral_patterns: Vec<String>,
    pub beliefs: Vec<String>,
    pub emotional_state: EmotionalTrend,
}

impl Default for PsychologyContext {
    fn default() -> (r: PsychologyContext)
        ensures
            r.recent_events@.len() == 0,
            r.behavioral_patterns@.len() == 0,
            r.beliefs@.len() == 0,
            r.emotional_state == EmotionalTrend::Neutral,
    {
        PsychologyContext {
            recent_events: Vec::new(),
            behavioral_patterns: Vec::new(),
            beliefs: Vec::new(),
            emotional_state: EmotionalTrend::Neutral,
        }
    }
}

} // verus!
