//! The emotional trend that the conversation plugin tracks, and the
//! context it gathers for a reply.
use vstd::prelude::*;

verus! {

/// The overall emotional direction of recent events.
#[derive(Debug, Clone, Copy, PartialEq, Eq, Structural)]
pub enum EmotionalTrend {
    Positive,
    Neutral,
    Negative,
}

impl Default for EmotionalTrend {
    fn default() -> (r: EmotionalTrend)
        ensures
            r == EmotionalTrend::Neutral,
    {
        EmotionalTrend::Neutral
    }
}

impl EmotionalTrend {
    /// A face for the trend.
    pub fn emoji(&self) -> (r: &'static str)
        ensures
            *self == EmotionalTrend::Positive ==> r@ == "😊"@,
            *self == EmotionalTrend::Neutral ==> r@ == "😐"@,
            *self == EmotionalTrend::Negative ==> r@ == "😔"@,
    {
        match self {
            EmotionalTrend::Positive => "😊",
            EmotionalTrend::Neutral => "😐",
            EmotionalTrend::Negative => "😔",
        }
    }

    /// A few words for the trend.
    pub fn description(&self) -> (r: &'static str)
        ensures
            *self == EmotionalTrend::Positive ==> r@ == "positive and optimistic"@,
            *self == EmotionalTrend::Neutral ==> r@ == "balanced and stable"@,
            *self == EmotionalTrend::Negative ==> r@ == "stressed or concerned"@,
    {
        match self {
            EmotionalTrend::Positive => "positive and optimistic",
            EmotionalTrend::Neutral => "balanced and stable",
            EmotionalTrend::Negative => "stressed or concerned",
        }
    }
}

/// What the conversation plugin knows before it answers.
#[derive(Debug, Clone)]
pub struct ConversationContext {
    pub events: Vec<String>,
    pub beliefs: Vec<String>,
    pub emotional_trend: EmotionalTrend,
    pub conversation_summary: String,
}

impl Default for ConversationContext {
    fn default() -> (r: ConversationContext)
        ensures
            r.events@.len() == 0,
            r.beliefs@.len() == 0,
            r.emotional_trend == EmotionalTrend::Neutral,
            r.conversation_summary@.len() == 0,
    {
        ConversationContext {
            events: Vec::new(),
            beliefs: Vec::new(),
            emotional_trend: EmotionalTrend::Neutral,
            conversation_summary: String::new(),
        }
    }
}

} // verus!
