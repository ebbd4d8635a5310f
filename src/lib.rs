//! A local-first personal memory engine: raw inputs become structured events,
//! events feed a statistical pattern detector, detected patterns become
//! provisional views, and views that pass the promotion gate become stable,
//! versioned concepts. Plugins observe and query memory under a graded
//! permission model.
//!
//! Times are Unix timestamps in seconds; confidences and ratios are integers
//! in thousandths (`1000` stands for `1.0`).
use vstd::prelude::*;

pub mod agents;
pub mod attributes;
pub mod built_in_plugins;
pub mod clock;
pub mod cognitive;
pub mod concept;
pub mod conflict;
pub mod crypto;
pub mod data_lifecycle;
pub mod deeptalk;
pub mod embedding;
pub mod entity_linker;
pub mod entity_store;
pub mod error;
pub mod event_aggregator;
pub mod event_extractor;
pub mod export;
pub mod input;
pub mod llm_provider;
pub mod models;
pub mod pattern_detector;
pub mod plugin;
pub mod prompt_manager;
pub mod relations;
pub mod resource_manager;
pub mod text;
pub mod view_generator;
