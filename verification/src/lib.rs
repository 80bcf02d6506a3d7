//! Decision core of a small natural-language-understanding engine.
//!
//! Given raw user text, the engine determines which intent (if any) the text
//! expresses and extracts the structured argument values ("slots") that the
//! intent requires.  Intent-parsing strategies are tried in a fixed waterfall
//! order, matched slot values are normalized against a catalog of custom
//! entities, and a heuristic tagging fallback re-derives entity spans when an
//! intent's training data is too sparse for its classifier to be trusted.

pub mod assoc;
pub mod builtin;
pub mod engine;
pub mod laws;
pub mod parser_api;
pub mod tagging;
pub mod tokens;
pub mod types;

pub use engine::NLUEngineConfiguration;
pub use engine::SnipsNLUEngine;
pub use types::TaggedEntity;
