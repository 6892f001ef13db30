//! A terminal assistant core: a streaming parser and router for the Harmony
//! chat wire format, a prompt renderer, the turn engine's decision logic, a
//! tolerant patch-format parser and applier, a workspace path sandbox, token
//! window management for inference, and an incremental UTF-8 detokenizer.
pub mod chars;
pub mod detok;
pub mod engine;
pub mod harmony;
pub mod history;
pub mod kv;
pub mod names;
pub mod patch;
pub mod protocol;
pub mod router;
pub mod sandbox;
pub mod shards;
pub mod streaming;
pub mod templating;
pub mod tools;
