//! Structural synthesis of lexical token values from a finite byte cursor,
//! together with static size hints that bound how many bytes a synthesis
//! call consumes.

pub mod cursor;
pub mod size_hint;
pub mod token;
pub mod laws;
