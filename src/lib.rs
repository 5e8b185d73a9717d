//! Session engine of a line-oriented chat gateway: conversation state,
//! command interpretation, transcript lines and the per-client summary record.

pub mod clock;
pub mod llm;
pub mod logger;
pub mod session;
pub mod summary;
pub mod text;
