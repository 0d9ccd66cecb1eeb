//! Normalization of clipboard captures from an incremental text-reveal
//! renderer: detect the target script, narrow to the dialogue span, strip
//! flat bracket markup, and collapse the repeated growing prefixes that the
//! renderer leaves behind, keeping only the final complete line.

pub mod chars;
pub mod collapse;
pub mod dialogue;
pub mod markup;
pub mod pipeline;
pub mod script;
