//! The bulk-markdown issue format: one `## Title` per issue, `### Section` bodies, fenced code
//! blocks opaque.
pub mod split;
pub mod fence;
pub mod parser;
pub mod document;
