//! A text-patch engine: it locates the first exact occurrence of a text and
//! inserts, replaces or swaps text around it, together with the data types
//! that report a tool's response and the settings of update checks.

pub mod matcher;
pub mod patch;
pub mod update;
pub mod auto_update;
pub mod metadata;
pub mod response;
pub mod tool_result;
