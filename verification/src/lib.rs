//! Skill tools: commands that a skill defines, run with positional
//! arguments substituted for their placeholders, under a security check,
//! with their output cut to a fixed size.

pub mod args;
pub mod output;
pub mod skill_tool;
pub mod text;
