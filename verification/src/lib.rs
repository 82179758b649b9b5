//! Rendering of a terminal status line from a JSON status payload: token
//! usage, working directory, git branch, virtual environment and model name,
//! each as an ANSI-coloured segment.

pub mod util;
pub mod rounding;
pub mod format_tokens;
pub mod input;
pub mod segments;
