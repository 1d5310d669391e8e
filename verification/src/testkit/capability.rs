//! The names of the capabilities a call can go to.
use vstd::prelude::*;

verus! {

pub const LLM: &'static str = "llm";

pub const TOOLS: &'static str = "tools";

pub const HTTP: &'static str = "http";

pub const CODE: &'static str = "code";

pub const SHELL: &'static str = "shell";

pub const AGENT: &'static str = "agent";

pub const MEMORY: &'static str = "memory";

pub const STATE: &'static str = "state";

} // verus!
