//! What orchestration needs to know of an agent.

use crate::error::Result;
use vstd::prelude::*;

verus! {

/// The answer of an agent to a prompt.
#[derive(Debug, PartialEq)]
pub struct AgentResponse {
    /// The text of the last message.
    pub final_text: String,
    /// How many rounds of model calls it took.
    pub iterations: usize,
}

/// Anything that answers prompts.
pub trait Agent {
    /// Answers a prompt.
    fn prompt(&self, input: &str) -> (r: Result<AgentResponse>);
}

/// Whether an agent may answer a text in this way.
pub open spec fn may_answer<A: Agent>(agent: A, input: Seq<char>, r: Result<AgentResponse>) -> bool {
    exists|s: &str| s@ == input && #[trigger] call_ensures(A::prompt, (&agent, s), r)
}

} // verus!
