//! The AI capability consumed by the orchestrator: embedding text into
//! vectors and generating a reply from a prompt with history.

use vstd::prelude::*;

use crate::models::ChatMessage;
use crate::models::EmbeddingVector;

verus! {

/// An embedding and completion capability.  Both operations are served
/// by an outside collaborator: their results depend on it alone, so
/// nothing is promised of them, and every caller must state what holds
/// whatever comes back.
pub trait AIClient {
    /// Turns text into an embedding vector, or fails with a message.
    fn embed(&self, text: String) -> Result<EmbeddingVector, String>;

    /// Produces a reply to the prompt given the chat history, or fails
    /// with a message.
    fn generate(&self, prompt: ChatMessage, chat_history: Vec<ChatMessage>) -> Result<
        String,
        String,
    >;
}

} // verus!
