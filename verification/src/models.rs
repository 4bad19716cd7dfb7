//! The data model of the pipeline: conversation turns, chat messages,
//! the two durable memory record kinds, and embedding vectors.

use vstd::prelude::*;

verus! {

/// The speaker of a short-term conversation turn.
#[derive(Clone, Copy, PartialEq, Eq, Debug)]
pub enum Role {
    User,
    Assistant,
}

/// One message of a conversation, held only in the short-term store.
#[derive(Clone, Debug)]
pub struct ShortTermMessage {
    pub role: Role,
    pub user_id: u64,
    pub content: String,
    pub timestamp: i64,
}

impl ShortTermMessage {
    /// An explicit copy; unlike the derived `Clone`, its contract is known.
    pub fn duplicate(&self) -> (r: ShortTermMessage)
        ensures
            r == *self,
    {
        ShortTermMessage {
            role: self.role,
            user_id: self.user_id,
            content: self.content.clone(),
            timestamp: self.timestamp,
        }
    }
}

/// The speaker of a message handed to the completion capability.
#[derive(Clone, Copy, PartialEq, Eq, Debug)]
pub enum ChatRole {
    User,
    Assistant,
}

/// A message of the sequence handed to the completion capability.
#[derive(Clone, PartialEq, Debug)]
pub struct ChatMessage {
    pub role: ChatRole,
    pub content: String,
}

impl ChatMessage {
    /// A user-role message with the given text.
    pub fn user(content: String) -> (r: ChatMessage)
        ensures
            r.role == ChatRole::User,
            r.content == content,
    {
        ChatMessage { role: ChatRole::User, content }
    }

    /// An assistant-role message with the given text.
    pub fn assistant(content: String) -> (r: ChatMessage)
        ensures
            r.role == ChatRole::Assistant,
            r.content == content,
    {
        ChatMessage { role: ChatRole::Assistant, content }
    }
}

/// A mid-term memory: a summary of an evicted turn, kept with an expiry.
#[derive(Clone, Debug)]
pub struct MidTermMemory {
    pub id: String,
    pub user_id: u64,
    pub channel_id: u64,
    pub summary: String,
    pub created_at: i64,
    pub expires_at: i64,
}

impl MidTermMemory {
    /// An explicit copy; unlike the derived `Clone`, its contract is known.
    pub fn duplicate(&self) -> (r: MidTermMemory)
        ensures
            r == *self,
    {
        MidTermMemory {
            id: self.id.clone(),
            user_id: self.user_id,
            channel_id: self.channel_id,
            summary: self.summary.clone(),
            created_at: self.created_at,
            expires_at: self.expires_at,
        }
    }
}

/// A long-term memory: a durable fact about a user, with no expiry.
#[derive(Clone, Debug)]
pub struct LongTermMemory {
    pub id: String,
    pub user_id: u64,
    pub fact: String,
    pub category: String,
    pub created_at: i64,
    pub updated_at: i64,
}

impl LongTermMemory {
    /// An explicit copy; unlike the derived `Clone`, its contract is known.
    pub fn duplicate(&self) -> (r: LongTermMemory)
        ensures
            r == *self,
    {
        LongTermMemory {
            id: self.id.clone(),
            user_id: self.user_id,
            fact: self.fact.clone(),
            category: self.category.clone(),
            created_at: self.created_at,
            updated_at: self.updated_at,
        }
    }
}

/// The speaker of a generic chat message.
#[derive(Clone, Copy, PartialEq, Eq, Debug)]
pub enum MessageRole {
    System,
    User,
    Assistant,
}

/// A generic chat message with its creation time, in seconds since
/// the Unix epoch.
#[derive(Clone, Debug)]
pub struct Message {
    pub role: MessageRole,
    pub content: String,
    pub timestamp: i64,
}

impl Message {
    /// A message stamped with the current time.
    pub fn new(role: MessageRole, content: String) -> (m: Message)
        ensures
            m.role == role,
            m.content == content,
    {
        Message { role, content, timestamp: crate::chat_service::current_timestamp() }
    }
}

/// An embedding vector, carried opaquely: each element is the bit
/// pattern of one component as produced by the embedding capability.
/// The pipeline never reads the components; it only stores the vector
/// beside a memory record and hands it to similarity search.
#[derive(Clone, Debug)]
pub struct EmbeddingVector {
    pub data: Vec<u32>,
}

} // verus!
