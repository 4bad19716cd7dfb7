//! A tiered conversational-memory pipeline.
//!
//! Recent turns of a conversation are held per channel in a bounded
//! short-term buffer; turns evicted from it are promoted into a durable
//! semantic store as mid-term summaries with an expiry, while long-term
//! facts about a user live there without one.  For each incoming message
//! the orchestrator retrieves relevant memories, assembles the prompt
//! history, calls the completion capability and records the exchange.

mod ai_client;
mod chat_service;
mod config;
mod discord_utils;
mod error;
mod long_term;
mod models;
mod short_term;

pub use ai_client::AIClient;
pub use chat_service::build_messages;
pub use chat_service::current_timestamp;
pub use chat_service::make_midterm;
pub use chat_service::process_message;
pub use chat_service::promote_overflow;
pub use chat_service::summarize_turn;
pub use config::default_log_level;
pub use config::Config;
pub use config::Embedding;
pub use config::NLP;
pub use discord_utils::split_message;
pub use error::AppError;
pub use long_term::LongTermStore;
pub use long_term::MemoryLongTermStore;
pub use models::ChatMessage;
pub use models::ChatRole;
pub use models::EmbeddingVector;
pub use models::LongTermMemory;
pub use models::Message;
pub use models::MessageRole;
pub use models::MidTermMemory;
pub use models::Role;
pub use models::ShortTermMessage;
pub use short_term::InMemoryStore;
pub use short_term::ShortTermStore;
