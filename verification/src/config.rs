//! The deployment configuration: plain settings handed in by the
//! process around the library, which loads them from its environment.

use vstd::prelude::*;

verus! {

/// The log level used when the environment names none.
pub fn default_log_level() -> (level: String)
    ensures
        level@ == "info"@,
{
    String::from_str("info")
}

/// Settings of the completion capability.
#[derive(Clone, Debug)]
pub struct NLP {
    pub api_url: String,
    pub model_name: String,
    pub max_short_term_messages: usize,
}

/// Settings of the embedding capability.
#[derive(Clone, Debug)]
pub struct Embedding {
    pub api_url: String,
    pub model_name: String,
    pub dimension: u64,
}

/// Everything the application needs at startup.
#[derive(Clone, Debug)]
pub struct Config {
    pub nlp_token: String,
    pub embed_token: String,
    pub discord_token: String,
    pub guild_id: u64,
    pub qdrant_url: String,
    pub log_level: String,
    pub nlp: NLP,
    pub embedding: Embedding,
}

} // verus!
