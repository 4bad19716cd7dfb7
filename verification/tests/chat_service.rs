use std::cell::RefCell;

use tiered_memory::build_messages;
use tiered_memory::make_midterm;
use tiered_memory::process_message;
use tiered_memory::promote_overflow;
use tiered_memory::summarize_turn;
use tiered_memory::AIClient;
use tiered_memory::AppError;
use tiered_memory::ChatMessage;
use tiered_memory::EmbeddingVector;
use tiered_memory::InMemoryStore;
use tiered_memory::LongTermMemory;
use tiered_memory::LongTermStore;
use tiered_memory::MemoryLongTermStore;
use tiered_memory::MidTermMemory;
use tiered_memory::Role;
use tiered_memory::ShortTermMessage;
use tiered_memory::ShortTermStore;

#[test]
fn build_messages_no_context() {
    let (prompt, history) = build_messages("hello", &[], &[], &[]);
    assert_eq!(history.len(), 0);
    assert_eq!(prompt, ChatMessage::user("hello".to_string()));
}

#[test]
fn build_messages_with_short_context() {
    let short = vec![
        ShortTermMessage {
            role: Role::User,
            user_id: 1,
            content: "hi".to_string(),
            timestamp: 0,
        },
        ShortTermMessage {
            role: Role::Assistant,
            user_id: 1,
            content: "hello".to_string(),
            timestamp: 1,
        },
    ];

    let (prompt, history) = build_messages("how are you", &short, &[], &[]);
    assert_eq!(history.len(), 2);
    assert_eq!(prompt, ChatMessage::user("how are you".to_string()));
}

#[test]
fn build_messages_with_longterm_context() {
    let longterm = vec![LongTermMemory {
        id: "1".to_string(),
        user_id: 1,
        fact: "Likes Rust".to_string(),
        category: "preference".to_string(),
        created_at: 0,
        updated_at: 0,
    }];

    let (_prompt, history) = build_messages("hello", &[], &[], &longterm);
    // Should have context injection pair (user + assistant)
    assert_eq!(history.len(), 2);
}

#[test]
fn build_messages_with_midterm_context() {
    let midterm = vec![MidTermMemory {
        id: "1".to_string(),
        user_id: 1,
        channel_id: 100,
        summary: "Discussed project".to_string(),
        created_at: 0,
        expires_at: 999,
    }];

    let (_prompt, history) = build_messages("hello", &[], &midterm, &[]);
    assert_eq!(history.len(), 2);
}

#[test]
fn build_messages_full_context() {
    let short = vec![ShortTermMessage {
        role: Role::User,
        user_id: 1,
        content: "prev msg".to_string(),
        timestamp: 0,
    }];
    let midterm = vec![MidTermMemory {
        id: "1".to_string(),
        user_id: 1,
        channel_id: 100,
        summary: "Past talk".to_string(),
        created_at: 0,
        expires_at: 999,
    }];
    let longterm = vec![LongTermMemory {
        id: "1".to_string(),
        user_id: 1,
        fact: "Likes cats".to_string(),
        category: "preference".to_string(),
        created_at: 0,
        updated_at: 0,
    }];

    let (prompt, history) = build_messages("new msg", &short, &midterm, &longterm);
    // 2 context injection + 1 short term
    assert_eq!(history.len(), 3);
    assert_eq!(prompt, ChatMessage::user("new msg".to_string()));
}

#[test]
fn build_messages_injection_layout() {
    let longterm = vec![LongTermMemory {
        id: "1".to_string(),
        user_id: 1,
        fact: "Likes Rust".to_string(),
        category: "preference".to_string(),
        created_at: 0,
        updated_at: 0,
    }];
    let midterm = vec![MidTermMemory {
        id: "2".to_string(),
        user_id: 1,
        channel_id: 100,
        summary: "Discussed lifetimes".to_string(),
        created_at: 0,
        expires_at: 999,
    }];

    let (_prompt, history) = build_messages("hello", &[], &midterm, &longterm);
    assert_eq!(
        history[0].content,
        "[What we know about this user]\n- Likes Rust\n\n\
         [Summarizing relevant past conversations]\n- Discussed lifetimes\n"
    );
    assert_eq!(
        history[1].content,
        "Understood. I will use this context in our conversation."
    );
}

#[test]
fn summarize_turn_brackets_the_role() {
    let user_turn = ShortTermMessage {
        role: Role::User,
        user_id: 1,
        content: "hi there".to_string(),
        timestamp: 0,
    };
    assert_eq!(summarize_turn(&user_turn), "[user] hi there");
    let assistant_turn = ShortTermMessage {
        role: Role::Assistant,
        user_id: 1,
        content: "hello".to_string(),
        timestamp: 0,
    };
    assert_eq!(summarize_turn(&assistant_turn), "[assistant] hello");
}

#[test]
fn make_midterm_sets_expiry_one_ttl_later() {
    let m = make_midterm(7, 100, "[user] hi".to_string(), 1000);
    assert_eq!(m.user_id, 7);
    assert_eq!(m.channel_id, 100);
    assert_eq!(m.summary, "[user] hi");
    assert_eq!(m.created_at, 1000);
    assert_eq!(m.expires_at, 1000 + 60 * 60 * 24 * 7);
    // canonical hyphenated form of a freshly generated id
    assert_eq!(m.id.len(), 36);
}

struct FakeAi {
    fail_embed_for: Vec<String>,
    fail_generate: bool,
    reply: String,
    seen_history: RefCell<Vec<ChatMessage>>,
}

impl FakeAi {
    fn answering(reply: &str) -> FakeAi {
        FakeAi {
            fail_embed_for: Vec::new(),
            fail_generate: false,
            reply: reply.to_string(),
            seen_history: RefCell::new(Vec::new()),
        }
    }
}

impl AIClient for FakeAi {
    fn embed(&self, text: String) -> Result<EmbeddingVector, String> {
        if self.fail_embed_for.iter().any(|t| *t == text) {
            Err("embedding refused".to_string())
        } else {
            Ok(EmbeddingVector { data: vec![1, 2, 3] })
        }
    }

    fn generate(
        &self,
        _prompt: ChatMessage,
        chat_history: Vec<ChatMessage>,
    ) -> Result<String, String> {
        *self.seen_history.borrow_mut() = chat_history;
        if self.fail_generate {
            Err("generation refused".to_string())
        } else {
            Ok(self.reply.clone())
        }
    }
}

#[test]
fn process_message_records_user_then_assistant() {
    let ai = FakeAi::answering("hello back");
    let mut short = InMemoryStore::new(10);
    let mut long = MemoryLongTermStore::new();

    let reply = process_message(&ai, &mut short, &mut long, 100, 7, "hi".to_string()).unwrap();
    assert_eq!(reply, "hello back");

    let ctx = short.get_context(100);
    assert_eq!(ctx.len(), 2);
    assert_eq!(ctx[0].role, Role::User);
    assert_eq!(ctx[0].content, "hi");
    assert_eq!(ctx[0].user_id, 7);
    assert_eq!(ctx[1].role, Role::Assistant);
    assert_eq!(ctx[1].content, "hello back");
}

#[test]
fn process_message_with_empty_stores_injects_nothing() {
    let ai = FakeAi::answering("reply");
    let mut short = InMemoryStore::new(10);
    let mut long = MemoryLongTermStore::new();

    process_message(&ai, &mut short, &mut long, 100, 7, "hi".to_string()).unwrap();
    // empty mid-term and long-term results: no injected context messages
    assert_eq!(ai.seen_history.borrow().len(), 0);
}

#[test]
fn process_message_generation_failure_records_nothing() {
    let mut ai = FakeAi::answering("unused");
    ai.fail_generate = true;
    let mut short = InMemoryStore::new(10);
    let mut long = MemoryLongTermStore::new();
    short.push(
        100,
        ShortTermMessage {
            role: Role::User,
            user_id: 7,
            content: "earlier".to_string(),
            timestamp: 0,
        },
    );

    let before: Vec<String> = short
        .get_context(100)
        .into_iter()
        .map(|m| m.content)
        .collect();
    let result = process_message(&ai, &mut short, &mut long, 100, 7, "hi".to_string());
    assert!(matches!(result, Err(AppError::AIGeneration(_))));

    let after: Vec<String> = short
        .get_context(100)
        .into_iter()
        .map(|m| m.content)
        .collect();
    assert_eq!(before, after);
    assert!(long.search_midterm(&EmbeddingVector { data: vec![1] }, 7, 10).unwrap().is_empty());
}

#[test]
fn process_message_embedding_failure_reports_embedding_error() {
    let ai = FakeAi {
        fail_embed_for: vec!["hi".to_string()],
        fail_generate: false,
        reply: "unused".to_string(),
        seen_history: RefCell::new(Vec::new()),
    };
    let mut short = InMemoryStore::new(10);
    let mut long = MemoryLongTermStore::new();

    let result = process_message(&ai, &mut short, &mut long, 100, 7, "hi".to_string());
    assert!(matches!(result, Err(AppError::Embedding(_))));
    assert!(short.get_context(100).is_empty());
}

struct FailingStore;

impl LongTermStore for FailingStore {
    fn store_longterm(
        &mut self,
        _memory: LongTermMemory,
        _embedding: EmbeddingVector,
    ) -> Result<(), String> {
        Err("store unavailable".to_string())
    }

    fn store_midterm(
        &mut self,
        _memory: MidTermMemory,
        _embedding: EmbeddingVector,
    ) -> Result<(), String> {
        Err("store unavailable".to_string())
    }

    fn search_longterm(
        &self,
        _query: &EmbeddingVector,
        _user_id: u64,
        _limit: u64,
    ) -> Result<Vec<LongTermMemory>, String> {
        Err("store unavailable".to_string())
    }

    fn search_midterm(
        &self,
        _query: &EmbeddingVector,
        _user_id: u64,
        _limit: u64,
    ) -> Result<Vec<MidTermMemory>, String> {
        Err("store unavailable".to_string())
    }

    fn delete_expired_midterm(&mut self) -> Result<(), String> {
        Err("store unavailable".to_string())
    }
}

#[test]
fn process_message_search_failure_reports_store_error() {
    let ai = FakeAi::answering("unused");
    let mut short = InMemoryStore::new(10);
    let mut long = FailingStore;

    let result = process_message(&ai, &mut short, &mut long, 100, 7, "hi".to_string());
    assert!(matches!(result, Err(AppError::Store(_))));
    assert!(short.get_context(100).is_empty());
}

#[test]
fn promotion_counts_store_failures_without_propagating() {
    let ai = FakeAi::answering("unused");
    let mut long = FailingStore;
    let overflow = vec![
        ShortTermMessage {
            role: Role::User,
            user_id: 7,
            content: "one".to_string(),
            timestamp: 0,
        },
        ShortTermMessage {
            role: Role::User,
            user_id: 7,
            content: "two".to_string(),
            timestamp: 0,
        },
    ];

    let fail_count = promote_overflow(&ai, &mut long, 7, 100, overflow);
    assert_eq!(fail_count, 2);
}

#[test]
fn promotion_isolation() {
    let ai = FakeAi {
        fail_embed_for: vec!["[user] bad".to_string()],
        fail_generate: false,
        reply: "unused".to_string(),
        seen_history: RefCell::new(Vec::new()),
    };
    let mut long = MemoryLongTermStore::new();
    let overflow = vec![
        ShortTermMessage {
            role: Role::User,
            user_id: 7,
            content: "ok1".to_string(),
            timestamp: 0,
        },
        ShortTermMessage {
            role: Role::User,
            user_id: 7,
            content: "bad".to_string(),
            timestamp: 0,
        },
        ShortTermMessage {
            role: Role::Assistant,
            user_id: 7,
            content: "ok2".to_string(),
            timestamp: 0,
        },
    ];

    let fail_count = promote_overflow(&ai, &mut long, 7, 100, overflow);
    assert_eq!(fail_count, 1);

    let stored = long
        .search_midterm(&EmbeddingVector { data: vec![1] }, 7, 10)
        .unwrap();
    assert_eq!(stored.len(), 2);
    let summaries: Vec<String> = stored.iter().map(|m| m.summary.clone()).collect();
    assert!(summaries.contains(&"[user] ok1".to_string()));
    assert!(summaries.contains(&"[assistant] ok2".to_string()));
    for m in &stored {
        assert_eq!(m.expires_at, m.created_at + 60 * 60 * 24 * 7);
        assert_eq!(m.channel_id, 100);
    }
}

#[test]
fn overflowing_turns_are_promoted_during_a_turn() {
    let ai = FakeAi::answering("reply");
    let mut short = InMemoryStore::new(1);
    let mut long = MemoryLongTermStore::new();
    short.push(
        100,
        ShortTermMessage {
            role: Role::User,
            user_id: 7,
            content: "oldest".to_string(),
            timestamp: 0,
        },
    );

    process_message(&ai, &mut short, &mut long, 100, 7, "hi".to_string()).unwrap();

    // capacity 1: "oldest" and "hi" were evicted and promoted
    let stored = long
        .search_midterm(&EmbeddingVector { data: vec![1] }, 7, 10)
        .unwrap();
    let summaries: Vec<String> = stored.iter().map(|m| m.summary.clone()).collect();
    assert!(summaries.contains(&"[user] oldest".to_string()));
    assert!(summaries.contains(&"[user] hi".to_string()));
    let ctx = short.get_context(100);
    assert_eq!(ctx.len(), 1);
    assert_eq!(ctx[0].content, "reply");
}
