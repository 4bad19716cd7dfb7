use tiered_memory::EmbeddingVector;
use tiered_memory::InMemoryStore;
use tiered_memory::LongTermMemory;
use tiered_memory::LongTermStore;
use tiered_memory::MemoryLongTermStore;
use tiered_memory::MidTermMemory;
use tiered_memory::Role;
use tiered_memory::ShortTermMessage;
use tiered_memory::ShortTermStore;

fn make_msg(content: &str) -> ShortTermMessage {
    ShortTermMessage {
        role: Role::User,
        user_id: 1,
        content: content.to_string(),
        timestamp: 0,
    }
}

#[test]
fn push_and_get_context() {
    let mut store = InMemoryStore::new(5);
    let overflow = store.push(100, make_msg("hello"));
    assert!(overflow.is_empty());

    let ctx = store.get_context(100);
    assert_eq!(ctx.len(), 1);
    assert_eq!(ctx[0].content, "hello");
}

#[test]
fn get_context_empty_channel() {
    let store = InMemoryStore::new(5);
    let ctx = store.get_context(999);
    assert!(ctx.is_empty());
}

#[test]
fn overflow_returns_oldest_messages() {
    let mut store = InMemoryStore::new(2);
    store.push(100, make_msg("msg1"));
    store.push(100, make_msg("msg2"));
    let overflow = store.push(100, make_msg("msg3"));

    assert_eq!(overflow.len(), 1);
    assert_eq!(overflow[0].content, "msg1");

    let ctx = store.get_context(100);
    assert_eq!(ctx.len(), 2);
    assert_eq!(ctx[0].content, "msg2");
    assert_eq!(ctx[1].content, "msg3");
}

#[test]
fn separate_channels_are_independent() {
    let mut store = InMemoryStore::new(5);
    store.push(100, make_msg("ch100"));
    store.push(200, make_msg("ch200"));

    let ctx100 = store.get_context(100);
    let ctx200 = store.get_context(200);
    assert_eq!(ctx100.len(), 1);
    assert_eq!(ctx200.len(), 1);
    assert_eq!(ctx100[0].content, "ch100");
    assert_eq!(ctx200[0].content, "ch200");
}

#[test]
fn cumulative_overflow_keeps_insertion_order() {
    let mut store = InMemoryStore::new(3);
    let mut evicted: Vec<String> = Vec::new();
    for i in 0..10 {
        let overflow = store.push(100, make_msg(&format!("m{}", i)));
        for msg in overflow {
            evicted.push(msg.content);
        }
    }
    let expected: Vec<String> = (0..7).map(|i| format!("m{}", i)).collect();
    assert_eq!(evicted, expected);
    let ctx = store.get_context(100);
    let tail: Vec<String> = ctx.into_iter().map(|m| m.content).collect();
    assert_eq!(tail, vec!["m7".to_string(), "m8".to_string(), "m9".to_string()]);
}

fn embedding() -> EmbeddingVector {
    EmbeddingVector { data: vec![1, 2, 3] }
}

fn midterm(id: &str, user_id: u64, summary: &str, expires_at: i64) -> MidTermMemory {
    MidTermMemory {
        id: id.to_string(),
        user_id,
        channel_id: 100,
        summary: summary.to_string(),
        created_at: 0,
        expires_at,
    }
}

fn longterm(id: &str, user_id: u64, fact: &str) -> LongTermMemory {
    LongTermMemory {
        id: id.to_string(),
        user_id,
        fact: fact.to_string(),
        category: "preference".to_string(),
        created_at: 0,
        updated_at: 0,
    }
}

#[test]
fn search_respects_limit_and_user() {
    let mut store = MemoryLongTermStore::new();
    for i in 0..5 {
        let m = midterm(&format!("id{}", i), 7, &format!("s{}", i), 10_000);
        store.store_midterm(m, embedding()).unwrap();
    }
    store
        .store_midterm(midterm("other", 8, "not yours", 10_000), embedding())
        .unwrap();

    let found = store.search_midterm(&embedding(), 7, 3).unwrap();
    assert_eq!(found.len(), 3);
    assert!(found.iter().all(|m| m.user_id == 7));

    let all = store.search_midterm(&embedding(), 7, 100).unwrap();
    assert_eq!(all.len(), 5);

    let none = store.search_midterm(&embedding(), 9, 10).unwrap();
    assert!(none.is_empty());
}

#[test]
fn search_longterm_respects_limit_and_user() {
    let mut store = MemoryLongTermStore::new();
    for i in 0..4 {
        let m = longterm(&format!("id{}", i), 7, &format!("f{}", i));
        store.store_longterm(m, embedding()).unwrap();
    }
    store
        .store_longterm(longterm("other", 8, "not yours"), embedding())
        .unwrap();

    let found = store.search_longterm(&embedding(), 7, 2).unwrap();
    assert_eq!(found.len(), 2);
    assert!(found.iter().all(|m| m.user_id == 7));
}

#[test]
fn store_midterm_upserts_by_id() {
    let mut store = MemoryLongTermStore::new();
    store
        .store_midterm(midterm("same", 7, "first", 10_000), embedding())
        .unwrap();
    store
        .store_midterm(midterm("same", 7, "second", 10_000), embedding())
        .unwrap();

    let found = store.search_midterm(&embedding(), 7, 10).unwrap();
    assert_eq!(found.len(), 1);
    assert_eq!(found[0].summary, "second");
}

#[test]
fn sweep_removes_expired_keeps_live() {
    let mut store = MemoryLongTermStore::new();
    store
        .store_midterm(midterm("old", 7, "expired", 1000), embedding())
        .unwrap();
    store
        .store_midterm(midterm("new", 7, "alive", 2000), embedding())
        .unwrap();

    store.sweep_midterm(1500);

    let found = store.search_midterm(&embedding(), 7, 10).unwrap();
    assert_eq!(found.len(), 1);
    assert_eq!(found[0].id, "new");
}

#[test]
fn sweep_is_idempotent() {
    let mut store = MemoryLongTermStore::new();
    store
        .store_midterm(midterm("a", 7, "one", 1000), embedding())
        .unwrap();
    store
        .store_midterm(midterm("b", 7, "two", 3000), embedding())
        .unwrap();

    store.sweep_midterm(1500);
    let after_first: Vec<String> = store
        .search_midterm(&embedding(), 7, 10)
        .unwrap()
        .into_iter()
        .map(|m| m.id)
        .collect();

    store.sweep_midterm(1500);
    let after_second: Vec<String> = store
        .search_midterm(&embedding(), 7, 10)
        .unwrap()
        .into_iter()
        .map(|m| m.id)
        .collect();

    assert_eq!(after_first, after_second);
    assert_eq!(after_first, vec!["b".to_string()]);
}

#[test]
fn delete_expired_midterm_keeps_unexpired_and_longterm() {
    let mut store = MemoryLongTermStore::new();
    store
        .store_midterm(midterm("keep", 7, "alive", i64::MAX), embedding())
        .unwrap();
    store
        .store_longterm(longterm("fact", 7, "durable"), embedding())
        .unwrap();

    store.delete_expired_midterm().unwrap();
    store.delete_expired_midterm().unwrap();

    let mid = store.search_midterm(&embedding(), 7, 10).unwrap();
    assert_eq!(mid.len(), 1);
    let long = store.search_longterm(&embedding(), 7, 10).unwrap();
    assert_eq!(long.len(), 1);
}
