use tiered_memory::split_message;

#[test]
fn short_message_returns_single_chunk() {
    let msg = "Hello, world!";
    let chunks = split_message(msg);
    assert_eq!(chunks, vec!["Hello, world!"]);
}

#[test]
fn empty_message_returns_single_chunk() {
    let chunks = split_message("");
    assert_eq!(chunks, vec![""]);
}

#[test]
fn exactly_2000_chars_returns_single_chunk() {
    let msg = "a".repeat(2000);
    let chunks = split_message(&msg);
    assert_eq!(chunks.len(), 1);
    assert_eq!(chunks[0].len(), 2000);
}

#[test]
fn over_2000_chars_splits_at_newline() {
    // 1990 chars + \n + 1990 chars = 3981 chars total
    let part = "a".repeat(1990);
    let msg = format!("{}\n{}", part, part);
    let chunks = split_message(&msg);
    assert_eq!(chunks.len(), 2);
    assert!(chunks[0].len() <= 2000);
    assert!(chunks[1].len() <= 2000);
}

#[test]
fn over_2000_chars_no_newline_splits_at_limit() {
    let msg = "a".repeat(4500);
    let chunks = split_message(&msg);
    assert_eq!(chunks.len(), 3);
    assert_eq!(chunks[0].len(), 2000);
    assert_eq!(chunks[1].len(), 2000);
    assert_eq!(chunks[2].len(), 500);
}

#[test]
fn chunks_join_back_to_the_original() {
    let part = "line one\nline two\n".repeat(300);
    let chunks = split_message(&part);
    assert!(chunks.len() > 1);
    assert_eq!(chunks.concat(), part);
    for chunk in &chunks {
        assert!(chunk.len() <= 2000);
    }
}
