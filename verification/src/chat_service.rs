//! The turn orchestrator: one entry point per user turn, the prompt
//! assembler, and the promotion of evicted turns into mid-term memory.
//!
//! A turn either fully succeeds — the reply is returned and exactly one
//! user turn then one assistant turn are appended to the short-term
//! store — or fully fails with no turn recorded.  Promotion of evicted
//! turns is a best-effort side effect that never fails the turn.

use std::time::SystemTime;
use std::time::UNIX_EPOCH;

use vstd::prelude::*;

use crate::ai_client::AIClient;
use crate::error::AppError;
use crate::long_term::contains_midterm_record;
use crate::long_term::lemma_midterm_upsert_members;
use crate::long_term::LongTermStore;
use crate::models::ChatMessage;
use crate::models::ChatRole;
use crate::models::LongTermMemory;
use crate::models::MidTermMemory;
use crate::models::Role;
use crate::models::ShortTermMessage;
use crate::short_term::push_spec;
use crate::short_term::ShortTermStore;

verus! {

/// How long a promoted mid-term memory lives, in seconds: seven days.
pub const MIDTERM_TTL_SECONDS: i64 = 60 * 60 * 24 * 7;

/// Relies on `std::time::SystemTime::now`: seconds since the Unix
/// epoch, zero when the clock reads earlier than the epoch.  The
/// result depends on the wall clock, so nothing is promised of it.
#[verifier::external_body]
pub fn current_timestamp() -> i64 {
    SystemTime::now().duration_since(UNIX_EPOCH).unwrap_or_default().as_secs() as i64
}

/// Relies on `uuid::Uuid::new_v4`, rendered in its canonical
/// hyphenated form: a freshly generated random identifier.  Randomness
/// decides the result, so nothing is promised of it.
#[verifier::external_body]
fn fresh_id() -> String {
    uuid::Uuid::new_v4().to_string()
}

/// When a mid-term memory created at `created` expires: the fixed TTL
/// later, held at the largest representable time where adding the TTL
/// would overflow.
pub open spec fn expiry_of(created: i64) -> i64 {
    if created <= i64::MAX - MIDTERM_TTL_SECONDS {
        (created + MIDTERM_TTL_SECONDS) as i64
    } else {
        i64::MAX
    }
}

/// A fresh mid-term memory for a promoted turn: created now, expiring
/// a fixed TTL later, under a freshly generated id.
pub fn make_midterm(user_id: u64, channel_id: u64, summary: String, now: i64) -> (m: MidTermMemory)
    ensures
        m.user_id == user_id,
        m.channel_id == channel_id,
        m.summary == summary,
        m.created_at == now,
        m.expires_at == expiry_of(now),
{
    let expires_at: i64 = if now <= i64::MAX - MIDTERM_TTL_SECONDS {
        now + MIDTERM_TTL_SECONDS
    } else {
        i64::MAX
    };
    MidTermMemory { id: fresh_id(), user_id, channel_id, summary, created_at: now, expires_at }
}

/// The summary text under which an evicted turn is promoted: the role
/// in brackets, then the original content.
pub open spec fn turn_summary(msg: ShortTermMessage) -> Seq<char> {
    match msg.role {
        Role::User => "[user] "@ + msg.content@,
        Role::Assistant => "[assistant] "@ + msg.content@,
    }
}

/// Renders the summary text of an evicted turn.
pub fn summarize_turn(msg: &ShortTermMessage) -> (summary: String)
    ensures
        summary@ == turn_summary(*msg),
{
    let mut summary = match msg.role {
        Role::User => String::from_str("[user] "),
        Role::Assistant => String::from_str("[assistant] "),
    };
    summary.append(msg.content.as_str());
    summary
}

/// A record that promotion may have written for one of the evicted
/// turns: it belongs to the given user and channel, it expires the
/// fixed TTL after its creation, and its summary renders one of the
/// evicted turns.
pub open spec fn promoted_record(
    m: MidTermMemory,
    overflow: Seq<ShortTermMessage>,
    user_id: u64,
    channel_id: u64,
) -> bool {
    &&& m.user_id == user_id
    &&& m.channel_id == channel_id
    &&& m.expires_at == expiry_of(m.created_at)
    &&& exists|k: int| 0 <= k < overflow.len() && m.summary@ == turn_summary(#[trigger] overflow[k])
}

/// Promotes each evicted turn into a mid-term memory: summarize, embed,
/// store.  A failure of the embedding capability or of the store counts
/// the item as failed and the batch continues; nothing is ever
/// propagated to the caller beyond the count of failed items.  At most
/// one record per non-failed item is added, every stored long-term
/// record is untouched, and every mid-term record afterwards is either
/// one from before the call or a record promoted from this batch.
#[verifier::loop_isolation(false)]
pub fn promote_overflow<A: AIClient, L: LongTermStore>(
    ai_client: &A,
    long_term_store: &mut L,
    user_id: u64,
    channel_id: u64,
    overflow: Vec<ShortTermMessage>,
) -> (fail_count: usize)
    requires
        old(long_term_store).wf(),
    ensures
        final(long_term_store).wf(),
        fail_count <= overflow@.len(),
        final(long_term_store).longterms() == old(long_term_store).longterms(),
        final(long_term_store).midterms().len() + fail_count <= old(
            long_term_store,
        ).midterms().len() + overflow@.len(),
        forall|j: int|
            0 <= j < final(long_term_store).midterms().len() ==> contains_midterm_record(
                old(long_term_store).midterms(),
                (#[trigger] final(long_term_store).midterms()[j]).0,
            ) || promoted_record(
                final(long_term_store).midterms()[j].0,
                overflow@,
                user_id,
                channel_id,
            ),
{
    let mut fail_count: usize = 0;
    let mut idx: usize = 0;
    while idx < overflow.len()
        invariant
            idx <= overflow@.len(),
            fail_count <= idx,
            long_term_store.wf(),
            long_term_store.longterms() == old(long_term_store).longterms(),
            long_term_store.midterms().len() + fail_count <= old(long_term_store).midterms().len()
                + idx,
            forall|j: int|
                0 <= j < long_term_store.midterms().len() ==> contains_midterm_record(
                    old(long_term_store).midterms(),
                    (#[trigger] long_term_store.midterms()[j]).0,
                ) || promoted_record(
                    long_term_store.midterms()[j].0,
                    overflow@,
                    user_id,
                    channel_id,
                ),
        decreases overflow@.len() - idx,
    {
        let summary = summarize_turn(&overflow[idx]);
        match ai_client.embed(summary.clone()) {
            Ok(embedding) => {
                let now = current_timestamp();
                let memory = make_midterm(user_id, channel_id, summary, now);
                let ghost mid_before = long_term_store.midterms();
                let stored = long_term_store.store_midterm(memory, embedding);
                proof {
                    if stored is Ok {
                        lemma_midterm_upsert_members(mid_before, memory, embedding);
                        assert forall|j: int|
                            0 <= j < long_term_store.midterms().len() implies contains_midterm_record(
                            old(long_term_store).midterms(),
                            (#[trigger] long_term_store.midterms()[j]).0,
                        ) || promoted_record(
                            long_term_store.midterms()[j].0,
                            overflow@,
                            user_id,
                            channel_id,
                        ) by {
                            let pair = long_term_store.midterms()[j];
                            if pair == (memory, embedding) {
                                assert(memory.summary@ == turn_summary(overflow@[idx as int]));
                                assert(promoted_record(memory, overflow@, user_id, channel_id));
                            } else {
                                let k = choose|k: int|
                                    0 <= k < mid_before.len() && long_term_store.midterms()[j]
                                        == mid_before[k];
                                assert(mid_before[k].0 == pair.0);
                            }
                        }
                    }
                }
                if stored.is_err() {
                    fail_count += 1;
                }
            },
            Err(_e) => {
                fail_count += 1;
            },
        }
        idx += 1;
    }
    fail_count
}

/// A record that this turn's promotion may have added: it belongs to
/// the turn's user and channel and expires the fixed TTL after its
/// creation.
pub open spec fn turn_promoted_record(m: MidTermMemory, user_id: u64, channel_id: u64) -> bool {
    &&& m.user_id == user_id
    &&& m.channel_id == channel_id
    &&& m.expires_at == expiry_of(m.created_at)
}

/// Whether retrieval found anything to surface: the context injection
/// pair is produced exactly when one of the lists is non-empty.
pub open spec fn context_injected(
    midterm: Seq<MidTermMemory>,
    longterm: Seq<LongTermMemory>,
) -> bool {
    midterm.len() > 0 || longterm.len() > 0
}

/// How many synthetic messages stand at the head of the history.
pub open spec fn injection_len(
    midterm: Seq<MidTermMemory>,
    longterm: Seq<LongTermMemory>,
) -> int {
    if context_injected(midterm, longterm) {
        2
    } else {
        0
    }
}

/// One bullet line per text, each line newline-terminated.
pub open spec fn bullet_lines(texts: Seq<Seq<char>>) -> Seq<char>
    decreases texts.len(),
{
    if texts.len() == 0 {
        Seq::empty()
    } else {
        "- "@ + texts[0] + "\n"@ + bullet_lines(texts.skip(1))
    }
}

/// The fact text of each long-term memory.
pub open spec fn longterm_facts(longterm: Seq<LongTermMemory>) -> Seq<Seq<char>> {
    longterm.map_values(|m: LongTermMemory| m.fact@)
}

/// The summary text of each mid-term memory.
pub open spec fn midterm_summaries(midterm: Seq<MidTermMemory>) -> Seq<Seq<char>> {
    midterm.map_values(|m: MidTermMemory| m.summary@)
}

/// The text of the context injection message: a block of long-term
/// facts, then a block of mid-term summaries, each block headed by a
/// caption and holding one bullet line per memory; a block is omitted
/// entirely when its list is empty, and a blank line separates the two
/// blocks when both are present.
pub open spec fn context_text(
    longterm: Seq<LongTermMemory>,
    midterm: Seq<MidTermMemory>,
) -> Seq<char> {
    (if longterm.len() > 0 {
        "[What we know about this user]\n"@ + bullet_lines(longterm_facts(longterm))
    } else {
        Seq::empty()
    }) + (if longterm.len() > 0 && midterm.len() > 0 {
        "\n"@
    } else {
        Seq::empty()
    }) + (if midterm.len() > 0 {
        "[Summarizing relevant past conversations]\n"@ + bullet_lines(midterm_summaries(midterm))
    } else {
        Seq::empty()
    })
}

proof fn lemma_bullet_lines_snoc(texts: Seq<Seq<char>>, i: int)
    requires
        0 <= i < texts.len(),
    ensures
        bullet_lines(texts.take(i + 1)) == bullet_lines(texts.take(i)) + ("- "@ + texts[i]
            + "\n"@),
    decreases i,
{
    if i == 0 {
        assert(texts.take(1).skip(1) =~= Seq::<Seq<char>>::empty());
        assert(texts.take(0) =~= Seq::<Seq<char>>::empty());
        assert(texts.take(1)[0] == texts[0]);
        assert(bullet_lines(texts.take(1)) =~= bullet_lines(texts.take(0)) + ("- "@ + texts[0]
            + "\n"@));
    } else {
        assert(texts.take(i + 1).skip(1) =~= texts.skip(1).take(i));
        assert(texts.take(i).skip(1) =~= texts.skip(1).take(i - 1));
        lemma_bullet_lines_snoc(texts.skip(1), i - 1);
        assert(texts.skip(1)[i - 1] == texts[i]);
        assert(bullet_lines(texts.take(i + 1)) =~= bullet_lines(texts.take(i)) + ("- "@ + texts[i]
            + "\n"@));
    }
}

fn append_fact_lines(text: &mut String, longterm: &[LongTermMemory])
    ensures
        final(text)@ == old(text)@ + bullet_lines(longterm_facts(longterm@)),
{
    let ghost base = text@;
    let mut i: usize = 0;
    while i < longterm.len()
        invariant
            i <= longterm@.len(),
            text@ == base + bullet_lines(longterm_facts(longterm@).take(i as int)),
        decreases longterm@.len() - i,
    {
        text.append("- ");
        text.append(longterm[i].fact.as_str());
        text.append("\n");
        proof {
            lemma_bullet_lines_snoc(longterm_facts(longterm@), i as int);
            assert(longterm_facts(longterm@)[i as int] == longterm@[i as int].fact@);
            assert(text@ =~= base + bullet_lines(longterm_facts(longterm@).take(i as int + 1)));
        }
        i += 1;
    }
    proof {
        assert(longterm_facts(longterm@).take(longterm@.len() as int) =~= longterm_facts(
            longterm@,
        ));
    }
}

fn append_summary_lines(text: &mut String, midterm: &[MidTermMemory])
    ensures
        final(text)@ == old(text)@ + bullet_lines(midterm_summaries(midterm@)),
{
    let ghost base = text@;
    let mut i: usize = 0;
    while i < midterm.len()
        invariant
            i <= midterm@.len(),
            text@ == base + bullet_lines(midterm_summaries(midterm@).take(i as int)),
        decreases midterm@.len() - i,
    {
        text.append("- ");
        text.append(midterm[i].summary.as_str());
        text.append("\n");
        proof {
            lemma_bullet_lines_snoc(midterm_summaries(midterm@), i as int);
            assert(midterm_summaries(midterm@)[i as int] == midterm@[i as int].summary@);
            assert(text@ =~= base + bullet_lines(midterm_summaries(midterm@).take(i as int + 1)));
        }
        i += 1;
    }
    proof {
        assert(midterm_summaries(midterm@).take(midterm@.len() as int) =~= midterm_summaries(
            midterm@,
        ));
    }
}

fn build_context_text(longterm: &[LongTermMemory], midterm: &[MidTermMemory]) -> (text: String)
    ensures
        text@ == context_text(longterm@, midterm@),
{
    let mut text = String::new();
    if longterm.len() > 0 {
        text.append("[What we know about this user]\n");
        append_fact_lines(&mut text, longterm);
        if midterm.len() > 0 {
            text.append("\n");
        }
    }
    if midterm.len() > 0 {
        text.append("[Summarizing relevant past conversations]\n");
        append_summary_lines(&mut text, midterm);
    }
    proof {
        assert(text@ =~= context_text(longterm@, midterm@));
    }
    text
}

/// A turn translated by role for the completion capability.
pub open spec fn translate_role(role: Role) -> ChatRole {
    match role {
        Role::User => ChatRole::User,
        Role::Assistant => ChatRole::Assistant,
    }
}

/// The short-term turns translated by role, in their stored order.
pub open spec fn translated(turns: Seq<ShortTermMessage>) -> Seq<ChatMessage> {
    turns.map_values(
        |t: ShortTermMessage| ChatMessage { role: translate_role(t.role), content: t.content },
    )
}

/// Builds the prompt and the history handed to the completion
/// capability: at the head, the context injection pair — one user-role
/// message carrying the retrieved memories and one assistant-role
/// acknowledgment — present exactly when retrieval found anything;
/// then every short-term turn translated by role, in stored order.
/// The current user message is the prompt, kept out of the history.
pub fn build_messages(
    user_message: &str,
    short_context: &[ShortTermMessage],
    midterm: &[MidTermMemory],
    longterm: &[LongTermMemory],
) -> (r: (ChatMessage, Vec<ChatMessage>))
    ensures
        r.0.role == ChatRole::User,
        r.0.content@ == user_message@,
        r.1@.len() == injection_len(midterm@, longterm@) + short_context@.len(),
        r.1@.skip(injection_len(midterm@, longterm@)) == translated(short_context@),
        context_injected(midterm@, longterm@) ==> r.1@[0].role == ChatRole::User
            && r.1@[0].content@ == context_text(longterm@, midterm@) && r.1@[1].role
            == ChatRole::Assistant && r.1@[1].content@
            == "Understood. I will use this context in our conversation."@,
        !context_injected(midterm@, longterm@) ==> r.1@ == translated(short_context@),
{
    let mut history: Vec<ChatMessage> = Vec::new();

    if longterm.len() > 0 || midterm.len() > 0 {
        let context_string = build_context_text(longterm, midterm);
        history.push(ChatMessage::user(context_string));
        history.push(
            ChatMessage::assistant(
                String::from_str("Understood. I will use this context in our conversation."),
            ),
        );
    }

    let ghost injection = history@;
    let mut i: usize = 0;
    while i < short_context.len()
        invariant
            i <= short_context@.len(),
            history@ == injection + translated(short_context@.take(i as int)),
        decreases short_context@.len() - i,
    {
        let message = match short_context[i].role {
            Role::Assistant => ChatMessage::assistant(short_context[i].content.clone()),
            Role::User => ChatMessage::user(short_context[i].content.clone()),
        };
        history.push(message);
        proof {
            assert(history@ =~= injection + translated(short_context@.take(i as int + 1)));
        }
        i += 1;
    }
    proof {
        assert(short_context@.take(short_context@.len() as int) =~= short_context@);
        assert(history@.skip(injection_len(midterm@, longterm@)) =~= translated(short_context@));
    }

    let prompt = ChatMessage::user(user_message.to_owned());

    (prompt, history)
}

/// The channel's buffer after one turn is recorded: the user turn is
/// pushed, then the assistant turn, each push evicting from the front
/// past capacity.
pub open spec fn record_turn(
    buf: Seq<ShortTermMessage>,
    cap: nat,
    user_turn: ShortTermMessage,
    assistant_turn: ShortTermMessage,
) -> Seq<ShortTermMessage> {
    push_spec(push_spec(buf, cap, user_turn).0, cap, assistant_turn).0
}

/// When the channel's buffer has room for two more turns, recording a
/// turn appends exactly the user turn and then the assistant turn, and
/// nothing is evicted.
pub proof fn lemma_record_turn_no_overflow(
    buf: Seq<ShortTermMessage>,
    cap: nat,
    user_turn: ShortTermMessage,
    assistant_turn: ShortTermMessage,
)
    requires
        buf.len() + 2 <= cap,
    ensures
        record_turn(buf, cap, user_turn, assistant_turn) == buf.push(user_turn).push(
            assistant_turn,
        ),
{
    assert(push_spec(buf, cap, user_turn).0 =~= buf.push(user_turn));
    assert(record_turn(buf, cap, user_turn, assistant_turn) =~= buf.push(user_turn).push(
        assistant_turn,
    ));
}

/// Handles one user turn: read the channel's short-term context, embed
/// the message, retrieve the top mid-term and long-term memories of the
/// user, assemble the prompt, generate the reply, and only then record
/// the user turn and the assistant turn in the short-term store,
/// promoting whatever they evict.
///
/// The turn is all-or-nothing for the recording step: on any failure —
/// embedding, retrieval or generation — the error names the failed
/// stage and no store has been touched; on success the channel's
/// buffer holds exactly the old turns plus the user turn then the
/// assistant turn, trimmed to capacity, and no other channel has
/// changed.  Promotion failures never fail the turn.
pub fn process_message<A: AIClient, S: ShortTermStore, L: LongTermStore>(
    ai_client: &A,
    short_term_store: &mut S,
    long_term_store: &mut L,
    channel_id: u64,
    user_id: u64,
    user_message: String,
) -> (r: Result<String, AppError>)
    requires
        old(short_term_store).wf(),
        old(long_term_store).wf(),
    ensures
        final(short_term_store).wf(),
        final(long_term_store).wf(),
        final(short_term_store).capacity() == old(short_term_store).capacity(),
        final(long_term_store).longterms() == old(long_term_store).longterms(),
        r is Err ==> forall|c: u64|
            final(short_term_store).buffer(c) == old(short_term_store).buffer(c),
        r is Err ==> final(long_term_store).midterms() == old(long_term_store).midterms(),
        r matches Err(e) ==> e is Embedding || e is Store || e is AIGeneration,
        r matches Ok(reply) ==> exists|user_turn: ShortTermMessage, assistant_turn:
            ShortTermMessage|
            #![trigger record_turn(
                old(short_term_store).buffer(channel_id),
                old(short_term_store).capacity(),
                user_turn,
                assistant_turn,
            )]
            {
                &&& user_turn.role == Role::User
                &&& user_turn.user_id == user_id
                &&& user_turn.content == user_message
                &&& assistant_turn.role == Role::Assistant
                &&& assistant_turn.user_id == user_id
                &&& assistant_turn.content == reply
                &&& final(short_term_store).buffer(channel_id) == record_turn(
                    old(short_term_store).buffer(channel_id),
                    old(short_term_store).capacity(),
                    user_turn,
                    assistant_turn,
                )
            },
        r is Ok ==> forall|c: u64|
            c != channel_id ==> final(short_term_store).buffer(c) == old(short_term_store).buffer(
                c,
            ),
        r is Ok ==> forall|j: int|
            0 <= j < final(long_term_store).midterms().len() ==> contains_midterm_record(
                old(long_term_store).midterms(),
                (#[trigger] final(long_term_store).midterms()[j]).0,
            ) || turn_promoted_record(
                final(long_term_store).midterms()[j].0,
                user_id,
                channel_id,
            ),
{
    let in_memory_context = short_term_store.get_context(channel_id);

    let query_embedding = match ai_client.embed(user_message.clone()) {
        Ok(e) => e,
        Err(e) => {
            return Err(AppError::Embedding(e));
        },
    };

    let midterm_results = match long_term_store.search_midterm(&query_embedding, user_id, 3) {
        Ok(memories) => memories,
        Err(e) => {
            return Err(AppError::Store(e));
        },
    };

    let longterm_results = match long_term_store.search_longterm(&query_embedding, user_id, 5) {
        Ok(memories) => memories,
        Err(e) => {
            return Err(AppError::Store(e));
        },
    };

    let (prompt_message, chat_history) = build_messages(
        user_message.as_str(),
        in_memory_context.as_slice(),
        midterm_results.as_slice(),
        longterm_results.as_slice(),
    );

    let response = match ai_client.generate(prompt_message, chat_history) {
        Ok(reply) => reply,
        Err(e) => {
            return Err(AppError::AIGeneration(e));
        },
    };

    let now = current_timestamp();
    let user_msg = ShortTermMessage {
        role: Role::User,
        user_id,
        content: user_message,
        timestamp: now,
    };
    let ghost user_turn = user_msg;
    let overflow = short_term_store.push(channel_id, user_msg);
    let _user_fail_count = promote_overflow(
        ai_client,
        long_term_store,
        user_id,
        channel_id,
        overflow,
    );

    let assistant_msg = ShortTermMessage {
        role: Role::Assistant,
        user_id,
        content: response.clone(),
        timestamp: current_timestamp(),
    };
    let ghost assistant_turn = assistant_msg;
    let ghost mid_between = long_term_store.midterms();
    let overflow = short_term_store.push(channel_id, assistant_msg);
    let _assistant_fail_count = promote_overflow(
        ai_client,
        long_term_store,
        user_id,
        channel_id,
        overflow,
    );
    proof {
        assert forall|j: int| 0 <= j < long_term_store.midterms().len() implies
            contains_midterm_record(
            old(long_term_store).midterms(),
            (#[trigger] long_term_store.midterms()[j]).0,
        ) || turn_promoted_record(long_term_store.midterms()[j].0, user_id, channel_id) by {
            let m = long_term_store.midterms()[j].0;
            if contains_midterm_record(mid_between, m) {
                let k = choose|k: int| 0 <= k < mid_between.len() && m == mid_between[k].0;
                assert(contains_midterm_record(old(long_term_store).midterms(), mid_between[k].0)
                    || turn_promoted_record(mid_between[k].0, user_id, channel_id));
            }
        }
    }

    proof {
        assert(short_term_store.buffer(channel_id) == record_turn(
            old(short_term_store).buffer(channel_id),
            old(short_term_store).capacity(),
            user_turn,
            assistant_turn,
        ));
    }
    Ok(response)
}

} // verus!
