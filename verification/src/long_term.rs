//! The long-term store: durable, semantically searchable memory.
//!
//! It holds two record kinds in separate namespaces: mid-term memories
//! (expiring summaries promoted from evicted turns) and long-term
//! memories (durable facts about a user).  Each record is paired with
//! exactly one embedding vector at write time.  Writes are idempotent
//! upserts keyed by the record id; an expiry sweep removes every
//! mid-term record whose expiry lies before the given time.

use vstd::prelude::*;

use crate::chat_service::current_timestamp;
use crate::models::EmbeddingVector;
use crate::models::LongTermMemory;
use crate::models::MidTermMemory;

verus! {

/// Upsert keyed by id: replace the first record with the same id, or
/// append the new record at the end.
pub open spec fn midterm_upsert(
    records: Seq<(MidTermMemory, EmbeddingVector)>,
    memory: MidTermMemory,
    embedding: EmbeddingVector,
) -> Seq<(MidTermMemory, EmbeddingVector)>
    decreases records.len(),
{
    if records.len() == 0 {
        seq![(memory, embedding)]
    } else if records[0].0.id@ == memory.id@ {
        seq![(memory, embedding)] + records.skip(1)
    } else {
        seq![records[0]] + midterm_upsert(records.skip(1), memory, embedding)
    }
}

/// Upsert keyed by id: replace the first record with the same id, or
/// append the new record at the end.
pub open spec fn longterm_upsert(
    records: Seq<(LongTermMemory, EmbeddingVector)>,
    memory: LongTermMemory,
    embedding: EmbeddingVector,
) -> Seq<(LongTermMemory, EmbeddingVector)>
    decreases records.len(),
{
    if records.len() == 0 {
        seq![(memory, embedding)]
    } else if records[0].0.id@ == memory.id@ {
        seq![(memory, embedding)] + records.skip(1)
    } else {
        seq![records[0]] + longterm_upsert(records.skip(1), memory, embedding)
    }
}

/// What an expiry sweep at time `now` leaves: every record whose
/// `expires_at` lies at or after `now`, in their stored order.
pub open spec fn sweep_spec(
    records: Seq<(MidTermMemory, EmbeddingVector)>,
    now: i64,
) -> Seq<(MidTermMemory, EmbeddingVector)>
    decreases records.len(),
{
    if records.len() == 0 {
        Seq::empty()
    } else {
        let rest = sweep_spec(records.skip(1), now);
        if records[0].0.expires_at >= now {
            seq![records[0]] + rest
        } else {
            rest
        }
    }
}

/// No two mid-term records share an id.
pub open spec fn midterm_ids_unique(records: Seq<(MidTermMemory, EmbeddingVector)>) -> bool {
    forall|i: int, j: int|
        0 <= i < j < records.len() ==> (#[trigger] records[i]).0.id@ != (
        #[trigger] records[j]).0.id@
}

/// No two long-term records share an id.
pub open spec fn longterm_ids_unique(records: Seq<(LongTermMemory, EmbeddingVector)>) -> bool {
    forall|i: int, j: int|
        0 <= i < j < records.len() ==> (#[trigger] records[i]).0.id@ != (
        #[trigger] records[j]).0.id@
}

/// The durable memory store consumed by the orchestrator and the
/// expiry sweeper.  Every operation may fail with a message from the
/// backing store; a failed operation leaves the contents unchanged.
pub trait LongTermStore: Sized {
    /// The stored mid-term records with their embeddings, in storage
    /// order.  An implementation outside the library that leaves this
    /// unmodelled inherits the empty default, and nothing is claimed
    /// of its contents.
    open spec fn midterms(&self) -> Seq<(MidTermMemory, EmbeddingVector)> {
        Seq::empty()
    }

    /// The stored long-term records with their embeddings, in storage
    /// order; as above, empty by default for an unmodelled store.
    open spec fn longterms(&self) -> Seq<(LongTermMemory, EmbeddingVector)> {
        Seq::empty()
    }

    /// Well-formedness: ids are unique within each record kind.
    open spec fn wf(&self) -> bool {
        midterm_ids_unique(self.midterms()) && longterm_ids_unique(self.longterms())
    }

    /// Idempotent upsert of a long-term record, keyed by `memory.id`.
    fn store_longterm(&mut self, memory: LongTermMemory, embedding: EmbeddingVector) -> (r: Result<
        (),
        String,
    >)
        requires
            old(self).wf(),
        ensures
            final(self).wf(),
            final(self).midterms() == old(self).midterms(),
            r is Ok ==> final(self).longterms() == longterm_upsert(
                old(self).longterms(),
                memory,
                embedding,
            ),
            r is Err ==> final(self).longterms() == old(self).longterms(),
    ;

    /// Idempotent upsert of a mid-term record, keyed by `memory.id`.
    fn store_midterm(&mut self, memory: MidTermMemory, embedding: EmbeddingVector) -> (r: Result<
        (),
        String,
    >)
        requires
            old(self).wf(),
        ensures
            final(self).wf(),
            final(self).longterms() == old(self).longterms(),
            r is Ok ==> final(self).midterms() == midterm_upsert(
                old(self).midterms(),
                memory,
                embedding,
            ),
            r is Err ==> final(self).midterms() == old(self).midterms(),
    ;

    /// Up to `limit` stored long-term records of the given user; never
    /// a record of another user, never one that is not stored.
    fn search_longterm(&self, query: &EmbeddingVector, user_id: u64, limit: u64) -> (r: Result<
        Vec<LongTermMemory>,
        String,
    >)
        ensures
            r matches Ok(found) ==> {
                &&& found@.len() <= limit
                &&& forall|i: int|
                    0 <= i < found@.len() ==> (#[trigger] found@[i]).user_id == user_id
                &&& forall|i: int|
                    0 <= i < found@.len() ==> contains_longterm_record(self.longterms(), #[trigger] found@[i])
            },
    ;

    /// Up to `limit` stored mid-term records of the given user; never
    /// a record of another user, never one that is not stored.
    fn search_midterm(&self, query: &EmbeddingVector, user_id: u64, limit: u64) -> (r: Result<
        Vec<MidTermMemory>,
        String,
    >)
        ensures
            r matches Ok(found) ==> {
                &&& found@.len() <= limit
                &&& forall|i: int|
                    0 <= i < found@.len() ==> (#[trigger] found@[i]).user_id == user_id
                &&& forall|i: int|
                    0 <= i < found@.len() ==> contains_midterm_record(self.midterms(), #[trigger] found@[i])
            },
    ;

    /// Removes every mid-term record whose expiry lies before the
    /// current time; long-term records are untouched.  Safe to call
    /// repeatedly.
    fn delete_expired_midterm(&mut self) -> (r: Result<(), String>)
        requires
            old(self).wf(),
        ensures
            final(self).wf(),
            final(self).longterms() == old(self).longterms(),
            r is Ok ==> exists|now: i64|
                final(self).midterms() == sweep_spec(old(self).midterms(), now),
            r is Err ==> final(self).midterms() == old(self).midterms(),
    ;
}

/// The record is one of the stored long-term records.
pub open spec fn contains_longterm_record(
    records: Seq<(LongTermMemory, EmbeddingVector)>,
    m: LongTermMemory,
) -> bool {
    exists|j: int| 0 <= j < records.len() && m == (#[trigger] records[j]).0
}

/// The record is one of the stored mid-term records.
pub open spec fn contains_midterm_record(
    records: Seq<(MidTermMemory, EmbeddingVector)>,
    m: MidTermMemory,
) -> bool {
    exists|j: int| 0 <= j < records.len() && m == (#[trigger] records[j]).0
}

/// An upsert adds at most one record, and every record it leaves is
/// either the upserted pair or one of the previous records.
pub proof fn lemma_midterm_upsert_members(
    records: Seq<(MidTermMemory, EmbeddingVector)>,
    memory: MidTermMemory,
    embedding: EmbeddingVector,
)
    ensures
        records.len() <= midterm_upsert(records, memory, embedding).len() <= records.len() + 1,
        forall|j: int|
            0 <= j < midterm_upsert(records, memory, embedding).len() ==> (#[trigger] midterm_upsert(
                records,
                memory,
                embedding,
            )[j]) == (memory, embedding) || exists|k: int|
                0 <= k < records.len() && midterm_upsert(records, memory, embedding)[j] == (
                #[trigger] records[k]),
    decreases records.len(),
{
    let result = midterm_upsert(records, memory, embedding);
    if records.len() == 0 {
    } else if records[0].0.id@ == memory.id@ {
        assert forall|j: int| 0 <= j < result.len() implies (#[trigger] result[j]) == (
        memory,
        embedding,
        ) || exists|k: int| 0 <= k < records.len() && result[j] == (#[trigger] records[k]) by {
            if j > 0 {
                assert(result[j] == records.skip(1)[j - 1]);
                assert(result[j] == records[j]);
            }
        }
    } else {
        lemma_midterm_upsert_members(records.skip(1), memory, embedding);
        let rest = midterm_upsert(records.skip(1), memory, embedding);
        assert forall|j: int| 0 <= j < result.len() implies (#[trigger] result[j]) == (
        memory,
        embedding,
        ) || exists|k: int| 0 <= k < records.len() && result[j] == (#[trigger] records[k]) by {
            if j == 0 {
                assert(result[0] == records[0]);
            } else {
                assert(result[j] == rest[j - 1]);
                if rest[j - 1] != (memory, embedding) {
                    let k0 = choose|k0: int|
                        0 <= k0 < records.skip(1).len() && rest[j - 1] == records.skip(1)[k0];
                    assert(result[j] == records[k0 + 1]);
                }
            }
        }
    }
}

/// Replacing the first record that shares the new record's id keeps
/// every other record in place; with no such record the new one lands
/// at the end.
proof fn lemma_midterm_upsert_no_match(
    records: Seq<(MidTermMemory, EmbeddingVector)>,
    memory: MidTermMemory,
    embedding: EmbeddingVector,
)
    requires
        forall|i: int| 0 <= i < records.len() ==> (#[trigger] records[i]).0.id@ != memory.id@,
    ensures
        midterm_upsert(records, memory, embedding) == records.push((memory, embedding)),
    decreases records.len(),
{
    if records.len() == 0 {
        assert(midterm_upsert(records, memory, embedding) =~= records.push((memory, embedding)));
    } else {
        assert(forall|i: int|
            0 <= i < records.skip(1).len() ==> (#[trigger] records.skip(1)[i]).0.id@
                != memory.id@);
        lemma_midterm_upsert_no_match(records.skip(1), memory, embedding);
        assert(midterm_upsert(records, memory, embedding) =~= records.push((memory, embedding)));
    }
}

proof fn lemma_midterm_upsert_match(
    records: Seq<(MidTermMemory, EmbeddingVector)>,
    memory: MidTermMemory,
    embedding: EmbeddingVector,
    j: int,
)
    requires
        0 <= j < records.len(),
        records[j].0.id@ == memory.id@,
        forall|i: int| 0 <= i < j ==> (#[trigger] records[i]).0.id@ != memory.id@,
    ensures
        midterm_upsert(records, memory, embedding) == records.update(j, (memory, embedding)),
    decreases j,
{
    if j == 0 {
        assert(midterm_upsert(records, memory, embedding) =~= records.update(
            j,
            (memory, embedding),
        ));
    } else {
        assert(records.skip(1)[j - 1].0.id@ == memory.id@);
        assert(forall|i: int|
            0 <= i < j - 1 ==> (#[trigger] records.skip(1)[i]).0.id@ != memory.id@);
        lemma_midterm_upsert_match(records.skip(1), memory, embedding, j - 1);
        assert(midterm_upsert(records, memory, embedding) =~= records.update(
            j,
            (memory, embedding),
        ));
    }
}

proof fn lemma_longterm_upsert_no_match(
    records: Seq<(LongTermMemory, EmbeddingVector)>,
    memory: LongTermMemory,
    embedding: EmbeddingVector,
)
    requires
        forall|i: int| 0 <= i < records.len() ==> (#[trigger] records[i]).0.id@ != memory.id@,
    ensures
        longterm_upsert(records, memory, embedding) == records.push((memory, embedding)),
    decreases records.len(),
{
    if records.len() == 0 {
        assert(longterm_upsert(records, memory, embedding) =~= records.push((memory, embedding)));
    } else {
        assert(forall|i: int|
            0 <= i < records.skip(1).len() ==> (#[trigger] records.skip(1)[i]).0.id@
                != memory.id@);
        lemma_longterm_upsert_no_match(records.skip(1), memory, embedding);
        assert(longterm_upsert(records, memory, embedding) =~= records.push((memory, embedding)));
    }
}

proof fn lemma_longterm_upsert_match(
    records: Seq<(LongTermMemory, EmbeddingVector)>,
    memory: LongTermMemory,
    embedding: EmbeddingVector,
    j: int,
)
    requires
        0 <= j < records.len(),
        records[j].0.id@ == memory.id@,
        forall|i: int| 0 <= i < j ==> (#[trigger] records[i]).0.id@ != memory.id@,
    ensures
        longterm_upsert(records, memory, embedding) == records.update(j, (memory, embedding)),
    decreases j,
{
    if j == 0 {
        assert(longterm_upsert(records, memory, embedding) =~= records.update(
            j,
            (memory, embedding),
        ));
    } else {
        assert(records.skip(1)[j - 1].0.id@ == memory.id@);
        assert(forall|i: int|
            0 <= i < j - 1 ==> (#[trigger] records.skip(1)[i]).0.id@ != memory.id@);
        lemma_longterm_upsert_match(records.skip(1), memory, embedding, j - 1);
        assert(longterm_upsert(records, memory, embedding) =~= records.update(
            j,
            (memory, embedding),
        ));
    }
}

/// Every record the sweep keeps was stored before the sweep.
proof fn lemma_sweep_elements(records: Seq<(MidTermMemory, EmbeddingVector)>, now: i64)
    ensures
        forall|i: int|
            0 <= i < sweep_spec(records, now).len() ==> exists|j: int|
                0 <= j < records.len() && #[trigger] sweep_spec(records, now)[i] == records[j],
    decreases records.len(),
{
    if records.len() > 0 {
        lemma_sweep_elements(records.skip(1), now);
        let swept = sweep_spec(records, now);
        let rest = sweep_spec(records.skip(1), now);
        assert forall|i: int| 0 <= i < swept.len() implies exists|j: int|
            0 <= j < records.len() && #[trigger] swept[i] == records[j] by {
            if records[0].0.expires_at >= now {
                if i == 0 {
                    assert(swept[i] == records[0]);
                } else {
                    let jr = choose|jr: int|
                        0 <= jr < records.skip(1).len() && rest[i - 1] == records.skip(1)[jr];
                    assert(swept[i] == records[jr + 1]);
                }
            } else {
                let jr = choose|jr: int|
                    0 <= jr < records.skip(1).len() && rest[i] == records.skip(1)[jr];
                assert(swept[i] == records[jr + 1]);
            }
        }
    }
}

/// A sweep never makes two records share an id.
proof fn lemma_sweep_unique(records: Seq<(MidTermMemory, EmbeddingVector)>, now: i64)
    requires
        midterm_ids_unique(records),
    ensures
        midterm_ids_unique(sweep_spec(records, now)),
    decreases records.len(),
{
    if records.len() > 0 {
        assert(midterm_ids_unique(records.skip(1)));
        lemma_sweep_unique(records.skip(1), now);
        lemma_sweep_elements(records.skip(1), now);
        let swept = sweep_spec(records, now);
        let rest = sweep_spec(records.skip(1), now);
        assert forall|i: int, j: int| 0 <= i < j < swept.len() implies (#[trigger] swept[i]).0.id@
            != (#[trigger] swept[j]).0.id@ by {
            if records[0].0.expires_at >= now {
                if i == 0 {
                    let jr = choose|jr: int|
                        0 <= jr < records.skip(1).len() && rest[j - 1] == records.skip(1)[jr];
                    assert(swept[j] == records[jr + 1]);
                    assert(records[0].0.id@ != records[jr + 1].0.id@);
                } else {
                    assert(swept[i] == rest[i - 1] && swept[j] == rest[j - 1]);
                }
            } else {
                assert(swept[i] == rest[i] && swept[j] == rest[j]);
            }
        }
    }
}

/// Sweeping what a sweep at the same time already left changes
/// nothing: the expiry sweep is idempotent.
pub proof fn lemma_sweep_idempotent(records: Seq<(MidTermMemory, EmbeddingVector)>, now: i64)
    ensures
        sweep_spec(sweep_spec(records, now), now) == sweep_spec(records, now),
    decreases records.len(),
{
    if records.len() > 0 {
        lemma_sweep_idempotent(records.skip(1), now);
        let rest = sweep_spec(records.skip(1), now);
        if records[0].0.expires_at >= now {
            let swept = seq![records[0]] + rest;
            assert(swept.skip(1) =~= rest);
            assert(sweep_spec(swept, now) =~= seq![records[0]] + sweep_spec(rest, now));
            assert(sweep_spec(sweep_spec(records, now), now) =~= sweep_spec(records, now));
        }
    }
}

/// What the sweep keeps and what it drops: a record survives the sweep
/// exactly when its expiry lies at or after the sweep time.
pub proof fn lemma_sweep_retention(records: Seq<(MidTermMemory, EmbeddingVector)>, now: i64)
    ensures
        forall|i: int|
            0 <= i < sweep_spec(records, now).len() ==> (#[trigger] sweep_spec(
                records,
                now,
            )[i]).0.expires_at >= now,
        forall|j: int|
            0 <= j < records.len() && (#[trigger] records[j]).0.expires_at >= now ==> sweep_spec(
                records,
                now,
            ).contains(records[j]),
        sweep_spec(records, now).len() <= records.len(),
    decreases records.len(),
{
    if records.len() > 0 {
        lemma_sweep_retention(records.skip(1), now);
        let swept = sweep_spec(records, now);
        let rest = sweep_spec(records.skip(1), now);
        assert forall|j: int|
            0 <= j < records.len() && (#[trigger] records[j]).0.expires_at >= now implies swept
            .contains(records[j]) by {
            if j == 0 {
                assert(swept[0] == records[j]);
            } else {
                assert(records.skip(1)[j - 1] == records[j]);
                assert(rest.contains(records[j]));
                let k = choose|k: int| 0 <= k < rest.len() && rest[k] == records[j];
                if records[0].0.expires_at >= now {
                    assert(swept[k + 1] == records[j]);
                } else {
                    assert(swept[k] == records[j]);
                }
            }
        }
    }
}

/// The in-memory long-term store: the verified reference
/// implementation, used directly in tests and wherever no durable
/// backing service is wired in.  Search returns matches in storage
/// order; ranking by similarity is left to backing stores that can
/// compute it.
pub struct MemoryLongTermStore {
    midterm: Vec<(MidTermMemory, EmbeddingVector)>,
    longterm: Vec<(LongTermMemory, EmbeddingVector)>,
}

impl MemoryLongTermStore {
    /// An empty store.
    pub fn new() -> (store: MemoryLongTermStore)
        ensures
            store.wf(),
            store.midterms() == Seq::<(MidTermMemory, EmbeddingVector)>::empty(),
            store.longterms() == Seq::<(LongTermMemory, EmbeddingVector)>::empty(),
    {
        MemoryLongTermStore { midterm: Vec::new(), longterm: Vec::new() }
    }

    /// Removes every mid-term record whose expiry lies before `now`;
    /// the order of the kept records and all long-term records are
    /// untouched.
    #[verifier::loop_isolation(false)]
    pub fn sweep_midterm(&mut self, now: i64)
        ensures
            final(self).midterms() == sweep_spec(old(self).midterms(), now),
            final(self).longterms() == old(self).longterms(),
    {
        let ghost orig = self.midterm@;
        let mut kept: Vec<(MidTermMemory, EmbeddingVector)> = Vec::new();
        while self.midterm.len() > 0
            invariant
                sweep_spec(orig, now) == kept@ + sweep_spec(self.midterm@, now),
                self.longterm@ == old(self).longterm@,
            decreases self.midterm.len(),
        {
            let ghost before = self.midterm@;
            let entry = self.midterm.remove(0);
            proof {
                assert(before.remove(0) =~= before.skip(1));
            }
            if entry.0.expires_at >= now {
                proof {
                    assert(sweep_spec(before, now) =~= seq![entry] + sweep_spec(
                        before.skip(1),
                        now,
                    ));
                    assert(kept@ + sweep_spec(before, now) =~= kept@.push(entry) + sweep_spec(
                        before.skip(1),
                        now,
                    ));
                }
                kept.push(entry);
            } else {
                proof {
                    assert(sweep_spec(before, now) =~= sweep_spec(before.skip(1), now));
                }
            }
        }
        proof {
            assert(kept@ + sweep_spec(self.midterm@, now) =~= kept@);
        }
        self.midterm = kept;
    }
}

impl LongTermStore for MemoryLongTermStore {
    closed spec fn midterms(&self) -> Seq<(MidTermMemory, EmbeddingVector)> {
        self.midterm@
    }

    closed spec fn longterms(&self) -> Seq<(LongTermMemory, EmbeddingVector)> {
        self.longterm@
    }

    #[verifier::loop_isolation(false)]
    fn store_longterm(&mut self, memory: LongTermMemory, embedding: EmbeddingVector) -> (r: Result<
        (),
        String,
    >) {
        proof {
            assert(longterm_ids_unique(old(self).longterms()));
        }
        let mut i: usize = 0;
        while i < self.longterm.len()
            invariant
                i <= self.longterm@.len(),
                forall|k: int|
                    0 <= k < i ==> (#[trigger] self.longterm@[k]).0.id@ != memory.id@,
                self.longterm@ == old(self).longterm@,
                self.midterm@ == old(self).midterm@,
            decreases self.longterm@.len() - i,
        {
            if self.longterm[i].0.id == memory.id {
                proof {
                    lemma_longterm_upsert_match(old(self).longterms(), memory, embedding, i as int);
                }
                let ghost before = self.longterm@;
                self.longterm.remove(i);
                self.longterm.insert(i, (memory, embedding));
                proof {
                    assert(self.longterm@ =~= before.update(i as int, (memory, embedding)));
                    assert forall|a: int, b: int|
                        0 <= a < b < self.longterm@.len() implies (
                    #[trigger] self.longterm@[a]).0.id@ != (#[trigger] self.longterm@[b]).0.id@ by {
                        assert(before[a].0.id@ != before[b].0.id@);
                        assert(before[i as int].0.id@ == memory.id@);
                    }
                    assert(longterm_ids_unique(self.longterms()));
                    assert(midterm_ids_unique(self.midterms()));
                }
                return Ok(());
            }
            i += 1;
        }
        proof {
            lemma_longterm_upsert_no_match(old(self).longterms(), memory, embedding);
        }
        let ghost before = self.longterm@;
        self.longterm.push((memory, embedding));
        proof {
            assert forall|a: int, b: int|
                0 <= a < b < self.longterm@.len() implies (#[trigger] self.longterm@[a]).0.id@ != (
            #[trigger] self.longterm@[b]).0.id@ by {
                if b < before.len() {
                    assert(before[a].0.id@ != before[b].0.id@);
                } else {
                    assert(before[a].0.id@ != memory.id@);
                }
            }
            assert(longterm_ids_unique(self.longterms()));
            assert(midterm_ids_unique(self.midterms()));
        }
        Ok(())
    }

    #[verifier::loop_isolation(false)]
    fn store_midterm(&mut self, memory: MidTermMemory, embedding: EmbeddingVector) -> (r: Result<
        (),
        String,
    >) {
        let mut i: usize = 0;
        while i < self.midterm.len()
            invariant
                i <= self.midterm@.len(),
                forall|k: int| 0 <= k < i ==> (#[trigger] self.midterm@[k]).0.id@ != memory.id@,
                self.longterm@ == old(self).longterm@,
                self.midterm@ == old(self).midterm@,
            decreases self.midterm@.len() - i,
        {
            if self.midterm[i].0.id == memory.id {
                proof {
                    lemma_midterm_upsert_match(old(self).midterms(), memory, embedding, i as int);
                }
                let ghost before = self.midterm@;
                self.midterm.remove(i);
                self.midterm.insert(i, (memory, embedding));
                proof {
                    assert(self.midterm@ =~= before.update(i as int, (memory, embedding)));
                    assert forall|a: int, b: int|
                        0 <= a < b < self.midterm@.len() implies (
                    #[trigger] self.midterm@[a]).0.id@ != (#[trigger] self.midterm@[b]).0.id@ by {
                        assert(before[a].0.id@ != before[b].0.id@);
                        assert(before[i as int].0.id@ == memory.id@);
                    }
                    assert(midterm_ids_unique(self.midterms()));
                    assert(longterm_ids_unique(self.longterms()));
                }
                return Ok(());
            }
            i += 1;
        }
        proof {
            lemma_midterm_upsert_no_match(old(self).midterms(), memory, embedding);
        }
        let ghost before = self.midterm@;
        self.midterm.push((memory, embedding));
        proof {
            assert forall|a: int, b: int|
                0 <= a < b < self.midterm@.len() implies (#[trigger] self.midterm@[a]).0.id@ != (
            #[trigger] self.midterm@[b]).0.id@ by {
                if b < before.len() {
                    assert(before[a].0.id@ != before[b].0.id@);
                } else {
                    assert(before[a].0.id@ != memory.id@);
                }
            }
            assert(midterm_ids_unique(self.midterms()));
            assert(longterm_ids_unique(self.longterms()));
        }
        Ok(())
    }

    #[verifier::loop_isolation(false)]
    fn search_longterm(&self, query: &EmbeddingVector, user_id: u64, limit: u64) -> (r: Result<
        Vec<LongTermMemory>,
        String,
    >) {
        let mut found: Vec<LongTermMemory> = Vec::new();
        let mut i: usize = 0;
        while i < self.longterm.len() && (found.len() as u64) < limit
            invariant
                i <= self.longterm@.len(),
                found@.len() <= limit,
                forall|a: int| 0 <= a < found@.len() ==> (#[trigger] found@[a]).user_id == user_id,
                forall|a: int|
                    0 <= a < found@.len() ==> contains_longterm_record(self.longterms(), #[trigger] found@[a]),
            decreases self.longterm@.len() - i,
        {
            if self.longterm[i].0.user_id == user_id {
                let ghost before = found@;
                found.push(self.longterm[i].0.duplicate());
                proof {
                    assert forall|a: int|
                        0 <= a < found@.len() implies contains_longterm_record(
                        self.longterms(),
                        #[trigger] found@[a],
                    ) by {
                        if a < before.len() {
                            assert(found@[a] == before[a]);
                            assert(contains_longterm_record(self.longterms(), before[a]));
                        } else {
                            assert(found@[a] == (self.longterms()[i as int]).0);
                        }
                    }
                }
            }
            i += 1;
        }
        Ok(found)
    }

    #[verifier::loop_isolation(false)]
    fn search_midterm(&self, query: &EmbeddingVector, user_id: u64, limit: u64) -> (r: Result<
        Vec<MidTermMemory>,
        String,
    >) {
        let mut found: Vec<MidTermMemory> = Vec::new();
        let mut i: usize = 0;
        while i < self.midterm.len() && (found.len() as u64) < limit
            invariant
                i <= self.midterm@.len(),
                found@.len() <= limit,
                forall|a: int| 0 <= a < found@.len() ==> (#[trigger] found@[a]).user_id == user_id,
                forall|a: int|
                    0 <= a < found@.len() ==> contains_midterm_record(self.midterms(), #[trigger] found@[a]),
            decreases self.midterm@.len() - i,
        {
            if self.midterm[i].0.user_id == user_id {
                let ghost before = found@;
                found.push(self.midterm[i].0.duplicate());
                proof {
                    assert forall|a: int|
                        0 <= a < found@.len() implies contains_midterm_record(
                        self.midterms(),
                        #[trigger] found@[a],
                    ) by {
                        if a < before.len() {
                            assert(found@[a] == before[a]);
                            assert(contains_midterm_record(self.midterms(), before[a]));
                        } else {
                            assert(found@[a] == (self.midterms()[i as int]).0);
                        }
                    }
                }
            }
            i += 1;
        }
        Ok(found)
    }

    fn delete_expired_midterm(&mut self) -> (r: Result<(), String>) {
        let now = current_timestamp();
        self.sweep_midterm(now);
        proof {
            lemma_sweep_unique(old(self).midterms(), now);
        }
        Ok(())
    }
}

} // verus!
