//! Splitting a reply into chunks that fit the chat surface's message
//! length limit, preferring to break just after a newline.

use vstd::prelude::*;

verus! {

/// The chat surface's message length limit, in characters.
pub const DISCORD_MAX_LENGTH: usize = 2000;

/// Where the first chunk of an over-long text ends: just after the
/// last newline among the first `i` characters, or at the full limit
/// when no newline occurs there.
pub open spec fn split_point(s: Seq<char>, i: int) -> int
    decreases i,
{
    if i <= 0 {
        DISCORD_MAX_LENGTH as int
    } else if s[i - 1] == '\n' {
        i
    } else {
        split_point(s, i - 1)
    }
}

/// The first chunk's end lies between one character and the limit.
proof fn lemma_split_point_range(s: Seq<char>, i: int)
    requires
        0 <= i <= DISCORD_MAX_LENGTH,
    ensures
        1 <= split_point(s, i) <= DISCORD_MAX_LENGTH,
    decreases i,
{
    if i > 0 && s[i - 1] != '\n' {
        lemma_split_point_range(s, i - 1);
    }
}

/// Scanning over characters that are not newlines does not move the
/// split point.
proof fn lemma_split_point_skip(s: Seq<char>, i: int)
    requires
        0 <= i <= DISCORD_MAX_LENGTH,
        forall|m: int| i <= m < DISCORD_MAX_LENGTH ==> s[m] != '\n',
    ensures
        split_point(s, DISCORD_MAX_LENGTH as int) == split_point(s, i),
    decreases DISCORD_MAX_LENGTH - i,
{
    if i < DISCORD_MAX_LENGTH {
        lemma_split_point_skip(s, i + 1);
    }
}

/// The split point, held to its valid range.  The scan never leaves
/// that range, so the clamp changes nothing; it only keeps the
/// recursion below visibly well-founded.
pub open spec fn chunk_cut(s: Seq<char>) -> int {
    let c = split_point(s, DISCORD_MAX_LENGTH as int);
    if c < 1 {
        1
    } else if c > DISCORD_MAX_LENGTH {
        DISCORD_MAX_LENGTH as int
    } else {
        c
    }
}

/// The chunks of a text: the whole text when it fits the limit, else
/// the first chunk cut at the split point followed by the chunks of
/// the rest.
pub open spec fn split_spec(s: Seq<char>) -> Seq<Seq<char>>
    decreases s.len(),
{
    if s.len() <= DISCORD_MAX_LENGTH {
        seq![s]
    } else {
        let cut = chunk_cut(s);
        seq![s.take(cut)] + split_spec(s.skip(cut))
    }
}

/// The chunks in order, joined back together.
pub open spec fn concat_chunks(chunks: Seq<Seq<char>>) -> Seq<char>
    decreases chunks.len(),
{
    if chunks.len() == 0 {
        Seq::empty()
    } else {
        chunks[0] + concat_chunks(chunks.skip(1))
    }
}

/// Splitting loses nothing and respects the limit: there is at least
/// one chunk, no chunk exceeds the limit, and joining the chunks back
/// together gives the original text.
pub proof fn lemma_split_covers(s: Seq<char>)
    ensures
        split_spec(s).len() >= 1,
        forall|i: int| 0 <= i < split_spec(s).len() ==> (#[trigger] split_spec(s)[i]).len()
            <= DISCORD_MAX_LENGTH,
        concat_chunks(split_spec(s)) == s,
    decreases s.len(),
{
    if s.len() <= DISCORD_MAX_LENGTH {
        assert(split_spec(s) =~= seq![s]);
        assert(split_spec(s).skip(1) =~= Seq::<Seq<char>>::empty());
        assert(concat_chunks(split_spec(s).skip(1)) =~= Seq::<char>::empty());
        assert(concat_chunks(split_spec(s)) =~= s);
    } else {
        lemma_split_point_range(s, DISCORD_MAX_LENGTH as int);
        let cut = chunk_cut(s);
        lemma_split_covers(s.skip(cut));
        let chunks = split_spec(s);
        let rest = split_spec(s.skip(cut));
        assert(chunks.skip(1) =~= rest);
        assert forall|i: int| 0 <= i < chunks.len() implies (#[trigger] chunks[i]).len()
            <= DISCORD_MAX_LENGTH by {
            if i > 0 {
                assert(chunks[i] == rest[i - 1]);
            }
        }
        assert(concat_chunks(chunks) =~= s.take(cut) + concat_chunks(rest));
        assert(concat_chunks(chunks) =~= s);
    }
}

/// Where the next chunk of the remaining text ends, scanning backward
/// for the newline closest to the limit.
fn find_cut(text: &str, start: usize, n: usize) -> (cut: usize)
    requires
        n == text@.len(),
        start + DISCORD_MAX_LENGTH <= n,
    ensures
        cut == chunk_cut(text@.skip(start as int)),
        1 <= cut <= DISCORD_MAX_LENGTH,
{
    proof {
        lemma_split_point_range(text@.skip(start as int), DISCORD_MAX_LENGTH as int);
    }
    let mut j: usize = start + DISCORD_MAX_LENGTH;
    while j > start
        invariant
            start <= j <= start + DISCORD_MAX_LENGTH,
            start + DISCORD_MAX_LENGTH <= text@.len(),
            forall|m: int|
                j - start <= m < DISCORD_MAX_LENGTH ==> text@.skip(start as int)[m] != '\n',
        decreases j - start,
    {
        if text.get_char(j - 1) == '\n' {
            proof {
                lemma_split_point_skip(text@.skip(start as int), (j - start) as int);
            }
            return j - start;
        }
        proof {
            assert(text@.skip(start as int)[j - 1 - start] == text@[j - 1]);
        }
        j -= 1;
    }
    proof {
        lemma_split_point_skip(text@.skip(start as int), 0);
    }
    DISCORD_MAX_LENGTH
}

/// Splits a reply into chunks of at most the length limit, breaking
/// just after the newline closest to the limit where one exists and at
/// the limit otherwise.  The chunks joined in order give back the
/// whole text; an empty or short text is one single chunk.
pub fn split_message<'a>(text: &'a str) -> (chunks: Vec<&'a str>)
    ensures
        chunks.deep_view() == split_spec(text@),
        chunks@.len() >= 1,
        forall|i: int| 0 <= i < chunks@.len() ==> (#[trigger] chunks@[i])@.len()
            <= DISCORD_MAX_LENGTH,
{
    let n = text.unicode_len();
    let mut chunks: Vec<&str> = Vec::new();
    if n <= DISCORD_MAX_LENGTH {
        chunks.push(text);
        proof {
            assert(chunks.deep_view() =~= split_spec(text@));
            lemma_split_covers(text@);
        }
        return chunks;
    }

    let mut start: usize = 0;
    proof {
        assert(text@.skip(0) =~= text@);
        assert(chunks.deep_view() =~= Seq::<Seq<char>>::empty());
        assert(chunks.deep_view() + split_spec(text@) =~= split_spec(text@));
    }
    while n - start > DISCORD_MAX_LENGTH
        invariant
            start <= n,
            n == text@.len(),
            split_spec(text@) == chunks.deep_view() + split_spec(text@.skip(start as int)),
        decreases n - start,
    {
        let cut = find_cut(text, start, n);
        let chunk = text.substring_char(start, start + cut);
        let ghost chunks_before = chunks.deep_view();
        chunks.push(chunk);
        proof {
            let rem = text@.skip(start as int);
            assert(chunk@ =~= rem.take(cut as int));
            assert(text@.skip(start as int + cut as int) =~= rem.skip(cut as int));
            assert(chunks.deep_view() =~= chunks_before.push(chunk@));
            assert(split_spec(text@) =~= chunks.deep_view() + split_spec(
                text@.skip(start as int + cut as int),
            ));
        }
        start += cut;
    }

    let last = text.substring_char(start, n);
    let ghost chunks_before = chunks.deep_view();
    chunks.push(last);
    proof {
        let rem = text@.skip(start as int);
        assert(last@ =~= rem);
        assert(chunks.deep_view() =~= chunks_before.push(last@));
        assert(split_spec(rem) =~= seq![rem]);
        assert(chunks.deep_view() =~= split_spec(text@));
        lemma_split_covers(text@);
        assert forall|i: int| 0 <= i < chunks@.len() implies (#[trigger] chunks@[i])@.len()
            <= DISCORD_MAX_LENGTH by {
            assert(chunks@[i]@ == chunks.deep_view()[i]);
        }
    }
    chunks
}

} // verus!
