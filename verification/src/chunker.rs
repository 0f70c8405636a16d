//! Chunking of document content for search indexing: whitespace-aware
//! windows of a target word count, overlapping by a fixed word count.

use vstd::prelude::*;

use crate::document::{is_space, spec_is_space, word_count_upto};
use crate::strutil::push_char;

verus! {

/// Chunking configuration.
#[derive(Debug, Clone, Copy)]
pub struct ChunkConfig {
    /// Words per chunk.
    pub target_tokens: usize,
    /// Words shared between consecutive chunks.
    pub overlap_tokens: usize,
}

impl ChunkConfig {
    /// A usable configuration: a positive window that strictly outgrows its
    /// overlap.
    pub open spec fn wf(&self) -> bool {
        0 < self.target_tokens && self.overlap_tokens < self.target_tokens
    }

    /// The step between consecutive windows.
    pub open spec fn spec_step(&self) -> int {
        self.target_tokens - self.overlap_tokens
    }
}

impl Default for ChunkConfig {
    /// The default window: 512 words with a 64-word overlap.
    fn default() -> (r: Self)
        ensures
            r.target_tokens == 512,
            r.overlap_tokens == 64,
            r.wf(),
    {
        ChunkConfig { target_tokens: 512, overlap_tokens: 64 }
    }
}

/// The whitespace-separated words among the first `n` characters of `s`: a
/// whitespace character closes the current word, any other character starts
/// a word or extends the latest one.
pub open spec fn tokens_upto(s: Seq<char>, n: int) -> Seq<Seq<char>>
    decreases n,
{
    if n <= 0 {
        Seq::empty()
    } else {
        let rest = tokens_upto(s, n - 1);
        if spec_is_space(s[n - 1]) {
            rest
        } else if n - 1 == 0 || spec_is_space(s[n - 2]) {
            rest.push(seq![s[n - 1]])
        } else {
            rest.update(rest.len() - 1, rest.last().push(s[n - 1]))
        }
    }
}

/// The whitespace-separated words of `s`.
pub open spec fn tokens_of(s: Seq<char>) -> Seq<Seq<char>> {
    tokens_upto(s, s.len() as int)
}

/// There are as many words as the word count says.
pub proof fn lemma_tokens_count(s: Seq<char>, n: int)
    requires
        0 <= n <= s.len(),
    ensures
        tokens_upto(s, n).len() == word_count_upto(s, n),
        n > 0 && !spec_is_space(s[n - 1]) ==> tokens_upto(s, n).len() > 0,
    decreases n,
{
    if n > 0 {
        lemma_tokens_count(s, n - 1);
        let rest = tokens_upto(s, n - 1);
        if spec_is_space(s[n - 1]) {
        } else if n - 1 == 0 || spec_is_space(s[n - 2]) {
            assert(tokens_upto(s, n) == rest.push(seq![s[n - 1]]));
        } else {
            assert(rest.len() > 0);
            assert(tokens_upto(s, n) == rest.update(rest.len() - 1, rest.last().push(s[n - 1])));
            assert(rest.update(rest.len() - 1, rest.last().push(s[n - 1])).len() == rest.len());
        }
    }
}

/// Split content into its whitespace-separated words.
pub fn tokenize(content: &str) -> (r: Vec<String>)
    ensures
        r.deep_view() == tokens_of(content@),
{
    let len = content.unicode_len();
    let mut words: Vec<String> = Vec::new();
    let mut cur = String::new();
    let mut i: usize = 0;
    while i < len
        invariant
            i <= len,
            len == content@.len(),
            cur@.len() == 0 ==> words.deep_view() =~= tokens_upto(content@, i as int),
            cur@.len() > 0 ==> words.deep_view().push(cur@) =~= tokens_upto(content@, i as int),
            cur@.len() > 0 ==> i > 0 && !spec_is_space(content@[i as int - 1]),
            i > 0 && !spec_is_space(content@[i as int - 1]) ==> cur@.len() > 0,
        decreases len - i,
    {
        let c = content.get_char(i);
        let ghost before = if cur@.len() == 0 {
            words.deep_view()
        } else {
            words.deep_view().push(cur@)
        };
        if is_space(c) {
            if !cur.as_str().is_empty() {
                let ghost prev_words = words.deep_view();
                words.push(cur);
                cur = String::new();
                proof {
                    assert(words.deep_view() =~= prev_words.push(words@.last()@));
                    assert(words.deep_view() =~= before);
                }
            }
            proof {
                assert(tokens_upto(content@, i as int + 1) == tokens_upto(content@, i as int));
            }
        } else {
            let ghost was_empty = cur@.len() == 0;
            push_char(&mut cur, c);
            proof {
                if was_empty {
                    assert(tokens_upto(content@, i as int + 1) =~= tokens_upto(
                        content@,
                        i as int,
                    ).push(seq![c]));
                    assert(cur@ =~= seq![c]);
                    assert(words.deep_view().push(cur@) =~= tokens_upto(content@, i as int + 1));
                } else {
                    let rest = tokens_upto(content@, i as int);
                    assert(tokens_upto(content@, i as int + 1) == rest.update(
                        rest.len() - 1,
                        rest.last().push(c),
                    ));
                    assert(words.deep_view().push(cur@) =~= rest.update(
                        rest.len() - 1,
                        rest.last().push(c),
                    ));
                }
            }
        }
        i = i + 1;
    }
    if !cur.as_str().is_empty() {
        let ghost prev_words = words.deep_view();
        let ghost gcur = cur@;
        words.push(cur);
        proof {
            assert(words.deep_view() =~= prev_words.push(gcur));
            assert(words.deep_view() =~= tokens_of(content@));
        }
    } else {
        proof {
            assert(words.deep_view() =~= tokens_of(content@));
        }
    }
    words
}

/// Words joined with single spaces.
pub open spec fn join_words(ws: Seq<Seq<char>>) -> Seq<char>
    decreases ws.len(),
{
    if ws.len() == 0 {
        Seq::empty()
    } else if ws.len() == 1 {
        ws[0]
    } else {
        join_words(ws.drop_last()).push(' ').add(ws.last())
    }
}

/// Join a range of words with single spaces.
fn join_range(words: &Vec<String>, from: usize, to: usize) -> (r: String)
    requires
        from <= to <= words@.len(),
    ensures
        r@ == join_words(words.deep_view().subrange(from as int, to as int)),
{
    let mut out = String::new();
    let mut i: usize = from;
    while i < to
        invariant
            from <= i <= to <= words@.len(),
            out@ == join_words(words.deep_view().subrange(from as int, i as int)),
        decreases to - i,
    {
        proof {
            assert(words.deep_view().subrange(from as int, i as int + 1).drop_last()
                =~= words.deep_view().subrange(from as int, i as int));
            assert(words.deep_view().subrange(from as int, i as int + 1).last() == words.deep_view()[
                i as int
            ]);
        }
        if i > from {
            push_char(&mut out, ' ');
        }
        out.append(words[i].as_str());
        proof {
            if i == from {
                assert(words.deep_view().subrange(from as int, from as int + 1) =~= seq![
                    words.deep_view()[from as int],
                ]);
                assert(out@ =~= join_words(
                    words.deep_view().subrange(from as int, i as int + 1),
                ));
            } else {
                assert(out@ =~= join_words(
                    words.deep_view().subrange(from as int, i as int + 1),
                ));
            }
        }
        i = i + 1;
    }
    out
}

/// The smaller of two integers.
pub open spec fn spec_min(a: int, b: int) -> int {
    if a <= b {
        a
    } else {
        b
    }
}

/// Split content into overlapping chunks of whitespace-separated words.
///
/// Chunk `k` holds the words from `k * step` to `k * step + target`, joined
/// with single spaces, where `step` is the target minus the overlap; the
/// last chunk is the first window that reaches the final word. Empty content
/// gives no chunks.
pub fn chunk_document(content: &str, config: ChunkConfig) -> (r: Vec<String>)
    requires
        config.wf(),
    ensures
        ({
            let ws = tokens_of(content@).len();
            let step = config.spec_step();
            &&& (r@.len() == 0 <==> ws == 0)
            &&& forall|k: int|
                0 <= k < r@.len() ==> (#[trigger] r@[k])@ == join_words(
                    tokens_of(content@).subrange(
                        k * step,
                        spec_min(k * step + config.target_tokens, ws as int),
                    ),
                )
            &&& forall|k: int| 0 <= k < r@.len() ==> #[trigger] (k * step) < ws
            &&& (r@.len() > 0 ==> (r@.len() - 1) * step + config.target_tokens >= ws)
            &&& forall|k: int| 0 <= k < r@.len() - 1 ==> #[trigger] (k * step) + config.target_tokens < ws
        }),
{
    let words = tokenize(content);
    let mut chunks: Vec<String> = Vec::new();
    if words.len() == 0 {
        return chunks;
    }
    let target = config.target_tokens;
    let step = config.target_tokens - config.overlap_tokens;
    let mut start: usize = 0;
    let mut done = false;
    let ghost ws = tokens_of(content@).len() as int;
    proof {
        assert(chunks@.len() * (step as int) == 0) by (nonlinear_arith)
            requires
                chunks@.len() == 0,
        ;
    }
    while !done
        invariant
            config.wf(),
            step == config.spec_step(),
            target == config.target_tokens,
            ws == tokens_of(content@).len(),
            words@.len() == ws,
            ws > 0,
            tokens_of(content@) == words.deep_view(),
            !done ==> start == chunks@.len() * step,
            !done ==> start < words@.len(),
            chunks@.len() > 0 ==> (chunks@.len() - 1) * step < ws,
            forall|k: int|
                0 <= k < chunks@.len() ==> (#[trigger] chunks@[k])@ == join_words(
                    tokens_of(content@).subrange(
                        k * step,
                        spec_min(k * step + config.target_tokens, ws),
                    ),
                ),
            forall|k: int| 0 <= k < chunks@.len() ==> #[trigger] (k * step) < ws,
            done ==> chunks@.len() > 0 && (chunks@.len() - 1) * step + config.target_tokens >= ws,
            forall|k: int|
                0 <= k < chunks@.len() - 1 ==> #[trigger] (k * step) + config.target_tokens < ws,
            !done ==> forall|k: int|
                0 <= k < chunks@.len() ==> #[trigger] (k * step) + config.target_tokens < ws,
        decreases ws - start + (if done {
            0int
        } else {
            1int
        }),
    {
        let end = if words.len() - start <= target {
            words.len()
        } else {
            start + target
        };
        let piece = join_range(&words, start, end);
        proof {
            assert(chunks@.len() * step + config.target_tokens >= ws ==> end == ws);
            assert(spec_min(chunks@.len() * step + config.target_tokens, ws) == end as int);
        }
        chunks.push(piece);
        if end == words.len() {
            done = true;
        } else {
            start = start + step;
            proof {
                assert((chunks@.len() - 1) * step + config.target_tokens < ws);
                assert(chunks@.len() * step == start as int) by {
                    assert((chunks@.len() - 1) * step + step == chunks@.len() * step)
                        by (nonlinear_arith);
                }
                assert(start < words@.len());
            }
        }
    }
    chunks
}

} // verus!
