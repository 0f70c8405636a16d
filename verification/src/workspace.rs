//! Workspace memory: a per-user document store with two-tier memory, chunk
//! indexing, and hybrid search over the chunk index.

use vstd::prelude::*;

use crate::chunker::{chunk_document, ChunkConfig};
use crate::document::{DocType, MemoryChunk, MemoryDocument};
use crate::errors::WorkspaceError;
use crate::json::digit_char;
use crate::search::{rrf_fuse, FusedHit};
use crate::strutil::push_char;

verus! {

/// Whether two optional titles hold the same characters.
pub open spec fn title_eq(a: Option<String>, b: Option<Seq<char>>) -> bool {
    match (a, b) {
        (Some(x), Some(y)) => x@ == y,
        (None, None) => true,
        _ => false,
    }
}

/// The first document matching a key, or the length when none does.
pub open spec fn find_doc(
    docs: Seq<MemoryDocument>,
    doc_type: DocType,
    title: Option<Seq<char>>,
) -> int
    decreases docs.len(),
{
    if docs.len() == 0 {
        0
    } else if docs[0].doc_type == doc_type && title_eq(docs[0].title, title) {
        0
    } else {
        1 + find_doc(docs.skip(1), doc_type, title)
    }
}

/// Whether a document matching a key exists.
pub open spec fn has_doc(
    docs: Seq<MemoryDocument>,
    doc_type: DocType,
    title: Option<Seq<char>>,
) -> bool {
    exists|i: int|
        0 <= i < docs.len() && (#[trigger] docs[i]).doc_type == doc_type && title_eq(
            docs[i].title,
            title,
        )
}

/// When no document before `i` matches and the document at `i`, if any,
/// does, the first match is at `i`.
pub proof fn lemma_find_doc_char(
    docs: Seq<MemoryDocument>,
    doc_type: DocType,
    title: Option<Seq<char>>,
    i: int,
)
    requires
        0 <= i <= docs.len(),
        forall|j: int|
            0 <= j < i ==> !((#[trigger] docs[j]).doc_type == doc_type && title_eq(
                docs[j].title,
                title,
            )),
        i < docs.len() ==> docs[i].doc_type == doc_type && title_eq(docs[i].title, title),
    ensures
        find_doc(docs, doc_type, title) == i,
        i < docs.len() ==> has_doc(docs, doc_type, title),
        i == docs.len() ==> !has_doc(docs, doc_type, title),
    decreases docs.len(),
{
    if i == 0 {
        if docs.len() > 0 {
        }
    } else {
        assert forall|j: int|
            0 <= j < i - 1 implies !((#[trigger] docs.skip(1)[j]).doc_type == doc_type
            && title_eq(docs.skip(1)[j].title, title)) by {
            assert(docs.skip(1)[j] == docs[j + 1]);
        }
        if i - 1 < docs.skip(1).len() {
            assert(docs.skip(1)[i - 1] == docs[i]);
        }
        lemma_find_doc_char(docs.skip(1), doc_type, title, i - 1);
        if i == docs.len() {
            if has_doc(docs, doc_type, title) {
                let w = choose|w: int|
                    0 <= w < docs.len() && (#[trigger] docs[w]).doc_type == doc_type && title_eq(
                        docs[w].title,
                        title,
                    );
                assert(false);
            }
        }
    }
}

/// The chunks of one document, in store order.
pub open spec fn chunks_of(chunks: Seq<MemoryChunk>, doc_id: u64) -> Seq<MemoryChunk>
    decreases chunks.len(),
{
    if chunks.len() == 0 {
        Seq::empty()
    } else {
        let rest = chunks_of(chunks.drop_last(), doc_id);
        if chunks.last().document_id == doc_id {
            rest.push(chunks.last())
        } else {
            rest
        }
    }
}

/// A document's chunk list after appending one chunk: extended when the
/// chunk belongs to the document, unchanged otherwise.
pub proof fn lemma_chunks_of_push(chunks: Seq<MemoryChunk>, c: MemoryChunk, d: u64)
    ensures
        c.document_id == d ==> chunks_of(chunks.push(c), d) == chunks_of(chunks, d).push(c),
        c.document_id != d ==> chunks_of(chunks.push(c), d) == chunks_of(chunks, d),
{
    assert(chunks.push(c).drop_last() =~= chunks);
    assert(chunks.push(c).last() == c);
}

/// Well-formedness of a store's chunk index: for every document, the chunk
/// at position `j` of its chunk list carries chunk index `j`.
pub open spec fn chunk_indexes_wf(chunks: Seq<MemoryChunk>) -> bool {
    forall|d: u64, j: int|
        0 <= j < chunks_of(chunks, d).len() ==> (#[trigger] chunks_of(chunks, d)[j]).chunk_index
            == j
}

/// A search result: a chunk with its fused ranks.
#[derive(Debug, Clone)]
pub struct SearchResult {
    /// The matching chunk.
    pub chunk_id: u64,
    /// The chunk's document.
    pub document_id: u64,
    /// The chunk's content.
    pub content: String,
    /// 1-based rank in the lexical candidate list, when present.
    pub lex_rank: Option<u64>,
    /// 1-based rank in the vector candidate list, when present.
    pub vec_rank: Option<u64>,
}

impl SearchResult {
    /// The fused ranks of this result.
    pub open spec fn spec_hit(&self) -> FusedHit {
        FusedHit { chunk_id: self.chunk_id, lex_rank: self.lex_rank, vec_rank: self.vec_rank }
    }

    /// Whether the chunk ranked in both the lexical and the vector candidate
    /// lists.
    pub fn is_hybrid(&self) -> (r: bool)
        ensures
            r == (self.lex_rank is Some && self.vec_rank is Some),
    {
        match (self.lex_rank, self.vec_rank) {
            (Some(_), Some(_)) => true,
            _ => false,
        }
    }
}

/// Whether a result list holds an entry for the chunk id.
pub open spec fn result_covers(r: Seq<SearchResult>, id: u64) -> bool {
    exists|i: int| 0 <= i < r.len() && (#[trigger] r[i]).chunk_id == id
}

/// The cut a left-out candidate faces: the result list is full at the
/// limit, and the candidate's fused hit ranks no earlier than the last
/// returned one.
pub open spec fn cut_after(r: Seq<SearchResult>, limit: int, h: crate::search::FusedHit) -> bool {
    r.len() == limit && (limit > 0 ==> crate::search::fused_leq(r[limit - 1].spec_hit(), h))
}

/// What a search returns: for the stored chunks, a query, a vector
/// ranking and a limit, the rows are exactly the first `limit` of the
/// fused candidate ranking — sorted, duplicate-free, drawn from the store,
/// rank-annotated, and with every left-out candidate ranking at or after
/// the last returned row.
pub open spec fn search_post(
    chunks: Seq<MemoryChunk>,
    query: Seq<char>,
    vec_ids: Seq<u64>,
    limit: int,
    rows: Seq<SearchResult>,
) -> bool {
    let lex = lexical_candidates(chunks, query, spec_cap_int(limit));
    let vecc = known_ids(chunks, vec_ids);
    &&& rows.len() <= limit
    &&& rows.len() == crate::chunker::spec_min(
        limit,
        crate::search::candidate_ids(lex, vecc).len() as int,
    )
    &&& forall|i: int, j: int|
        0 <= i < j < rows.len() ==> crate::search::fused_leq(
            (#[trigger] rows[i]).spec_hit(),
            (#[trigger] rows[j]).spec_hit(),
        )
    &&& forall|i: int, j: int|
        0 <= i < j < rows.len() ==> (#[trigger] rows[i]).chunk_id != (#[trigger] rows[
            j
        ]).chunk_id
    &&& forall|i: int|
        0 <= i < rows.len() ==> exists|c: int|
            0 <= c < chunks.len() && (#[trigger] chunks[c]).id == (#[trigger] rows[i]).chunk_id
                && rows[i].content@ == chunks[c].content@ && rows[i].document_id
                == chunks[c].document_id
    &&& forall|i: int|
        0 <= i < rows.len() ==> (#[trigger] rows[i]).spec_hit() == crate::search::hit_of(
            lex,
            vecc,
            rows[i].chunk_id,
        )
    &&& forall|id: u64|
        #[trigger] lex.contains(id) && !result_covers(rows, id) ==> cut_after(
            rows,
            limit,
            crate::search::hit_of(lex, vecc, id),
        )
    &&& forall|id: u64|
        #[trigger] vecc.contains(id) && !result_covers(rows, id) ==> cut_after(
            rows,
            limit,
            crate::search::hit_of(lex, vecc, id),
        )
}

/// The lexical candidate cap as a function of the limit as an integer.
pub open spec fn spec_cap_int(limit: int) -> int {
    let raw = if limit > usize::MAX as int / 4 {
        usize::MAX as int
    } else {
        4 * limit
    };
    if raw > 0xffff_ffff {
        0xffff_ffff
    } else {
        raw
    }
}

/// Whether every id of a list is the id of some stored chunk.
pub open spec fn ids_in_store(ids: Seq<u64>, chunks: Seq<MemoryChunk>) -> bool {
    forall|a: int|
        0 <= a < ids.len() ==> exists|c: int|
            0 <= c < chunks.len() && (#[trigger] chunks[c]).id == #[trigger] (ids[a])
}

/// The lexical candidates are drawn from the store.
proof fn lemma_lexical_in_store(chunks: Seq<MemoryChunk>, query: Seq<char>, cap: int)
    ensures
        ids_in_store(lexical_candidates(chunks, query, cap), chunks),
    decreases chunks.len(),
{
    if chunks.len() > 0 {
        lemma_lexical_in_store(chunks.drop_last(), query, cap);
    }
}

/// The known ids are drawn from the store.
proof fn lemma_known_ids_in_store(chunks: Seq<MemoryChunk>, ids: Seq<u64>)
    ensures
        ids_in_store(known_ids(chunks, ids), chunks),
    decreases ids.len(),
{
    if ids.len() > 0 {
        lemma_known_ids_in_store(chunks, ids.drop_last());
    }
}

/// A contained id of a store-drawn list is some stored chunk's id.
proof fn lemma_id_found(ids: Seq<u64>, chunks: Seq<MemoryChunk>, id: u64)
    requires
        ids_in_store(ids, chunks),
        ids.contains(id),
    ensures
        exists|c: int| 0 <= c < chunks.len() && (#[trigger] chunks[c]).id == id,
{
    let a = choose|a: int| 0 <= a < ids.len() && ids[a] == id;
    assert(exists|c: int|
        0 <= c < chunks.len() && (#[trigger] chunks[c]).id == #[trigger] (ids[a]));
    let c = choose|c: int| 0 <= c < chunks.len() && (#[trigger] chunks[c]).id == #[trigger] (ids[a]);
    assert(chunks[c].id == id);
}

/// The cut a candidate outside the returned results faces: the results are
/// full and the candidate's hit ranks no earlier than the last returned
/// one.
proof fn lemma_search_cut(
    hits: Seq<crate::search::FusedHit>,
    results: Seq<SearchResult>,
    lex: Seq<u64>,
    vec: Seq<u64>,
    limit: int,
    id: u64,
)
    requires
        crate::search::covers_all(hits, lex, vec),
        forall|a: int, b: int|
            0 <= a < b < hits.len() ==> crate::search::fused_leq(
                #[trigger] hits[a],
                #[trigger] hits[b],
            ),
        forall|a: int|
            0 <= a < hits.len() ==> #[trigger] hits[a] == crate::search::hit_of(
                lex,
                vec,
                hits[a].chunk_id,
            ),
        forall|a: int| 0 <= a < results.len() ==> (#[trigger] results[a]).spec_hit() == hits[a],
        results.len() == crate::chunker::spec_min(limit, hits.len() as int),
        0 <= limit,
        lex.contains(id) || vec.contains(id),
        !result_covers(results, id),
    ensures
        cut_after(results, limit, crate::search::hit_of(lex, vec, id)),
{
    if lex.contains(id) {
        assert(crate::search::covers_id(hits, id));
    } else {
        assert(vec.contains(id));
        assert(crate::search::covers_id(hits, id));
    }
    let w = choose|w: int| 0 <= w < hits.len() && (#[trigger] hits[w]).chunk_id == id;
    if w < results.len() {
        assert(results[w].spec_hit() == hits[w]);
        assert(results[w].chunk_id == id);
        assert(result_covers(results, id));
    }
    assert(w >= results.len());
    assert(results.len() == limit);
    if limit > 0 {
        assert(crate::search::fused_leq(hits[limit - 1], hits[w]));
        assert(results[limit - 1].spec_hit() == hits[limit - 1]);
        assert(hits[w] == crate::search::hit_of(lex, vec, id));
    }
}

/// Field-wise equality of documents, over their views.
pub open spec fn doc_like(a: MemoryDocument, b: MemoryDocument) -> bool {
    &&& a.id == b.id
    &&& a.user_id@ == b.user_id@
    &&& a.agent_id == b.agent_id
    &&& a.doc_type == b.doc_type
    &&& title_eq(a.title, match b.title {
        Some(t) => Some(t@),
        None => None,
    })
    &&& a.content@ == b.content@
    &&& a.created_at == b.created_at
    &&& a.updated_at == b.updated_at
    &&& a.metadata@ == b.metadata@
}

/// Copy a document.
fn clone_doc(d: &MemoryDocument) -> (r: MemoryDocument)
    ensures
        doc_like(r, *d),
{
    MemoryDocument {
        id: d.id,
        user_id: d.user_id.clone(),
        agent_id: d.agent_id,
        doc_type: d.doc_type,
        title: match &d.title {
            Some(t) => Some(t.clone()),
            None => None,
        },
        content: d.content.clone(),
        created_at: d.created_at,
        updated_at: d.updated_at,
        metadata: d.metadata.clone(),
    }
}

/// Workspace: a per-user document store with chunk indexing and search.
pub struct Workspace {
    user_id: String,
    agent_id: Option<u64>,
    documents: Vec<MemoryDocument>,
    chunks: Vec<MemoryChunk>,
    embeddings_enabled: bool,
    next_id: u64,
    clock: u64,
    chunk_config: ChunkConfig,
}

impl Workspace {
    /// The stored documents.
    pub closed spec fn spec_docs(&self) -> Seq<MemoryDocument> {
        self.documents@
    }

    /// The stored chunks.
    pub closed spec fn spec_chunks(&self) -> Seq<MemoryChunk> {
        self.chunks@
    }

    /// The user this workspace belongs to.
    pub closed spec fn spec_user_id(&self) -> Seq<char> {
        self.user_id@
    }

    /// The agent this workspace belongs to, when scoped to one.
    pub closed spec fn spec_agent_id(&self) -> Option<u64> {
        self.agent_id
    }

    /// Whether an embedding provider is configured.
    pub closed spec fn spec_embeddings_enabled(&self) -> bool {
        self.embeddings_enabled
    }

    /// How many fresh identifiers the store can still hand out. Creation
    /// and re-indexing fail exactly when this headroom is spent; it starts
    /// near two to the sixty-fourth and each document or chunk consumes
    /// one.
    pub closed spec fn spec_id_headroom(&self) -> int {
        u64::MAX - self.next_id
    }

    /// Well-formedness: identifiers are unique and below the id counter, and
    /// every document's chunk list is indexed contiguously from zero.
    pub closed spec fn wf(&self) -> bool {
        &&& forall|i: int, j: int|
            0 <= i < j < self.documents@.len() ==> (#[trigger] self.documents@[i]).id
                != (#[trigger] self.documents@[j]).id
        &&& forall|i: int, j: int|
            0 <= i < j < self.chunks@.len() ==> (#[trigger] self.chunks@[i]).id
                != (#[trigger] self.chunks@[j]).id
        &&& forall|i: int| 0 <= i < self.documents@.len() ==> (#[trigger] self.documents@[i]).id
            < self.next_id
        &&& forall|i: int| 0 <= i < self.chunks@.len() ==> (#[trigger] self.chunks@[i]).id
            < self.next_id
        &&& chunk_indexes_wf(self.chunks@)
        &&& self.chunk_config.wf()
    }

    /// Create a workspace for a user, with an empty store and no embedding
    /// provider.
    pub fn new(user_id: String) -> (r: Self)
        ensures
            r.wf(),
            r.spec_user_id() == user_id@,
            r.spec_agent_id() is None,
            r.spec_docs() == Seq::<MemoryDocument>::empty(),
            r.spec_chunks() == Seq::<MemoryChunk>::empty(),
            !r.spec_embeddings_enabled(),
    {
        let r = Workspace {
            user_id,
            agent_id: None,
            documents: Vec::new(),
            chunks: Vec::new(),
            embeddings_enabled: false,
            next_id: 0,
            clock: 0,
            chunk_config: ChunkConfig::default(),
        };
        proof {
            assert(r.spec_docs() =~= Seq::<MemoryDocument>::empty());
            assert(r.spec_chunks() =~= Seq::<MemoryChunk>::empty());
        }
        r
    }

    /// Scope this workspace to an agent.
    pub fn with_agent(self, agent_id: u64) -> (r: Self)
        requires
            self.wf(),
        ensures
            r.wf(),
            r.spec_agent_id() == Some(agent_id),
            r.spec_docs() == self.spec_docs(),
            r.spec_chunks() == self.spec_chunks(),
            r.spec_user_id() == self.spec_user_id(),
            r.spec_embeddings_enabled() == self.spec_embeddings_enabled(),
    {
        Workspace { agent_id: Some(agent_id), ..self }
    }

    /// Mark an embedding provider as configured.
    pub fn with_embeddings(self) -> (r: Self)
        requires
            self.wf(),
        ensures
            r.wf(),
            r.spec_embeddings_enabled(),
            r.spec_docs() == self.spec_docs(),
            r.spec_chunks() == self.spec_chunks(),
            r.spec_user_id() == self.spec_user_id(),
            r.spec_agent_id() == self.spec_agent_id(),
    {
        Workspace { embeddings_enabled: true, ..self }
    }

    /// The user ID.
    pub fn user_id(&self) -> (r: String)
        ensures
            r@ == self.spec_user_id(),
    {
        self.user_id.clone()
    }

    /// The agent ID.
    pub fn agent_id(&self) -> (r: Option<u64>)
        ensures
            r == self.spec_agent_id(),
    {
        self.agent_id
    }

    /// Find the index of the document matching a key.
    fn find_document(&self, doc_type: DocType, title: Option<&str>) -> (r: Option<usize>)
        ensures
            ({
                let tv = match title {
                    Some(t) => Some(t@),
                    None => None::<Seq<char>>,
                };
                match r {
                    Some(i) => i < self.spec_docs().len() && find_doc(
                        self.spec_docs(),
                        doc_type,
                        tv,
                    ) == i && has_doc(self.spec_docs(), doc_type, tv),
                    None => !has_doc(self.spec_docs(), doc_type, tv),
                }
            }),
    {
        let ghost tv = match title {
            Some(t) => Some(t@),
            None => None::<Seq<char>>,
        };
        let mut i: usize = 0;
        while i < self.documents.len()
            invariant
                i <= self.documents@.len(),
                tv == (match title {
                    Some(t) => Some(t@),
                    None => None::<Seq<char>>,
                }),
                forall|j: int|
                    0 <= j < i ==> !((#[trigger] self.documents@[j]).doc_type == doc_type
                        && title_eq(self.documents@[j].title, tv)),
            decreases self.documents@.len() - i,
        {
            let d = &self.documents[i];
            let type_matches = d.doc_type == doc_type;
            let title_matches = match (&d.title, title) {
                (Some(a), Some(b)) => crate::strutil::str_eq(a.as_str(), b),
                (None, None) => true,
                _ => false,
            };
            if type_matches && title_matches {
                proof {
                    lemma_find_doc_char(self.spec_docs(), doc_type, tv, i as int);
                }
                return Some(i);
            }
            i = i + 1;
        }
        proof {
            lemma_find_doc_char(self.spec_docs(), doc_type, tv, self.documents@.len() as int);
        }
        None
    }

    /// Get a document by type and title; `DocumentNotFound` when no such
    /// document exists.
    pub fn get_document(&self, doc_type: DocType, title: Option<&str>) -> (r: Result<
        MemoryDocument,
        WorkspaceError,
    >)
        ensures
            ({
                let tv = match title {
                    Some(t) => Some(t@),
                    None => None::<Seq<char>>,
                };
                match r {
                    Ok(d) => has_doc(self.spec_docs(), doc_type, tv) && doc_like(
                        d,
                        self.spec_docs()[find_doc(self.spec_docs(), doc_type, tv)],
                    ),
                    Err(e) => !has_doc(self.spec_docs(), doc_type, tv) && e
                        matches WorkspaceError::DocumentNotFound { .. },
                }
            }),
    {
        match self.find_document(doc_type, title) {
            Some(i) => Ok(clone_doc(&self.documents[i])),
            None => Err(
                WorkspaceError::DocumentNotFound {
                    doc_type: String::from_str(doc_type.as_str()),
                    title: match title {
                        Some(t) => Some(t.to_owned()),
                        None => None,
                    },
                },
            ),
        }
    }

    /// Get the document matching a key, creating an empty one when none
    /// exists. Fails with `Storage` only when the id space is spent.
    pub fn get_or_create_document(&mut self, doc_type: DocType, title: Option<&str>) -> (r:
        Result<MemoryDocument, WorkspaceError>)
        requires
            old(self).wf(),
        ensures
            final(self).wf(),
            final(self).spec_user_id() == old(self).spec_user_id(),
            final(self).spec_agent_id() == old(self).spec_agent_id(),
            final(self).spec_chunks() == old(self).spec_chunks(),
            final(self).spec_embeddings_enabled() == old(self).spec_embeddings_enabled(),
            ({
                let tv = match title {
                    Some(t) => Some(t@),
                    None => None::<Seq<char>>,
                };
                match r {
                    Ok(d) => {
                        &&& has_doc(final(self).spec_docs(), doc_type, tv)
                        &&& doc_like(
                            d,
                            final(self).spec_docs()[
                                find_doc(final(self).spec_docs(), doc_type, tv)
                            ],
                        )
                        &&& (has_doc(old(self).spec_docs(), doc_type, tv) ==> final(self).spec_docs() == old(self).spec_docs())
                        &&& (!has_doc(old(self).spec_docs(), doc_type, tv) ==> final(self).spec_docs().len() == old(self).spec_docs().len() + 1 && final(self).spec_docs().drop_last() == old(self).spec_docs() && d.content@ == Seq::<
                            char,
                        >::empty())
                    },
                    Err(e) => e matches WorkspaceError::Storage { .. } && final(self).spec_docs()
                        == old(self).spec_docs(),
                }
            }),
            r is Err <==> (!has_doc(
                old(self).spec_docs(),
                doc_type,
                match title {
                    Some(t) => Some(t@),
                    None => None::<Seq<char>>,
                },
            ) && old(self).spec_id_headroom() == 0),
            final(self).spec_id_headroom() >= old(self).spec_id_headroom() - 1,
            has_doc(
                old(self).spec_docs(),
                doc_type,
                match title {
                    Some(t) => Some(t@),
                    None => None::<Seq<char>>,
                },
            ) ==> final(self).spec_id_headroom() == old(self).spec_id_headroom(),
    {
        let ghost tv = match title {
            Some(t) => Some(t@),
            None => None::<Seq<char>>,
        };
        match self.find_document(doc_type, title) {
            Some(i) => Ok(clone_doc(&self.documents[i])),
            None => {
                if self.next_id == u64::MAX {
                    return Err(
                        WorkspaceError::Storage {
                            reason: String::from_str("identifier space exhausted"),
                        },
                    );
                }
                let id = self.next_id;
                self.next_id = self.next_id + 1;
                let now = self.clock;
                if self.clock < u64::MAX {
                    self.clock = self.clock + 1;
                }
                let doc = MemoryDocument::new(
                    id,
                    self.user_id.clone(),
                    self.agent_id,
                    doc_type,
                    match title {
                        Some(t) => Some(t.to_owned()),
                        None => None,
                    },
                    now,
                );
                let result = clone_doc(&doc);
                let ghost prev = self.documents@;
                self.documents.push(doc);
                proof {
                    assert(self.documents@.drop_last() =~= prev);
                    assert forall|j: int|
                        0 <= j < prev.len() implies !((#[trigger] self.documents@[j]).doc_type
                        == doc_type && title_eq(self.documents@[j].title, tv)) by {
                        assert(self.documents@[j] == prev[j]);
                        if prev[j].doc_type == doc_type && title_eq(prev[j].title, tv) {
                            assert(has_doc(prev, doc_type, tv));
                        }
                    }
                    lemma_find_doc_char(self.spec_docs(), doc_type, tv, prev.len() as int);
                }
                Ok(result)
            },
        }
    }

    /// Re-index one document: its old chunks are removed and its content is
    /// chunked and inserted with chunk indexes counted from zero; other
    /// documents' chunks are untouched. Fails only when the id space is
    /// spent, in which case the document keeps an empty chunk list.
    fn reindex_document(&mut self, doc_id: u64, content: &str) -> (r: Result<(), WorkspaceError>)
        requires
            old(self).wf(),
        ensures
            final(self).wf(),
            final(self).spec_docs() == old(self).spec_docs(),
            final(self).spec_user_id() == old(self).spec_user_id(),
            final(self).spec_agent_id() == old(self).spec_agent_id(),
            final(self).spec_embeddings_enabled() == old(self).spec_embeddings_enabled(),
            final(self).spec_chunk_config() == old(self).spec_chunk_config(),
            forall|d: u64|
                d != doc_id ==> #[trigger] chunks_of(final(self).spec_chunks(), d) == chunks_of(
                    old(self).spec_chunks(),
                    d,
                ),
            old(self).spec_id_headroom() >= content@.len() ==> r is Ok,
            match r {
                Ok(_) => indexed_chunks_match(
                    chunks_of(final(self).spec_chunks(), doc_id),
                    content@,
                    final(self).spec_chunk_config(),
                ),
                Err(e) => e matches WorkspaceError::Storage { .. } && old(
                    self,
                ).spec_id_headroom() < content@.len(),
            },
    {
        let mut old_vec: Vec<MemoryChunk> = Vec::new();
        core::mem::swap(&mut self.chunks, &mut old_vec);
        let ghost old_chunks = old_vec@;
        let mut kept: Vec<MemoryChunk> = Vec::new();
        proof {
            assert(forall|d: u64| #[trigger] chunks_of(kept@, d) =~= Seq::<MemoryChunk>::empty());
            assert(old_chunks.take(0) =~= Seq::<MemoryChunk>::empty());
            assert(old_chunks.skip(0) =~= old_chunks);
        }
        while old_vec.len() > 0
            invariant
                old_vec@.len() <= old_chunks.len(),
                old_vec@ == old_chunks.skip(old_chunks.len() - old_vec@.len()),
                self.documents@ == old(self).spec_docs(),
                self.user_id@ == old(self).spec_user_id(),
                self.agent_id == old(self).spec_agent_id(),
                self.embeddings_enabled == old(self).spec_embeddings_enabled(),
                self.chunk_config == old(self).spec_chunk_config(),
                self.next_id == old(self).next_id,
                self.clock == old(self).clock,
                self.chunks@.len() == 0,
                forall|a: int, b: int|
                    0 <= a < b < old_chunks.len() ==> (#[trigger] old_chunks[a]).id
                        != (#[trigger] old_chunks[b]).id,
                forall|a: int| 0 <= a < old_chunks.len() ==> (#[trigger] old_chunks[a]).id
                    < self.next_id,
                forall|d: u64| #[trigger] chunks_of(kept@, d) == (if d == doc_id {
                    Seq::<MemoryChunk>::empty()
                } else {
                    chunks_of(
                        old_chunks.take(old_chunks.len() - old_vec@.len()),
                        d,
                    )
                }),
                forall|a: int|
                    0 <= a < kept@.len() ==> exists|b: int|
                        0 <= b < old_chunks.len() - old_vec@.len() && #[trigger] kept@[a]
                            == old_chunks[b],
                forall|a: int, b: int|
                    0 <= a < b < kept@.len() ==> (#[trigger] kept@[a]).id != (#[trigger] kept@[
                        b
                    ]).id,
                forall|a: int| 0 <= a < kept@.len() ==> (#[trigger] kept@[a]).id < self.next_id,
            decreases old_vec@.len(),
        {
            let ghost done = old_chunks.len() - old_vec@.len();
            proof {
                assert(old_vec@[0] == old_chunks[done]);
                assert(old_chunks.take(done + 1).drop_last() =~= old_chunks.take(done));
                assert(old_chunks.take(done + 1).last() == old_chunks[done]);
                assert(old_vec@.remove(0) =~= old_chunks.skip(done + 1));
            }
            let c = old_vec.remove(0);
            if c.document_id != doc_id {
                let ghost prev_kept = kept@;
                kept.push(c);
                proof {
                    assert(kept@.last() == old_chunks[done]);
                    assert forall|d: u64| #[trigger] chunks_of(kept@, d) == (if d == doc_id {
                        Seq::<MemoryChunk>::empty()
                    } else {
                        chunks_of(old_chunks.take(done + 1), d)
                    }) by {
                        lemma_chunks_of_push(prev_kept, kept@.last(), d);
                        lemma_chunks_of_push(old_chunks.take(done), old_chunks[done], d);
                    }
                    assert forall|a: int|
                        0 <= a < kept@.len() implies exists|b: int|
                        0 <= b < done + 1 && #[trigger] kept@[a] == old_chunks[b] by {
                        if a < kept@.len() - 1 {
                            assert(kept@[a] == prev_kept[a]);
                            let b0 = choose|b0: int|
                                0 <= b0 < done && prev_kept[a] == old_chunks[b0];
                            assert(kept@[a] == old_chunks[b0]);
                        } else {
                            assert(kept@[a] == old_chunks[done]);
                        }
                    }
                    assert forall|a: int, b: int|
                        0 <= a < b < kept@.len() implies (#[trigger] kept@[a]).id
                        != (#[trigger] kept@[b]).id by {
                        if b == kept@.len() - 1 {
                            let b0 = choose|b0: int|
                                0 <= b0 < done && (#[trigger] prev_kept[a]) == old_chunks[b0];
                            assert(old_chunks[b0].id != old_chunks[done].id);
                        }
                    }
                }
            } else {
                proof {
                    assert forall|d: u64| #[trigger] chunks_of(kept@, d) == (if d == doc_id {
                        Seq::<MemoryChunk>::empty()
                    } else {
                        chunks_of(old_chunks.take(done + 1), d)
                    }) by {
                        lemma_chunks_of_push(old_chunks.take(done), old_chunks[done], d);
                    }
                }
            }
        }
        proof {
            assert(old_chunks.take(old_chunks.len() as int) =~= old_chunks);
        }

        let pieces = chunk_document(content, self.chunk_config);
        proof {
            if pieces@.len() > 0 {
                let ws = crate::chunker::tokens_of(content@).len() as int;
                let step = self.chunk_config.spec_step();
                assert((pieces@.len() - 1) * step < ws);
                assert(pieces@.len() - 1 <= (pieces@.len() - 1) * step) by (nonlinear_arith)
                    requires
                        step >= 1,
                        pieces@.len() >= 1,
                ;
                crate::chunker::lemma_tokens_count(content@, content@.len() as int);
                crate::document::lemma_word_count_le(content@, content@.len() as int);
                assert(pieces@.len() <= content@.len());
            }
        }
        if pieces.len() > 0 && (u64::MAX - self.next_id) < (pieces.len() as u64) {
            self.chunks = kept;
            proof {
                assert forall|d: u64, j: int|
                    0 <= j < chunks_of(self.chunks@, d).len() implies (#[trigger] chunks_of(
                    self.chunks@,
                    d,
                )[j]).chunk_index == j by {
                    if d != doc_id {
                        assert(chunks_of(self.chunks@, d) == chunks_of(old_chunks, d));
                    }
                }
            }
            return Err(
                WorkspaceError::Storage { reason: String::from_str("identifier space exhausted") },
            );
        }

        let ghost base = kept@;
        let mut kept = kept;
        let mut k: usize = 0;
        let now = self.clock;
        if self.clock < u64::MAX {
            self.clock = self.clock + 1;
        }
        while k < pieces.len()
            invariant
                k <= pieces@.len(),
                pieces@.len() - k <= u64::MAX - self.next_id,
                old(self).next_id <= self.next_id,
                self.documents@ == old(self).spec_docs(),
                self.user_id@ == old(self).spec_user_id(),
                self.agent_id == old(self).spec_agent_id(),
                self.embeddings_enabled == old(self).spec_embeddings_enabled(),
                self.chunk_config == old(self).spec_chunk_config(),
                self.chunks@.len() == 0,
                forall|d: u64|
                    d != doc_id ==> #[trigger] chunks_of(kept@, d) == chunks_of(base, d),
                chunks_of(kept@, doc_id).len() == k,
                forall|j: int|
                    0 <= j < k ==> (#[trigger] chunks_of(kept@, doc_id)[j]).content@ == pieces@[
                        j
                    ]@ && chunks_of(kept@, doc_id)[j].chunk_index == j && chunks_of(
                        kept@,
                        doc_id,
                    )[j].embedding is None,
                forall|a: int, b: int|
                    0 <= a < b < kept@.len() ==> (#[trigger] kept@[a]).id != (#[trigger] kept@[
                        b
                    ]).id,
                forall|a: int| 0 <= a < kept@.len() ==> (#[trigger] kept@[a]).id < self.next_id,
                forall|d: u64| #[trigger] chunks_of(base, d) == (if d == doc_id {
                    Seq::<MemoryChunk>::empty()
                } else {
                    chunks_of(old_chunks, d)
                }),
            decreases pieces@.len() - k,
        {
            let id = self.next_id;
            self.next_id = self.next_id + 1;
            let ghost prev_kept = kept@;
            let chunk = MemoryChunk::new(id, doc_id, k, pieces[k].clone(), now);
            kept.push(chunk);
            proof {
                assert forall|d: u64|
                    d != doc_id implies #[trigger] chunks_of(kept@, d) == chunks_of(base, d) by {
                    lemma_chunks_of_push(prev_kept, kept@.last(), d);
                }
                lemma_chunks_of_push(prev_kept, kept@.last(), doc_id);
                assert(chunks_of(kept@, doc_id) == chunks_of(prev_kept, doc_id).push(
                    kept@.last(),
                ));
            }
            k = k + 1;
        }
        self.chunks = kept;
        proof {
            assert forall|d: u64, j: int|
                0 <= j < chunks_of(self.chunks@, d).len() implies (#[trigger] chunks_of(
                self.chunks@,
                d,
            )[j]).chunk_index == j by {
                if d != doc_id {
                    assert(chunks_of(self.chunks@, d) == chunks_of(old_chunks, d));
                }
            }
        }
        Ok(())
    }

    /// The chunking configuration in force.
    pub closed spec fn spec_chunk_config(&self) -> ChunkConfig {
        self.chunk_config
    }

    /// Replace the content of the document at a store index and re-index
    /// its chunks.
    fn set_content(&mut self, idx: usize, content: &str) -> (r: Result<(), WorkspaceError>)
        requires
            old(self).wf(),
            idx < old(self).spec_docs().len(),
        ensures
            final(self).wf(),
            final(self).spec_user_id() == old(self).spec_user_id(),
            final(self).spec_agent_id() == old(self).spec_agent_id(),
            final(self).spec_embeddings_enabled() == old(self).spec_embeddings_enabled(),
            final(self).spec_chunk_config() == old(self).spec_chunk_config(),
            final(self).spec_docs().len() == old(self).spec_docs().len(),
            forall|j: int|
                0 <= j < old(self).spec_docs().len() && j != idx ==> final(self).spec_docs()[j]
                    == old(self).spec_docs()[j],
            ({
                let d0 = old(self).spec_docs()[idx as int];
                let d1 = final(self).spec_docs()[idx as int];
                d1.id == d0.id && d1.doc_type == d0.doc_type && title_eq(
                    d1.title,
                    match d0.title {
                        Some(t) => Some(t@),
                        None => None,
                    },
                ) && d1.content@ == content@ && d1.user_id@ == d0.user_id@ && d1.agent_id
                    == d0.agent_id && d1.metadata@ == d0.metadata@ && d1.created_at
                    == d0.created_at
            }),
            forall|d: u64|
                d != old(self).spec_docs()[idx as int].id ==> #[trigger] chunks_of(
                    final(self).spec_chunks(),
                    d,
                ) == chunks_of(old(self).spec_chunks(), d),
            old(self).spec_id_headroom() >= content@.len() ==> r is Ok,
            match r {
                Ok(_) => indexed_chunks_match(
                    chunks_of(
                        final(self).spec_chunks(),
                        old(self).spec_docs()[idx as int].id,
                    ),
                    content@,
                    final(self).spec_chunk_config(),
                ),
                Err(e) => e matches WorkspaceError::Storage { .. } && old(
                    self,
                ).spec_id_headroom() < content@.len(),
            },
    {
        let doc_id = self.documents[idx].id;
        let now = self.clock;
        if self.clock < u64::MAX {
            self.clock = self.clock + 1;
        }
        let old_doc = &self.documents[idx];
        let updated = MemoryDocument {
            id: old_doc.id,
            user_id: old_doc.user_id.clone(),
            agent_id: old_doc.agent_id,
            doc_type: old_doc.doc_type,
            title: match &old_doc.title {
                Some(t) => Some(t.clone()),
                None => None,
            },
            content: content.to_owned(),
            created_at: old_doc.created_at,
            updated_at: now,
            metadata: old_doc.metadata.clone(),
        };
        self.documents[idx] = updated;
        self.reindex_document(doc_id, content)
    }
}

/// Whether a document's chunk list is exactly the chunking of `content`:
/// chunk `j` holds window `j` of the content's words and carries chunk
/// index `j`, the windows start at multiples of the step, and the last one
/// is the first to reach the final word.
pub open spec fn indexed_chunks_match(
    chs: Seq<MemoryChunk>,
    content: Seq<char>,
    config: ChunkConfig,
) -> bool {
    let ws = crate::chunker::tokens_of(content).len() as int;
    let target = config.target_tokens as int;
    let step = config.spec_step();
    &&& (chs.len() == 0 <==> ws == 0)
    &&& forall|j: int|
        0 <= j < chs.len() ==> (#[trigger] chs[j]).content@ == crate::chunker::join_words(
            crate::chunker::tokens_of(content).subrange(
                j * step,
                crate::chunker::spec_min(j * step + target, ws),
            ),
        ) && chs[j].chunk_index == j
    &&& (chs.len() > 0 ==> (chs.len() - 1) * step + target >= ws)
    &&& forall|j: int| 0 <= j < chs.len() ==> #[trigger] (j * step) < ws
    &&& forall|j: int| 0 <= j < chs.len() - 1 ==> #[trigger] (j * step) + target < ws
}

/// Copy a chunk.
fn clone_chunk(c: &MemoryChunk) -> (r: MemoryChunk)
    ensures
        r.id == c.id,
        r.document_id == c.document_id,
        r.chunk_index == c.chunk_index,
        r.content@ == c.content@,
        r.embedding == c.embedding,
        r.created_at == c.created_at,
{
    MemoryChunk {
        id: c.id,
        document_id: c.document_id,
        chunk_index: c.chunk_index,
        content: c.content.clone(),
        embedding: c.embedding,
        created_at: c.created_at,
    }
}


/// When a match exists, the first match is in range, matches, and nothing
/// before it matches.
pub proof fn lemma_find_doc_first(
    docs: Seq<MemoryDocument>,
    doc_type: DocType,
    title: Option<Seq<char>>,
)
    requires
        has_doc(docs, doc_type, title),
    ensures
        0 <= find_doc(docs, doc_type, title) < docs.len(),
        docs[find_doc(docs, doc_type, title)].doc_type == doc_type,
        title_eq(docs[find_doc(docs, doc_type, title)].title, title),
        forall|j: int|
            0 <= j < find_doc(docs, doc_type, title) ==> !((#[trigger] docs[j]).doc_type
                == doc_type && title_eq(docs[j].title, title)),
    decreases docs.len(),
{
    if docs[0].doc_type == doc_type && title_eq(docs[0].title, title) {
    } else {
        assert(has_doc(docs.skip(1), doc_type, title)) by {
            let w = choose|w: int|
                0 <= w < docs.len() && (#[trigger] docs[w]).doc_type == doc_type && title_eq(
                    docs[w].title,
                    title,
                );
            assert(docs.skip(1)[w - 1] == docs[w]);
        }
        lemma_find_doc_first(docs.skip(1), doc_type, title);
        assert forall|j: int|
            0 <= j < find_doc(docs, doc_type, title) implies !((#[trigger] docs[j]).doc_type
            == doc_type && title_eq(docs[j].title, title)) by {
            if j > 0 {
                assert(docs.skip(1)[j - 1] == docs[j]);
            }
        }
        assert(docs.skip(1)[find_doc(docs.skip(1), doc_type, title)] == docs[find_doc(
            docs,
            doc_type,
            title,
        )]);
    }
}

/// The timestamp prefix of a daily log entry: `[HH:MM:SS] `.
pub open spec fn timestamp_prefix(h: u8, m: u8, sec: u8) -> Seq<char> {
    seq!['[', digit_char(h as int / 10), digit_char(h as int % 10), ':'].add(
        seq![digit_char(m as int / 10), digit_char(m as int % 10), ':'],
    ).add(seq![digit_char(sec as int / 10), digit_char(sec as int % 10), ']', ' '])
}

/// The content of the memory document after appending an entry: the entry
/// alone on an empty or missing document, else the old content, a blank
/// line, and the entry.
pub open spec fn appended_memory_content(
    docs: Seq<MemoryDocument>,
    entry: Seq<char>,
) -> Seq<char> {
    if has_doc(docs, DocType::Memory, None) && docs[find_doc(
        docs,
        DocType::Memory,
        None,
    )].content@.len() > 0 {
        docs[find_doc(docs, DocType::Memory, None)].content@.add("\n\n"@).add(entry)
    } else {
        entry
    }
}

/// The content of a daily log after appending a stamped entry: the stamped
/// entry alone on an empty or missing log, else the old content, a newline,
/// and the stamped entry.
pub open spec fn appended_log_content(
    docs: Seq<MemoryDocument>,
    date: Seq<char>,
    stamped: Seq<char>,
) -> Seq<char> {
    if has_doc(docs, DocType::DailyLog, Some(date)) && docs[find_doc(
        docs,
        DocType::DailyLog,
        Some(date),
    )].content@.len() > 0 {
        docs[find_doc(docs, DocType::DailyLog, Some(date))].content@.add("\n"@).add(stamped)
    } else {
        stamped
    }
}

/// The frame of a write to the document matching a key: the store holds at
/// most one new document, every other document is untouched, and every
/// other document's chunks are untouched.
pub open spec fn write_framed(
    old_docs: Seq<MemoryDocument>,
    old_chunks: Seq<MemoryChunk>,
    new_docs: Seq<MemoryDocument>,
    new_chunks: Seq<MemoryChunk>,
    doc_type: DocType,
    title: Option<Seq<char>>,
) -> bool {
    let tgt = find_doc(new_docs, doc_type, title);
    &&& new_docs.len() == old_docs.len() + (if has_doc(old_docs, doc_type, title) {
        0int
    } else {
        1int
    })
    &&& forall|j: int| 0 <= j < old_docs.len() && j != tgt ==> new_docs[j] == old_docs[j]
    &&& forall|d: u64|
        d != new_docs[tgt].id ==> #[trigger] chunks_of(new_chunks, d) == chunks_of(old_chunks, d)
}

impl Workspace {
    /// Get the long-term memory document, creating it when missing.
    pub fn memory(&mut self) -> (r: Result<MemoryDocument, WorkspaceError>)
        requires
            old(self).wf(),
        ensures
            final(self).wf(),
            final(self).spec_chunks() == old(self).spec_chunks(),
            match r {
                Ok(d) => has_doc(final(self).spec_docs(), DocType::Memory, None) && doc_like(
                    d,
                    final(self).spec_docs()[
                        find_doc(final(self).spec_docs(), DocType::Memory, None)
                    ],
                ),
                Err(e) => e matches WorkspaceError::Storage { .. },
            },
            r is Err <==> (!has_doc(old(self).spec_docs(), DocType::Memory, None) && old(
                self,
            ).spec_id_headroom() == 0),
    {
        self.get_or_create_document(DocType::Memory, None)
    }

    /// Get the daily log for a date, creating it when missing.
    pub fn daily_log(&mut self, date: &str) -> (r: Result<MemoryDocument, WorkspaceError>)
        requires
            old(self).wf(),
        ensures
            final(self).wf(),
            final(self).spec_chunks() == old(self).spec_chunks(),
            match r {
                Ok(d) => has_doc(final(self).spec_docs(), DocType::DailyLog, Some(date@))
                    && doc_like(
                    d,
                    final(self).spec_docs()[
                        find_doc(final(self).spec_docs(), DocType::DailyLog, Some(date@))
                    ],
                ),
                Err(e) => e matches WorkspaceError::Storage { .. },
            },
            r is Err <==> (!has_doc(old(self).spec_docs(), DocType::DailyLog, Some(date@))
                && old(self).spec_id_headroom() == 0),
    {
        self.get_or_create_document(DocType::DailyLog, Some(date))
    }

    /// Get today's daily log, keyed by the current UTC date.
    pub fn today_log(&mut self) -> (r: Result<MemoryDocument, WorkspaceError>)
        requires
            old(self).wf(),
        ensures
            final(self).wf(),
            final(self).spec_chunks() == old(self).spec_chunks(),
            match r {
                Ok(d) => d.doc_type == DocType::DailyLog,
                Err(e) => e matches WorkspaceError::Storage { .. },
            },
            old(self).spec_id_headroom() > 0 ==> r is Ok,
            r is Err ==> old(self).spec_id_headroom() == 0,
    {
        let date = crate::clock::today_date_string();
        match self.daily_log(date.as_str()) {
            Ok(d) => {
                proof {
                    lemma_find_doc_first(self.spec_docs(), DocType::DailyLog, Some(date@));
                }
                Ok(d)
            },
            Err(e) => Err(e),
        }
    }

    /// The heartbeat checklist content, when one is stored.
    pub fn heartbeat_checklist(&self) -> (r: Option<String>)
        ensures
            match r {
                Some(content) => has_doc(self.spec_docs(), DocType::Heartbeat, None) && content@
                    == self.spec_docs()[
                    find_doc(self.spec_docs(), DocType::Heartbeat, None)
                ].content@,
                None => !has_doc(self.spec_docs(), DocType::Heartbeat, None),
            },
    {
        match self.get_document(DocType::Heartbeat, None) {
            Ok(d) => Some(d.content),
            Err(_) => None,
        }
    }

    /// Append an entry to the long-term memory document, creating it when
    /// missing: an empty document gets the entry itself, a nonempty one the
    /// old content, a blank line, and the entry. The document's chunks are
    /// re-indexed from the new content.
    pub fn append_memory(&mut self, entry: &str) -> (r: Result<(), WorkspaceError>)
        requires
            old(self).wf(),
        ensures
            final(self).wf(),
            match r {
                Ok(_) => ({
                    let expected = appended_memory_content(old(self).spec_docs(), entry@);
                    let fdocs = final(self).spec_docs();
                    &&& has_doc(fdocs, DocType::Memory, None)
                    &&& fdocs[find_doc(fdocs, DocType::Memory, None)].content@ == expected
                    &&& indexed_chunks_match(
                        chunks_of(
                            final(self).spec_chunks(),
                            fdocs[find_doc(fdocs, DocType::Memory, None)].id,
                        ),
                        expected,
                        final(self).spec_chunk_config(),
                    )
                    &&& write_framed(
                        old(self).spec_docs(),
                        old(self).spec_chunks(),
                        fdocs,
                        final(self).spec_chunks(),
                        DocType::Memory,
                        None,
                    )
                }),
                Err(e) => e matches WorkspaceError::Storage { .. },
            },
            old(self).spec_id_headroom() >= appended_memory_content(
                old(self).spec_docs(),
                entry@,
            ).len() + 1 ==> r is Ok,
            r is Err ==> old(self).spec_id_headroom() < appended_memory_content(
                old(self).spec_docs(),
                entry@,
            ).len() + 1,
    {
        let ghost expected = appended_memory_content(self.spec_docs(), entry@);
        let created = match self.get_or_create_document(DocType::Memory, None) {
            Ok(d) => d,
            Err(e) => {
                return Err(e);
            },
        };
        let idx = match self.find_document(DocType::Memory, None) {
            Some(i) => i,
            None => {
                proof {
                    assert(false);
                }
                return Err(
                    WorkspaceError::Storage { reason: String::from_str("lookup failed") },
                );
            },
        };
        let mut newc: String;
        if created.content.as_str().is_empty() {
            newc = entry.to_owned();
        } else {
            newc = created.content;
            newc.append("\n\n");
            newc.append(entry);
        }
        proof {
            assert(newc@ == expected);
        }
        let ghost docs1 = self.spec_docs();
        proof {
            if has_doc(old(self).spec_docs(), DocType::Memory, None) {
                assert(docs1 == old(self).spec_docs());
            } else {
                assert forall|j: int|
                    0 <= j < old(self).spec_docs().len() implies !((#[trigger] docs1[j]).doc_type
                    == DocType::Memory && title_eq(docs1[j].title, None)) by {
                    assert(docs1[j] == old(self).spec_docs()[j]);
                    if docs1[j].doc_type == DocType::Memory && title_eq(docs1[j].title, None) {
                        assert(has_doc(old(self).spec_docs(), DocType::Memory, None));
                    }
                }
                lemma_find_doc_first(docs1, DocType::Memory, None);
                lemma_find_doc_char(
                    docs1,
                    DocType::Memory,
                    None,
                    old(self).spec_docs().len() as int,
                );
            }
        }
        let result = self.set_content(idx, newc.as_str());
        proof {
            lemma_find_doc_first(docs1, DocType::Memory, None);
            assert forall|j: int|
                0 <= j < idx implies !((#[trigger] final(self).spec_docs()[j]).doc_type
                == DocType::Memory && title_eq(final(self).spec_docs()[j].title, None)) by {
                assert(final(self).spec_docs()[j] == docs1[j]);
            }
            lemma_find_doc_char(final(self).spec_docs(), DocType::Memory, None, idx as int);
        }
        result
    }

    /// Append a stamped entry to the daily log of a date: the log gets the
    /// entry prefixed with `[HH:MM:SS] `, after a newline when the log
    /// already holds text. The log's chunks are re-indexed.
    pub fn append_daily_log_at(
        &mut self,
        date: &str,
        hour: u8,
        minute: u8,
        second: u8,
        entry: &str,
    ) -> (r: Result<(), WorkspaceError>)
        requires
            old(self).wf(),
            hour < 24,
            minute < 60,
            second < 60,
        ensures
            final(self).wf(),
            match r {
                Ok(_) => ({
                    let stamped = timestamp_prefix(hour, minute, second).add(entry@);
                    let expected = appended_log_content(old(self).spec_docs(), date@, stamped);
                    let fdocs = final(self).spec_docs();
                    &&& has_doc(fdocs, DocType::DailyLog, Some(date@))
                    &&& fdocs[find_doc(fdocs, DocType::DailyLog, Some(date@))].content@
                        == expected
                    &&& indexed_chunks_match(
                        chunks_of(
                            final(self).spec_chunks(),
                            fdocs[find_doc(fdocs, DocType::DailyLog, Some(date@))].id,
                        ),
                        expected,
                        final(self).spec_chunk_config(),
                    )
                    &&& write_framed(
                        old(self).spec_docs(),
                        old(self).spec_chunks(),
                        fdocs,
                        final(self).spec_chunks(),
                        DocType::DailyLog,
                        Some(date@),
                    )
                }),
                Err(e) => e matches WorkspaceError::Storage { .. },
            },
            old(self).spec_id_headroom() >= appended_log_content(
                old(self).spec_docs(),
                date@,
                timestamp_prefix(hour, minute, second).add(entry@),
            ).len() + 1 ==> r is Ok,
            r is Err ==> old(self).spec_id_headroom() < appended_log_content(
                old(self).spec_docs(),
                date@,
                timestamp_prefix(hour, minute, second).add(entry@),
            ).len() + 1,
    {
        let ghost stamped_g = timestamp_prefix(hour, minute, second).add(entry@);
        let ghost expected = appended_log_content(self.spec_docs(), date@, stamped_g);
        let created = match self.get_or_create_document(DocType::DailyLog, Some(date)) {
            Ok(d) => d,
            Err(e) => {
                return Err(e);
            },
        };
        let idx = match self.find_document(DocType::DailyLog, Some(date)) {
            Some(i) => i,
            None => {
                proof {
                    assert(false);
                }
                return Err(
                    WorkspaceError::Storage { reason: String::from_str("lookup failed") },
                );
            },
        };
        let mut stamped = String::new();
        push_char(&mut stamped, '[');
        push_char(&mut stamped, (48u8 + hour / 10) as char);
        push_char(&mut stamped, (48u8 + hour % 10) as char);
        push_char(&mut stamped, ':');
        push_char(&mut stamped, (48u8 + minute / 10) as char);
        push_char(&mut stamped, (48u8 + minute % 10) as char);
        push_char(&mut stamped, ':');
        push_char(&mut stamped, (48u8 + second / 10) as char);
        push_char(&mut stamped, (48u8 + second % 10) as char);
        push_char(&mut stamped, ']');
        push_char(&mut stamped, ' ');
        stamped.append(entry);
        proof {
            assert(stamped@ =~= stamped_g);
        }
        let mut newc: String;
        if created.content.as_str().is_empty() {
            newc = stamped;
        } else {
            newc = created.content;
            newc.append("\n");
            newc.append(stamped.as_str());
        }
        proof {
            assert(newc@ == expected);
        }
        let ghost docs1 = self.spec_docs();
        proof {
            if has_doc(old(self).spec_docs(), DocType::DailyLog, Some(date@)) {
                assert(docs1 == old(self).spec_docs());
            } else {
                assert forall|j: int|
                    0 <= j < old(self).spec_docs().len() implies !((#[trigger] docs1[j]).doc_type
                    == DocType::DailyLog && title_eq(docs1[j].title, Some(date@))) by {
                    assert(docs1[j] == old(self).spec_docs()[j]);
                    if docs1[j].doc_type == DocType::DailyLog && title_eq(
                        docs1[j].title,
                        Some(date@),
                    ) {
                        assert(has_doc(old(self).spec_docs(), DocType::DailyLog, Some(date@)));
                    }
                }
                lemma_find_doc_first(docs1, DocType::DailyLog, Some(date@));
                lemma_find_doc_char(
                    docs1,
                    DocType::DailyLog,
                    Some(date@),
                    old(self).spec_docs().len() as int,
                );
            }
        }
        let result = self.set_content(idx, newc.as_str());
        proof {
            lemma_find_doc_first(docs1, DocType::DailyLog, Some(date@));
            assert forall|j: int|
                0 <= j < idx implies !((#[trigger] final(self).spec_docs()[j]).doc_type
                == DocType::DailyLog && title_eq(
                final(self).spec_docs()[j].title,
                Some(date@),
            )) by {
                assert(final(self).spec_docs()[j] == docs1[j]);
            }
            lemma_find_doc_char(final(self).spec_docs(), DocType::DailyLog, Some(date@), idx as int);
        }
        result
    }

    /// Append a stamped entry to today's daily log, at the current UTC
    /// time.
    pub fn append_daily_log(&mut self, entry: &str) -> (r: Result<(), WorkspaceError>)
        requires
            old(self).wf(),
        ensures
            final(self).wf(),
            r matches Err(e) ==> e matches WorkspaceError::Storage { .. },
            r is Ok ==> exists|date: Seq<char>, hour: u8, minute: u8, second: u8|
                #![trigger timestamp_prefix(hour, minute, second), has_doc(
                    final(self).spec_docs(),
                    DocType::DailyLog,
                    Some(date),
                )]
                {
                    let stamped = timestamp_prefix(hour, minute, second).add(entry@);
                    let expected = appended_log_content(old(self).spec_docs(), date, stamped);
                    let fdocs = final(self).spec_docs();
                    &&& date.len() >= 10
                    &&& hour < 24
                    &&& minute < 60
                    &&& second < 60
                    &&& has_doc(fdocs, DocType::DailyLog, Some(date))
                    &&& fdocs[find_doc(fdocs, DocType::DailyLog, Some(date))].content@
                        == expected
                    &&& indexed_chunks_match(
                        chunks_of(
                            final(self).spec_chunks(),
                            fdocs[find_doc(fdocs, DocType::DailyLog, Some(date))].id,
                        ),
                        expected,
                        final(self).spec_chunk_config(),
                    )
                    &&& write_framed(
                        old(self).spec_docs(),
                        old(self).spec_chunks(),
                        fdocs,
                        final(self).spec_chunks(),
                        DocType::DailyLog,
                        Some(date),
                    )
                },
    {
        let date = crate::clock::today_date_string();
        let (h, m, sec) = crate::clock::utc_time_of_day();
        let r = self.append_daily_log_at(date.as_str(), h, m, sec, entry);
        proof {
            if r is Ok {
                assert(date@.len() >= 10);
            }
        }
        r
    }

    /// Replace a document's content entirely, creating the document when
    /// missing, and re-index its chunks.
    pub fn update_document(&mut self, doc_type: DocType, title: Option<&str>, content: &str) -> (r:
        Result<(), WorkspaceError>)
        requires
            old(self).wf(),
        ensures
            final(self).wf(),
            match r {
                Ok(_) => ({
                    let tv = match title {
                        Some(t) => Some(t@),
                        None => None::<Seq<char>>,
                    };
                    let fdocs = final(self).spec_docs();
                    &&& has_doc(fdocs, doc_type, tv)
                    &&& fdocs[find_doc(fdocs, doc_type, tv)].content@ == content@
                    &&& indexed_chunks_match(
                        chunks_of(
                            final(self).spec_chunks(),
                            fdocs[find_doc(fdocs, doc_type, tv)].id,
                        ),
                        content@,
                        final(self).spec_chunk_config(),
                    )
                    &&& write_framed(
                        old(self).spec_docs(),
                        old(self).spec_chunks(),
                        fdocs,
                        final(self).spec_chunks(),
                        doc_type,
                        tv,
                    )
                }),
                Err(e) => e matches WorkspaceError::Storage { .. },
            },
            old(self).spec_id_headroom() >= content@.len() + 1 ==> r is Ok,
            r is Err ==> old(self).spec_id_headroom() < content@.len() + 1,
    {
        let ghost tv = match title {
            Some(t) => Some(t@),
            None => None::<Seq<char>>,
        };
        match self.get_or_create_document(doc_type, title) {
            Ok(_) => {},
            Err(e) => {
                return Err(e);
            },
        }
        let idx = match self.find_document(doc_type, title) {
            Some(i) => i,
            None => {
                proof {
                    assert(false);
                }
                return Err(
                    WorkspaceError::Storage { reason: String::from_str("lookup failed") },
                );
            },
        };
        let ghost docs1 = self.spec_docs();
        proof {
            if has_doc(old(self).spec_docs(), doc_type, tv) {
                assert(docs1 == old(self).spec_docs());
            } else {
                assert forall|j: int|
                    0 <= j < old(self).spec_docs().len() implies !((#[trigger] docs1[j]).doc_type
                    == doc_type && title_eq(docs1[j].title, tv)) by {
                    assert(docs1[j] == old(self).spec_docs()[j]);
                    if docs1[j].doc_type == doc_type && title_eq(docs1[j].title, tv) {
                        assert(has_doc(old(self).spec_docs(), doc_type, tv));
                    }
                }
                lemma_find_doc_first(docs1, doc_type, tv);
                lemma_find_doc_char(docs1, doc_type, tv, old(self).spec_docs().len() as int);
            }
        }
        let result = self.set_content(idx, content);
        proof {
            lemma_find_doc_first(docs1, doc_type, tv);
            assert forall|j: int|
                0 <= j < idx implies !((#[trigger] final(self).spec_docs()[j]).doc_type == doc_type
                && title_eq(final(self).spec_docs()[j].title, tv)) by {
                assert(final(self).spec_docs()[j] == docs1[j]);
            }
            lemma_find_doc_char(final(self).spec_docs(), doc_type, tv, idx as int);
        }
        result
    }
}

/// One optional system prompt part: the header, a blank line, and the
/// document's content, present when the document exists and is nonempty.
pub open spec fn part_for(
    docs: Seq<MemoryDocument>,
    doc_type: DocType,
    title: Option<Seq<char>>,
    header: Seq<char>,
) -> Seq<Seq<char>> {
    if has_doc(docs, doc_type, title) && docs[find_doc(docs, doc_type, title)].content@.len()
        > 0 {
        seq![header.add("\n\n"@).add(docs[find_doc(docs, doc_type, title)].content@)]
    } else {
        Seq::empty()
    }
}

/// The parts of the system prompt, in order: behaviour instructions, core
/// values, user context, identity, then today's and yesterday's notes.
pub open spec fn prompt_parts(
    docs: Seq<MemoryDocument>,
    today: Seq<char>,
    yesterday: Seq<char>,
) -> Seq<Seq<char>> {
    part_for(docs, DocType::Agents, None, "## Agent Instructions"@).add(
        part_for(docs, DocType::Soul, None, "## Core Values"@),
    ).add(part_for(docs, DocType::User, None, "## User Context"@)).add(
        part_for(docs, DocType::Identity, None, "## Identity"@),
    ).add(part_for(docs, DocType::DailyLog, Some(today), "## Today's Notes"@)).add(
        part_for(docs, DocType::DailyLog, Some(yesterday), "## Yesterday's Notes"@),
    )
}

/// Parts joined by a separator line.
pub open spec fn join_sep(parts: Seq<Seq<char>>) -> Seq<char>
    decreases parts.len(),
{
    if parts.len() == 0 {
        Seq::empty()
    } else if parts.len() == 1 {
        parts[0]
    } else {
        join_sep(parts.drop_last()).add("\n\n---\n\n"@).add(parts.last())
    }
}

impl Workspace {
    /// Collect one prompt part when its document exists and is nonempty.
    fn add_part(
        &self,
        parts: &mut Vec<String>,
        doc_type: DocType,
        title: Option<&str>,
        header: &str,
    )
        ensures
            final(parts).deep_view() == old(parts).deep_view().add(
                part_for(
                    self.spec_docs(),
                    doc_type,
                    match title {
                        Some(t) => Some(t@),
                        None => None::<Seq<char>>,
                    },
                    header@,
                ),
            ),
    {
        let ghost tv = match title {
            Some(t) => Some(t@),
            None => None::<Seq<char>>,
        };
        match self.find_document(doc_type, title) {
            Some(i) => {
                if !self.documents[i].content.as_str().is_empty() {
                    let mut part = header.to_owned();
                    part.append("\n\n");
                    part.append(self.documents[i].content.as_str());
                    parts.push(part);
                    proof {
                        assert(parts.deep_view() =~= old(parts).deep_view().add(
                            part_for(self.spec_docs(), doc_type, tv, header@),
                        ));
                    }
                } else {
                    proof {
                        assert(parts.deep_view() =~= old(parts).deep_view().add(
                            part_for(self.spec_docs(), doc_type, tv, header@),
                        ));
                    }
                }
            },
            None => {
                proof {
                    assert(parts.deep_view() =~= old(parts).deep_view().add(
                        part_for(self.spec_docs(), doc_type, tv, header@),
                    ));
                }
            },
        }
    }

    /// Compose the system prompt for the given daily log dates: the
    /// identity documents and the two days' notes, each with its header,
    /// joined by separator lines; missing and empty documents are skipped.
    pub fn system_prompt_for(&self, today: &str, yesterday: &str) -> (r: String)
        ensures
            r@ == join_sep(prompt_parts(self.spec_docs(), today@, yesterday@)),
    {
        let mut parts: Vec<String> = Vec::new();
        proof {
            assert(parts.deep_view() =~= Seq::<Seq<char>>::empty());
        }
        self.add_part(&mut parts, DocType::Agents, None, "## Agent Instructions");
        self.add_part(&mut parts, DocType::Soul, None, "## Core Values");
        self.add_part(&mut parts, DocType::User, None, "## User Context");
        self.add_part(&mut parts, DocType::Identity, None, "## Identity");
        self.add_part(&mut parts, DocType::DailyLog, Some(today), "## Today's Notes");
        self.add_part(&mut parts, DocType::DailyLog, Some(yesterday), "## Yesterday's Notes");
        proof {
            assert(parts.deep_view() =~= prompt_parts(self.spec_docs(), today@, yesterday@));
        }
        let mut out = String::new();
        let mut i: usize = 0;
        while i < parts.len()
            invariant
                i <= parts@.len(),
                parts.deep_view() == prompt_parts(self.spec_docs(), today@, yesterday@),
                out@ == join_sep(parts.deep_view().take(i as int)),
            decreases parts@.len() - i,
        {
            proof {
                assert(parts.deep_view().take(i as int + 1).drop_last() =~= parts.deep_view().take(
                    i as int,
                ));
                assert(parts.deep_view().take(i as int + 1).last() == parts.deep_view()[i as int]);
            }
            if i > 0 {
                out.append("\n\n---\n\n");
            }
            out.append(parts[i].as_str());
            proof {
                if i == 0 {
                    assert(parts.deep_view().take(1) =~= seq![parts.deep_view()[0]]);
                }
                assert(out@ =~= join_sep(parts.deep_view().take(i as int + 1)));
            }
            i = i + 1;
        }
        proof {
            assert(parts.deep_view().take(parts.deep_view().len() as int) =~= parts.deep_view());
        }
        out
    }

    /// Compose the system prompt for today's and yesterday's UTC dates.
    pub fn system_prompt(&self) -> (r: String)
        ensures
            exists|today: Seq<char>, yesterday: Seq<char>|
                r@ == join_sep(prompt_parts(self.spec_docs(), today, yesterday)),
    {
        let today = crate::clock::today_date_string();
        let yesterday = crate::clock::yesterday_date_string();
        let r = self.system_prompt_for(today.as_str(), yesterday.as_str());
        proof {
            assert(r@ == join_sep(prompt_parts(self.spec_docs(), today@, yesterday@)));
        }
        r
    }
}


/// The lexical candidate chunk ids for a query: the ids of the first `cap`
/// chunks, in store order, whose content holds the query text.
pub open spec fn lexical_candidates(
    chunks: Seq<MemoryChunk>,
    query: Seq<char>,
    cap: int,
) -> Seq<u64>
    decreases chunks.len(),
{
    if chunks.len() == 0 {
        Seq::empty()
    } else {
        let front = lexical_candidates(chunks.drop_last(), query, cap);
        if front.len() < cap && query.len() > 0 && crate::strutil::contains_sub(
            chunks.last().content@,
            query,
        ) {
            front.push(chunks.last().id)
        } else {
            front
        }
    }
}

/// The given ids restricted to chunks the store holds, in the given order.
pub open spec fn known_ids(chunks: Seq<MemoryChunk>, ids: Seq<u64>) -> Seq<u64>
    decreases ids.len(),
{
    if ids.len() == 0 {
        Seq::empty()
    } else {
        let front = known_ids(chunks, ids.drop_last());
        if exists|c: int| 0 <= c < chunks.len() && (#[trigger] chunks[c]).id == ids.last() {
            front.push(ids.last())
        } else {
            front
        }
    }
}

impl Workspace {
    /// Find the store index of a chunk by id.
    fn find_chunk(&self, id: u64) -> (r: Option<usize>)
        ensures
            match r {
                Some(c) => c < self.spec_chunks().len() && self.spec_chunks()[c as int].id == id,
                None => forall|c: int|
                    0 <= c < self.spec_chunks().len() ==> (#[trigger] self.spec_chunks()[c]).id
                        != id,
            },
    {
        let mut c: usize = 0;
        while c < self.chunks.len()
            invariant
                c <= self.chunks@.len(),
                forall|b: int| 0 <= b < c ==> (#[trigger] self.chunks@[b]).id != id,
            decreases self.chunks@.len() - c,
        {
            if self.chunks[c].id == id {
                return Some(c);
            }
            c = c + 1;
        }
        None
    }

    /// Hybrid search: fuse the store's lexical candidates for the query
    /// with an externally supplied vector ranking by Reciprocal Rank
    /// Fusion, and return the top results.
    ///
    /// The lexical candidates are the first `4 * limit` chunks whose
    /// content holds the query text, in store order; vector candidates the
    /// store does not hold are dropped. Results carry each chunk's rank in
    /// both lists and come sorted by fused score descending, ties broken by
    /// chunk id ascending.
    #[verifier::rlimit(80)]
    pub fn search_hybrid(&self, query: &str, vector_ranked: &Vec<u64>, limit: usize) -> (r: Vec<
        SearchResult,
    >)
        requires
            self.wf(),
            vector_ranked@.len() <= u32::MAX,
            forall|i: int, j: int|
                0 <= i < j < vector_ranked@.len() ==> #[trigger] vector_ranked@[i]
                    != #[trigger] vector_ranked@[j],
        ensures
            r@.len() <= limit,
            forall|i: int, j: int|
                0 <= i < j < r@.len() ==> crate::search::fused_leq(
                    (#[trigger] r@[i]).spec_hit(),
                    (#[trigger] r@[j]).spec_hit(),
                ),
            forall|i: int|
                0 <= i < r@.len() ==> exists|c: int|
                    0 <= c < self.spec_chunks().len() && (#[trigger] self.spec_chunks()[c]).id == (
                    #[trigger] r@[i]).chunk_id && r@[i].content@ == self.spec_chunks()[c].content@
                        && r@[i].document_id == self.spec_chunks()[c].document_id,
            forall|i: int|
                0 <= i < r@.len() ==> (#[trigger] r@[i]).spec_hit() == crate::search::hit_of(
                    lexical_candidates(self.spec_chunks(), query@, spec_cap(limit)),
                    known_ids(self.spec_chunks(), vector_ranked@),
                    r@[i].chunk_id,
                ),
            r@.len() == crate::chunker::spec_min(
                limit as int,
                crate::search::candidate_ids(
                    lexical_candidates(self.spec_chunks(), query@, spec_cap(limit)),
                    known_ids(self.spec_chunks(), vector_ranked@),
                ).len() as int,
            ),
            forall|i: int, j: int|
                0 <= i < j < r@.len() ==> (#[trigger] r@[i]).chunk_id != (#[trigger] r@[
                    j
                ]).chunk_id,
            forall|i: int|
                0 <= i < r@.len() ==> (#[trigger] r@[i]).lex_rank is Some || r@[i].vec_rank
                    is Some,
            forall|id: u64|
                #[trigger] lexical_candidates(self.spec_chunks(), query@, spec_cap(limit)).contains(
                    id,
                ) && !result_covers(r@, id) ==> cut_after(
                    r@,
                    limit as int,
                    crate::search::hit_of(
                        lexical_candidates(self.spec_chunks(), query@, spec_cap(limit)),
                        known_ids(self.spec_chunks(), vector_ranked@),
                        id,
                    ),
                ),
            forall|id: u64|
                #[trigger] known_ids(self.spec_chunks(), vector_ranked@).contains(id)
                    && !result_covers(r@, id) ==> cut_after(
                    r@,
                    limit as int,
                    crate::search::hit_of(
                        lexical_candidates(self.spec_chunks(), query@, spec_cap(limit)),
                        known_ids(self.spec_chunks(), vector_ranked@),
                        id,
                    ),
                ),
            search_post(self.spec_chunks(), query@, vector_ranked@, limit as int, r@),
    {
        let cap: usize = if limit > usize::MAX / 4 {
            usize::MAX
        } else {
            4 * limit
        };
        let cap: usize = if cap > 0xffff_ffff {
            0xffff_ffff
        } else {
            cap
        };
        proof {
            assert(cap as int == spec_cap(limit));
        }

        let mut lex_ids: Vec<u64> = Vec::new();
        let mut i: usize = 0;
        proof {
            assert(self.spec_chunks().take(0) =~= Seq::<MemoryChunk>::empty());
        }
        while i < self.chunks.len()
            invariant
                i <= self.chunks@.len(),
                self.wf(),
                lex_ids@ == lexical_candidates(self.spec_chunks().take(i as int), query@, cap as int),
                lex_ids@.len() <= cap,
                forall|a: int|
                    0 <= a < lex_ids@.len() ==> exists|c: int|
                        0 <= c < i && (#[trigger] lex_ids@[a]) == self.spec_chunks()[c].id,
                forall|a: int, b: int|
                    0 <= a < b < lex_ids@.len() ==> #[trigger] lex_ids@[a] != #[trigger] lex_ids@[
                        b
                    ],
            decreases self.chunks@.len() - i,
        {
            proof {
                assert(self.spec_chunks().take(i as int + 1).drop_last() =~= self.spec_chunks().take(
                    i as int,
                ));
                assert(self.spec_chunks().take(i as int + 1).last() == self.spec_chunks()[i as int]);
            }
            if lex_ids.len() < cap && crate::strutil::str_contains(
                self.chunks[i].content.as_str(),
                query,
            ) {
                let ghost prev = lex_ids@;
                lex_ids.push(self.chunks[i].id);
                proof {
                    assert forall|a: int, b: int|
                        0 <= a < b < lex_ids@.len() implies #[trigger] lex_ids@[a]
                        != #[trigger] lex_ids@[b] by {
                        if b == lex_ids@.len() - 1 {
                            let c0 = choose|c0: int|
                                0 <= c0 < i && (#[trigger] prev[a]) == self.spec_chunks()[c0].id;
                            assert(self.spec_chunks()[c0].id != self.spec_chunks()[i as int].id);
                        }
                    }
                }
            }
            i = i + 1;
        }
        proof {
            assert(self.spec_chunks().take(self.spec_chunks().len() as int) =~= self.spec_chunks());
        }

        let mut vec_clean: Vec<u64> = Vec::new();
        let mut j: usize = 0;
        proof {
            assert(vector_ranked@.take(0) =~= Seq::<u64>::empty());
        }
        while j < vector_ranked.len()
            invariant
                j <= vector_ranked@.len(),
                self.wf(),
                vec_clean@ == known_ids(self.spec_chunks(), vector_ranked@.take(j as int)),
                vec_clean@.len() <= j,
                forall|a: int|
                    0 <= a < vec_clean@.len() ==> exists|b: int|
                        0 <= b < j && (#[trigger] vec_clean@[a]) == vector_ranked@[b],
                forall|a: int, b: int|
                    0 <= a < b < vector_ranked@.len() ==> #[trigger] vector_ranked@[a]
                        != #[trigger] vector_ranked@[b],
                forall|a: int, b: int|
                    0 <= a < b < vec_clean@.len() ==> #[trigger] vec_clean@[a]
                        != #[trigger] vec_clean@[b],
            decreases vector_ranked@.len() - j,
        {
            proof {
                assert(vector_ranked@.take(j as int + 1).drop_last() =~= vector_ranked@.take(
                    j as int,
                ));
                assert(vector_ranked@.take(j as int + 1).last() == vector_ranked@[j as int]);
            }
            match self.find_chunk(vector_ranked[j]) {
                Some(_) => {
                    let ghost prev = vec_clean@;
                    vec_clean.push(vector_ranked[j]);
                    proof {
                        assert forall|a: int, b: int|
                            0 <= a < b < vec_clean@.len() implies #[trigger] vec_clean@[a]
                            != #[trigger] vec_clean@[b] by {
                            if b == vec_clean@.len() - 1 {
                                let b0 = choose|b0: int|
                                    0 <= b0 < j && (#[trigger] prev[a]) == vector_ranked@[b0];
                                assert(vector_ranked@[b0] != vector_ranked@[j as int]);
                            }
                        }
                    }
                },
                None => {},
            }
            j = j + 1;
        }
        proof {
            assert(vector_ranked@.take(vector_ranked@.len() as int) =~= vector_ranked@);
        }

        let ghost lex_g = lex_ids@;
        let ghost vec_g = vec_clean@;
        proof {
            lemma_lexical_in_store(self.spec_chunks(), query@, cap as int);
            lemma_known_ids_in_store(self.spec_chunks(), vector_ranked@);
        }
        let hits = rrf_fuse(&lex_ids, &vec_clean);
        proof {
            assert forall|a: int, b: int|
                0 <= a < b < hits@.len() implies crate::search::fused_leq(
                #[trigger] hits@[a],
                #[trigger] hits@[b],
            ) by {
                assert(crate::search::fused_le()(hits@[a], hits@[b]));
            }
        }

        let mut results: Vec<SearchResult> = Vec::new();
        let mut k: usize = 0;
        while k < hits.len()
            invariant
                k <= hits@.len(),
                self.wf(),
                lex_g == lexical_candidates(self.spec_chunks(), query@, spec_cap(limit)),
                vec_g == known_ids(self.spec_chunks(), vector_ranked@),
                forall|a: int, b: int|
                    0 <= a < b < hits@.len() ==> crate::search::fused_leq(
                        #[trigger] hits@[a],
                        #[trigger] hits@[b],
                    ),
                forall|a: int|
                    0 <= a < hits@.len() ==> #[trigger] hits@[a] == crate::search::hit_of(
                        lex_g,
                        vec_g,
                        hits@[a].chunk_id,
                    ),
                forall|a: int|
                    0 <= a < hits@.len() ==> lex_g.contains((#[trigger] hits@[a]).chunk_id)
                        || vec_g.contains(hits@[a].chunk_id),
                ids_in_store(lex_g, self.spec_chunks()),
                ids_in_store(vec_g, self.spec_chunks()),
                results@.len() == crate::chunker::spec_min(k as int, limit as int),
                forall|a: int|
                    0 <= a < results@.len() ==> (#[trigger] results@[a]).spec_hit() == hits@[a],
                forall|a: int|
                    0 <= a < results@.len() ==> exists|c: int|
                        0 <= c < self.spec_chunks().len() && (#[trigger] self.spec_chunks()[c]).id
                            == (#[trigger] results@[a]).chunk_id && results@[a].content@
                            == self.spec_chunks()[c].content@ && results@[a].document_id
                            == self.spec_chunks()[c].document_id,
            decreases hits@.len() - k,
        {
            if results.len() >= limit {
                k = hits.len();
            } else {
                let hit = &hits[k];
                let store_index = match self.find_chunk(hit.chunk_id) {
                    Some(c) => c,
                    None => {
                        proof {
                            let id = hits@[k as int].chunk_id;
                            if lex_g.contains(id) {
                                lemma_id_found(lex_g, self.spec_chunks(), id);
                            } else {
                                lemma_id_found(vec_g, self.spec_chunks(), id);
                            }
                            assert(false);
                        }
                        0
                    },
                };
                results.push(
                    SearchResult {
                        chunk_id: hit.chunk_id,
                        document_id: self.chunks[store_index].document_id,
                        content: self.chunks[store_index].content.clone(),
                        lex_rank: hit.lex_rank,
                        vec_rank: hit.vec_rank,
                    },
                );
                proof {
                    assert(results@.last().spec_hit() == hits@[k as int]);
                }
                k = k + 1;
            }
        }
        proof {
            let ghost cand = crate::search::candidate_ids(lex_g, vec_g);
            assert(hits@.len() == cand.len());
            assert(results@.len() == crate::chunker::spec_min(limit as int, cand.len() as int));
            assert forall|a: int, b: int|
                0 <= a < b < results@.len() implies (#[trigger] results@[a]).chunk_id
                != (#[trigger] results@[b]).chunk_id by {
                assert(results@[a].spec_hit() == hits@[a]);
                assert(results@[b].spec_hit() == hits@[b]);
                assert(hits@[a].chunk_id != hits@[b].chunk_id);
            }
            assert forall|a: int, b: int|
                0 <= a < b < results@.len() implies crate::search::fused_leq(
                (#[trigger] results@[a]).spec_hit(),
                (#[trigger] results@[b]).spec_hit(),
            ) by {
                assert(crate::search::fused_leq(hits@[a], hits@[b]));
            }
            assert forall|i: int|
                0 <= i < results@.len() implies (#[trigger] results@[i]).lex_rank is Some
                || results@[i].vec_rank is Some by {
                let id = results@[i].chunk_id;
                assert(results@[i].spec_hit() == hits@[i]);
                assert(hits@[i] == crate::search::hit_of(lex_g, vec_g, id));
                if lex_g.contains(id) {
                    crate::search::lemma_rank_contains(lex_g, id);
                } else {
                    assert(vec_g.contains(id));
                    crate::search::lemma_rank_contains(vec_g, id);
                }
            }
            assert forall|id: u64|
                #[trigger] lexical_candidates(self.spec_chunks(), query@, spec_cap(limit)).contains(
                    id,
                ) && !result_covers(results@, id) implies cut_after(
                results@,
                limit as int,
                crate::search::hit_of(
                    lexical_candidates(self.spec_chunks(), query@, spec_cap(limit)),
                    known_ids(self.spec_chunks(), vector_ranked@),
                    id,
                ),
            ) by {
                lemma_search_cut(hits@, results@, lex_g, vec_g, limit as int, id);
            }
            assert forall|id: u64|
                #[trigger] known_ids(self.spec_chunks(), vector_ranked@).contains(id)
                    && !result_covers(results@, id) implies cut_after(
                results@,
                limit as int,
                crate::search::hit_of(
                    lexical_candidates(self.spec_chunks(), query@, spec_cap(limit)),
                    known_ids(self.spec_chunks(), vector_ranked@),
                    id,
                ),
            ) by {
                lemma_search_cut(hits@, results@, lex_g, vec_g, limit as int, id);
            }
        }
        results
    }

    /// Search the store for a query without a vector ranking: the lexical
    /// candidates alone, in fused order.
    pub fn search(&self, query: &str, limit: usize) -> (r: Vec<SearchResult>)
        requires
            self.wf(),
        ensures
            r@.len() <= limit,
            forall|i: int, j: int|
                0 <= i < j < r@.len() ==> crate::search::fused_leq(
                    (#[trigger] r@[i]).spec_hit(),
                    (#[trigger] r@[j]).spec_hit(),
                ),
            forall|i: int|
                0 <= i < r@.len() ==> exists|c: int|
                    0 <= c < self.spec_chunks().len() && (#[trigger] self.spec_chunks()[c]).id == (
                    #[trigger] r@[i]).chunk_id && r@[i].content@ == self.spec_chunks()[c].content@
                        && r@[i].document_id == self.spec_chunks()[c].document_id,
            forall|i: int|
                0 <= i < r@.len() ==> (#[trigger] r@[i]).spec_hit() == crate::search::hit_of(
                    lexical_candidates(self.spec_chunks(), query@, spec_cap(limit)),
                    known_ids(self.spec_chunks(), Seq::<u64>::empty()),
                    r@[i].chunk_id,
                ),
            r@.len() == crate::chunker::spec_min(
                limit as int,
                crate::search::candidate_ids(
                    lexical_candidates(self.spec_chunks(), query@, spec_cap(limit)),
                    known_ids(self.spec_chunks(), Seq::<u64>::empty()),
                ).len() as int,
            ),
            forall|i: int, j: int|
                0 <= i < j < r@.len() ==> (#[trigger] r@[i]).chunk_id != (#[trigger] r@[
                    j
                ]).chunk_id,
            forall|id: u64|
                #[trigger] lexical_candidates(self.spec_chunks(), query@, spec_cap(limit)).contains(
                    id,
                ) && !result_covers(r@, id) ==> cut_after(
                    r@,
                    limit as int,
                    crate::search::hit_of(
                        lexical_candidates(self.spec_chunks(), query@, spec_cap(limit)),
                        known_ids(self.spec_chunks(), Seq::<u64>::empty()),
                        id,
                    ),
                ),
            search_post(self.spec_chunks(), query@, Seq::<u64>::empty(), limit as int, r@),
    {
        let empty: Vec<u64> = Vec::new();
        proof {
            assert(empty@ =~= Seq::<u64>::empty());
        }
        let r = self.search_hybrid(query, &empty, limit);
        r
    }
}

/// The lexical candidate cap for a result limit: four times the limit,
/// saturated to the fusion bound.
pub open spec fn spec_cap(limit: usize) -> int {
    let raw = if limit > usize::MAX / 4 {
        usize::MAX as int
    } else {
        4 * limit
    };
    if raw > 0xffff_ffff {
        0xffff_ffff
    } else {
        raw
    }
}


impl Workspace {
    /// The chunks of one document, in store order.
    pub fn chunks_for(&self, doc_id: u64) -> (r: Vec<MemoryChunk>)
        ensures
            r@.len() == chunks_of(self.spec_chunks(), doc_id).len(),
            forall|j: int|
                0 <= j < r@.len() ==> (#[trigger] r@[j]).chunk_index == chunks_of(
                    self.spec_chunks(),
                    doc_id,
                )[j].chunk_index && r@[j].content@ == chunks_of(
                    self.spec_chunks(),
                    doc_id,
                )[j].content@ && r@[j].id == chunks_of(self.spec_chunks(), doc_id)[j].id && r@[
                    j
                ].document_id == doc_id,
    {
        let mut r: Vec<MemoryChunk> = Vec::new();
        let mut i: usize = 0;
        proof {
            assert(self.spec_chunks().take(0) =~= Seq::<MemoryChunk>::empty());
        }
        while i < self.chunks.len()
            invariant
                i <= self.chunks@.len(),
                r@.len() == chunks_of(self.spec_chunks().take(i as int), doc_id).len(),
                forall|j: int|
                    0 <= j < r@.len() ==> (#[trigger] r@[j]).chunk_index == chunks_of(
                        self.spec_chunks().take(i as int),
                        doc_id,
                    )[j].chunk_index && r@[j].content@ == chunks_of(
                        self.spec_chunks().take(i as int),
                        doc_id,
                    )[j].content@ && r@[j].id == chunks_of(
                        self.spec_chunks().take(i as int),
                        doc_id,
                    )[j].id && r@[j].document_id == doc_id,
            decreases self.chunks@.len() - i,
        {
            proof {
                assert(self.spec_chunks().take(i as int + 1).drop_last() =~= self.spec_chunks().take(
                    i as int,
                ));
                assert(self.spec_chunks().take(i as int + 1).last() == self.spec_chunks()[
                    i as int
                ]);
            }
            if self.chunks[i].document_id == doc_id {
                r.push(clone_chunk(&self.chunks[i]));
            }
            i = i + 1;
        }
        proof {
            assert(self.spec_chunks().take(self.spec_chunks().len() as int)
                =~= self.spec_chunks());
        }
        r
    }
}


/// The ids of the first `cap` chunks without an embedding, in store order.
pub open spec fn missing_embedding_ids(chunks: Seq<MemoryChunk>, cap: int) -> Seq<u64>
    decreases chunks.len(),
{
    if chunks.len() == 0 {
        Seq::empty()
    } else {
        let front = missing_embedding_ids(chunks.drop_last(), cap);
        if front.len() < cap && chunks.last().embedding is None {
            front.push(chunks.last().id)
        } else {
            front
        }
    }
}

/// Whether the store holds a chunk with the id.
pub open spec fn id_present(chunks: Seq<MemoryChunk>, id: u64) -> bool {
    exists|c: int| 0 <= c < chunks.len() && (#[trigger] chunks[c]).id == id
}

/// The first index of the chunk with the id, or the length when absent.
pub open spec fn first_chunk_index(chunks: Seq<MemoryChunk>, id: u64) -> int
    decreases chunks.len(),
{
    if chunks.len() == 0 {
        0
    } else if chunks[0].id == id {
        0
    } else {
        1 + first_chunk_index(chunks.skip(1), id)
    }
}

/// When no chunk before `i` has the id and the chunk at `i`, if any, does,
/// the first index is `i`.
pub proof fn lemma_first_chunk_char(chunks: Seq<MemoryChunk>, id: u64, i: int)
    requires
        0 <= i <= chunks.len(),
        forall|j: int| 0 <= j < i ==> (#[trigger] chunks[j]).id != id,
        i < chunks.len() ==> chunks[i].id == id,
    ensures
        first_chunk_index(chunks, id) == i,
        i < chunks.len() ==> id_present(chunks, id),
        i == chunks.len() ==> !id_present(chunks, id),
    decreases chunks.len(),
{
    if i == 0 {
    } else {
        assert forall|j: int| 0 <= j < i - 1 implies (#[trigger] chunks.skip(1)[j]).id != id by {
            assert(chunks.skip(1)[j] == chunks[j + 1]);
        }
        if i - 1 < chunks.skip(1).len() {
            assert(chunks.skip(1)[i - 1] == chunks[i]);
        }
        lemma_first_chunk_char(chunks.skip(1), id, i - 1);
        if i == chunks.len() {
            if id_present(chunks, id) {
                let w = choose|w: int| 0 <= w < chunks.len() && (#[trigger] chunks[w]).id == id;
                assert(false);
            }
        }
    }
}

/// A chunk with its embedding handle set.
pub open spec fn with_handle(c: MemoryChunk, handle: u64) -> MemoryChunk {
    MemoryChunk { embedding: Some(handle), ..c }
}

/// The chunk list after attaching the assigned handles in order: each
/// assignment whose id the store holds sets that chunk's embedding, the
/// rest change nothing.
pub open spec fn apply_assignments(
    chunks: Seq<MemoryChunk>,
    asg: Seq<(u64, u64)>,
) -> Seq<MemoryChunk>
    decreases asg.len(),
{
    if asg.len() == 0 {
        chunks
    } else {
        let rest = apply_assignments(chunks, asg.drop_last());
        let id = asg.last().0;
        let handle = asg.last().1;
        if id_present(rest, id) {
            rest.update(
                first_chunk_index(rest, id),
                with_handle(rest[first_chunk_index(rest, id)], handle),
            )
        } else {
            rest
        }
    }
}

/// The number of assignments whose id the store holds at the time each is
/// applied.
pub open spec fn count_found(chunks: Seq<MemoryChunk>, asg: Seq<(u64, u64)>) -> int
    decreases asg.len(),
{
    if asg.len() == 0 {
        0
    } else {
        count_found(chunks, asg.drop_last()) + (if id_present(
            apply_assignments(chunks, asg.drop_last()),
            asg.last().0,
        ) {
            1int
        } else {
            0int
        })
    }
}

/// Replacing one chunk with another that keeps its identifier, document and
/// position leaves every document's chunk list the same in those fields,
/// with only the replaced chunk's remaining fields changed.
proof fn lemma_chunks_of_update(s: Seq<MemoryChunk>, i: int, c2: MemoryChunk, d: u64)
    requires
        0 <= i < s.len(),
        c2.document_id == s[i].document_id,
        c2.chunk_index == s[i].chunk_index,
        c2.id == s[i].id,
    ensures
        chunks_of(s.update(i, c2), d).len() == chunks_of(s, d).len(),
        forall|j: int|
            0 <= j < chunks_of(s, d).len() ==> (#[trigger] chunks_of(s.update(i, c2), d)[
                j
            ]).chunk_index == chunks_of(s, d)[j].chunk_index && chunks_of(s.update(i, c2), d)[
                j
            ].document_id == chunks_of(s, d)[j].document_id && chunks_of(s.update(i, c2), d)[
                j
            ].id == chunks_of(s, d)[j].id,
    decreases s.len(),
{
    let s2 = s.update(i, c2);
    if i == s.len() - 1 {
        assert(s2.drop_last() =~= s.drop_last());
        assert(s2.last() == c2);
        if c2.document_id == d {
            assert(chunks_of(s2, d) == chunks_of(s.drop_last(), d).push(c2));
            assert(chunks_of(s, d) == chunks_of(s.drop_last(), d).push(s.last()));
        }
    } else {
        assert(s2.drop_last() =~= s.drop_last().update(i, c2));
        assert(s2.last() == s.last());
        lemma_chunks_of_update(s.drop_last(), i, c2, d);
    }
}

impl Workspace {
    /// The ids of stored chunks that lack an embedding, in store order,
    /// capped at `limit`.
    pub fn chunks_missing_embeddings(&self, limit: usize) -> (r: Vec<u64>)
        ensures
            r@ == missing_embedding_ids(self.spec_chunks(), limit as int),
    {
        let mut r: Vec<u64> = Vec::new();
        let mut i: usize = 0;
        proof {
            assert(self.spec_chunks().take(0) =~= Seq::<MemoryChunk>::empty());
        }
        while i < self.chunks.len()
            invariant
                i <= self.chunks@.len(),
                r@.len() <= limit,
                r@ == missing_embedding_ids(self.spec_chunks().take(i as int), limit as int),
            decreases self.chunks@.len() - i,
        {
            proof {
                assert(self.spec_chunks().take(i as int + 1).drop_last() =~= self.spec_chunks().take(
                    i as int,
                ));
                assert(self.spec_chunks().take(i as int + 1).last() == self.spec_chunks()[
                    i as int
                ]);
            }
            if r.len() < limit {
                match self.chunks[i].embedding {
                    None => {
                        r.push(self.chunks[i].id);
                    },
                    Some(_) => {},
                }
            }
            i = i + 1;
        }
        proof {
            assert(self.spec_chunks().take(self.spec_chunks().len() as int)
                =~= self.spec_chunks());
        }
        r
    }

    /// Attach an embedding handle to a stored chunk. Returns whether a
    /// chunk with the id was found.
    pub fn set_chunk_embedding(&mut self, chunk_id: u64, handle: u64) -> (r: bool)
        requires
            old(self).wf(),
        ensures
            final(self).wf(),
            final(self).spec_docs() == old(self).spec_docs(),
            final(self).spec_chunks().len() == old(self).spec_chunks().len(),
            r == id_present(old(self).spec_chunks(), chunk_id),
            r ==> final(self).spec_chunks() == old(self).spec_chunks().update(
                first_chunk_index(old(self).spec_chunks(), chunk_id),
                with_handle(
                    old(self).spec_chunks()[first_chunk_index(old(self).spec_chunks(), chunk_id)],
                    handle,
                ),
            ),
            !r ==> final(self).spec_chunks() == old(self).spec_chunks(),
    {
        let mut i: usize = 0;
        while i < self.chunks.len()
            invariant
                i <= self.chunks@.len(),
                self.wf(),
                *self == *old(self),
                forall|j: int| 0 <= j < i ==> (#[trigger] self.spec_chunks()[j]).id != chunk_id,
            decreases self.chunks@.len() - i,
        {
            if self.chunks[i].id == chunk_id {
                let c = &self.chunks[i];
                let updated = MemoryChunk {
                    id: c.id,
                    document_id: c.document_id,
                    chunk_index: c.chunk_index,
                    content: c.content.clone(),
                    embedding: Some(handle),
                    created_at: c.created_at,
                };
                let ghost prev = self.chunks@;
                let ghost gi = i as int;
                let ghost gup = updated;
                self.chunks[i] = updated;
                proof {
                    lemma_first_chunk_char(prev, chunk_id, gi);
                    assert(self.chunks@ == prev.update(gi, gup));
                    assert(gup == with_handle(prev[gi], handle));
                    assert forall|d: u64, j: int|
                        0 <= j < chunks_of(self.chunks@, d).len() implies (#[trigger] chunks_of(
                        self.chunks@,
                        d,
                    )[j]).chunk_index == j by {
                        lemma_chunks_of_update(prev, gi, gup, d);
                    }
                }
                return true;
            }
            i = i + 1;
        }
        proof {
            lemma_first_chunk_char(self.spec_chunks(), chunk_id, self.spec_chunks().len() as int);
        }
        false
    }

    /// Attach embedding handles to chunks in bulk, as an embedding backfill
    /// delivers them: each assignment whose chunk id the store holds sets
    /// that chunk's embedding handle, in order; unknown ids are skipped.
    /// The result counts the chunks that were found and updated.
    pub fn backfill_embeddings(&mut self, assignments: &Vec<(u64, u64)>) -> (count: usize)
        requires
            old(self).wf(),
        ensures
            final(self).wf(),
            final(self).spec_docs() == old(self).spec_docs(),
            final(self).spec_chunks() == apply_assignments(
                old(self).spec_chunks(),
                assignments@,
            ),
            count == count_found(old(self).spec_chunks(), assignments@),
            count <= assignments@.len(),
    {
        let mut count: usize = 0;
        let mut i: usize = 0;
        proof {
            assert(assignments@.take(0) =~= Seq::<(u64, u64)>::empty());
        }
        while i < assignments.len()
            invariant
                i <= assignments@.len(),
                count <= i,
                self.wf(),
                self.spec_docs() == old(self).spec_docs(),
                self.spec_chunks() == apply_assignments(
                    old(self).spec_chunks(),
                    assignments@.take(i as int),
                ),
                count as int == count_found(old(self).spec_chunks(), assignments@.take(i as int)),
            decreases assignments@.len() - i,
        {
            proof {
                assert(assignments@.take(i as int + 1).drop_last() =~= assignments@.take(
                    i as int,
                ));
                assert(assignments@.take(i as int + 1).last() == assignments@[i as int]);
            }
            if self.set_chunk_embedding(assignments[i].0, assignments[i].1) {
                count = count + 1;
            }
            i = i + 1;
        }
        proof {
            assert(assignments@.take(assignments@.len() as int) =~= assignments@);
        }
        count
    }
}

} // verus!
