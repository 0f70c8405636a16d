//! Memory document types.

use vstd::prelude::*;

use crate::errors::WorkspaceError;
use crate::json::JsonValue;

verus! {

/// Document type in the workspace.
///
/// Each type is a different kind of persistent memory:
/// - `Memory`: long-term curated facts and decisions
/// - `DailyLog`: append-only daily notes, keyed by date
/// - `Identity`: agent name and personality
/// - `Soul`: core values and behaviour principles
/// - `Agents`: behaviour instructions
/// - `User`: user context
/// - `Heartbeat`: periodic checklist for proactive execution
#[derive(Debug, Clone, Copy, PartialEq, Eq, Structural, Hash)]
pub enum DocType {
    /// Long-term curated memory.
    Memory,
    /// Daily append-only logs.
    DailyLog,
    /// Agent identity.
    Identity,
    /// Core values and principles.
    Soul,
    /// Behaviour instructions.
    Agents,
    /// User context.
    User,
    /// Periodic checklist.
    Heartbeat,
}

impl DocType {
    /// The string name of each document type.
    pub open spec fn spec_str(&self) -> Seq<char> {
        match self {
            DocType::Memory => "memory"@,
            DocType::DailyLog => "daily_log"@,
            DocType::Identity => "identity"@,
            DocType::Soul => "soul"@,
            DocType::Agents => "agents"@,
            DocType::User => "user"@,
            DocType::Heartbeat => "heartbeat"@,
        }
    }

    /// Get the string representation.
    pub fn as_str(&self) -> (r: &'static str)
        ensures
            r@ == self.spec_str(),
    {
        match self {
            DocType::Memory => "memory",
            DocType::DailyLog => "daily_log",
            DocType::Identity => "identity",
            DocType::Soul => "soul",
            DocType::Agents => "agents",
            DocType::User => "user",
            DocType::Heartbeat => "heartbeat",
        }
    }

    /// Whether this document type is a singleton: one document per user and
    /// agent. Every type but the daily log is a singleton.
    pub fn is_singleton(&self) -> (r: bool)
        ensures
            r == !(self is DailyLog),
    {
        match self {
            DocType::DailyLog => false,
            _ => true,
        }
    }

    /// Whether documents of this type compose the system prompt.
    pub open spec fn spec_is_identity_document(&self) -> bool {
        self is Identity || self is Soul || self is Agents || self is User
    }

    /// Whether documents of this type compose the system prompt.
    pub fn is_identity_document(&self) -> (r: bool)
        ensures
            r == self.spec_is_identity_document(),
    {
        match self {
            DocType::Identity | DocType::Soul | DocType::Agents | DocType::User => true,
            _ => false,
        }
    }

    /// Parse a document type from its string name. Returns the type whose
    /// name is `s`, and `InvalidDocType` when no type has that name.
    pub fn try_from(s: &str) -> (r: Result<DocType, WorkspaceError>)
        ensures
            match r {
                Ok(d) => d.spec_str() == s@,
                Err(e) => {
                    &&& e matches WorkspaceError::InvalidDocType { doc_type } && doc_type@ == s@
                    &&& forall|d: DocType| d.spec_str() != s@
                },
            },
    {
        if crate::strutil::str_eq(s, "memory") {
            Ok(DocType::Memory)
        } else if crate::strutil::str_eq(s, "daily_log") {
            Ok(DocType::DailyLog)
        } else if crate::strutil::str_eq(s, "identity") {
            Ok(DocType::Identity)
        } else if crate::strutil::str_eq(s, "soul") {
            Ok(DocType::Soul)
        } else if crate::strutil::str_eq(s, "agents") {
            Ok(DocType::Agents)
        } else if crate::strutil::str_eq(s, "user") {
            Ok(DocType::User)
        } else if crate::strutil::str_eq(s, "heartbeat") {
            Ok(DocType::Heartbeat)
        } else {
            proof {
                assert forall|d: DocType| d.spec_str() != s@ by {
                    match d {
                        DocType::Memory => assert("memory"@ != s@),
                        DocType::DailyLog => assert("daily_log"@ != s@),
                        DocType::Identity => assert("identity"@ != s@),
                        DocType::Soul => assert("soul"@ != s@),
                        DocType::Agents => assert("agents"@ != s@),
                        DocType::User => assert("user"@ != s@),
                        DocType::Heartbeat => assert("heartbeat"@ != s@),
                    }
                }
            }
            Err(WorkspaceError::InvalidDocType { doc_type: s.to_owned() })
        }
    }
}

/// Whether `c` counts as whitespace for word counting and chunking.
pub open spec fn spec_is_space(c: char) -> bool {
    c == ' ' || c == '\n' || c == '\t' || c == '\r'
}

/// Whether `c` counts as whitespace for word counting and chunking.
pub fn is_space(c: char) -> (r: bool)
    ensures
        r == spec_is_space(c),
{
    c == ' ' || c == '\n' || c == '\t' || c == '\r'
}

/// The number of words among the first `n` characters of `s`: a word starts
/// at a non-space character at the start of the text or after a space.
pub open spec fn word_count_upto(s: Seq<char>, n: int) -> int
    decreases n,
{
    if n <= 0 {
        0
    } else {
        word_count_upto(s, n - 1) + if !spec_is_space(s[n - 1]) && (n - 1 == 0 || spec_is_space(
            s[n - 2],
        )) {
            1int
        } else {
            0int
        }
    }
}

/// The number of whitespace-separated words in `s`.
pub open spec fn spec_word_count(s: Seq<char>) -> int {
    word_count_upto(s, s.len() as int)
}

/// A prefix holds no more words than characters.
pub proof fn lemma_word_count_le(s: Seq<char>, n: int)
    requires
        0 <= n <= s.len(),
    ensures
        0 <= word_count_upto(s, n) <= n,
    decreases n,
{
    if n > 0 {
        lemma_word_count_le(s, n - 1);
    }
}

/// A memory document.
#[derive(Debug, Clone)]
pub struct MemoryDocument {
    /// Unique document ID, assigned by the store.
    pub id: u64,
    /// User identifier.
    pub user_id: String,
    /// Optional agent ID for multi-agent isolation.
    pub agent_id: Option<u64>,
    /// Document type.
    pub doc_type: DocType,
    /// Optional title; the date string for daily logs.
    pub title: Option<String>,
    /// Full document content.
    pub content: String,
    /// Creation stamp, in the store's logical clock.
    pub created_at: u64,
    /// Last update stamp, in the store's logical clock.
    pub updated_at: u64,
    /// Flexible metadata.
    pub metadata: JsonValue,
}

impl MemoryDocument {
    /// Create a new, empty document under the given identifier and stamp.
    pub fn new(
        id: u64,
        user_id: String,
        agent_id: Option<u64>,
        doc_type: DocType,
        title: Option<String>,
        now: u64,
    ) -> (r: Self)
        ensures
            r.id == id,
            r.user_id@ == user_id@,
            r.agent_id == agent_id,
            r.doc_type == doc_type,
            match (r.title, title) {
                (Some(a), Some(b)) => a@ == b@,
                (None, None) => true,
                _ => false,
            },
            r.content@ == Seq::<char>::empty(),
            r.created_at == now,
            r.updated_at == now,
            r.metadata@ is Obj && r.metadata@->Obj_0.len() == 0,
    {
        let r = MemoryDocument {
            id,
            user_id,
            agent_id,
            doc_type,
            title,
            content: String::new(),
            created_at: now,
            updated_at: now,
            metadata: JsonValue::Obj(Vec::new()),
        };
        proof {
            assert(r.metadata@->Obj_0 =~= Seq::<(Seq<char>, crate::json::JsonView)>::empty());
        }
        r
    }

    /// Whether the document is empty.
    pub fn is_empty(&self) -> (r: bool)
        ensures
            r == (self.content@.len() == 0),
    {
        self.content.as_str().is_empty()
    }

    /// The number of whitespace-separated words in the content.
    pub fn word_count(&self) -> (r: usize)
        ensures
            r as int == spec_word_count(self.content@),
    {
        let s = self.content.as_str();
        let len = s.unicode_len();
        let mut count: usize = 0;
        let mut i: usize = 0;
        while i < len
            invariant
                i <= len,
                len == s@.len(),
                s@ == self.content@,
                count as int == word_count_upto(s@, i as int),
                count <= i,
            decreases len - i,
        {
            let c = s.get_char(i);
            let starts_word = if is_space(c) {
                false
            } else if i == 0 {
                true
            } else {
                is_space(s.get_char(i - 1))
            };
            if starts_word {
                count = count + 1;
            }
            i = i + 1;
        }
        count
    }
}

/// A chunk of a memory document for search indexing.
#[derive(Debug, Clone)]
pub struct MemoryChunk {
    /// Unique chunk ID, assigned by the store.
    pub id: u64,
    /// Parent document ID.
    pub document_id: u64,
    /// Position in the document, 0-based.
    pub chunk_index: usize,
    /// Chunk text content.
    pub content: String,
    /// Handle of the stored embedding vector, if one was generated.
    pub embedding: Option<u64>,
    /// Creation stamp, in the store's logical clock.
    pub created_at: u64,
}

impl MemoryChunk {
    /// Create a new chunk under the given identifier and stamp.
    pub fn new(id: u64, document_id: u64, chunk_index: usize, content: String, now: u64) -> (r:
        Self)
        ensures
            r.id == id,
            r.document_id == document_id,
            r.chunk_index == chunk_index,
            r.content@ == content@,
            r.embedding is None,
            r.created_at == now,
    {
        MemoryChunk { id, document_id, chunk_index, content, embedding: None, created_at: now }
    }

    /// Set the embedding handle.
    pub fn with_embedding(self, embedding: u64) -> (r: Self)
        ensures
            r == (MemoryChunk { embedding: Some(embedding), ..self }),
    {
        MemoryChunk { embedding: Some(embedding), ..self }
    }
}

} // verus!
