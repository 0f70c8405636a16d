//! Error taxonomy of the runtime core.

use vstd::prelude::*;

verus! {

/// Errors from the workspace memory subsystem.
#[derive(Debug, Clone)]
pub enum WorkspaceError {
    /// No document matches the requested key.
    DocumentNotFound { doc_type: String, title: Option<String> },
    /// The given document type string names no document type.
    InvalidDocType { doc_type: String },
    /// The embedding provider failed.
    EmbeddingFailed { reason: String },
    /// The backing store failed.
    Storage { reason: String },
}

/// Errors from tool dispatch.
#[derive(Debug, Clone)]
pub enum ToolError {
    /// No tool of the requested name is registered.
    NotFound { name: String },
    /// The parameters do not match the tool's schema.
    InvalidParameters { reason: String },
    /// The user denied the approval request.
    Denied { name: String },
    /// The tool did not finish within its deadline, in milliseconds.
    Timeout { deadline_ms: u64 },
    /// The tool ran and failed.
    ExecutionFailed { reason: String },
    /// A remote service the tool depends on failed.
    ExternalService { reason: String },
    /// The call was cancelled by an interrupt.
    Cancelled,
}

/// Errors from hook chain execution.
#[derive(Debug, Clone)]
pub enum HookError {
    /// A hook rejected the event.
    Rejected { reason: String },
    /// A fail-closed hook failed.
    HookFailed { name: String, reason: String },
    /// A fail-closed hook timed out.
    Timeout { name: String },
}

/// Errors from the LLM provider.
#[derive(Debug, Clone)]
pub enum LlmError {
    /// The provider's response could not be decoded.
    InvalidResponse { provider: String, reason: String },
    /// The provider did not answer in time.
    Timeout { provider: String },
    /// The provider rate-limited the request.
    RateLimited { provider: String },
    /// The provider reported an error.
    ProviderError { provider: String, reason: String },
}

/// Errors while parsing or compiling declarative hook bundles.
#[derive(Debug, Clone)]
pub enum HookBundleError {
    /// The bundle is neither an object with rule and webhook lists nor an
    /// array of rules.
    InvalidFormat { reason: String },
    /// A hook declares no hook point.
    MissingHookPoints { hook: String },
    /// A rule carries a pattern that is not a valid regular expression.
    InvalidRegex { hook: String, pattern: String },
    /// A timeout is zero or above the maximum.
    InvalidTimeout { hook: String, max_ms: u64 },
    /// A webhook carries a string that is not a valid absolute URL.
    InvalidWebhookUrl { hook: String, url: String },
}

} // verus!
