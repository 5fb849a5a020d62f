//! Errors of workspace operations and of the memory tools.
use vstd::prelude::*;

use crate::config::strings_view;
use crate::prompt::{join_spec, join_strings};
use crate::text::cat_str;

verus! {

/// Why a workspace operation failed.
#[derive(Debug)]
pub enum WorkspaceError {
    /// No document at the path in the scope.
    DocumentNotFound { doc_type: String, user_id: String },
    /// A patch could not be applied.
    PatchFailed { path: String, reason: String },
    /// No memory layer has the name.
    LayerNotFound { name: String },
    /// The memory layer does not accept writes.
    LayerReadOnly { name: String },
    /// Sensitive content could not be moved to a writable private layer.
    PrivacyRedirectFailed,
    /// The content of a system-prompt file carries a prompt injection.
    InjectionRejected { path: String, reason: String },
    /// The content does not satisfy the JSON Schema of the document's
    /// metadata; `errors` says why, one entry per violation.
    SchemaValidation { path: String, errors: Vec<String> },
}

/// Why a memory tool call failed.
#[derive(Debug)]
pub enum ToolError {
    /// The parameters are not acceptable.
    InvalidParameters(String),
    /// The call is not allowed.
    NotAuthorized(String),
    /// The call was valid but its work failed.
    ExecutionFailed(String),
}

/// The description of a workspace error.
pub open spec fn error_message(e: WorkspaceError) -> Seq<char> {
    match e {
        WorkspaceError::DocumentNotFound { doc_type, user_id } => "Document not found: "@ + doc_type@
            + " for user "@ + user_id@,
        WorkspaceError::PatchFailed { path, reason } => "Patch failed for "@ + path@ + ": "@
            + reason@,
        WorkspaceError::LayerNotFound { name } => "Memory layer not found: "@ + name@,
        WorkspaceError::LayerReadOnly { name } => "Memory layer is read-only: "@ + name@,
        WorkspaceError::PrivacyRedirectFailed => "Privacy redirect failed: no writable private layer"@,
        WorkspaceError::InjectionRejected { path, reason } => "Prompt injection rejected for "@
            + path@ + ": "@ + reason@,
        WorkspaceError::SchemaValidation { path, errors } => "Schema validation failed for "@
            + path@ + ": "@ + join_spec(strings_view(errors@), "; "@),
    }
}

impl WorkspaceError {
    /// A human-readable description of the error.
    pub fn message(&self) -> (m: String)
        ensures
            m@ == error_message(*self),
    {
        match self {
            WorkspaceError::DocumentNotFound { doc_type, user_id } => {
                let a = cat_str("Document not found: ", doc_type.as_str());
                let b = cat_str(a.as_str(), " for user ");
                cat_str(b.as_str(), user_id.as_str())
            },
            WorkspaceError::PatchFailed { path, reason } => {
                let a = cat_str("Patch failed for ", path.as_str());
                let b = cat_str(a.as_str(), ": ");
                cat_str(b.as_str(), reason.as_str())
            },
            WorkspaceError::LayerNotFound { name } => cat_str("Memory layer not found: ", name.as_str()),
            WorkspaceError::LayerReadOnly { name } => cat_str("Memory layer is read-only: ", name.as_str()),
            WorkspaceError::PrivacyRedirectFailed => String::from_str(
                "Privacy redirect failed: no writable private layer",
            ),
            WorkspaceError::InjectionRejected { path, reason } => {
                let a = cat_str("Prompt injection rejected for ", path.as_str());
                let b = cat_str(a.as_str(), ": ");
                cat_str(b.as_str(), reason.as_str())
            },
            WorkspaceError::SchemaValidation { path, errors } => {
                let a = cat_str("Schema validation failed for ", path.as_str());
                let b = cat_str(a.as_str(), ": ");
                let c = join_strings(errors.as_slice(), "; ");
                cat_str(b.as_str(), c.as_str())
            },
        }
    }
}

/// Map a workspace write error to a tool error: an injection rejection is
/// `NotAuthorized`, so the model gets a clear signal to stop; any other
/// error is `ExecutionFailed`.
pub fn map_write_err(e: WorkspaceError) -> (t: ToolError)
    ensures
        match e {
            WorkspaceError::InjectionRejected { path, reason } => t matches ToolError::NotAuthorized(
                m,
            ) && m@ == "content rejected for '"@ + path@ + "': prompt injection detected ("@
                + reason@ + ")"@,
            _ => t matches ToolError::ExecutionFailed(m) && m@ == "Write failed: "@ + error_message(e),
        },
{
    match e {
        WorkspaceError::InjectionRejected { path, reason } => {
            let a = cat_str("content rejected for '", path.as_str());
            let b = cat_str(a.as_str(), "': prompt injection detected (");
            let c = cat_str(b.as_str(), reason.as_str());
            let m = cat_str(c.as_str(), ")");
            proof {
                assert(m@ =~= "content rejected for '"@ + path@ + "': prompt injection detected ("@
                    + reason@ + ")"@);
            }
            ToolError::NotAuthorized(m)
        },
        other => {
            let d = other.message();
            let m = cat_str("Write failed: ", d.as_str());
            ToolError::ExecutionFailed(m)
        },
    }
}

/// The verdict of schema validation on content written to `path`, given
/// the violations the document's JSON Schema validator reported: the content
/// is rejected exactly when there is at least one, with all of them.
pub fn schema_verdict(path: &str, errors: Vec<String>) -> (r: Result<(), WorkspaceError>)
    ensures
        r is Ok <==> errors@.len() == 0,
        r matches Err(e) ==> e matches WorkspaceError::SchemaValidation { path: p, errors: es } && p@
            == path@ && es@ == errors@,
{
    if errors.len() == 0 {
        Ok(())
    } else {
        Err(WorkspaceError::SchemaValidation { path: String::from_str(path), errors })
    }
}

} // verus!
