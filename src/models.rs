//! The records and summaries this library works on.

use vstd::prelude::*;

verus! {

/// One stored audit: a submitted snippet and the verdict of its compile check.
/// `id` is the identifier's 128-bit value; `created_at` counts microseconds
/// since the Unix epoch, in UTC.
#[derive(Clone, Debug, PartialEq, Eq)]
pub struct AiAudit {
    pub id: u128,
    pub prompt: String,
    pub codigo_generado: String,
    pub es_valido: bool,
    pub error_compilacion: Option<String>,
    pub created_at: i64,
}

impl AiAudit {
    /// A record carries a diagnostic exactly when its snippet was rejected.
    pub open spec fn wf(&self) -> bool {
        self.es_valido == (self.error_compilacion is None)
    }
}

/// What a caller submits for auditing.
#[derive(Clone, Debug, PartialEq, Eq)]
pub struct CreateAuditRequest {
    pub prompt: String,
    pub codigo_generado: String,
}

/// A record as it is handed to the store, before the store assigns its
/// identifier and timestamp.
#[derive(Clone, Debug, PartialEq, Eq)]
pub struct NewAudit {
    pub prompt: String,
    pub codigo_generado: String,
    pub es_valido: bool,
    pub error_compilacion: Option<String>,
}

impl NewAudit {
    /// A row carries a diagnostic exactly when its snippet was rejected.
    pub open spec fn wf(&self) -> bool {
        self.es_valido == (self.error_compilacion is None)
    }
}

/// One bucket of recurring diagnostics: the shared leading text and how many
/// records fall in it.
#[derive(Clone, Debug, PartialEq, Eq)]
pub struct CommonError {
    pub error_message: String,
    pub frequency: u64,
}

/// Summary over all stored records.
#[derive(Clone, Debug, PartialEq, Eq)]
pub struct AuditStats {
    pub total_audits: u64,
    pub valid_audits: u64,
    pub invalid_audits: u64,
    pub common_errors: Vec<CommonError>,
}

} // verus!
