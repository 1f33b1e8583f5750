//! The failure taxonomy of the manager core. Every fallible function of the
//! library says in its contract exactly which of these it returns, and when.

use vstd::prelude::*;
use crate::templates::TemplateType;

verus! {

/// What can go wrong inside the decision core. Environment failures (a home
/// directory that cannot be resolved, file input/output) stay with the
/// callers that touch the environment.
#[derive(Debug, Clone, PartialEq)]
pub enum ManagerError {
    /// No supported window manager could be detected from the signals given.
    NoSupportedWindowManager,
    /// A window-manager listing held no monitor line at all.
    NoMonitorsDetected,
    /// The comment-stripped template text is not a valid array of documents;
    /// carries a diagnostic excerpt of the cleaned content.
    TemplateParseError(String),
    /// The template file parsed to an empty array of documents.
    NoTemplatesFound,
    /// A monitor was assigned a variant that no loaded template carries.
    TemplateVariantMissing(TemplateType),
}

} // verus!
