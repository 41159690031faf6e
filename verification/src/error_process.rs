use vstd::prelude::*;

verus! {

/// The error type of the whole pipeline.
///
/// `Message` carries a diagnostic for a document that violates the schema
/// rules (a broken reference, a duplicate name, a node that no shape matcher
/// accepts). `Format` reports a document text that is neither valid JSON nor
/// valid YAML.
#[derive(Debug)]
pub enum ErrorProcess {
    Message(String),
    Format(String),
}

impl ErrorProcess {
    /// Builds the validation-error variant from a diagnostic text.
    pub fn message(message: String) -> (r: ErrorProcess)
        ensures
            r == ErrorProcess::Message(message),
    {
        ErrorProcess::Message(message)
    }

}

} // verus!
