//! The failures a conversion can report.
use vstd::prelude::*;

verus! {

/// A failure of one extraction step.
#[derive(Debug, Clone)]
pub enum InvoiceError {
    /// The input is not well-formed XML.
    Parse(String),
    /// An embedded payload is not valid base64.
    Decode(String),
}

impl InvoiceError {
    /// A human-readable description of the failure.
    pub fn message(&self) -> (r: &String)
        ensures
            match self {
                InvoiceError::Parse(m) => r@ == m@,
                InvoiceError::Decode(m) => r@ == m@,
            },
    {
        match self {
            InvoiceError::Parse(m) => m,
            InvoiceError::Decode(m) => m,
        }
    }
}

} // verus!
