//! The violations an operation can report.

use vstd::prelude::*;

verus! {

/// Why an operation was refused. One violation is reported per call: the
/// first that was detected.
#[derive(Clone, Copy, Debug, PartialEq, Eq, Structural)]
pub enum InvoiceError {
    /// A required text field was empty.
    InvalidInput,
    /// No record (or no history) is stored under the identifier.
    NotFound,
    /// A record is already stored under the identifier.
    AlreadyExists,
    /// The financing reference is already recorded for the record.
    AlreadyFinanced,
    /// `acknowledged` is not what the operation requires.
    AcknowledgementMismatch,
    /// `financed` is not what the operation requires.
    FinanceMismatch,
    /// `paid` is not what the operation requires.
    PaidMismatch,
    /// `rejected` is not what the operation requires.
    RejectedMismatch,
    /// `voided` is not what the operation requires.
    VoidedMismatch,
    /// `payment_confirmed` is not what the operation requires.
    PaymentConfirmationMismatch,
}

impl InvoiceError {
    /// The numeric code under which the violation is reported to callers.
    pub open spec fn spec_code(self) -> u32 {
        match self {
            InvoiceError::InvalidInput => 304,
            InvoiceError::NotFound => 4004,
            InvoiceError::AlreadyExists => 1002,
            InvoiceError::AlreadyFinanced => 1005,
            InvoiceError::AcknowledgementMismatch => 2001,
            InvoiceError::FinanceMismatch => 2002,
            InvoiceError::PaidMismatch => 2003,
            InvoiceError::RejectedMismatch => 2004,
            InvoiceError::VoidedMismatch => 2005,
            InvoiceError::PaymentConfirmationMismatch => 2006,
        }
    }

    /// The numeric code under which the violation is reported to callers.
    #[verifier::when_used_as_spec(spec_code)]
    pub fn code(self) -> (c: u32)
        ensures
            c == self.spec_code(),
    {
        match self {
            InvoiceError::InvalidInput => 304,
            InvoiceError::NotFound => 4004,
            InvoiceError::AlreadyExists => 1002,
            InvoiceError::AlreadyFinanced => 1005,
            InvoiceError::AcknowledgementMismatch => 2001,
            InvoiceError::FinanceMismatch => 2002,
            InvoiceError::PaidMismatch => 2003,
            InvoiceError::RejectedMismatch => 2004,
            InvoiceError::VoidedMismatch => 2005,
            InvoiceError::PaymentConfirmationMismatch => 2006,
        }
    }
}

} // verus!
