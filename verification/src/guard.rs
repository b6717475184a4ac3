//! The transition guard: whether a record's flags allow a requested operation.
//!
//! An operation states the value it expects of each guarded flag, and may ask
//! that the comparison of some flags be skipped. The guard compares in a fixed
//! order and reports the first flag that differs.

use crate::error::InvoiceError;
use crate::record::{Invoice, InvoiceView};
use vstd::prelude::*;

verus! {

/// The six flags that the guard reads: those of a record, or those that an
/// operation expects.
#[derive(Clone, Copy, Debug, PartialEq, Eq, Structural)]
pub struct Flags {
    pub acknowledged: bool,
    pub financed: bool,
    pub paid: bool,
    pub rejected: bool,
    pub voided: bool,
    pub payment_confirmed: bool,
}

/// The comparisons that an operation asks the guard to leave out.
///
/// A request to skip `paid` is accepted and has no effect: `paid` is always
/// compared.
#[derive(Clone, Copy, Debug, PartialEq, Eq, Structural)]
pub struct Skips {
    pub acknowledged: bool,
    pub financed: bool,
    pub paid: bool,
}

/// One comparison of the guard: a flag's value, the value required of it,
/// whether the comparison is enforced, and what is reported if it fails.
#[derive(Clone, Copy, Debug, PartialEq, Eq, Structural)]
pub struct Check {
    pub actual: bool,
    pub required: bool,
    pub enforced: bool,
    pub violation: InvoiceError,
}

impl Check {
    /// The comparison is enforced and the flag is not as required.
    pub open spec fn fails(self) -> bool {
        self.enforced && self.actual != self.required
    }
}

impl Flags {
    /// No flag is set.
    pub open spec fn none() -> Flags {
        Flags {
            acknowledged: false,
            financed: false,
            paid: false,
            rejected: false,
            voided: false,
            payment_confirmed: false,
        }
    }
}

impl Skips {
    /// Every comparison is made.
    pub open spec fn none() -> Skips {
        Skips { acknowledged: false, financed: false, paid: false }
    }
}

impl InvoiceView {
    /// The flags of the record that the guard reads.
    pub open spec fn flags(self) -> Flags {
        Flags {
            acknowledged: self.acknowledged,
            financed: self.financed,
            paid: self.paid,
            rejected: self.rejected,
            voided: self.voided,
            payment_confirmed: self.payment_confirmed,
        }
    }
}

impl Invoice {
    /// The flags of the record that the guard reads.
    pub fn flags(&self) -> (r: Flags)
        ensures
            r == self@.flags(),
    {
        Flags {
            acknowledged: self.acknowledged,
            financed: self.financed,
            paid: self.paid,
            rejected: self.rejected,
            voided: self.voided,
            payment_confirmed: self.payment_confirmed,
        }
    }
}

/// The guard's verdict on flags `actual` for an operation that expects
/// `expected` and skips `skip`: the violation of the first flag, in the order
/// acknowledged, financed, paid, rejected, voided, payment confirmed, whose
/// comparison is made and fails; `None` if there is none.
pub open spec fn violation(actual: Flags, expected: Flags, skip: Skips) -> Option<InvoiceError> {
    if !skip.acknowledged && actual.acknowledged != expected.acknowledged {
        Some(InvoiceError::AcknowledgementMismatch)
    } else if !skip.financed && actual.financed != expected.financed {
        Some(InvoiceError::FinanceMismatch)
    } else if actual.paid != expected.paid {
        Some(InvoiceError::PaidMismatch)
    } else if actual.rejected != expected.rejected {
        Some(InvoiceError::RejectedMismatch)
    } else if actual.voided != expected.voided {
        Some(InvoiceError::VoidedMismatch)
    } else if actual.payment_confirmed != expected.payment_confirmed {
        Some(InvoiceError::PaymentConfirmationMismatch)
    } else {
        None
    }
}

/// The guard's comparisons, in the order in which they are made.
pub open spec fn checklist(actual: Flags, expected: Flags, skip: Skips) -> Seq<Check> {
    seq![
        Check {
            actual: actual.acknowledged,
            required: expected.acknowledged,
            enforced: !skip.acknowledged,
            violation: InvoiceError::AcknowledgementMismatch,
        },
        Check {
            actual: actual.financed,
            required: expected.financed,
            enforced: !skip.financed,
            violation: InvoiceError::FinanceMismatch,
        },
        Check {
            actual: actual.paid,
            required: expected.paid,
            enforced: true,
            violation: InvoiceError::PaidMismatch,
        },
        Check {
            actual: actual.rejected,
            required: expected.rejected,
            enforced: true,
            violation: InvoiceError::RejectedMismatch,
        },
        Check {
            actual: actual.voided,
            required: expected.voided,
            enforced: true,
            violation: InvoiceError::VoidedMismatch,
        },
        Check {
            actual: actual.payment_confirmed,
            required: expected.payment_confirmed,
            enforced: true,
            violation: InvoiceError::PaymentConfirmationMismatch,
        },
    ]
}

/// The verdict is that of the first comparison in the list that fails.
pub proof fn lemma_violation_is_first_failure(actual: Flags, expected: Flags, skip: Skips)
    ensures
        violation(actual, expected, skip) is None <==> forall|i: int|
            0 <= i < 6 ==> !(#[trigger] checklist(actual, expected, skip)[i]).fails(),
        forall|i: int|
            #![trigger checklist(actual, expected, skip)[i]]
            0 <= i < 6 && checklist(actual, expected, skip)[i].fails() && (forall|j: int|
                0 <= j < i ==> !(#[trigger] checklist(actual, expected, skip)[j]).fails())
                ==> violation(actual, expected, skip) == Some(
                checklist(actual, expected, skip)[i].violation,
            ),
{
    let cs = checklist(actual, expected, skip);
    assert(cs.len() == 6);
    if violation(actual, expected, skip) is None {
        assert forall|i: int| 0 <= i < 6 implies !(#[trigger] cs[i]).fails() by {}
    } else {
        assert(cs[0].fails() || cs[1].fails() || cs[2].fails() || cs[3].fails() || cs[4].fails()
            || cs[5].fails());
    }
    assert forall|i: int|
        #![trigger cs[i]]
        0 <= i < 6 && cs[i].fails() && (forall|j: int| 0 <= j < i ==> !(#[trigger] cs[j]).fails())
        implies violation(actual, expected, skip) == Some(cs[i].violation) by {
        if i >= 1 {
            assert(!cs[0].fails());
        }
        if i >= 2 {
            assert(!cs[1].fails());
        }
        if i >= 3 {
            assert(!cs[2].fails());
        }
        if i >= 4 {
            assert(!cs[3].fails());
        }
        if i >= 5 {
            assert(!cs[4].fails());
        }
    }
}

/// Builds the guard's list of comparisons.
fn build_checklist(actual: Flags, expected: Flags, skip: Skips) -> (r: [Check; 6])
    ensures
        r@ == checklist(actual, expected, skip),
{
    let r = [
        Check {
            actual: actual.acknowledged,
            required: expected.acknowledged,
            enforced: !skip.acknowledged,
            violation: InvoiceError::AcknowledgementMismatch,
        },
        Check {
            actual: actual.financed,
            required: expected.financed,
            enforced: !skip.financed,
            violation: InvoiceError::FinanceMismatch,
        },
        Check {
            actual: actual.paid,
            required: expected.paid,
            enforced: true,
            violation: InvoiceError::PaidMismatch,
        },
        Check {
            actual: actual.rejected,
            required: expected.rejected,
            enforced: true,
            violation: InvoiceError::RejectedMismatch,
        },
        Check {
            actual: actual.voided,
            required: expected.voided,
            enforced: true,
            violation: InvoiceError::VoidedMismatch,
        },
        Check {
            actual: actual.payment_confirmed,
            required: expected.payment_confirmed,
            enforced: true,
            violation: InvoiceError::PaymentConfirmationMismatch,
        },
    ];
    assert(r@ =~= checklist(actual, expected, skip));
    r
}

/// Runs the guard on flags: goes through the comparisons in order and
/// reports the first that fails.
pub fn evaluate(actual: Flags, expected: Flags, skip: Skips) -> (r: Option<InvoiceError>)
    ensures
        r == violation(actual, expected, skip),
{
    let checks = build_checklist(actual, expected, skip);
    let mut i: usize = 0;
    while i < 6
        invariant
            i <= 6,
            checks@ == checklist(actual, expected, skip),
            forall|j: int| 0 <= j < i ==> !(#[trigger] checklist(actual, expected, skip)[j]).fails(),
        decreases 6 - i,
    {
        let c = checks[i];
        if c.enforced && c.actual != c.required {
            proof {
                assert(checklist(actual, expected, skip)[i as int].fails());
                lemma_violation_is_first_failure(actual, expected, skip);
            }
            return Some(c.violation);
        }
        i = i + 1;
    }
    proof {
        lemma_violation_is_first_failure(actual, expected, skip);
    }
    None
}

} // verus!
