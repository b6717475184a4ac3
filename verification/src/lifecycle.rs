//! The lifecycle of one record: how it is created, what each transition
//! requires of its flags, and what each transition changes.

use crate::error::InvoiceError;
use crate::guard::{evaluate, violation, Flags, Skips};
use crate::notice::Notification;
use crate::record::{contains_text, Invoice, InvoiceView, Track, TrackView};
use crate::text::is_blank;
use vstd::prelude::*;

verus! {

/// A lifecycle transition, as contracts speak of it.
pub enum Step {
    Acknowledge,
    MarkPaid,
    Reject,
    Void,
    /// Financing under a reference that the record does not carry yet.
    Finance { reference: Seq<char> },
    ConfirmPayment,
}

/// A lifecycle transition.
#[derive(Debug)]
pub enum Transition {
    Acknowledge,
    MarkPaid,
    Reject,
    Void,
    /// Financing under a reference that the record does not carry yet.
    Finance { reference: String },
    ConfirmPayment,
}

impl View for Transition {
    type V = Step;

    open spec fn view(&self) -> Step {
        match self {
            Transition::Acknowledge => Step::Acknowledge,
            Transition::MarkPaid => Step::MarkPaid,
            Transition::Reject => Step::Reject,
            Transition::Void => Step::Void,
            Transition::Finance { reference } => Step::Finance { reference: reference@ },
            Transition::ConfirmPayment => Step::ConfirmPayment,
        }
    }
}

impl Step {
    /// The flags that the transition expects of the record.
    ///
    /// Acknowledgement expects a record with no flag set. Payment, rejection,
    /// voiding and financing expect an acknowledged record with no other flag
    /// set. Confirmation expects a paid record that is neither rejected, voided
    /// nor confirmed.
    pub open spec fn expected(self) -> Flags {
        match self {
            Step::Acknowledge => Flags::none(),
            Step::MarkPaid | Step::Reject | Step::Void | Step::Finance { .. } => Flags {
                acknowledged: true,
                ..Flags::none()
            },
            Step::ConfirmPayment => Flags {
                acknowledged: true,
                financed: true,
                paid: true,
                ..Flags::none()
            },
        }
    }

    /// The comparisons that the transition leaves out: financing does not
    /// look at `financed`, so that it can be repeated; confirmation looks
    /// neither at `acknowledged` nor at `financed`.
    pub open spec fn skips(self) -> Skips {
        match self {
            Step::Finance { .. } => Skips { financed: true, ..Skips::none() },
            Step::ConfirmPayment => Skips { acknowledged: true, financed: true, paid: false },
            _ => Skips::none(),
        }
    }

    /// The text inputs that belong to the transition itself are filled in.
    pub open spec fn has_inputs(self) -> bool {
        match self {
            Step::Finance { reference } => reference.len() > 0,
            _ => true,
        }
    }

    /// The tag under which the transition is announced.
    pub open spec fn notification(self) -> Notification {
        match self {
            Step::Acknowledge => Notification::Acknowledged,
            Step::MarkPaid => Notification::Paid,
            Step::Reject => Notification::Rejected,
            Step::Void => Notification::Voided,
            Step::Finance { .. } => Notification::Financed,
            Step::ConfirmPayment => Notification::PaymentConfirmed,
        }
    }
}

impl Transition {
    /// The flags that the transition expects of the record.
    pub fn expected(&self) -> (r: Flags)
        ensures
            r == self@.expected(),
    {
        let unset = Flags {
            acknowledged: false,
            financed: false,
            paid: false,
            rejected: false,
            voided: false,
            payment_confirmed: false,
        };
        match self {
            Transition::Acknowledge => unset,
            Transition::ConfirmPayment => Flags {
                acknowledged: true,
                financed: true,
                paid: true,
                ..unset
            },
            _ => Flags { acknowledged: true, ..unset },
        }
    }

    /// The comparisons that the transition leaves out.
    pub fn skips(&self) -> (r: Skips)
        ensures
            r == self@.skips(),
    {
        match self {
            Transition::Finance { .. } => Skips { acknowledged: false, financed: true, paid: false },
            Transition::ConfirmPayment => Skips { acknowledged: true, financed: true, paid: false },
            _ => Skips { acknowledged: false, financed: false, paid: false },
        }
    }

    /// Whether the text inputs that belong to the transition itself are
    /// filled in.
    pub fn has_inputs(&self) -> (r: bool)
        ensures
            r == self@.has_inputs(),
    {
        match self {
            Transition::Finance { reference } => !is_blank(reference),
            _ => true,
        }
    }

    /// The tag under which the transition is announced.
    pub fn notification(&self) -> (r: Notification)
        ensures
            r == self@.notification(),
    {
        match self {
            Transition::Acknowledge => Notification::Acknowledged,
            Transition::MarkPaid => Notification::Paid,
            Transition::Reject => Notification::Rejected,
            Transition::Void => Notification::Voided,
            Transition::Finance { .. } => Notification::Financed,
            Transition::ConfirmPayment => Notification::PaymentConfirmed,
        }
    }
}

impl InvoiceView {
    /// The record that creation stores for `input` at time `now`: the
    /// identifying, counterparty and financial fields of `input`, its action
    /// and transaction hash; no flag set, no financing reference, no previous
    /// hash, empty tracking metadata.
    pub open spec fn fresh(input: InvoiceView, now: u64) -> InvoiceView {
        InvoiceView {
            record_type: "Invoice"@,
            acknowledged: false,
            financed: false,
            financing_references: Seq::empty(),
            paid: false,
            rejected: false,
            voided: false,
            sent_copy_deleted: false,
            received_copy_deleted: false,
            last_modified_at: now,
            previous_txn_hash: Seq::empty(),
            deleted_comments: Seq::empty(),
            payment_confirmed: false,
            tracking: TrackView::blank(),
            ..input
        }
    }

    /// The record with a new last action: the transaction hash moves to the
    /// previous hash, and the time is refreshed.
    pub open spec fn stamped(self, action: Seq<char>, txn_hash: Seq<char>, now: u64) -> InvoiceView {
        InvoiceView {
            action: action,
            previous_txn_hash: self.last_txn_hash,
            last_txn_hash: txn_hash,
            last_modified_at: now,
            ..self
        }
    }

    /// Why the record refuses a transition: the guard's verdict on its flags,
    /// or, for a financing that the guard lets pass, that the reference is
    /// already recorded. `None` if the record accepts the transition.
    pub open spec fn refusal(self, step: Step) -> Option<InvoiceError> {
        match violation(self.flags(), step.expected(), step.skips()) {
            Some(e) => Some(e),
            None => match step {
                Step::Finance { reference } => if self.financing_references.contains(reference) {
                    Some(InvoiceError::AlreadyFinanced)
                } else {
                    None
                },
                _ => None,
            },
        }
    }

    /// The record after a transition that it accepted.
    pub open spec fn after(
        self,
        step: Step,
        action: Seq<char>,
        txn_hash: Seq<char>,
        now: u64,
    ) -> InvoiceView {
        let next = self.stamped(action, txn_hash, now);
        match step {
            Step::Acknowledge => InvoiceView { acknowledged: true, ..next },
            Step::MarkPaid => InvoiceView { paid: true, acknowledged: true, ..next },
            Step::Reject => InvoiceView { rejected: true, ..next },
            Step::Void => InvoiceView { voided: true, ..next },
            Step::Finance { reference } => InvoiceView {
                financed: true,
                financing_references: next.financing_references.push(reference),
                ..next
            },
            Step::ConfirmPayment => InvoiceView { paid: true, payment_confirmed: true, ..next },
        }
    }

    /// The record with its tracking metadata replaced, and nothing else
    /// changed.
    pub open spec fn with_tracking(self, tracking: TrackView) -> InvoiceView {
        InvoiceView { tracking: tracking, ..self }
    }
}

/// A created record has no flag set and is one that the lifecycle can
/// produce.
pub proof fn lemma_fresh_is_consistent(input: InvoiceView, now: u64)
    requires
        input.record_id.len() > 0,
    ensures
        InvoiceView::fresh(input, now).is_fresh(),
        InvoiceView::fresh(input, now).consistent(),
        InvoiceView::fresh(input, now).record_id == input.record_id,
{
}

/// An accepted transition leads from one record that the lifecycle can
/// produce to another, under the same identifier.
pub proof fn lemma_after_is_consistent(
    rec: InvoiceView,
    step: Step,
    action: Seq<char>,
    txn_hash: Seq<char>,
    now: u64,
)
    requires
        rec.consistent(),
        rec.refusal(step) is None,
    ensures
        rec.after(step, action, txn_hash, now).consistent(),
        rec.after(step, action, txn_hash, now).record_id == rec.record_id,
{
    match step {
        Step::Finance { reference } => {
            let refs = rec.financing_references;
            assert forall|i: int, j: int|
                0 <= i < refs.push(reference).len() && 0 <= j < refs.push(reference).len() && i
                    != j implies refs.push(reference)[i] != refs.push(reference)[j] by {
                if i < refs.len() {
                    assert(refs.contains(refs[i]));
                }
                if j < refs.len() {
                    assert(refs.contains(refs[j]));
                }
            }
        },
        _ => {},
    }
}

/// Replacing the tracking metadata leaves a record that the lifecycle can
/// produce, with the same flags.
pub proof fn lemma_with_tracking_is_consistent(rec: InvoiceView, tracking: TrackView)
    requires
        rec.consistent(),
    ensures
        rec.with_tracking(tracking).consistent(),
        rec.with_tracking(tracking).record_id == rec.record_id,
        rec.with_tracking(tracking).flags() == rec.flags(),
{
}

impl Invoice {
    /// Makes the record that creation stores for `input` at time `now`.
    pub fn fresh(input: Invoice, now: u64) -> (r: Invoice)
        ensures
            r@ == InvoiceView::fresh(input@, now),
    {
        let kind = "Invoice";
        let r = Invoice {
            record_type: kind.to_owned(),
            vendor_id: input.vendor_id,
            record_id: input.record_id,
            creation_date: input.creation_date,
            vendor_email: input.vendor_email,
            action: input.action,
            acknowledged: false,
            financed: false,
            financing_references: Vec::new(),
            vendor_email_hash: input.vendor_email_hash,
            vendor_mobile_hash: input.vendor_mobile_hash,
            vendor_mobile: input.vendor_mobile,
            client_fname: input.client_fname,
            client_lname: input.client_lname,
            vendor_name: input.vendor_name,
            client_email: input.client_email,
            client_mobile: input.client_mobile,
            currency: input.currency,
            fund_reception: input.fund_reception,
            lines: input.lines,
            net_amt: input.net_amt,
            paid: false,
            rejected: false,
            voided: false,
            sent_copy_deleted: false,
            received_copy_deleted: false,
            last_modified_at: now,
            previous_txn_hash: String::new(),
            last_txn_hash: input.last_txn_hash,
            due_date: input.due_date,
            deleted_comments: String::new(),
            payment_confirmed: false,
            tracking: Track::blank(),
        };
        assert(r@.financing_references =~= Seq::empty());
        r
    }

    /// Says why the record refuses a transition, if it does: first the guard
    /// on its flags, then, for a financing, a scan of the references that it
    /// carries.
    pub fn refusal(&self, transition: &Transition) -> (r: Option<InvoiceError>)
        ensures
            r == self@.refusal(transition@),
    {
        match evaluate(self.flags(), transition.expected(), transition.skips()) {
            Some(e) => Some(e),
            None => match transition {
                Transition::Finance { reference } => {
                    if contains_text(&self.financing_references, reference) {
                        Some(InvoiceError::AlreadyFinanced)
                    } else {
                        None
                    }
                },
                _ => None,
            },
        }
    }

    /// Carries out a transition on the record: sets the flags that belong to
    /// it, records the action, rotates the transaction hash and refreshes the
    /// time.
    pub fn advance(&mut self, transition: Transition, action: String, txn_hash: String, now: u64)
        ensures
            final(self)@ == old(self)@.after(transition@, action@, txn_hash@, now),
    {
        let ghost before = self@;
        let mut previous = txn_hash;
        std::mem::swap(&mut self.last_txn_hash, &mut previous);
        self.previous_txn_hash = previous;
        self.action = action;
        self.last_modified_at = now;
        match transition {
            Transition::Acknowledge => {
                self.acknowledged = true;
            },
            Transition::MarkPaid => {
                self.paid = true;
                self.acknowledged = true;
            },
            Transition::Reject => {
                self.rejected = true;
            },
            Transition::Void => {
                self.voided = true;
            },
            Transition::Finance { reference } => {
                self.financed = true;
                self.financing_references.push(reference);
                assert(self@.financing_references =~= before.financing_references.push(
                    reference@,
                ));
            },
            Transition::ConfirmPayment => {
                self.paid = true;
                self.payment_confirmed = true;
            },
        }
    }

    /// Replaces the tracking metadata of the record.
    pub fn set_tracking(&mut self, tracking: Track)
        ensures
            final(self)@ == old(self)@.with_tracking(tracking@),
    {
        self.tracking = tracking;
    }
}

} // verus!
