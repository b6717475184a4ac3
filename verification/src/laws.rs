//! What holds of the operations taken together: of two calls in a row, and of
//! every state that a sequence of operations leads to.
//!
//! The laws are stated over the mathematical state [`LedgerView`] and the
//! functions in which the operations' contracts say what they refuse and what
//! they change.

use crate::contract::Selector;
use crate::error::InvoiceError;
use crate::guard::{violation, Flags, Skips};
use crate::ledger::{key, lemma_listing, lemma_listing_exists, slot, LedgerView};
use crate::lifecycle::{
    lemma_after_is_consistent, lemma_fresh_is_consistent, lemma_with_tracking_is_consistent, Step,
};
use crate::record::{InvoiceView, TrackView};
use vstd::prelude::*;

verus! {

/// A mutating operation together with its inputs.
pub enum Op {
    Create { input: InvoiceView, now: u64 },
    Advance { step: Step, record_id: Seq<char>, action: Seq<char>, txn_hash: Seq<char>, now: u64 },
    UpdateTracking { record_id: Seq<char>, tracking: TrackView },
}

impl Op {
    /// The identifier that the operation names.
    pub open spec fn target(self) -> Seq<char> {
        match self {
            Op::Create { input, .. } => input.record_id,
            Op::Advance { record_id, .. } => record_id,
            Op::UpdateTracking { record_id, .. } => record_id,
        }
    }

    /// Why the operation is refused in state `s`; `None` if it is accepted.
    pub open spec fn refusal(self, s: LedgerView) -> Option<InvoiceError> {
        match self {
            Op::Create { input, .. } => s.creation_refusal(input),
            Op::Advance { step, record_id, action, txn_hash, .. } => s.step_refusal(
                step,
                record_id,
                action,
                txn_hash,
            ),
            Op::UpdateTracking { record_id, tracking } => s.tracking_refusal(
                record_id,
                tracking.event,
            ),
        }
    }

    /// The state that the operation leaves when it is accepted in state `s`.
    pub open spec fn effect(self, s: LedgerView) -> LedgerView {
        match self {
            Op::Create { input, now } => s.created(input, now),
            Op::Advance { step, record_id, action, txn_hash, now } => s.stepped(
                step,
                record_id,
                action,
                txn_hash,
                now,
            ),
            Op::UpdateTracking { record_id, tracking } => s.tracking_updated(record_id, tracking),
        }
    }

    /// The operation is a financing.
    pub open spec fn is_financing(self) -> bool {
        self matches Op::Advance { step: Step::Finance { .. }, .. }
    }
}

impl LedgerView {
    /// The state after `op` was called in this state: changed if `op` was
    /// accepted, the same if it was refused.
    pub open spec fn apply(self, op: Op) -> LedgerView {
        if op.refusal(self) is None {
            op.effect(self)
        } else {
            self
        }
    }

    /// The state after the operations `ops` were called in this state, one
    /// after the other.
    pub open spec fn apply_all(self, ops: Seq<Op>) -> LedgerView
        decreases ops.len(),
    {
        if ops.len() == 0 {
            self
        } else {
            self.apply_all(ops.drop_last()).apply(ops.last())
        }
    }
}

/// How many of the operations `ops`, called one after the other from the
/// empty state, named `id` and were accepted.
pub open spec fn accepted_on(ops: Seq<Op>, id: Seq<char>) -> nat
    decreases ops.len(),
{
    if ops.len() == 0 {
        0
    } else {
        let earlier = accepted_on(ops.drop_last(), id);
        let op = ops.last();
        if op.target() == id && op.refusal(LedgerView::empty().apply_all(ops.drop_last())) is None {
            earlier + 1
        } else {
            earlier
        }
    }
}

/// How many of the operations `ops`, called one after the other from the
/// empty state, were financings of `id` that were accepted.
pub open spec fn financed_on(ops: Seq<Op>, id: Seq<char>) -> nat
    decreases ops.len(),
{
    if ops.len() == 0 {
        0
    } else {
        let earlier = financed_on(ops.drop_last(), id);
        let op = ops.last();
        if op.is_financing() && op.target() == id && op.refusal(
            LedgerView::empty().apply_all(ops.drop_last()),
        ) is None {
            earlier + 1
        } else {
            earlier
        }
    }
}

/// Asking the guard to skip `paid` changes nothing: whatever is skipped, a
/// record whose `paid` is not as expected is refused.
pub proof fn law_paid_is_always_compared(actual: Flags, expected: Flags, skip: Skips)
    ensures
        violation(actual, expected, skip) == violation(
            actual,
            expected,
            Skips { paid: !skip.paid, ..skip },
        ),
        actual.paid != expected.paid ==> violation(actual, expected, skip) is Some,
{
}

/// The guard lets an operation pass exactly when every flag that it compares
/// is as expected.
pub proof fn law_guard_passes_on_agreement(actual: Flags, expected: Flags, skip: Skips)
    ensures
        violation(actual, expected, skip) is None <==> {
            &&& skip.acknowledged || actual.acknowledged == expected.acknowledged
            &&& skip.financed || actual.financed == expected.financed
            &&& actual.paid == expected.paid
            &&& actual.rejected == expected.rejected
            &&& actual.voided == expected.voided
            &&& actual.payment_confirmed == expected.payment_confirmed
        },
{
}

/// The flags of a record that the lifecycle can produce are those of one of
/// seven stages: fresh, acknowledged, financed, paid, rejected, voided, or
/// paid with the payment confirmed.
pub proof fn law_flags_name_a_stage(rec: InvoiceView)
    requires
        rec.consistent(),
    ensures
        ({
            let acknowledged = Flags { acknowledged: true, ..Flags::none() };
            ||| rec.flags() == Flags::none()
            ||| rec.flags() == acknowledged
            ||| rec.flags() == Flags { financed: true, ..acknowledged }
            ||| rec.flags() == Flags { paid: true, ..acknowledged }
            ||| rec.flags() == Flags { rejected: true, ..acknowledged }
            ||| rec.flags() == Flags { voided: true, ..acknowledged }
            ||| rec.flags() == Flags { paid: true, payment_confirmed: true, ..acknowledged }
        }),
{
}

/// Accepting a record that the lifecycle can produce leads from a valid state
/// to a valid state.
pub proof fn lemma_commit_is_valid(s: LedgerView, rec: InvoiceView)
    requires
        s.valid(),
        rec.consistent(),
    ensures
        s.commit(rec).valid(),
{
    let t = s.commit(rec);
    let id0 = rec.record_id;
    assert(t.history.dom() =~= t.records.dom());
    assert forall|id: Seq<char>| #[trigger] t.holds(id) implies {
        &&& t.records[id].record_id == id
        &&& t.records[id].consistent()
        &&& t.history[id].len() > 0
        &&& t.history[id].last() == t.records[id]
        &&& forall|k: int|
            0 <= k < t.history[id].len() ==> {
                &&& (#[trigger] t.history[id][k]).record_id == id
                &&& t.history[id][k].consistent()
            }
    } by {
        if id == id0 {
            assert forall|k: int| 0 <= k < t.history[id].len() implies {
                &&& (#[trigger] t.history[id][k]).record_id == id
                &&& t.history[id][k].consistent()
            } by {
                if k < s.past(id).len() {
                    assert(s.holds(id));
                    assert(t.history[id][k] == s.history[id][k]);
                }
            }
        } else {
            assert(s.holds(id));
        }
    }
}

/// An accepted operation stores a record that the lifecycle can produce
/// under the identifier that the operation names.
proof fn lemma_effect_commits(s: LedgerView, op: Op) -> (rec: InvoiceView)
    requires
        s.valid(),
        op.refusal(s) is None,
    ensures
        op.effect(s) == s.commit(rec),
        rec.record_id == op.target(),
        rec.consistent(),
        s.holds(op.target()) ==> {
            &&& rec.acknowledged || !s.records[op.target()].acknowledged
            &&& rec.financed || !s.records[op.target()].financed
            &&& rec.paid || !s.records[op.target()].paid
            &&& rec.rejected || !s.records[op.target()].rejected
            &&& rec.voided || !s.records[op.target()].voided
            &&& rec.payment_confirmed || !s.records[op.target()].payment_confirmed
            &&& rec.financing_references.len() == s.records[op.target()].financing_references.len()
                + if op.is_financing() {
                1int
            } else {
                0int
            }
        },
        !s.holds(op.target()) ==> rec.financing_references.len() == 0 && !op.is_financing(),
{
    match op {
        Op::Create { input, now } => {
            lemma_fresh_is_consistent(input, now);
            InvoiceView::fresh(input, now)
        },
        Op::Advance { step, record_id, action, txn_hash, now } => {
            assert(s.holds(record_id));
            lemma_after_is_consistent(s.records[record_id], step, action, txn_hash, now);
            s.records[record_id].after(step, action, txn_hash, now)
        },
        Op::UpdateTracking { record_id, tracking } => {
            assert(s.holds(record_id));
            lemma_with_tracking_is_consistent(s.records[record_id], tracking);
            s.records[record_id].with_tracking(tracking)
        },
    }
}

/// Every operation, accepted or refused, leads from a valid state to a valid
/// state.
pub proof fn law_validity_is_kept(s: LedgerView, op: Op)
    requires
        s.valid(),
    ensures
        s.apply(op).valid(),
{
    if op.refusal(s) is None {
        let rec = lemma_effect_commits(s, op);
        lemma_commit_is_valid(s, rec);
    }
}

/// Every state that a sequence of operations leads to from a valid state is
/// valid; so is every state reached from the empty state.
pub proof fn law_reachable_states_are_valid(s: LedgerView, ops: Seq<Op>)
    requires
        s.valid(),
    ensures
        s.apply_all(ops).valid(),
        LedgerView::empty().valid(),
    decreases ops.len(),
{
    if ops.len() > 0 {
        law_reachable_states_are_valid(s, ops.drop_last());
        law_validity_is_kept(s.apply_all(ops.drop_last()), ops.last());
    }
}

/// An accepted creation stores a record with no lifecycle flag set and no
/// previous hash, which is then the current record of its identifier and the
/// only entry of its history.
pub proof fn law_created_record_is_fresh(s: LedgerView, input: InvoiceView, now: u64)
    requires
        s.valid(),
        s.creation_refusal(input) is None,
    ensures
        s.created(input, now).holds(input.record_id),
        s.created(input, now).records[input.record_id] == InvoiceView::fresh(input, now),
        s.created(input, now).records[input.record_id].is_fresh(),
        s.created(input, now).records[input.record_id].previous_txn_hash.len() == 0,
        s.created(input, now).history[input.record_id] == seq![InvoiceView::fresh(input, now)],
{
    assert(!s.history.dom().contains(input.record_id));
    assert(s.created(input, now).history[input.record_id] =~= seq![InvoiceView::fresh(input, now)]);
}

/// Creation under an identifier that is taken is refused with
/// `AlreadyExists`, whatever else the input holds, and leaves every record
/// and every history as it was. So a second creation under the identifier of
/// an accepted one is refused.
pub proof fn law_duplicate_creation_is_refused(
    s: LedgerView,
    input: InvoiceView,
    now: u64,
    again: InvoiceView,
    later: u64,
)
    requires
        again.has_creation_fields(),
        again.record_id == input.record_id,
    ensures
        s.holds(again.record_id) ==> s.creation_refusal(again) == Some(InvoiceError::AlreadyExists),
        s.creation_refusal(input) is None ==> s.created(input, now).creation_refusal(again)
            == Some(InvoiceError::AlreadyExists),
        s.creation_refusal(input) is None ==> s.created(input, now).apply(
            Op::Create { input: again, now: later },
        ) == s.created(input, now),
{
}

/// With its texts filled in, an acknowledgement of a stored record is
/// accepted exactly when the record is fresh. When it is refused, the
/// violation is that of the first flag, in the guard's order, that is set;
/// in a valid state that is always the acknowledgement.
pub proof fn law_acknowledge_needs_a_fresh_record(
    s: LedgerView,
    id: Seq<char>,
    action: Seq<char>,
    txn_hash: Seq<char>,
)
    requires
        s.valid(),
        s.holds(id),
        id.len() > 0,
        action.len() > 0,
        txn_hash.len() > 0,
    ensures
        s.step_refusal(Step::Acknowledge, id, action, txn_hash) is None <==> s.records[id].is_fresh(),
        s.step_refusal(Step::Acknowledge, id, action, txn_hash) == violation(
            s.records[id].flags(),
            Flags::none(),
            Skips::none(),
        ),
        !s.records[id].is_fresh() ==> s.step_refusal(Step::Acknowledge, id, action, txn_hash)
            == Some(InvoiceError::AcknowledgementMismatch),
{
}

/// After an accepted financing under `first`, a financing of the same record
/// under `first` again is refused with `AlreadyFinanced`, and a financing
/// under another reference that the record does not carry is accepted and
/// appends that reference.
pub proof fn law_financing_is_repeatable(
    s: LedgerView,
    id: Seq<char>,
    first: Seq<char>,
    second: Seq<char>,
    action: Seq<char>,
    txn_hash: Seq<char>,
    now: u64,
    next_action: Seq<char>,
    next_txn_hash: Seq<char>,
    later: u64,
)
    requires
        s.valid(),
        s.step_refusal(Step::Finance { reference: first }, id, action, txn_hash) is None,
        next_action.len() > 0,
        next_txn_hash.len() > 0,
        second.len() > 0,
    ensures
        ({
            let t = s.stepped(Step::Finance { reference: first }, id, action, txn_hash, now);
            let refs = s.records[id].financing_references;
            &&& t.records[id].financing_references == refs.push(first)
            &&& t.step_refusal(Step::Finance { reference: first }, id, next_action, next_txn_hash)
                == Some(InvoiceError::AlreadyFinanced)
            &&& second != first && !refs.contains(second) ==> {
                &&& t.step_refusal(
                    Step::Finance { reference: second },
                    id,
                    next_action,
                    next_txn_hash,
                ) is None
                &&& t.stepped(
                    Step::Finance { reference: second },
                    id,
                    next_action,
                    next_txn_hash,
                    later,
                ).records[id].financing_references == refs.push(first).push(second)
            }
        }),
{
    let t = s.stepped(Step::Finance { reference: first }, id, action, txn_hash, now);
    let refs = s.records[id].financing_references;
    assert(s.holds(id));
    assert(s.records[id].record_id == id);
    assert(refs.push(first)[refs.len() as int] == first);
    assert(refs.push(first).contains(first));
    if second != first && !refs.contains(second) {
        assert(!refs.push(first).contains(second)) by {
            if refs.push(first).contains(second) {
                let k = choose|k: int|
                    0 <= k < refs.push(first).len() && refs.push(first)[k] == second;
                if k < refs.len() {
                    assert(refs.contains(refs[k]));
                }
            }
        }
    }
}

/// A record carries each financing reference once, and as many references
/// as financings of it were accepted.
pub proof fn law_references_count_financings(ops: Seq<Op>, id: Seq<char>)
    ensures
        ({
            let s = LedgerView::empty().apply_all(ops);
            &&& s.holds(id) ==> s.records[id].financing_references.no_duplicates()
            &&& s.holds(id) ==> s.records[id].financing_references.len() == financed_on(ops, id)
            &&& !s.holds(id) ==> financed_on(ops, id) == 0
        }),
    decreases ops.len(),
{
    law_reachable_states_are_valid(LedgerView::empty(), ops);
    if ops.len() > 0 {
        let before = LedgerView::empty().apply_all(ops.drop_last());
        let op = ops.last();
        law_references_count_financings(ops.drop_last(), id);
        law_reachable_states_are_valid(LedgerView::empty(), ops.drop_last());
        if op.refusal(before) is None {
            let rec = lemma_effect_commits(before, op);
        }
    }
}

/// Payment, rejection and voiding exclude one another: on a record that has
/// one of the three outcomes, each of the other two is refused, with the
/// mismatch of the outcome that the record has.
pub proof fn law_outcomes_exclude_one_another(
    s: LedgerView,
    id: Seq<char>,
    action: Seq<char>,
    txn_hash: Seq<char>,
)
    requires
        s.valid(),
        s.holds(id),
        id.len() > 0,
        action.len() > 0,
        txn_hash.len() > 0,
    ensures
        s.records[id].paid ==> {
            &&& s.step_refusal(Step::Reject, id, action, txn_hash) == Some(
                InvoiceError::PaidMismatch,
            )
            &&& s.step_refusal(Step::Void, id, action, txn_hash) == Some(InvoiceError::PaidMismatch)
        },
        s.records[id].rejected ==> {
            &&& s.step_refusal(Step::MarkPaid, id, action, txn_hash) == Some(
                InvoiceError::RejectedMismatch,
            )
            &&& s.step_refusal(Step::Void, id, action, txn_hash) == Some(
                InvoiceError::RejectedMismatch,
            )
        },
        s.records[id].voided ==> {
            &&& s.step_refusal(Step::MarkPaid, id, action, txn_hash) == Some(
                InvoiceError::VoidedMismatch,
            )
            &&& s.step_refusal(Step::Reject, id, action, txn_hash) == Some(
                InvoiceError::VoidedMismatch,
            )
        },
{
}

/// An accepted payment, rejection or voiding sets the flag of its outcome.
pub proof fn law_outcome_is_recorded(
    s: LedgerView,
    step: Step,
    id: Seq<char>,
    action: Seq<char>,
    txn_hash: Seq<char>,
    now: u64,
)
    requires
        s.valid(),
        s.step_refusal(step, id, action, txn_hash) is None,
    ensures
        s.stepped(step, id, action, txn_hash, now).holds(id),
        step == Step::MarkPaid ==> s.stepped(step, id, action, txn_hash, now).records[id].paid,
        step == Step::Reject ==> s.stepped(step, id, action, txn_hash, now).records[id].rejected,
        step == Step::Void ==> s.stepped(step, id, action, txn_hash, now).records[id].voided,
        step == Step::ConfirmPayment ==> s.stepped(
            step,
            id,
            action,
            txn_hash,
            now,
        ).records[id].payment_confirmed,
{
    assert(s.holds(id));
}

/// No operation removes a record or clears a flag that the guard reads:
/// whatever is called later, a stored record stays stored, and a flag that is
/// set stays set.
pub proof fn law_flags_are_never_cleared(s: LedgerView, ops: Seq<Op>, id: Seq<char>)
    requires
        s.valid(),
        s.holds(id),
    ensures
        s.apply_all(ops).holds(id),
        s.records[id].acknowledged ==> s.apply_all(ops).records[id].acknowledged,
        s.records[id].financed ==> s.apply_all(ops).records[id].financed,
        s.records[id].paid ==> s.apply_all(ops).records[id].paid,
        s.records[id].rejected ==> s.apply_all(ops).records[id].rejected,
        s.records[id].voided ==> s.apply_all(ops).records[id].voided,
        s.records[id].payment_confirmed ==> s.apply_all(ops).records[id].payment_confirmed,
    decreases ops.len(),
{
    if ops.len() > 0 {
        let before = s.apply_all(ops.drop_last());
        let op = ops.last();
        law_flags_are_never_cleared(s, ops.drop_last(), id);
        law_reachable_states_are_valid(s, ops.drop_last());
        if op.refusal(before) is None {
            let rec = lemma_effect_commits(before, op);
        }
    }
}

/// With its texts filled in, a confirmation of payment of a stored record is
/// accepted exactly when the record is paid and neither rejected, voided nor
/// confirmed. After an accepted confirmation, a second one on the same
/// record is refused with `PaymentConfirmationMismatch`.
pub proof fn law_confirmation_needs_a_payment(
    s: LedgerView,
    id: Seq<char>,
    action: Seq<char>,
    txn_hash: Seq<char>,
    now: u64,
    next_action: Seq<char>,
    next_txn_hash: Seq<char>,
)
    requires
        s.valid(),
        s.holds(id),
        id.len() > 0,
        action.len() > 0,
        txn_hash.len() > 0,
        next_action.len() > 0,
        next_txn_hash.len() > 0,
    ensures
        s.step_refusal(Step::ConfirmPayment, id, action, txn_hash) is None <==> {
            &&& s.records[id].paid
            &&& !s.records[id].rejected
            &&& !s.records[id].voided
            &&& !s.records[id].payment_confirmed
        },
        s.step_refusal(Step::ConfirmPayment, id, action, txn_hash) is None ==> s.stepped(
            Step::ConfirmPayment,
            id,
            action,
            txn_hash,
            now,
        ).step_refusal(Step::ConfirmPayment, id, next_action, next_txn_hash) == Some(
            InvoiceError::PaymentConfirmationMismatch,
        ),
{
}

/// An operation that is accepted appends the new value of the record that it
/// names to the history of that record, and leaves every other history as it
/// was; an operation that is refused leaves every history as it was.
pub proof fn law_history_grows_by_one(s: LedgerView, op: Op, id: Seq<char>)
    requires
        s.valid(),
    ensures
        op.refusal(s) is None && op.target() == id ==> {
            &&& s.apply(op).holds(id)
            &&& s.apply(op).past(id) == s.past(id).push(s.apply(op).records[id])
        },
        op.refusal(s) is Some || op.target() != id ==> s.apply(op).past(id) == s.past(id),
{
    if op.refusal(s) is None {
        let rec = lemma_effect_commits(s, op);
    }
}

/// In every state reached from the empty state, the history of an identifier
/// has as many entries as operations naming it were accepted, creation
/// included; and if there is a record, the last entry is the current record.
pub proof fn law_history_counts_accepted_operations(ops: Seq<Op>, id: Seq<char>)
    ensures
        ({
            let s = LedgerView::empty().apply_all(ops);
            &&& s.past(id).len() == accepted_on(ops, id)
            &&& s.holds(id) <==> accepted_on(ops, id) > 0
            &&& s.holds(id) ==> s.history[id].last() == s.records[id]
        }),
    decreases ops.len(),
{
    law_reachable_states_are_valid(LedgerView::empty(), ops);
    if ops.len() > 0 {
        let before = LedgerView::empty().apply_all(ops.drop_last());
        law_history_counts_accepted_operations(ops.drop_last(), id);
        law_reachable_states_are_valid(LedgerView::empty(), ops.drop_last());
        law_history_grows_by_one(before, ops.last(), id);
        if ops.last().refusal(before) is None {
            let rec = lemma_effect_commits(before, ops.last());
        }
    }
}

/// An update of the tracking metadata is accepted whenever the identifier
/// and the event are filled in and a record is stored under the identifier,
/// whatever the flags of the record; and it changes nothing of the record but
/// the tracking metadata.
pub proof fn law_tracking_ignores_the_lifecycle(
    s: LedgerView,
    id: Seq<char>,
    tracking: TrackView,
)
    requires
        id.len() > 0,
        tracking.event.len() > 0,
        s.holds(id),
    ensures
        s.tracking_refusal(id, tracking.event) is None,
        s.tracking_updated(id, tracking).records[s.records[id].record_id] == (InvoiceView {
            tracking: tracking,
            ..s.records[id]
        }),
        (InvoiceView { tracking: tracking, ..s.records[id] }).flags() == s.records[id].flags(),
{
}

/// An accepted transition records its action and its time, makes its
/// transaction hash the last one and the hash before it the previous one, and
/// leaves the tracking metadata as it was. An update of the tracking metadata
/// leaves the action, the time and both hashes as they were.
pub proof fn law_transitions_rotate_the_hash(
    rec: InvoiceView,
    step: Step,
    action: Seq<char>,
    txn_hash: Seq<char>,
    now: u64,
    tracking: TrackView,
)
    ensures
        rec.after(step, action, txn_hash, now).action == action,
        rec.after(step, action, txn_hash, now).last_txn_hash == txn_hash,
        rec.after(step, action, txn_hash, now).previous_txn_hash == rec.last_txn_hash,
        rec.after(step, action, txn_hash, now).last_modified_at == now,
        rec.after(step, action, txn_hash, now).tracking == rec.tracking,
        rec.with_tracking(tracking).action == rec.action,
        rec.with_tracking(tracking).last_txn_hash == rec.last_txn_hash,
        rec.with_tracking(tracking).previous_txn_hash == rec.previous_txn_hash,
        rec.with_tracking(tracking).last_modified_at == rec.last_modified_at,
{
}

/// Every valid state has a listing: its current records, each once, in
/// ascending order of identifier. It is the only such list.
pub proof fn law_valid_states_have_a_listing(s: LedgerView, list: Seq<InvoiceView>)
    requires
        s.valid(),
    ensures
        s.lists(s.listing()),
        s.lists(list) ==> list == s.listing(),
{
    lemma_listing_exists(s);
    if s.lists(list) {
        lemma_listing(s, list);
    }
}

/// A selection from a list of the current records holds exactly the current
/// records whose selected field is the value asked for.
pub proof fn law_selection_is_exact(
    s: LedgerView,
    list: Seq<InvoiceView>,
    selector: Selector,
    value: Seq<char>,
    rec: InvoiceView,
)
    requires
        s.lists(list),
    ensures
        list.filter(selector.selects(value)).contains(rec) <==> {
            &&& s.holds(rec.record_id)
            &&& s.records[rec.record_id] == rec
            &&& selector.field(rec) == value
        },
{
    let wanted = selector.selects(value);
    let hits = list.filter(wanted);
    if hits.contains(rec) {
        let k = choose|k: int| 0 <= k < hits.len() && hits[k] == rec;
        list.lemma_filter_pred(wanted, k);
        list.lemma_filter_contains_rev(wanted, rec);
        let i = choose|i: int| 0 <= i < list.len() && list[i] == rec;
        assert(s.holds(key(list, i)));
    }
    if s.holds(rec.record_id) && s.records[rec.record_id] == rec && selector.field(rec) == value {
        let i = slot(list, rec.record_id);
        assert(s.holds(key(list, i)));
        list.lemma_filter_contains(wanted, i);
    }
}

} // verus!
