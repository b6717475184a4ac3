//! The invoice service. It owns the record store and the history log, and
//! carries out the lifecycle operations and the queries on them.
//!
//! The service reads no clock and publishes nothing: the time of an operation
//! is handed in, and an accepted operation hands back the notification that
//! is to be published.

use crate::error::InvoiceError;
use crate::guard::{evaluate, violation, Flags, Skips};
use crate::ledger::{
    ascending, history_of, key, lemma_listing, lemma_of_parts, lemma_of_parts_insert,
    lemma_of_parts_update, listed, parts_valid, LedgerView,
};
use crate::lifecycle::{
    lemma_after_is_consistent, lemma_fresh_is_consistent, lemma_with_tracking_is_consistent, Step,
    Transition,
};
use crate::notice::{Notification, Receipt, ReceiptView};
use crate::record::{clone_records, snapshots, Invoice, InvoiceView, Track, TrackView};
use crate::text::{
    is_blank, lemma_text_lt_irreflexive, lemma_text_lt_total, lemma_text_lt_transitive, rank,
    same_text, text_lt, Rank,
};
use vstd::prelude::*;

verus! {

/// The views of a list of histories, in order.
pub open spec fn pasts(h: Seq<Vec<Invoice>>) -> Seq<Seq<InvoiceView>> {
    Seq::new(h.len(), |i: int| snapshots(h[i]@))
}

/// The field by which a query selects records.
#[derive(Clone, Copy, Debug, PartialEq, Eq, Structural)]
pub enum Selector {
    TxnHash,
    VendorEmailHash,
    VendorMobileHash,
}

impl Selector {
    /// The value of the field in a record.
    pub open spec fn field(self, rec: InvoiceView) -> Seq<char> {
        match self {
            Selector::TxnHash => rec.last_txn_hash,
            Selector::VendorEmailHash => rec.vendor_email_hash,
            Selector::VendorMobileHash => rec.vendor_mobile_hash,
        }
    }

    /// The records whose field is exactly `value`.
    pub open spec fn selects(self, value: Seq<char>) -> spec_fn(InvoiceView) -> bool {
        |rec: InvoiceView| self.field(rec) == value
    }
}

/// The invoice service: the current record of each identifier and the
/// history of each identifier.
///
/// The records are kept in ascending order of identifier, and the history of
/// a record at the same place as the record.
pub struct InvoiceContract {
    records: Vec<Invoice>,
    histories: Vec<Vec<Invoice>>,
}

impl View for InvoiceContract {
    type V = LedgerView;

    closed spec fn view(&self) -> LedgerView {
        LedgerView::of_parts(snapshots(self.records@), pasts(self.histories@))
    }
}

/// Whether `hist` is a history that ends in `rec`.
fn is_history_of(hist: &Vec<Invoice>, rec: &Invoice) -> (r: bool)
    ensures
        r == history_of(snapshots(hist@), rec@),
{
    if !rec.is_consistent() || hist.len() == 0 {
        return false;
    }
    if !hist[hist.len() - 1].same_as(rec) {
        return false;
    }
    let mut k: usize = 0;
    while k < hist.len()
        invariant
            k <= hist.len(),
            forall|j: int|
                0 <= j < k ==> (#[trigger] snapshots(hist@)[j]).record_id == rec@.record_id
                    && snapshots(hist@)[j].consistent(),
        decreases hist.len() - k,
    {
        if !same_text(&hist[k].record_id, &rec.record_id) || !hist[k].is_consistent() {
            assert(snapshots(hist@)[k as int] == hist@[k as int]@);
            return false;
        }
        k = k + 1;
    }
    true
}

impl InvoiceContract {
    /// The service holds a state that the operations can produce.
    pub closed spec fn wf(&self) -> bool {
        parts_valid(snapshots(self.records@), pasts(self.histories@))
    }

    /// What the representation gives: the state is valid, and its listing is
    /// a list of the current records in ascending order of identifier.
    pub proof fn lemma_wf(&self)
        requires
            self.wf(),
        ensures
            self@.valid(),
            self@.lists(self@.listing()),
    {
        let recs = snapshots(self.records@);
        lemma_of_parts(recs, pasts(self.histories@));
        lemma_listing(self@, recs);
    }

    /// A service in which nothing is stored.
    pub fn new() -> (r: InvoiceContract)
        ensures
            r.wf(),
            r@ == LedgerView::empty(),
    {
        let r = InvoiceContract { records: Vec::new(), histories: Vec::new() };
        assert(r@.records =~= Map::empty());
        assert(r@.history =~= Map::empty());
        r
    }

    /// Takes over stored records and histories, `histories[i]` being the
    /// history of `records[i]`, if they make up a state that the operations
    /// can produce: the records in strictly ascending order of identifier,
    /// each with its history.
    pub fn restore(records: Vec<Invoice>, histories: Vec<Vec<Invoice>>) -> (r: Option<
        InvoiceContract,
    >)
        ensures
            r is Some <==> parts_valid(snapshots(records@), pasts(histories@)),
            r matches Some(c) ==> c.wf() && c@ == LedgerView::of_parts(
                snapshots(records@),
                pasts(histories@),
            ),
    {
        let ghost recs = snapshots(records@);
        let ghost hists = pasts(histories@);
        if records.len() != histories.len() {
            return None;
        }
        let mut i: usize = 0;
        while i < records.len()
            invariant
                i <= records.len(),
                records.len() == histories.len(),
                recs == snapshots(records@),
                hists == pasts(histories@),
                forall|a: int, b: int|
                    0 <= a < b < i ==> text_lt(#[trigger] key(recs, a), #[trigger] key(recs, b)),
                forall|k: int| 0 <= k < i ==> history_of(#[trigger] hists[k], recs[k]),
            decreases records.len() - i,
        {
            if !is_history_of(&histories[i], &records[i]) {
                assert(!history_of(hists[i as int], recs[i as int]));
                return None;
            }
            if i > 0 {
                let before = rank(&records[i - 1].record_id, &records[i].record_id);
                if before != Rank::Before {
                    proof {
                        lemma_text_lt_irreflexive(key(recs, i as int));
                        assert(!text_lt(key(recs, i - 1), key(recs, i as int)));
                    }
                    return None;
                }
                proof {
                    assert forall|a: int| 0 <= a < i implies text_lt(
                        #[trigger] key(recs, a),
                        key(recs, i as int),
                    ) by {
                        if a < i - 1 {
                            assert(text_lt(key(recs, a), key(recs, i - 1)));
                            lemma_text_lt_transitive(
                                key(recs, a),
                                key(recs, i - 1),
                                key(recs, i as int),
                            );
                        }
                    }
                }
            }
            i = i + 1;
        }
        Some(InvoiceContract { records: records, histories: histories })
    }

    /// The transition guard: whether the flags of `invoice` allow an
    /// operation that expects `expected` and skips `skip`.
    pub fn check_invoice_status(invoice: &Invoice, expected: Flags, skip: Skips) -> (r: Option<
        InvoiceError,
    >)
        ensures
            r == violation(invoice@.flags(), expected, skip),
    {
        evaluate(invoice.flags(), expected, skip)
    }

    /// Finds the place of `id` in the order of identifiers: where its record
    /// stands if there is one, and else where it would have to stand.
    fn locate(&self, id: &String) -> (r: (usize, bool))
        requires
            self.wf(),
        ensures
            r.0 <= self.records.len(),
            r.1 ==> r.0 < self.records.len() && key(snapshots(self.records@), r.0 as int) == id@,
            r.1 == listed(snapshots(self.records@), id@),
            forall|j: int| 0 <= j < r.0 ==> text_lt(#[trigger] key(snapshots(self.records@), j), id@),
            !r.1 ==> forall|j: int|
                r.0 <= j < self.records.len() ==> text_lt(
                    id@,
                    #[trigger] key(snapshots(self.records@), j),
                ),
    {
        let ghost recs = snapshots(self.records@);
        proof {
            lemma_text_lt_irreflexive(id@);
        }
        let mut i: usize = 0;
        while i < self.records.len()
            invariant
                i <= self.records.len(),
                recs == snapshots(self.records@),
                ascending(recs),
                !text_lt(id@, id@),
                forall|j: int| 0 <= j < i ==> text_lt(#[trigger] key(recs, j), id@),
            decreases self.records.len() - i,
        {
            match rank(&self.records[i].record_id, id) {
                Rank::Before => {},
                Rank::Same => {
                    assert(key(recs, i as int) == id@);
                    return (i, true);
                },
                Rank::After => {
                    proof {
                        lemma_text_lt_total(key(recs, i as int), id@);
                        assert forall|j: int| i <= j < recs.len() implies text_lt(
                            id@,
                            #[trigger] key(recs, j),
                        ) by {
                            if j > i {
                                assert(text_lt(key(recs, i as int), key(recs, j)));
                                lemma_text_lt_transitive(id@, key(recs, i as int), key(recs, j));
                            }
                        }
                        if listed(recs, id@) {
                            let j = choose|j: int| 0 <= j < recs.len() && #[trigger] key(recs, j) == id@;
                            if j < i {
                                assert(text_lt(key(recs, j), id@));
                            } else {
                                assert(text_lt(id@, key(recs, j)));
                            }
                        }
                    }
                    return (i, false);
                },
            }
            i = i + 1;
        }
        proof {
            if listed(recs, id@) {
                let j = choose|j: int| 0 <= j < recs.len() && #[trigger] key(recs, j) == id@;
                assert(text_lt(key(recs, j), id@));
            }
        }
        (i, false)
    }

    /// Stores a new record made from `invoice_input`, with `now` as its time,
    /// and starts its history.
    ///
    /// Refused with `InvalidInput` if a required field of `invoice_input` is
    /// empty, and else with `AlreadyExists` if a record is stored under its
    /// identifier; a refusal changes nothing.
    pub fn create_invoice(&mut self, invoice_input: Invoice, now: u64) -> (r: Result<
        Receipt,
        InvoiceError,
    >)
        requires
            old(self).wf(),
        ensures
            final(self).wf(),
            match old(self)@.creation_refusal(invoice_input@) {
                Some(e) => r == Err::<Receipt, InvoiceError>(e) && final(self)@ == old(self)@,
                None => {
                    &&& r matches Ok(receipt)
                    &&& receipt@ == ReceiptView::announcing(
                        Notification::Created,
                        invoice_input@.record_id,
                    )
                    &&& final(self)@ == old(self)@.created(invoice_input@, now)
                },
            },
    {
        let ghost recs = snapshots(self.records@);
        let ghost hists = pasts(self.histories@);
        proof {
            lemma_of_parts(recs, hists);
        }
        if !invoice_input.has_creation_fields() {
            return Err(InvoiceError::InvalidInput);
        }
        let (place, found) = self.locate(&invoice_input.record_id);
        if found {
            return Err(InvoiceError::AlreadyExists);
        }
        let ghost input = invoice_input@;
        let record = Invoice::fresh(invoice_input, now);
        let id = record.record_id.clone();
        let mut history: Vec<Invoice> = Vec::new();
        history.push(record.clone());
        let ghost rec = record@;
        let ghost hist = snapshots(history@);
        self.records.insert(place, record);
        self.histories.insert(place, history);
        proof {
            lemma_fresh_is_consistent(input, now);
            assert(hist =~= Seq::<InvoiceView>::empty().push(rec));
            assert(snapshots(self.records@) =~= recs.insert(place as int, rec));
            assert(pasts(self.histories@) =~= hists.insert(place as int, hist));
            lemma_of_parts_insert(recs, hists, place as int, rec, hist);
            assert(history_of(hist, rec));
            assert forall|i: int| 0 <= i < recs.insert(place as int, rec).len() implies history_of(
                #[trigger] hists.insert(place as int, hist)[i],
                recs.insert(place as int, rec)[i],
            ) by {
                if i < place {
                    assert(history_of(hists[i], recs[i]));
                } else if i > place {
                    assert(history_of(hists[i - 1], recs[i - 1]));
                }
            }
        }
        Ok(Receipt::announcing(Notification::Created, id))
    }

    /// Carries out a lifecycle transition on the record stored under
    /// `record_id`: the record takes the new flags, the action, the
    /// transaction hash and the time, and its new value is appended to its
    /// history.
    ///
    /// Refused with `InvalidInput` if a required text is empty, else with
    /// `NotFound` if no record is stored under `record_id`, else with the
    /// violation that the record reports; a refusal changes nothing.
    pub fn transition(
        &mut self,
        transition: Transition,
        record_id: String,
        action: String,
        txn_hash: String,
        now: u64,
    ) -> (r: Result<Receipt, InvoiceError>)
        requires
            old(self).wf(),
        ensures
            final(self).wf(),
            match old(self)@.step_refusal(transition@, record_id@, action@, txn_hash@) {
                Some(e) => r == Err::<Receipt, InvoiceError>(e) && final(self)@ == old(self)@,
                None => {
                    &&& r matches Ok(receipt)
                    &&& receipt@ == ReceiptView::announcing(
                        transition@.notification(),
                        record_id@,
                    )
                    &&& final(self)@ == old(self)@.stepped(
                        transition@,
                        record_id@,
                        action@,
                        txn_hash@,
                        now,
                    )
                },
            },
    {
        let ghost recs = snapshots(self.records@);
        let ghost hists = pasts(self.histories@);
        let ghost step = transition@;
        proof {
            lemma_of_parts(recs, hists);
        }
        if is_blank(&record_id) || is_blank(&action) || is_blank(&txn_hash)
            || !transition.has_inputs() {
            return Err(InvoiceError::InvalidInput);
        }
        let (place, found) = self.locate(&record_id);
        if !found {
            return Err(InvoiceError::NotFound);
        }
        assert(self@.holds(key(recs, place as int)));
        if let Some(e) = self.records[place].refusal(&transition) {
            return Err(e);
        }
        let notification = transition.notification();
        self.records[place].advance(transition, action, txn_hash, now);
        let snapshot = self.records[place].clone();
        let ghost rec = snapshot@;
        self.histories[place].push(snapshot);
        proof {
            let hist = hists[place as int].push(rec);
            lemma_after_is_consistent(recs[place as int], step, action@, txn_hash@, now);
            assert(snapshots(self.records@) =~= recs.update(place as int, rec));
            assert(snapshots(self.histories@[place as int]@) =~= hist);
            assert(pasts(self.histories@) =~= hists.update(place as int, hist));
            lemma_of_parts_update(recs, hists, place as int, rec, hist);
            assert(history_of(hists[place as int], recs[place as int]));
            assert(history_of(hist, rec));
            assert forall|i: int| 0 <= i < recs.len() implies history_of(
                #[trigger] hists.update(place as int, hist)[i],
                recs.update(place as int, rec)[i],
            ) by {
                if i != place {
                    assert(history_of(hists[i], recs[i]));
                }
            }
        }
        Ok(Receipt::announcing(notification, record_id))
    }

    /// Acknowledges the record stored under `record_id`. The record must be
    /// fresh: none of its guarded flags set.
    pub fn ack_invoice(&mut self, record_id: String, action: String, txn_hash: String, now: u64) -> (r:
        Result<Receipt, InvoiceError>)
        requires
            old(self).wf(),
        ensures
            final(self).wf(),
            match old(self)@.step_refusal(Step::Acknowledge, record_id@, action@, txn_hash@) {
                Some(e) => r == Err::<Receipt, InvoiceError>(e) && final(self)@ == old(self)@,
                None => {
                    &&& r matches Ok(receipt)
                    &&& receipt@ == ReceiptView::announcing(Notification::Acknowledged, record_id@)
                    &&& final(self)@ == old(self)@.stepped(
                        Step::Acknowledge,
                        record_id@,
                        action@,
                        txn_hash@,
                        now,
                    )
                },
            },
    {
        self.transition(Transition::Acknowledge, record_id, action, txn_hash, now)
    }

    /// Marks the record stored under `record_id` as paid. The record must be
    /// acknowledged and have no other guarded flag set.
    pub fn paid_invoice(&mut self, record_id: String, action: String, txn_hash: String, now: u64) -> (r:
        Result<Receipt, InvoiceError>)
        requires
            old(self).wf(),
        ensures
            final(self).wf(),
            match old(self)@.step_refusal(Step::MarkPaid, record_id@, action@, txn_hash@) {
                Some(e) => r == Err::<Receipt, InvoiceError>(e) && final(self)@ == old(self)@,
                None => {
                    &&& r matches Ok(receipt)
                    &&& receipt@ == ReceiptView::announcing(Notification::Paid, record_id@)
                    &&& final(self)@ == old(self)@.stepped(
                        Step::MarkPaid,
                        record_id@,
                        action@,
                        txn_hash@,
                        now,
                    )
                },
            },
    {
        self.transition(Transition::MarkPaid, record_id, action, txn_hash, now)
    }

    /// Rejects the record stored under `record_id`. The record must be
    /// acknowledged and have no other guarded flag set.
    pub fn reject_invoice(
        &mut self,
        record_id: String,
        action: String,
        txn_hash: String,
        now: u64,
    ) -> (r: Result<Receipt, InvoiceError>)
        requires
            old(self).wf(),
        ensures
            final(self).wf(),
            match old(self)@.step_refusal(Step::Reject, record_id@, action@, txn_hash@) {
                Some(e) => r == Err::<Receipt, InvoiceError>(e) && final(self)@ == old(self)@,
                None => {
                    &&& r matches Ok(receipt)
                    &&& receipt@ == ReceiptView::announcing(Notification::Rejected, record_id@)
                    &&& final(self)@ == old(self)@.stepped(
                        Step::Reject,
                        record_id@,
                        action@,
                        txn_hash@,
                        now,
                    )
                },
            },
    {
        self.transition(Transition::Reject, record_id, action, txn_hash, now)
    }

    /// Voids the record stored under `record_id`. The record must be
    /// acknowledged and have no other guarded flag set.
    pub fn void_invoice(&mut self, record_id: String, action: String, txn_hash: String, now: u64) -> (r:
        Result<Receipt, InvoiceError>)
        requires
            old(self).wf(),
        ensures
            final(self).wf(),
            match old(self)@.step_refusal(Step::Void, record_id@, action@, txn_hash@) {
                Some(e) => r == Err::<Receipt, InvoiceError>(e) && final(self)@ == old(self)@,
                None => {
                    &&& r matches Ok(receipt)
                    &&& receipt@ == ReceiptView::announcing(Notification::Voided, record_id@)
                    &&& final(self)@ == old(self)@.stepped(
                        Step::Void,
                        record_id@,
                        action@,
                        txn_hash@,
                        now,
                    )
                },
            },
    {
        self.transition(Transition::Void, record_id, action, txn_hash, now)
    }

    /// Finances the record stored under `record_id` under
    /// `finance_reference`, which is appended to its financing references.
    /// The record must be acknowledged and be neither paid, rejected, voided
    /// nor confirmed; it may have been financed before, under other
    /// references.
    pub fn finance_invoice(
        &mut self,
        record_id: String,
        finance_reference: String,
        action: String,
        txn_hash: String,
        now: u64,
    ) -> (r: Result<Receipt, InvoiceError>)
        requires
            old(self).wf(),
        ensures
            final(self).wf(),
            match old(self)@.step_refusal(
                Step::Finance { reference: finance_reference@ },
                record_id@,
                action@,
                txn_hash@,
            ) {
                Some(e) => r == Err::<Receipt, InvoiceError>(e) && final(self)@ == old(self)@,
                None => {
                    &&& r matches Ok(receipt)
                    &&& receipt@ == ReceiptView::announcing(Notification::Financed, record_id@)
                    &&& final(self)@ == old(self)@.stepped(
                        Step::Finance { reference: finance_reference@ },
                        record_id@,
                        action@,
                        txn_hash@,
                        now,
                    )
                },
            },
    {
        self.transition(
            Transition::Finance { reference: finance_reference },
            record_id,
            action,
            txn_hash,
            now,
        )
    }

    /// Confirms the payment of the record stored under `record_id`. The
    /// record must be paid and be neither rejected, voided nor confirmed.
    pub fn payment_confirmation_invoice(
        &mut self,
        record_id: String,
        action: String,
        txn_hash: String,
        now: u64,
    ) -> (r: Result<Receipt, InvoiceError>)
        requires
            old(self).wf(),
        ensures
            final(self).wf(),
            match old(self)@.step_refusal(Step::ConfirmPayment, record_id@, action@, txn_hash@) {
                Some(e) => r == Err::<Receipt, InvoiceError>(e) && final(self)@ == old(self)@,
                None => {
                    &&& r matches Ok(receipt)
                    &&& receipt@ == ReceiptView::announcing(
                        Notification::PaymentConfirmed,
                        record_id@,
                    )
                    &&& final(self)@ == old(self)@.stepped(
                        Step::ConfirmPayment,
                        record_id@,
                        action@,
                        txn_hash@,
                        now,
                    )
                },
            },
    {
        self.transition(Transition::ConfirmPayment, record_id, action, txn_hash, now)
    }

    /// Replaces the tracking metadata of the record stored under
    /// `record_id`, and appends the new value of the record to its history.
    /// The flags of the record are neither read nor changed, nor are its
    /// transaction hashes or its time.
    ///
    /// Refused with `InvalidInput` if `record_id` or `event` is empty, and
    /// else with `NotFound` if no record is stored under `record_id`; a
    /// refusal changes nothing.
    pub fn update_invoice_tracking(
        &mut self,
        record_id: String,
        subject: String,
        status: String,
        msg_id: String,
        api_key_id: String,
        event: String,
        to: String,
    ) -> (r: Result<Receipt, InvoiceError>)
        requires
            old(self).wf(),
        ensures
            final(self).wf(),
            match old(self)@.tracking_refusal(record_id@, event@) {
                Some(e) => r == Err::<Receipt, InvoiceError>(e) && final(self)@ == old(self)@,
                None => {
                    &&& r matches Ok(receipt)
                    &&& receipt@ == ReceiptView::announcing(
                        Notification::TrackingUpdated,
                        record_id@,
                    )
                    &&& final(self)@ == old(self)@.tracking_updated(
                        record_id@,
                        (TrackView {
                            subject: subject@,
                            status: status@,
                            msg_id: msg_id@,
                            api_key_id: api_key_id@,
                            event: event@,
                            to: to@,
                        }),
                    )
                },
            },
    {
        let ghost recs = snapshots(self.records@);
        let ghost hists = pasts(self.histories@);
        proof {
            lemma_of_parts(recs, hists);
        }
        if is_blank(&record_id) || is_blank(&event) {
            return Err(InvoiceError::InvalidInput);
        }
        let (place, found) = self.locate(&record_id);
        if !found {
            return Err(InvoiceError::NotFound);
        }
        assert(self@.holds(key(recs, place as int)));
        let tracking = Track {
            subject: subject,
            status: status,
            msg_id: msg_id,
            api_key_id: api_key_id,
            event: event,
            to: to,
        };
        let ghost tracking_view = tracking@;
        self.records[place].set_tracking(tracking);
        let snapshot = self.records[place].clone();
        let ghost rec = snapshot@;
        self.histories[place].push(snapshot);
        proof {
            let hist = hists[place as int].push(rec);
            lemma_with_tracking_is_consistent(recs[place as int], tracking_view);
            assert(snapshots(self.records@) =~= recs.update(place as int, rec));
            assert(snapshots(self.histories@[place as int]@) =~= hist);
            assert(pasts(self.histories@) =~= hists.update(place as int, hist));
            lemma_of_parts_update(recs, hists, place as int, rec, hist);
            assert(history_of(hists[place as int], recs[place as int]));
            assert(history_of(hist, rec));
            assert forall|i: int| 0 <= i < recs.len() implies history_of(
                #[trigger] hists.update(place as int, hist)[i],
                recs.update(place as int, rec)[i],
            ) by {
                if i != place {
                    assert(history_of(hists[i], recs[i]));
                }
            }
        }
        Ok(Receipt::announcing(Notification::TrackingUpdated, record_id))
    }

    /// The current record stored under `record_id`.
    pub fn query_invoice(&self, record_id: String) -> (r: Result<Invoice, InvoiceError>)
        requires
            self.wf(),
        ensures
            match r {
                Ok(rec) => self@.holds(record_id@) && rec@ == self@.records[record_id@],
                Err(e) => !self@.holds(record_id@) && e == InvoiceError::NotFound,
            },
    {
        proof {
            lemma_of_parts(snapshots(self.records@), pasts(self.histories@));
        }
        let (place, found) = self.locate(&record_id);
        if found {
            assert(self@.holds(key(snapshots(self.records@), place as int)));
            Ok(self.records[place].clone())
        } else {
            Err(InvoiceError::NotFound)
        }
    }

    /// Every current record, in ascending order of identifier; `NotFound` if
    /// nothing is stored.
    pub fn query_all_invoices(&self) -> (r: Result<Vec<Invoice>, InvoiceError>)
        requires
            self.wf(),
        ensures
            match r {
                Ok(all) => {
                    &&& self@.records.len() > 0
                    &&& snapshots(all@) == self@.listing()
                    &&& self@.lists(snapshots(all@))
                },
                Err(e) => self@.records.len() == 0 && e == InvoiceError::NotFound,
            },
    {
        proof {
            lemma_of_parts(snapshots(self.records@), pasts(self.histories@));
            lemma_listing(self@, snapshots(self.records@));
        }
        if self.records.len() == 0 {
            Err(InvoiceError::NotFound)
        } else {
            Ok(clone_records(&self.records))
        }
    }

    /// The history of `record_id`: the record as it stood after each
    /// accepted operation, oldest first.
    pub fn query_invoice_history(&self, record_id: String) -> (r: Result<Vec<Invoice>, InvoiceError>)
        requires
            self.wf(),
        ensures
            match r {
                Ok(past) => self@.history.dom().contains(record_id@) && snapshots(past@)
                    == self@.history[record_id@],
                Err(e) => !self@.history.dom().contains(record_id@) && e == InvoiceError::NotFound,
            },
    {
        proof {
            lemma_of_parts(snapshots(self.records@), pasts(self.histories@));
        }
        let (place, found) = self.locate(&record_id);
        if found {
            assert(self@.holds(key(snapshots(self.records@), place as int)));
            Ok(clone_records(&self.histories[place]))
        } else {
            Err(InvoiceError::NotFound)
        }
    }

    /// The current records whose selected field is exactly `value`, in
    /// ascending order of identifier; `NotFound` if there is none.
    pub fn select(&self, selector: Selector, value: &String) -> (r: Result<Vec<Invoice>, InvoiceError>)
        requires
            self.wf(),
        ensures
            match r {
                Ok(hits) => hits.len() > 0 && snapshots(hits@) == self@.listing().filter(
                    selector.selects(value@),
                ),
                Err(e) => self@.listing().filter(selector.selects(value@)).len() == 0 && e
                    == InvoiceError::NotFound,
            },
    {
        let ghost recs = snapshots(self.records@);
        let ghost wanted = selector.selects(value@);
        proof {
            lemma_of_parts(recs, pasts(self.histories@));
            lemma_listing(self@, recs);
        }
        let mut hits: Vec<Invoice> = Vec::new();
        let mut i: usize = 0;
        assert(recs.take(0) =~= Seq::<InvoiceView>::empty());
        assert(snapshots(hits@) =~= Seq::<InvoiceView>::empty());
        assert(Seq::<InvoiceView>::empty().filter(wanted) =~= Seq::<InvoiceView>::empty()) by {
            reveal(Seq::filter);
        }
        while i < self.records.len()
            invariant
                i <= self.records.len(),
                recs == snapshots(self.records@),
                wanted == selector.selects(value@),
                snapshots(hits@) == recs.take(i as int).filter(wanted),
            decreases self.records.len() - i,
        {
            let rec = &self.records[i];
            let field = match selector {
                Selector::TxnHash => &rec.last_txn_hash,
                Selector::VendorEmailHash => &rec.vendor_email_hash,
                Selector::VendorMobileHash => &rec.vendor_mobile_hash,
            };
            let ghost before = snapshots(hits@);
            proof {
                assert(recs.take(i + 1) =~= recs.take(i as int).push(recs[i as int]));
                recs.take(i as int).lemma_filter_push(recs[i as int], wanted);
            }
            if same_text(field, value) {
                hits.push(rec.clone());
                assert(snapshots(hits@) =~= before.push(recs[i as int]));
            }
            i = i + 1;
        }
        assert(recs.take(i as int) =~= recs);
        if hits.len() == 0 {
            Err(InvoiceError::NotFound)
        } else {
            Ok(hits)
        }
    }

    /// The current records whose last transaction hash is `txn_hash`.
    pub fn query_by_txnhash(&self, txn_hash: String) -> (r: Result<Vec<Invoice>, InvoiceError>)
        requires
            self.wf(),
        ensures
            match r {
                Ok(hits) => hits.len() > 0 && snapshots(hits@) == self@.listing().filter(
                    Selector::TxnHash.selects(txn_hash@),
                ),
                Err(e) => self@.listing().filter(Selector::TxnHash.selects(txn_hash@)).len() == 0
                    && e == InvoiceError::NotFound,
            },
    {
        self.select(Selector::TxnHash, &txn_hash)
    }

    /// The current records whose vendor email hash is `email_hash`.
    pub fn query_by_vendor_emailhash(&self, email_hash: String) -> (r: Result<
        Vec<Invoice>,
        InvoiceError,
    >)
        requires
            self.wf(),
        ensures
            match r {
                Ok(hits) => hits.len() > 0 && snapshots(hits@) == self@.listing().filter(
                    Selector::VendorEmailHash.selects(email_hash@),
                ),
                Err(e) => self@.listing().filter(
                    Selector::VendorEmailHash.selects(email_hash@),
                ).len() == 0 && e == InvoiceError::NotFound,
            },
    {
        self.select(Selector::VendorEmailHash, &email_hash)
    }

    /// The current records whose vendor mobile hash is `mobile_hash`.
    pub fn query_by_vendor_mobilehash(&self, mobile_hash: String) -> (r: Result<
        Vec<Invoice>,
        InvoiceError,
    >)
        requires
            self.wf(),
        ensures
            match r {
                Ok(hits) => hits.len() > 0 && snapshots(hits@) == self@.listing().filter(
                    Selector::VendorMobileHash.selects(mobile_hash@),
                ),
                Err(e) => self@.listing().filter(
                    Selector::VendorMobileHash.selects(mobile_hash@),
                ).len() == 0 && e == InvoiceError::NotFound,
            },
    {
        self.select(Selector::VendorMobileHash, &mobile_hash)
    }

    /// How many records are stored.
    pub fn query_total_invoice_count(&self) -> (r: u32)
        requires
            self.wf(),
            self@.records.len() <= u32::MAX,
        ensures
            r == self@.records.len(),
    {
        proof {
            lemma_of_parts(snapshots(self.records@), pasts(self.histories@));
        }
        self.records.len() as u32
    }
}

} // verus!
