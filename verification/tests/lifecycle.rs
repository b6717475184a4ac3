use invoice::contract::InvoiceContract;
use invoice::error::InvoiceError;
use invoice::notice::Notification;
use invoice::record::{Invoice, Track};

fn text(s: &str) -> String {
    s.to_string()
}

/// A creation input with every required field filled in, and with stale
/// values in the fields that creation resets.
fn input(id: &str) -> Invoice {
    Invoice {
        record_type: text(""),
        vendor_id: text("V-7"),
        record_id: text(id),
        creation_date: text("2024-03-01"),
        vendor_email: text("vendor@example.com"),
        action: text("create"),
        acknowledged: true,
        financed: true,
        financing_references: vec![text("stale")],
        vendor_email_hash: text("eh-1"),
        vendor_mobile_hash: text("mh-1"),
        vendor_mobile: text("555-0100"),
        client_fname: text("Ada"),
        client_lname: text("Lovelace"),
        vendor_name: text("Vendor Ltd"),
        client_email: text("ada@example.com"),
        client_mobile: text("555-0199"),
        currency: text("EUR"),
        fund_reception: text("bank"),
        lines: text("[]"),
        net_amt: text("100.00"),
        paid: true,
        rejected: true,
        voided: true,
        sent_copy_deleted: true,
        received_copy_deleted: true,
        last_modified_at: 1,
        previous_txn_hash: text("stale"),
        last_txn_hash: text("h0"),
        due_date: text("2024-04-01"),
        deleted_comments: text("stale"),
        payment_confirmed: true,
        tracking: Track {
            subject: text("s"),
            status: text("s"),
            msg_id: text("s"),
            api_key_id: text("s"),
            event: text("s"),
            to: text("s"),
        },
    }
}

fn created(id: &str) -> InvoiceContract {
    let mut c = InvoiceContract::new();
    c.create_invoice(input(id), 10).unwrap();
    c
}

fn acknowledged(id: &str) -> InvoiceContract {
    let mut c = created(id);
    c.ack_invoice(text(id), text("ack"), text("h1"), 11).unwrap();
    c
}

fn flags(rec: &Invoice) -> [bool; 8] {
    [
        rec.acknowledged,
        rec.financed,
        rec.paid,
        rec.rejected,
        rec.voided,
        rec.payment_confirmed,
        rec.sent_copy_deleted,
        rec.received_copy_deleted,
    ]
}

#[test]
fn create_then_query_returns_a_fresh_record() {
    let mut c = InvoiceContract::new();
    let receipt = c.create_invoice(input("INV-1"), 42).unwrap();
    assert_eq!(receipt.message, "Invoice created");
    assert_eq!(receipt.notification, Notification::Created);
    assert_eq!(receipt.record_id, "INV-1");
    let rec = c.query_invoice(text("INV-1")).unwrap();
    assert_eq!(rec.record_type, "Invoice");
    assert_eq!(flags(&rec), [false; 8]);
    assert_eq!(rec.previous_txn_hash, "");
    assert_eq!(rec.last_txn_hash, "h0");
    assert_eq!(rec.last_modified_at, 42);
    assert!(rec.financing_references.is_empty());
    assert_eq!(rec.deleted_comments, "");
    assert!(rec.tracking.same_as(&Track::blank()));
    assert_eq!(rec.record_id, "INV-1");
    assert_eq!(rec.vendor_id, "V-7");
    assert_eq!(rec.creation_date, "2024-03-01");
    assert_eq!(rec.vendor_email, "vendor@example.com");
    assert_eq!(rec.action, "create");
    assert_eq!(rec.vendor_email_hash, "eh-1");
    assert_eq!(rec.vendor_mobile_hash, "mh-1");
    assert_eq!(rec.vendor_mobile, "555-0100");
    assert_eq!(rec.client_fname, "Ada");
    assert_eq!(rec.client_lname, "Lovelace");
    assert_eq!(rec.vendor_name, "Vendor Ltd");
    assert_eq!(rec.client_email, "ada@example.com");
    assert_eq!(rec.client_mobile, "555-0199");
    assert_eq!(rec.currency, "EUR");
    assert_eq!(rec.fund_reception, "bank");
    assert_eq!(rec.lines, "[]");
    assert_eq!(rec.net_amt, "100.00");
    assert_eq!(rec.due_date, "2024-04-01");
    assert_eq!(c.query_total_invoice_count(), 1);
    let history = c.query_invoice_history(text("INV-1")).unwrap();
    assert_eq!(history.len(), 1);
    assert!(history[0].same_as(&rec));
}

#[test]
fn create_refuses_each_empty_required_field() {
    let blank: [fn(&mut Invoice); 19] = [
        |i| i.record_id = String::new(),
        |i| i.vendor_id = String::new(),
        |i| i.action = String::new(),
        |i| i.creation_date = String::new(),
        |i| i.vendor_email = String::new(),
        |i| i.vendor_email_hash = String::new(),
        |i| i.vendor_mobile_hash = String::new(),
        |i| i.vendor_mobile = String::new(),
        |i| i.client_fname = String::new(),
        |i| i.client_lname = String::new(),
        |i| i.vendor_name = String::new(),
        |i| i.client_email = String::new(),
        |i| i.client_mobile = String::new(),
        |i| i.currency = String::new(),
        |i| i.fund_reception = String::new(),
        |i| i.lines = String::new(),
        |i| i.net_amt = String::new(),
        |i| i.last_txn_hash = String::new(),
        |i| i.due_date = String::new(),
    ];
    for make_blank in blank {
        let mut c = InvoiceContract::new();
        let mut bad = input("INV-1");
        make_blank(&mut bad);
        assert_eq!(c.create_invoice(bad, 1).unwrap_err(), InvoiceError::InvalidInput);
        assert_eq!(c.query_total_invoice_count(), 0);
    }
}

#[test]
fn create_accepts_empty_fields_that_are_not_required() {
    let mut c = InvoiceContract::new();
    let mut sparse = input("INV-1");
    sparse.record_type = String::new();
    sparse.previous_txn_hash = String::new();
    sparse.deleted_comments = String::new();
    sparse.tracking = Track::blank();
    sparse.financing_references = Vec::new();
    assert!(c.create_invoice(sparse, 1).is_ok());
}

#[test]
fn invalid_input_is_reported_before_a_taken_identifier() {
    let mut c = created("INV-1");
    let mut bad = input("INV-1");
    bad.currency = String::new();
    assert_eq!(c.create_invoice(bad, 2).unwrap_err(), InvoiceError::InvalidInput);
}

#[test]
fn duplicate_create_is_refused_and_changes_nothing() {
    let mut c = created("INV-1");
    c.ack_invoice(text("INV-1"), text("ack"), text("h1"), 11).unwrap();
    let before = c.query_invoice(text("INV-1")).unwrap();
    let mut other = input("INV-1");
    other.vendor_id = text("someone else");
    assert_eq!(c.create_invoice(other, 99).unwrap_err(), InvoiceError::AlreadyExists);
    let after = c.query_invoice(text("INV-1")).unwrap();
    assert!(after.same_as(&before));
    assert_eq!(after.vendor_id, "V-7");
    assert_eq!(c.query_invoice_history(text("INV-1")).unwrap().len(), 2);
    assert_eq!(c.query_total_invoice_count(), 1);
}

#[test]
fn acknowledge_sets_the_flag_and_rotates_the_hash() {
    let mut c = created("INV-1");
    let receipt = c.ack_invoice(text("INV-1"), text("ack"), text("h1"), 11).unwrap();
    assert_eq!(receipt.message, "Invoice acknowledged and updated");
    assert_eq!(receipt.notification, Notification::Acknowledged);
    assert_eq!(receipt.record_id, "INV-1");
    let rec = c.query_invoice(text("INV-1")).unwrap();
    assert_eq!(flags(&rec), [true, false, false, false, false, false, false, false]);
    assert_eq!(rec.action, "ack");
    assert_eq!(rec.previous_txn_hash, "h0");
    assert_eq!(rec.last_txn_hash, "h1");
    assert_eq!(rec.last_modified_at, 11);
    assert_eq!(rec.vendor_id, "V-7");
}

#[test]
fn acknowledge_twice_is_an_acknowledgement_mismatch() {
    let mut c = acknowledged("INV-1");
    assert_eq!(
        c.ack_invoice(text("INV-1"), text("ack"), text("h2"), 12).unwrap_err(),
        InvoiceError::AcknowledgementMismatch
    );
    let rec = c.query_invoice(text("INV-1")).unwrap();
    assert_eq!(rec.last_txn_hash, "h1");
    assert_eq!(c.query_invoice_history(text("INV-1")).unwrap().len(), 2);
}

#[test]
fn transitions_refuse_empty_texts() {
    let mut c = acknowledged("INV-1");
    let e = InvoiceError::InvalidInput;
    assert_eq!(c.ack_invoice(text(""), text("a"), text("h"), 1).unwrap_err(), e);
    assert_eq!(c.ack_invoice(text("INV-1"), text(""), text("h"), 1).unwrap_err(), e);
    assert_eq!(c.ack_invoice(text("INV-1"), text("a"), text(""), 1).unwrap_err(), e);
    assert_eq!(c.paid_invoice(text("INV-1"), text(""), text("h"), 1).unwrap_err(), e);
    assert_eq!(c.reject_invoice(text("INV-1"), text("a"), text(""), 1).unwrap_err(), e);
    assert_eq!(c.void_invoice(text(""), text("a"), text("h"), 1).unwrap_err(), e);
    assert_eq!(
        c.payment_confirmation_invoice(text("INV-1"), text(""), text("h"), 1).unwrap_err(),
        e
    );
    assert_eq!(
        c.finance_invoice(text("INV-1"), text(""), text("a"), text("h"), 1).unwrap_err(),
        e
    );
    assert_eq!(
        c.finance_invoice(text("INV-1"), text("F1"), text(""), text("h"), 1).unwrap_err(),
        e
    );
    assert_eq!(
        c.finance_invoice(text("INV-1"), text("F1"), text("a"), text(""), 1).unwrap_err(),
        e
    );
    assert_eq!(
        c.finance_invoice(text(""), text("F1"), text("a"), text("h"), 1).unwrap_err(),
        e
    );
    assert_eq!(c.query_invoice_history(text("INV-1")).unwrap().len(), 2);
}

#[test]
fn invalid_input_is_reported_before_a_missing_record() {
    let mut c = InvoiceContract::new();
    assert_eq!(
        c.ack_invoice(text("nobody"), text(""), text("h"), 1).unwrap_err(),
        InvoiceError::InvalidInput
    );
}

#[test]
fn transitions_on_a_missing_record_are_not_found() {
    let mut c = created("INV-1");
    let e = InvoiceError::NotFound;
    assert_eq!(c.ack_invoice(text("INV-2"), text("a"), text("h"), 1).unwrap_err(), e);
    assert_eq!(c.paid_invoice(text("INV-2"), text("a"), text("h"), 1).unwrap_err(), e);
    assert_eq!(c.reject_invoice(text("INV-2"), text("a"), text("h"), 1).unwrap_err(), e);
    assert_eq!(c.void_invoice(text("INV-2"), text("a"), text("h"), 1).unwrap_err(), e);
    assert_eq!(
        c.finance_invoice(text("INV-2"), text("F"), text("a"), text("h"), 1).unwrap_err(),
        e
    );
    assert_eq!(
        c.payment_confirmation_invoice(text("INV-2"), text("a"), text("h"), 1).unwrap_err(),
        e
    );
    assert_eq!(
        c.update_invoice_tracking(
            text("INV-2"),
            text("s"),
            text("s"),
            text("m"),
            text("k"),
            text("e"),
            text("t")
        )
        .unwrap_err(),
        e
    );
    // An identifier that differs only in case, or by a prefix, is another one.
    assert_eq!(c.ack_invoice(text("inv-1"), text("a"), text("h"), 1).unwrap_err(), e);
    assert_eq!(c.ack_invoice(text("INV-"), text("a"), text("h"), 1).unwrap_err(), e);
    assert_eq!(c.ack_invoice(text("INV-10"), text("a"), text("h"), 1).unwrap_err(), e);
}

#[test]
fn a_fresh_record_must_be_acknowledged_first() {
    let e = InvoiceError::AcknowledgementMismatch;
    let mut c = created("INV-1");
    assert_eq!(c.paid_invoice(text("INV-1"), text("a"), text("h"), 1).unwrap_err(), e);
    assert_eq!(c.reject_invoice(text("INV-1"), text("a"), text("h"), 1).unwrap_err(), e);
    assert_eq!(c.void_invoice(text("INV-1"), text("a"), text("h"), 1).unwrap_err(), e);
    assert_eq!(
        c.finance_invoice(text("INV-1"), text("F1"), text("a"), text("h"), 1).unwrap_err(),
        e
    );
    // Confirmation does not look at the acknowledgement: it misses the payment.
    assert_eq!(
        c.payment_confirmation_invoice(text("INV-1"), text("a"), text("h"), 1).unwrap_err(),
        InvoiceError::PaidMismatch
    );
    assert_eq!(flags(&c.query_invoice(text("INV-1")).unwrap()), [false; 8]);
}

#[test]
fn mark_paid_sets_paid() {
    let mut c = acknowledged("INV-1");
    let receipt = c.paid_invoice(text("INV-1"), text("pay"), text("h2"), 12).unwrap();
    assert_eq!(receipt.message, "Invoice paid and updated");
    assert_eq!(receipt.notification, Notification::Paid);
    let rec = c.query_invoice(text("INV-1")).unwrap();
    assert_eq!(flags(&rec), [true, false, true, false, false, false, false, false]);
    assert_eq!(rec.action, "pay");
    assert_eq!(rec.previous_txn_hash, "h1");
    assert_eq!(rec.last_txn_hash, "h2");
    assert_eq!(rec.last_modified_at, 12);
}

#[test]
fn reject_sets_rejected() {
    let mut c = acknowledged("INV-1");
    let receipt = c.reject_invoice(text("INV-1"), text("no"), text("h2"), 12).unwrap();
    assert_eq!(receipt.message, "Invoice rejected and updated");
    assert_eq!(receipt.notification, Notification::Rejected);
    let rec = c.query_invoice(text("INV-1")).unwrap();
    assert_eq!(flags(&rec), [true, false, false, true, false, false, false, false]);
    assert_eq!(rec.previous_txn_hash, "h1");
    assert_eq!(rec.last_txn_hash, "h2");
}

#[test]
fn void_sets_voided() {
    let mut c = acknowledged("INV-1");
    let receipt = c.void_invoice(text("INV-1"), text("void"), text("h2"), 12).unwrap();
    assert_eq!(receipt.message, "Invoice voided and updated");
    assert_eq!(receipt.notification, Notification::Voided);
    let rec = c.query_invoice(text("INV-1")).unwrap();
    assert_eq!(flags(&rec), [true, false, false, false, true, false, false, false]);
}

#[test]
fn after_payment_rejection_and_voiding_are_paid_mismatches() {
    let mut c = acknowledged("INV-1");
    c.paid_invoice(text("INV-1"), text("pay"), text("h2"), 12).unwrap();
    let e = InvoiceError::PaidMismatch;
    assert_eq!(c.reject_invoice(text("INV-1"), text("a"), text("h"), 1).unwrap_err(), e);
    assert_eq!(c.void_invoice(text("INV-1"), text("a"), text("h"), 1).unwrap_err(), e);
    assert_eq!(c.paid_invoice(text("INV-1"), text("a"), text("h"), 1).unwrap_err(), e);
    assert_eq!(
        c.finance_invoice(text("INV-1"), text("F1"), text("a"), text("h"), 1).unwrap_err(),
        e
    );
    // Still so after the payment was confirmed.
    c.payment_confirmation_invoice(text("INV-1"), text("ok"), text("h3"), 13).unwrap();
    assert_eq!(c.reject_invoice(text("INV-1"), text("a"), text("h"), 1).unwrap_err(), e);
    assert_eq!(c.void_invoice(text("INV-1"), text("a"), text("h"), 1).unwrap_err(), e);
}

#[test]
fn after_rejection_payment_and_voiding_are_rejected_mismatches() {
    let mut c = acknowledged("INV-1");
    c.reject_invoice(text("INV-1"), text("no"), text("h2"), 12).unwrap();
    let e = InvoiceError::RejectedMismatch;
    assert_eq!(c.paid_invoice(text("INV-1"), text("a"), text("h"), 1).unwrap_err(), e);
    assert_eq!(c.void_invoice(text("INV-1"), text("a"), text("h"), 1).unwrap_err(), e);
    assert_eq!(c.reject_invoice(text("INV-1"), text("a"), text("h"), 1).unwrap_err(), e);
    assert_eq!(
        c.finance_invoice(text("INV-1"), text("F1"), text("a"), text("h"), 1).unwrap_err(),
        e
    );
    assert_eq!(
        c.payment_confirmation_invoice(text("INV-1"), text("a"), text("h"), 1).unwrap_err(),
        InvoiceError::PaidMismatch
    );
}

#[test]
fn after_voiding_payment_and_rejection_are_voided_mismatches() {
    let mut c = acknowledged("INV-1");
    c.void_invoice(text("INV-1"), text("void"), text("h2"), 12).unwrap();
    let e = InvoiceError::VoidedMismatch;
    assert_eq!(c.paid_invoice(text("INV-1"), text("a"), text("h"), 1).unwrap_err(), e);
    assert_eq!(c.reject_invoice(text("INV-1"), text("a"), text("h"), 1).unwrap_err(), e);
    assert_eq!(c.void_invoice(text("INV-1"), text("a"), text("h"), 1).unwrap_err(), e);
    assert_eq!(
        c.finance_invoice(text("INV-1"), text("F1"), text("a"), text("h"), 1).unwrap_err(),
        e
    );
}

#[test]
fn financing_is_repeatable_under_distinct_references() {
    let mut c = acknowledged("INV-1");
    let receipt =
        c.finance_invoice(text("INV-1"), text("F1"), text("fin"), text("h2"), 12).unwrap();
    assert_eq!(receipt.message, "Invoice finance request initiated");
    assert_eq!(receipt.notification, Notification::Financed);
    let rec = c.query_invoice(text("INV-1")).unwrap();
    assert_eq!(flags(&rec), [true, true, false, false, false, false, false, false]);
    assert_eq!(rec.financing_references, vec![text("F1")]);
    assert_eq!(rec.previous_txn_hash, "h1");
    assert_eq!(rec.last_txn_hash, "h2");
    assert_eq!(rec.last_modified_at, 12);

    assert_eq!(
        c.finance_invoice(text("INV-1"), text("F1"), text("fin"), text("h3"), 13).unwrap_err(),
        InvoiceError::AlreadyFinanced
    );
    let rec = c.query_invoice(text("INV-1")).unwrap();
    assert_eq!(rec.financing_references, vec![text("F1")]);
    assert_eq!(rec.last_txn_hash, "h2");

    c.finance_invoice(text("INV-1"), text("F2"), text("fin"), text("h3"), 13).unwrap();
    c.finance_invoice(text("INV-1"), text("f1"), text("fin"), text("h4"), 14).unwrap();
    assert_eq!(
        c.finance_invoice(text("INV-1"), text("F2"), text("fin"), text("h5"), 15).unwrap_err(),
        InvoiceError::AlreadyFinanced
    );
    let rec = c.query_invoice(text("INV-1")).unwrap();
    assert_eq!(rec.financing_references, vec![text("F1"), text("F2"), text("f1")]);
    assert_eq!(rec.previous_txn_hash, "h3");
    assert_eq!(rec.last_txn_hash, "h4");
    // creation, acknowledgement and three accepted financings
    assert_eq!(c.query_invoice_history(text("INV-1")).unwrap().len(), 5);
}

#[test]
fn a_financed_record_takes_no_outcome() {
    let mut c = acknowledged("INV-1");
    c.finance_invoice(text("INV-1"), text("F1"), text("fin"), text("h2"), 12).unwrap();
    let e = InvoiceError::FinanceMismatch;
    assert_eq!(c.paid_invoice(text("INV-1"), text("a"), text("h"), 1).unwrap_err(), e);
    assert_eq!(c.reject_invoice(text("INV-1"), text("a"), text("h"), 1).unwrap_err(), e);
    assert_eq!(c.void_invoice(text("INV-1"), text("a"), text("h"), 1).unwrap_err(), e);
    assert_eq!(
        c.payment_confirmation_invoice(text("INV-1"), text("a"), text("h"), 1).unwrap_err(),
        InvoiceError::PaidMismatch
    );
    assert_eq!(
        c.ack_invoice(text("INV-1"), text("a"), text("h"), 1).unwrap_err(),
        InvoiceError::AcknowledgementMismatch
    );
}

#[test]
fn confirmation_needs_a_payment_and_happens_once() {
    let mut c = acknowledged("INV-1");
    assert_eq!(
        c.payment_confirmation_invoice(text("INV-1"), text("ok"), text("h"), 1).unwrap_err(),
        InvoiceError::PaidMismatch
    );
    c.paid_invoice(text("INV-1"), text("pay"), text("h2"), 12).unwrap();
    let receipt =
        c.payment_confirmation_invoice(text("INV-1"), text("ok"), text("h3"), 13).unwrap();
    assert_eq!(receipt.message, "Invoice payment confirmation and updated");
    assert_eq!(receipt.notification, Notification::PaymentConfirmed);
    let rec = c.query_invoice(text("INV-1")).unwrap();
    assert_eq!(flags(&rec), [true, false, true, false, false, true, false, false]);
    assert_eq!(rec.action, "ok");
    assert_eq!(rec.previous_txn_hash, "h2");
    assert_eq!(rec.last_txn_hash, "h3");
    assert_eq!(rec.last_modified_at, 13);
    assert_eq!(
        c.payment_confirmation_invoice(text("INV-1"), text("ok"), text("h4"), 14).unwrap_err(),
        InvoiceError::PaymentConfirmationMismatch
    );
    assert_eq!(c.query_invoice(text("INV-1")).unwrap().last_txn_hash, "h3");
}

#[test]
fn tracking_update_replaces_the_metadata_and_nothing_else() {
    let mut c = acknowledged("INV-1");
    c.paid_invoice(text("INV-1"), text("pay"), text("h2"), 12).unwrap();
    let before = c.query_invoice(text("INV-1")).unwrap();
    let receipt = c
        .update_invoice_tracking(
            text("INV-1"),
            text("subject"),
            text("sent"),
            text("m-1"),
            text("k-1"),
            text("delivered"),
            text("ada@example.com"),
        )
        .unwrap();
    assert_eq!(receipt.message, "Invoice tracking updated");
    assert_eq!(receipt.notification, Notification::TrackingUpdated);
    assert_eq!(receipt.record_id, "INV-1");
    let after = c.query_invoice(text("INV-1")).unwrap();
    assert_eq!(after.tracking.subject, "subject");
    assert_eq!(after.tracking.status, "sent");
    assert_eq!(after.tracking.msg_id, "m-1");
    assert_eq!(after.tracking.api_key_id, "k-1");
    assert_eq!(after.tracking.event, "delivered");
    assert_eq!(after.tracking.to, "ada@example.com");
    assert_eq!(flags(&after), flags(&before));
    assert_eq!(after.action, "pay");
    assert_eq!(after.previous_txn_hash, "h1");
    assert_eq!(after.last_txn_hash, "h2");
    assert_eq!(after.last_modified_at, 12);
    let mut expected = before.clone();
    expected.tracking = after.tracking.clone();
    assert!(after.same_as(&expected));
    assert_eq!(c.query_invoice_history(text("INV-1")).unwrap().len(), 4);
}

#[test]
fn tracking_update_succeeds_in_every_stage() {
    let mut c = InvoiceContract::new();
    for id in ["A", "B", "C", "D", "E", "F", "G"] {
        c.create_invoice(input(id), 1).unwrap();
    }
    for id in ["B", "C", "D", "E", "F", "G"] {
        c.ack_invoice(text(id), text("a"), text("h"), 2).unwrap();
    }
    c.finance_invoice(text("C"), text("F1"), text("a"), text("h"), 3).unwrap();
    c.paid_invoice(text("D"), text("a"), text("h"), 3).unwrap();
    c.reject_invoice(text("E"), text("a"), text("h"), 3).unwrap();
    c.void_invoice(text("F"), text("a"), text("h"), 3).unwrap();
    c.paid_invoice(text("G"), text("a"), text("h"), 3).unwrap();
    c.payment_confirmation_invoice(text("G"), text("a"), text("h"), 4).unwrap();
    for id in ["A", "B", "C", "D", "E", "F", "G"] {
        let before = flags(&c.query_invoice(text(id)).unwrap());
        let r = c.update_invoice_tracking(
            text(id),
            String::new(),
            String::new(),
            String::new(),
            String::new(),
            text("opened"),
            String::new(),
        );
        assert!(r.is_ok());
        let rec = c.query_invoice(text(id)).unwrap();
        assert_eq!(flags(&rec), before);
        assert_eq!(rec.tracking.event, "opened");
        assert_eq!(rec.tracking.subject, "");
    }
}

#[test]
fn tracking_update_needs_an_identifier_and_an_event() {
    let mut c = created("INV-1");
    let r = c.update_invoice_tracking(
        text("INV-1"),
        text("s"),
        text("s"),
        text("m"),
        text("k"),
        String::new(),
        text("t"),
    );
    assert_eq!(r.unwrap_err(), InvoiceError::InvalidInput);
    let r = c.update_invoice_tracking(
        String::new(),
        text("s"),
        text("s"),
        text("m"),
        text("k"),
        text("e"),
        text("t"),
    );
    assert_eq!(r.unwrap_err(), InvoiceError::InvalidInput);
    assert!(c.query_invoice(text("INV-1")).unwrap().tracking.same_as(&Track::blank()));
    assert_eq!(c.query_invoice_history(text("INV-1")).unwrap().len(), 1);
}

#[test]
fn history_holds_one_snapshot_per_accepted_operation() {
    let mut c = created("INV-1");
    c.create_invoice(input("INV-2"), 20).unwrap();
    c.ack_invoice(text("INV-1"), text("ack"), text("h1"), 11).unwrap();
    // refused: leaves no trace
    assert!(c.ack_invoice(text("INV-1"), text("ack"), text("hx"), 12).is_err());
    assert!(c.create_invoice(input("INV-1"), 12).is_err());
    c.finance_invoice(text("INV-1"), text("F1"), text("fin"), text("h2"), 13).unwrap();
    assert!(c.paid_invoice(text("INV-1"), text("pay"), text("hy"), 14).is_err());
    c.update_invoice_tracking(
        text("INV-1"),
        text("s"),
        text("st"),
        text("m"),
        text("k"),
        text("e"),
        text("t"),
    )
    .unwrap();

    let history = c.query_invoice_history(text("INV-1")).unwrap();
    assert_eq!(history.len(), 4);
    assert_eq!(flags(&history[0]), [false; 8]);
    assert_eq!(history[0].last_txn_hash, "h0");
    assert_eq!(history[0].previous_txn_hash, "");
    assert_eq!(history[0].last_modified_at, 10);
    assert!(history[1].acknowledged && !history[1].financed);
    assert_eq!(history[1].last_txn_hash, "h1");
    assert_eq!(history[1].previous_txn_hash, "h0");
    assert!(history[2].financed);
    assert_eq!(history[2].financing_references, vec![text("F1")]);
    assert_eq!(history[2].last_txn_hash, "h2");
    assert_eq!(history[2].previous_txn_hash, "h1");
    assert!(history[2].tracking.same_as(&Track::blank()));
    assert_eq!(history[3].tracking.event, "e");
    assert_eq!(history[3].last_txn_hash, "h2");
    for snapshot in &history {
        assert_eq!(snapshot.record_id, "INV-1");
    }
    let current = c.query_invoice(text("INV-1")).unwrap();
    assert!(history[3].same_as(&current));

    let other = c.query_invoice_history(text("INV-2")).unwrap();
    assert_eq!(other.len(), 1);
    assert!(other[0].same_as(&c.query_invoice(text("INV-2")).unwrap()));
}

#[test]
fn lifecycle_walkthrough() {
    let mut c = InvoiceContract::new();
    assert!(c.create_invoice(input("INV-1"), 1).is_ok());
    assert_eq!(flags(&c.query_invoice(text("INV-1")).unwrap()), [false; 8]);
    assert!(c.ack_invoice(text("INV-1"), text("ack"), text("h1"), 2).is_ok());
    assert!(c.query_invoice(text("INV-1")).unwrap().acknowledged);
    assert_eq!(
        c.ack_invoice(text("INV-1"), text("ack"), text("h2"), 3).unwrap_err(),
        InvoiceError::AcknowledgementMismatch
    );
    assert!(c.finance_invoice(text("INV-1"), text("F1"), text("fin"), text("h3"), 4).is_ok());
    assert_eq!(
        c.finance_invoice(text("INV-1"), text("F1"), text("fin"), text("h4"), 5).unwrap_err(),
        InvoiceError::AlreadyFinanced
    );
    assert!(c.finance_invoice(text("INV-1"), text("F2"), text("fin"), text("h5"), 6).is_ok());
    assert_eq!(
        c.query_invoice(text("INV-1")).unwrap().financing_references,
        vec![text("F1"), text("F2")]
    );
    // Payment expects a record that is not financed.
    assert_eq!(
        c.paid_invoice(text("INV-1"), text("pay"), text("h6"), 7).unwrap_err(),
        InvoiceError::FinanceMismatch
    );
    assert_eq!(
        c.reject_invoice(text("INV-1"), text("no"), text("h7"), 8).unwrap_err(),
        InvoiceError::FinanceMismatch
    );
}

#[test]
fn paid_then_reject_is_a_paid_mismatch() {
    let mut c = InvoiceContract::new();
    assert!(c.create_invoice(input("INV-1"), 1).is_ok());
    assert!(c.ack_invoice(text("INV-1"), text("ack"), text("h1"), 2).is_ok());
    assert!(c.paid_invoice(text("INV-1"), text("pay"), text("h2"), 3).is_ok());
    assert_eq!(
        c.reject_invoice(text("INV-1"), text("no"), text("h3"), 4).unwrap_err(),
        InvoiceError::PaidMismatch
    );
}

#[test]
fn operations_on_one_record_leave_the_others_alone() {
    let mut c = InvoiceContract::new();
    c.create_invoice(input("B"), 1).unwrap();
    c.create_invoice(input("A"), 2).unwrap();
    c.create_invoice(input("C"), 3).unwrap();
    let a = c.query_invoice(text("A")).unwrap();
    let cc = c.query_invoice(text("C")).unwrap();
    c.ack_invoice(text("B"), text("ack"), text("h1"), 4).unwrap();
    c.reject_invoice(text("B"), text("no"), text("h2"), 5).unwrap();
    assert!(c.query_invoice(text("A")).unwrap().same_as(&a));
    assert!(c.query_invoice(text("C")).unwrap().same_as(&cc));
    assert_eq!(c.query_invoice_history(text("A")).unwrap().len(), 1);
    assert_eq!(c.query_invoice_history(text("B")).unwrap().len(), 3);
    assert_eq!(c.query_invoice_history(text("C")).unwrap().len(), 1);
    assert_eq!(c.query_total_invoice_count(), 3);
}

#[test]
fn texts_outside_ascii_are_kept_as_they_are() {
    let mut c = InvoiceContract::new();
    c.create_invoice(input("Rechnung-É"), 1).unwrap();
    c.ack_invoice(text("Rechnung-É"), text("bestätigt"), text("h1"), 2).unwrap();
    let rec = c.query_invoice(text("Rechnung-É")).unwrap();
    assert_eq!(rec.action, "bestätigt");
    assert_eq!(
        c.ack_invoice(text("Rechnung-E"), text("a"), text("h"), 3).unwrap_err(),
        InvoiceError::NotFound
    );
}
