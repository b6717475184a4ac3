use invoice::contract::{InvoiceContract, Selector};
use invoice::error::InvoiceError;
use invoice::record::{Invoice, Track};

fn s(t: &str) -> String {
    t.to_string()
}

fn entry(id: &str, txn_hash: &str, email_hash: &str, mobile_hash: &str) -> Invoice {
    Invoice {
        record_type: String::new(),
        vendor_id: s("V-1"),
        record_id: s(id),
        creation_date: s("2024-03-01"),
        vendor_email: s("vendor@example.com"),
        action: s("create"),
        acknowledged: false,
        financed: false,
        financing_references: Vec::new(),
        vendor_email_hash: s(email_hash),
        vendor_mobile_hash: s(mobile_hash),
        vendor_mobile: s("555-0100"),
        client_fname: s("Ada"),
        client_lname: s("Lovelace"),
        vendor_name: s("Vendor Ltd"),
        client_email: s("ada@example.com"),
        client_mobile: s("555-0199"),
        currency: s("EUR"),
        fund_reception: s("bank"),
        lines: s("[]"),
        net_amt: s("100.00"),
        paid: false,
        rejected: false,
        voided: false,
        sent_copy_deleted: false,
        received_copy_deleted: false,
        last_modified_at: 0,
        previous_txn_hash: String::new(),
        last_txn_hash: s(txn_hash),
        due_date: s("2024-04-01"),
        deleted_comments: String::new(),
        payment_confirmed: false,
        tracking: Track::blank(),
    }
}

fn ids(records: &[Invoice]) -> Vec<String> {
    records.iter().map(|r| r.record_id.clone()).collect()
}

fn sample() -> InvoiceContract {
    let mut c = InvoiceContract::new();
    c.create_invoice(entry("b", "t1", "e1", "m1"), 1).unwrap();
    c.create_invoice(entry("a", "t2", "e1", "m2"), 2).unwrap();
    c.create_invoice(entry("c", "t1", "e2", "m2"), 3).unwrap();
    c
}

/// The parts of a service: its records in order, and the history of each.
fn parts(c: &InvoiceContract) -> (Vec<Invoice>, Vec<Vec<Invoice>>) {
    let records = c.query_all_invoices().unwrap();
    let histories =
        records.iter().map(|r| c.query_invoice_history(r.record_id.clone()).unwrap()).collect();
    (records, histories)
}

#[test]
fn an_empty_service_finds_nothing() {
    let c = InvoiceContract::new();
    let e = InvoiceError::NotFound;
    assert_eq!(c.query_total_invoice_count(), 0);
    assert_eq!(c.query_invoice(s("a")).unwrap_err(), e);
    assert_eq!(c.query_invoice(String::new()).unwrap_err(), e);
    assert_eq!(c.query_all_invoices().unwrap_err(), e);
    assert_eq!(c.query_invoice_history(s("a")).unwrap_err(), e);
    assert_eq!(c.query_by_txnhash(s("t1")).unwrap_err(), e);
    assert_eq!(c.query_by_vendor_emailhash(s("e1")).unwrap_err(), e);
    assert_eq!(c.query_by_vendor_mobilehash(s("m1")).unwrap_err(), e);
}

#[test]
fn query_invoice_finds_by_exact_identifier() {
    let c = sample();
    assert_eq!(c.query_invoice(s("a")).unwrap().last_txn_hash, "t2");
    assert_eq!(c.query_invoice(s("b")).unwrap().last_txn_hash, "t1");
    assert_eq!(c.query_invoice(s("c")).unwrap().vendor_email_hash, "e2");
    assert_eq!(c.query_invoice(s("d")).unwrap_err(), InvoiceError::NotFound);
    assert_eq!(c.query_invoice(s("A")).unwrap_err(), InvoiceError::NotFound);
    assert_eq!(c.query_invoice(s("ab")).unwrap_err(), InvoiceError::NotFound);
    assert_eq!(c.query_invoice(String::new()).unwrap_err(), InvoiceError::NotFound);
}

#[test]
fn query_all_lists_in_ascending_order_of_identifier() {
    let c = sample();
    let all = c.query_all_invoices().unwrap();
    assert_eq!(ids(&all), vec![s("a"), s("b"), s("c")]);
    assert_eq!(all[0].last_modified_at, 2);
    assert_eq!(all[1].last_modified_at, 1);
    assert_eq!(all[2].last_modified_at, 3);
    assert_eq!(c.query_total_invoice_count(), 3);
}

#[test]
fn identifiers_are_ordered_by_their_bytes() {
    let mut c = InvoiceContract::new();
    for id in ["b", "ab", "é", "B", "a", "z", "10", "9", "a b", "abc", "~"] {
        c.create_invoice(entry(id, "t", "e", "m"), 1).unwrap();
    }
    let all = c.query_all_invoices().unwrap();
    let expected: Vec<String> =
        ["10", "9", "B", "a", "a b", "ab", "abc", "b", "z", "~", "é"].iter().map(|t| s(t)).collect();
    assert_eq!(ids(&all), expected);
    let mut by_bytes = expected.clone();
    by_bytes.sort_by(|x, y| x.as_bytes().cmp(y.as_bytes()));
    assert_eq!(by_bytes, expected);
    assert_eq!(c.query_total_invoice_count(), 11);
    for id in &expected {
        assert_eq!(&c.query_invoice(id.clone()).unwrap().record_id, id);
    }
}

#[test]
fn query_by_txnhash_matches_the_current_hash_only() {
    let mut c = sample();
    assert_eq!(ids(&c.query_by_txnhash(s("t1")).unwrap()), vec![s("b"), s("c")]);
    assert_eq!(ids(&c.query_by_txnhash(s("t2")).unwrap()), vec![s("a")]);
    assert_eq!(c.query_by_txnhash(s("t3")).unwrap_err(), InvoiceError::NotFound);
    assert_eq!(c.query_by_txnhash(s("T1")).unwrap_err(), InvoiceError::NotFound);
    assert_eq!(c.query_by_txnhash(String::new()).unwrap_err(), InvoiceError::NotFound);

    c.ack_invoice(s("b"), s("ack"), s("t3"), 4).unwrap();
    assert_eq!(ids(&c.query_by_txnhash(s("t1")).unwrap()), vec![s("c")]);
    let hits = c.query_by_txnhash(s("t3")).unwrap();
    assert_eq!(ids(&hits), vec![s("b")]);
    assert_eq!(hits[0].previous_txn_hash, "t1");
    assert!(hits[0].acknowledged);
}

#[test]
fn query_by_vendor_emailhash_matches_exactly() {
    let c = sample();
    assert_eq!(ids(&c.query_by_vendor_emailhash(s("e1")).unwrap()), vec![s("a"), s("b")]);
    assert_eq!(ids(&c.query_by_vendor_emailhash(s("e2")).unwrap()), vec![s("c")]);
    assert_eq!(c.query_by_vendor_emailhash(s("e")).unwrap_err(), InvoiceError::NotFound);
    assert_eq!(c.query_by_vendor_emailhash(s("m1")).unwrap_err(), InvoiceError::NotFound);
}

#[test]
fn query_by_vendor_mobilehash_matches_exactly() {
    let c = sample();
    assert_eq!(ids(&c.query_by_vendor_mobilehash(s("m2")).unwrap()), vec![s("a"), s("c")]);
    assert_eq!(ids(&c.query_by_vendor_mobilehash(s("m1")).unwrap()), vec![s("b")]);
    assert_eq!(c.query_by_vendor_mobilehash(s("m22")).unwrap_err(), InvoiceError::NotFound);
    assert_eq!(c.query_by_vendor_mobilehash(s("e1")).unwrap_err(), InvoiceError::NotFound);
}

#[test]
fn select_is_what_the_three_queries_run() {
    let c = sample();
    assert_eq!(ids(&c.select(Selector::TxnHash, &s("t1")).unwrap()), vec![s("b"), s("c")]);
    assert_eq!(ids(&c.select(Selector::VendorEmailHash, &s("e1")).unwrap()), vec![s("a"), s("b")]);
    assert_eq!(ids(&c.select(Selector::VendorMobileHash, &s("m2")).unwrap()), vec![s("a"), s("c")]);
    assert_eq!(c.select(Selector::TxnHash, &s("e1")).unwrap_err(), InvoiceError::NotFound);
}

#[test]
fn queries_change_nothing() {
    let c = sample();
    let (records, histories) = parts(&c);
    let _ = c.query_invoice(s("a"));
    let _ = c.query_invoice(s("zz"));
    let _ = c.query_all_invoices();
    let _ = c.query_invoice_history(s("b"));
    let _ = c.query_by_txnhash(s("t1"));
    let _ = c.query_by_vendor_emailhash(s("e1"));
    let _ = c.query_by_vendor_mobilehash(s("none"));
    let _ = c.query_total_invoice_count();
    let (records_after, histories_after) = parts(&c);
    assert_eq!(records.len(), records_after.len());
    for i in 0..records.len() {
        assert!(records[i].same_as(&records_after[i]));
        assert_eq!(histories[i].len(), histories_after[i].len());
    }
}

#[test]
fn history_of_an_unknown_identifier_is_not_found() {
    let c = sample();
    assert_eq!(c.query_invoice_history(s("d")).unwrap_err(), InvoiceError::NotFound);
    assert_eq!(c.query_invoice_history(s("a")).unwrap().len(), 1);
}

#[test]
fn restore_takes_over_the_parts_of_a_service() {
    let mut c = sample();
    c.ack_invoice(s("b"), s("ack"), s("t3"), 4).unwrap();
    c.finance_invoice(s("b"), s("F1"), s("fin"), s("t4"), 5).unwrap();
    let (records, histories) = parts(&c);
    let mut restored = InvoiceContract::restore(records, histories).unwrap();
    assert_eq!(restored.query_total_invoice_count(), 3);
    assert_eq!(ids(&restored.query_all_invoices().unwrap()), vec![s("a"), s("b"), s("c")]);
    assert!(restored.query_invoice(s("b")).unwrap().same_as(&c.query_invoice(s("b")).unwrap()));
    assert_eq!(restored.query_invoice_history(s("b")).unwrap().len(), 3);
    // The restored service goes on where the other stood.
    assert_eq!(
        restored.finance_invoice(s("b"), s("F1"), s("fin"), s("t5"), 6).unwrap_err(),
        InvoiceError::AlreadyFinanced
    );
    assert_eq!(
        restored.create_invoice(entry("a", "t", "e", "m"), 7).unwrap_err(),
        InvoiceError::AlreadyExists
    );
    restored.ack_invoice(s("a"), s("ack"), s("t6"), 8).unwrap();
    assert_eq!(restored.query_invoice_history(s("a")).unwrap().len(), 2);
}

#[test]
fn restore_accepts_no_parts_at_all() {
    let restored = InvoiceContract::restore(Vec::new(), Vec::new()).unwrap();
    assert_eq!(restored.query_total_invoice_count(), 0);
}

#[test]
fn restore_refuses_parts_that_no_service_produces() {
    let c = sample();

    // fewer histories than records
    let (records, mut histories) = parts(&c);
    histories.pop();
    assert!(InvoiceContract::restore(records, histories).is_none());

    // records out of order
    let (mut records, mut histories) = parts(&c);
    records.swap(0, 1);
    histories.swap(0, 1);
    assert!(InvoiceContract::restore(records, histories).is_none());

    // an identifier twice
    let (mut records, mut histories) = parts(&c);
    records[1] = records[0].clone();
    histories[1] = histories[0].clone();
    assert!(InvoiceContract::restore(records, histories).is_none());

    // an empty history
    let (records, mut histories) = parts(&c);
    histories[2].clear();
    assert!(InvoiceContract::restore(records, histories).is_none());

    // a history that does not end in the current record
    let (mut records, histories) = parts(&c);
    records[0].action = s("something else");
    assert!(InvoiceContract::restore(records, histories).is_none());

    // a history of another record
    let (records, mut histories) = parts(&c);
    let foreign = histories[1][0].clone();
    histories[0].insert(0, foreign);
    assert!(InvoiceContract::restore(records, histories).is_none());

    // flags that the lifecycle does not produce
    let (mut records, mut histories) = parts(&c);
    records[0].paid = true;
    histories[0][0].paid = true;
    assert!(InvoiceContract::restore(records, histories).is_none());

    let (mut records, mut histories) = parts(&c);
    records[0].acknowledged = true;
    records[0].financed = true;
    histories[0][0] = records[0].clone();
    assert!(InvoiceContract::restore(records, histories).is_none());

    let (mut records, mut histories) = parts(&c);
    records[0].acknowledged = true;
    records[0].financed = true;
    records[0].financing_references = vec![s("F1"), s("F1")];
    histories[0][0] = records[0].clone();
    assert!(InvoiceContract::restore(records, histories).is_none());

    let (mut records, mut histories) = parts(&c);
    records[0].sent_copy_deleted = true;
    histories[0][0] = records[0].clone();
    assert!(InvoiceContract::restore(records, histories).is_none());

    let (mut records, mut histories) = parts(&c);
    records[0].record_type = s("Order");
    histories[0][0] = records[0].clone();
    assert!(InvoiceContract::restore(records, histories).is_none());

    // and the untouched parts are fine
    let (records, histories) = parts(&c);
    assert!(InvoiceContract::restore(records, histories).is_some());
}
