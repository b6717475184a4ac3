//! The invoice record, its tracking metadata, and their mathematical views.

use crate::text::{is_blank, same_text};
use vstd::prelude::*;

verus! {

/// Delivery and notification metadata attached to a record. It is replaced as
/// a whole and plays no part in the lifecycle.
#[derive(Debug)]
pub struct Track {
    pub subject: String,
    pub status: String,
    pub msg_id: String,
    pub api_key_id: String,
    pub event: String,
    pub to: String,
}

/// What a [`Track`] holds, as plain sequences of characters.
pub struct TrackView {
    pub subject: Seq<char>,
    pub status: Seq<char>,
    pub msg_id: Seq<char>,
    pub api_key_id: Seq<char>,
    pub event: Seq<char>,
    pub to: Seq<char>,
}

impl TrackView {
    /// Tracking metadata with every field empty, as a new record has it.
    pub open spec fn blank() -> TrackView {
        TrackView {
            subject: Seq::empty(),
            status: Seq::empty(),
            msg_id: Seq::empty(),
            api_key_id: Seq::empty(),
            event: Seq::empty(),
            to: Seq::empty(),
        }
    }
}

impl View for Track {
    type V = TrackView;

    open spec fn view(&self) -> TrackView {
        TrackView {
            subject: self.subject@,
            status: self.status@,
            msg_id: self.msg_id@,
            api_key_id: self.api_key_id@,
            event: self.event@,
            to: self.to@,
        }
    }
}

impl Clone for Track {
    fn clone(&self) -> (r: Self)
        ensures
            r@ == self@,
    {
        Track {
            subject: self.subject.clone(),
            status: self.status.clone(),
            msg_id: self.msg_id.clone(),
            api_key_id: self.api_key_id.clone(),
            event: self.event.clone(),
            to: self.to.clone(),
        }
    }
}

impl Track {
    /// Tracking metadata with every field empty.
    pub fn blank() -> (r: Track)
        ensures
            r@ == TrackView::blank(),
    {
        Track {
            subject: String::new(),
            status: String::new(),
            msg_id: String::new(),
            api_key_id: String::new(),
            event: String::new(),
            to: String::new(),
        }
    }

    /// Whether two values hold the same metadata.
    pub fn same_as(&self, other: &Track) -> (r: bool)
        ensures
            r == (self@ == other@),
    {
        same_text(&self.subject, &other.subject) && same_text(&self.status, &other.status)
            && same_text(&self.msg_id, &other.msg_id) && same_text(
            &self.api_key_id,
            &other.api_key_id,
        ) && same_text(&self.event, &other.event) && same_text(&self.to, &other.to)
    }
}

/// The views of a list of texts, in order.
pub open spec fn texts(v: Seq<String>) -> Seq<Seq<char>> {
    Seq::new(v.len(), |i: int| v[i]@)
}

/// An invoice record: who issued it to whom, what it is about, where it
/// stands in its lifecycle, and the last action taken on it.
#[derive(Debug)]
pub struct Invoice {
    /// Fixed at creation.
    pub record_type: String,
    pub vendor_id: String,
    /// The key under which the record is stored; never changes.
    pub record_id: String,
    pub creation_date: String,
    pub vendor_email: String,
    /// Label of the last action taken.
    pub action: String,
    pub acknowledged: bool,
    pub financed: bool,
    /// One reference per accepted financing, in the order they were accepted.
    pub financing_references: Vec<String>,
    pub vendor_email_hash: String,
    pub vendor_mobile_hash: String,
    pub vendor_mobile: String,
    pub client_fname: String,
    pub client_lname: String,
    pub vendor_name: String,
    pub client_email: String,
    pub client_mobile: String,
    pub currency: String,
    pub fund_reception: String,
    pub lines: String,
    pub net_amt: String,
    pub paid: bool,
    pub rejected: bool,
    pub voided: bool,
    pub sent_copy_deleted: bool,
    pub received_copy_deleted: bool,
    /// Time of the last lifecycle transition, as the host's clock gave it.
    pub last_modified_at: u64,
    /// The transaction hash that `last_txn_hash` replaced.
    pub previous_txn_hash: String,
    pub last_txn_hash: String,
    pub due_date: String,
    pub deleted_comments: String,
    pub payment_confirmed: bool,
    pub tracking: Track,
}

/// What an [`Invoice`] holds, as plain values.
pub struct InvoiceView {
    pub record_type: Seq<char>,
    pub vendor_id: Seq<char>,
    pub record_id: Seq<char>,
    pub creation_date: Seq<char>,
    pub vendor_email: Seq<char>,
    pub action: Seq<char>,
    pub acknowledged: bool,
    pub financed: bool,
    pub financing_references: Seq<Seq<char>>,
    pub vendor_email_hash: Seq<char>,
    pub vendor_mobile_hash: Seq<char>,
    pub vendor_mobile: Seq<char>,
    pub client_fname: Seq<char>,
    pub client_lname: Seq<char>,
    pub vendor_name: Seq<char>,
    pub client_email: Seq<char>,
    pub client_mobile: Seq<char>,
    pub currency: Seq<char>,
    pub fund_reception: Seq<char>,
    pub lines: Seq<char>,
    pub net_amt: Seq<char>,
    pub paid: bool,
    pub rejected: bool,
    pub voided: bool,
    pub sent_copy_deleted: bool,
    pub received_copy_deleted: bool,
    pub last_modified_at: u64,
    pub previous_txn_hash: Seq<char>,
    pub last_txn_hash: Seq<char>,
    pub due_date: Seq<char>,
    pub deleted_comments: Seq<char>,
    pub payment_confirmed: bool,
    pub tracking: TrackView,
}

impl View for Invoice {
    type V = InvoiceView;

    open spec fn view(&self) -> InvoiceView {
        InvoiceView {
            record_type: self.record_type@,
            vendor_id: self.vendor_id@,
            record_id: self.record_id@,
            creation_date: self.creation_date@,
            vendor_email: self.vendor_email@,
            action: self.action@,
            acknowledged: self.acknowledged,
            financed: self.financed,
            financing_references: texts(self.financing_references@),
            vendor_email_hash: self.vendor_email_hash@,
            vendor_mobile_hash: self.vendor_mobile_hash@,
            vendor_mobile: self.vendor_mobile@,
            client_fname: self.client_fname@,
            client_lname: self.client_lname@,
            vendor_name: self.vendor_name@,
            client_email: self.client_email@,
            client_mobile: self.client_mobile@,
            currency: self.currency@,
            fund_reception: self.fund_reception@,
            lines: self.lines@,
            net_amt: self.net_amt@,
            paid: self.paid,
            rejected: self.rejected,
            voided: self.voided,
            sent_copy_deleted: self.sent_copy_deleted,
            received_copy_deleted: self.received_copy_deleted,
            last_modified_at: self.last_modified_at,
            previous_txn_hash: self.previous_txn_hash@,
            last_txn_hash: self.last_txn_hash@,
            due_date: self.due_date@,
            deleted_comments: self.deleted_comments@,
            payment_confirmed: self.payment_confirmed,
            tracking: self.tracking@,
        }
    }
}

/// The views of a list of records, in order.
pub open spec fn snapshots(v: Seq<Invoice>) -> Seq<InvoiceView> {
    Seq::new(v.len(), |i: int| v[i]@)
}

impl InvoiceView {
    /// The text fields that creation requires are all filled in.
    pub open spec fn has_creation_fields(self) -> bool {
        &&& self.record_id.len() > 0
        &&& self.vendor_id.len() > 0
        &&& self.action.len() > 0
        &&& self.creation_date.len() > 0
        &&& self.vendor_email.len() > 0
        &&& self.vendor_email_hash.len() > 0
        &&& self.vendor_mobile_hash.len() > 0
        &&& self.vendor_mobile.len() > 0
        &&& self.client_fname.len() > 0
        &&& self.client_lname.len() > 0
        &&& self.vendor_name.len() > 0
        &&& self.client_email.len() > 0
        &&& self.client_mobile.len() > 0
        &&& self.currency.len() > 0
        &&& self.fund_reception.len() > 0
        &&& self.lines.len() > 0
        &&& self.net_amt.len() > 0
        &&& self.last_txn_hash.len() > 0
        &&& self.due_date.len() > 0
    }

    /// None of the lifecycle flags is set.
    pub open spec fn is_fresh(self) -> bool {
        &&& !self.acknowledged
        &&& !self.financed
        &&& !self.paid
        &&& !self.rejected
        &&& !self.voided
        &&& !self.payment_confirmed
        &&& !self.sent_copy_deleted
        &&& !self.received_copy_deleted
    }

    /// What holds of every record that the lifecycle can produce.
    ///
    /// Payment, rejection and voiding exclude one another and each follows an
    /// acknowledgement; a financed record has been acknowledged and has none
    /// of the three outcomes; a confirmed payment is a payment; a record is
    /// financed exactly when it carries a financing reference, and carries
    /// none twice; nothing marks a copy as deleted.
    pub open spec fn consistent(self) -> bool {
        &&& self.record_type == "Invoice"@
        &&& self.record_id.len() > 0
        &&& self.financing_references.no_duplicates()
        &&& self.financed <==> self.financing_references.len() > 0
        &&& self.financed ==> self.acknowledged && !self.paid && !self.rejected && !self.voided
        &&& self.paid ==> self.acknowledged && !self.rejected && !self.voided
        &&& self.rejected ==> self.acknowledged && !self.voided
        &&& self.voided ==> self.acknowledged
        &&& self.payment_confirmed ==> self.paid
        &&& !self.sent_copy_deleted
        &&& !self.received_copy_deleted
        &&& self.deleted_comments.len() == 0
    }
}

/// Copies a list of texts.
pub fn clone_texts(v: &Vec<String>) -> (r: Vec<String>)
    ensures
        texts(r@) == texts(v@),
{
    let mut out: Vec<String> = Vec::new();
    let mut i: usize = 0;
    while i < v.len()
        invariant
            i <= v.len(),
            out.len() == i,
            forall|j: int| 0 <= j < i ==> out@[j]@ == v@[j]@,
        decreases v.len() - i,
    {
        out.push(v[i].clone());
        i = i + 1;
    }
    assert(texts(out@) =~= texts(v@));
    out
}

/// Whether two lists hold the same texts in the same order.
pub fn same_texts(a: &Vec<String>, b: &Vec<String>) -> (r: bool)
    ensures
        r == (texts(a@) == texts(b@)),
{
    if a.len() != b.len() {
        assert(texts(a@).len() != texts(b@).len());
        return false;
    }
    let mut i: usize = 0;
    while i < a.len()
        invariant
            i <= a.len(),
            a.len() == b.len(),
            forall|j: int| 0 <= j < i ==> a@[j]@ == b@[j]@,
        decreases a.len() - i,
    {
        if !same_text(&a[i], &b[i]) {
            assert(texts(a@)[i as int] != texts(b@)[i as int]);
            return false;
        }
        i = i + 1;
    }
    assert(texts(a@) =~= texts(b@));
    true
}

/// Whether `t` is one of the texts in `v`.
pub fn contains_text(v: &Vec<String>, t: &String) -> (r: bool)
    ensures
        r == texts(v@).contains(t@),
{
    let mut i: usize = 0;
    while i < v.len()
        invariant
            i <= v.len(),
            forall|j: int| 0 <= j < i ==> texts(v@)[j] != t@,
        decreases v.len() - i,
    {
        if same_text(&v[i], t) {
            assert(texts(v@)[i as int] == t@);
            return true;
        }
        i = i + 1;
    }
    false
}

/// Whether no text occurs twice in `v`.
pub fn all_distinct(v: &Vec<String>) -> (r: bool)
    ensures
        r == texts(v@).no_duplicates(),
{
    let mut i: usize = 0;
    while i < v.len()
        invariant
            i <= v.len(),
            forall|a: int, b: int| 0 <= a < b < i ==> texts(v@)[a] != texts(v@)[b],
        decreases v.len() - i,
    {
        let mut j: usize = 0;
        while j < i
            invariant
                j <= i,
                i < v.len(),
                forall|a: int| 0 <= a < j ==> texts(v@)[a] != texts(v@)[i as int],
            decreases i - j,
        {
            if same_text(&v[j], &v[i]) {
                assert(texts(v@)[j as int] == texts(v@)[i as int]);
                return false;
            }
            j = j + 1;
        }
        i = i + 1;
    }
    true
}

impl Clone for Invoice {
    fn clone(&self) -> (r: Self)
        ensures
            r@ == self@,
    {
        Invoice {
            record_type: self.record_type.clone(),
            vendor_id: self.vendor_id.clone(),
            record_id: self.record_id.clone(),
            creation_date: self.creation_date.clone(),
            vendor_email: self.vendor_email.clone(),
            action: self.action.clone(),
            acknowledged: self.acknowledged,
            financed: self.financed,
            financing_references: clone_texts(&self.financing_references),
            vendor_email_hash: self.vendor_email_hash.clone(),
            vendor_mobile_hash: self.vendor_mobile_hash.clone(),
            vendor_mobile: self.vendor_mobile.clone(),
            client_fname: self.client_fname.clone(),
            client_lname: self.client_lname.clone(),
            vendor_name: self.vendor_name.clone(),
            client_email: self.client_email.clone(),
            client_mobile: self.client_mobile.clone(),
            currency: self.currency.clone(),
            fund_reception: self.fund_reception.clone(),
            lines: self.lines.clone(),
            net_amt: self.net_amt.clone(),
            paid: self.paid,
            rejected: self.rejected,
            voided: self.voided,
            sent_copy_deleted: self.sent_copy_deleted,
            received_copy_deleted: self.received_copy_deleted,
            last_modified_at: self.last_modified_at,
            previous_txn_hash: self.previous_txn_hash.clone(),
            last_txn_hash: self.last_txn_hash.clone(),
            due_date: self.due_date.clone(),
            deleted_comments: self.deleted_comments.clone(),
            payment_confirmed: self.payment_confirmed,
            tracking: self.tracking.clone(),
        }
    }
}

impl Invoice {
    /// Whether the text fields that creation requires are all filled in.
    pub fn has_creation_fields(&self) -> (r: bool)
        ensures
            r == self@.has_creation_fields(),
    {
        !(is_blank(&self.record_id) || is_blank(&self.vendor_id) || is_blank(&self.action)
            || is_blank(&self.creation_date) || is_blank(&self.vendor_email) || is_blank(
            &self.vendor_email_hash,
        ) || is_blank(&self.vendor_mobile_hash) || is_blank(&self.vendor_mobile) || is_blank(
            &self.client_fname,
        ) || is_blank(&self.client_lname) || is_blank(&self.vendor_name) || is_blank(
            &self.client_email,
        ) || is_blank(&self.client_mobile) || is_blank(&self.currency) || is_blank(
            &self.fund_reception,
        ) || is_blank(&self.lines) || is_blank(&self.net_amt) || is_blank(&self.last_txn_hash)
            || is_blank(&self.due_date))
    }

    /// Whether the record is one that the lifecycle can produce.
    pub fn is_consistent(&self) -> (r: bool)
        ensures
            r == self@.consistent(),
    {
        let kind = "Invoice";
        same_text(&self.record_type, &kind.to_owned()) && !is_blank(&self.record_id)
            && all_distinct(&self.financing_references) && (self.financed == (
        self.financing_references.len() > 0)) && (!self.financed || (self.acknowledged
            && !self.paid && !self.rejected && !self.voided)) && (!self.paid || (
        self.acknowledged && !self.rejected && !self.voided)) && (!self.rejected || (
        self.acknowledged && !self.voided)) && (!self.voided || self.acknowledged) && (
        !self.payment_confirmed || self.paid) && !self.sent_copy_deleted
            && !self.received_copy_deleted && is_blank(&self.deleted_comments)
    }

    /// Whether two records hold the same values.
    pub fn same_as(&self, other: &Invoice) -> (r: bool)
        ensures
            r == (self@ == other@),
    {
        same_text(&self.record_type, &other.record_type) && same_text(
            &self.vendor_id,
            &other.vendor_id,
        ) && same_text(&self.record_id, &other.record_id) && same_text(
            &self.creation_date,
            &other.creation_date,
        ) && same_text(&self.vendor_email, &other.vendor_email) && same_text(
            &self.action,
            &other.action,
        ) && self.acknowledged == other.acknowledged && self.financed == other.financed
            && same_texts(&self.financing_references, &other.financing_references) && same_text(
            &self.vendor_email_hash,
            &other.vendor_email_hash,
        ) && same_text(&self.vendor_mobile_hash, &other.vendor_mobile_hash) && same_text(
            &self.vendor_mobile,
            &other.vendor_mobile,
        ) && same_text(&self.client_fname, &other.client_fname) && same_text(
            &self.client_lname,
            &other.client_lname,
        ) && same_text(&self.vendor_name, &other.vendor_name) && same_text(
            &self.client_email,
            &other.client_email,
        ) && same_text(&self.client_mobile, &other.client_mobile) && same_text(
            &self.currency,
            &other.currency,
        ) && same_text(&self.fund_reception, &other.fund_reception) && same_text(
            &self.lines,
            &other.lines,
        ) && same_text(&self.net_amt, &other.net_amt) && self.paid == other.paid && self.rejected
            == other.rejected && self.voided == other.voided && self.sent_copy_deleted
            == other.sent_copy_deleted && self.received_copy_deleted
            == other.received_copy_deleted && self.last_modified_at == other.last_modified_at
            && same_text(&self.previous_txn_hash, &other.previous_txn_hash) && same_text(
            &self.last_txn_hash,
            &other.last_txn_hash,
        ) && same_text(&self.due_date, &other.due_date) && same_text(
            &self.deleted_comments,
            &other.deleted_comments,
        ) && self.payment_confirmed == other.payment_confirmed && self.tracking.same_as(
            &other.tracking,
        )
    }
}

/// Copies a list of records.
pub fn clone_records(v: &Vec<Invoice>) -> (r: Vec<Invoice>)
    ensures
        snapshots(r@) == snapshots(v@),
{
    let mut out: Vec<Invoice> = Vec::new();
    let mut i: usize = 0;
    while i < v.len()
        invariant
            i <= v.len(),
            out.len() == i,
            forall|j: int| 0 <= j < i ==> out@[j]@ == v@[j]@,
        decreases v.len() - i,
    {
        out.push(v[i].clone());
        i = i + 1;
    }
    assert(snapshots(out@) =~= snapshots(v@));
    out
}

} // verus!
