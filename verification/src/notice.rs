//! What an accepted operation hands back: a message for the caller and the
//! notification to publish.

use vstd::prelude::*;

verus! {

/// The tag under which an accepted operation is announced.
#[derive(Clone, Copy, Debug, PartialEq, Eq, Structural)]
pub enum Notification {
    Created,
    Acknowledged,
    Paid,
    Rejected,
    Voided,
    Financed,
    PaymentConfirmed,
    TrackingUpdated,
}

impl Notification {
    /// The tag's name on the notification channel.
    pub open spec fn tag_text(self) -> Seq<char> {
        match self {
            Notification::Created => "Created"@,
            Notification::Acknowledged => "Acknowledged"@,
            Notification::Paid => "Paid"@,
            Notification::Rejected => "Rejected"@,
            Notification::Voided => "Voided"@,
            Notification::Financed => "Financed"@,
            Notification::PaymentConfirmed => "PaymentConfirmed"@,
            Notification::TrackingUpdated => "TrackingUpdated"@,
        }
    }

    /// The message that the caller gets when the operation was accepted.
    pub open spec fn message_text(self) -> Seq<char> {
        match self {
            Notification::Created => "Invoice created"@,
            Notification::Acknowledged => "Invoice acknowledged and updated"@,
            Notification::Paid => "Invoice paid and updated"@,
            Notification::Rejected => "Invoice rejected and updated"@,
            Notification::Voided => "Invoice voided and updated"@,
            Notification::Financed => "Invoice finance request initiated"@,
            Notification::PaymentConfirmed => "Invoice payment confirmation and updated"@,
            Notification::TrackingUpdated => "Invoice tracking updated"@,
        }
    }

    /// The tag's name on the notification channel.
    pub fn tag(self) -> (r: String)
        ensures
            r@ == self.tag_text(),
    {
        let name = match self {
            Notification::Created => "Created",
            Notification::Acknowledged => "Acknowledged",
            Notification::Paid => "Paid",
            Notification::Rejected => "Rejected",
            Notification::Voided => "Voided",
            Notification::Financed => "Financed",
            Notification::PaymentConfirmed => "PaymentConfirmed",
            Notification::TrackingUpdated => "TrackingUpdated",
        };
        name.to_owned()
    }

    /// The message that the caller gets when the operation was accepted.
    pub fn message(self) -> (r: String)
        ensures
            r@ == self.message_text(),
    {
        let text = match self {
            Notification::Created => "Invoice created",
            Notification::Acknowledged => "Invoice acknowledged and updated",
            Notification::Paid => "Invoice paid and updated",
            Notification::Rejected => "Invoice rejected and updated",
            Notification::Voided => "Invoice voided and updated",
            Notification::Financed => "Invoice finance request initiated",
            Notification::PaymentConfirmed => "Invoice payment confirmation and updated",
            Notification::TrackingUpdated => "Invoice tracking updated",
        };
        text.to_owned()
    }
}

/// What an accepted operation hands back: the message for the caller, and the
/// notification to publish, which is the tag and the record's identifier.
#[derive(Debug)]
pub struct Receipt {
    pub message: String,
    pub notification: Notification,
    pub record_id: String,
}

/// What a [`Receipt`] holds, as plain values.
pub struct ReceiptView {
    pub message: Seq<char>,
    pub notification: Notification,
    pub record_id: Seq<char>,
}

impl View for Receipt {
    type V = ReceiptView;

    open spec fn view(&self) -> ReceiptView {
        ReceiptView {
            message: self.message@,
            notification: self.notification,
            record_id: self.record_id@,
        }
    }
}

impl ReceiptView {
    /// The receipt of the operation announced as `notification` on the record
    /// `record_id`.
    pub open spec fn announcing(notification: Notification, record_id: Seq<char>) -> ReceiptView {
        ReceiptView {
            message: notification.message_text(),
            notification: notification,
            record_id: record_id,
        }
    }
}

impl Receipt {
    /// Makes the receipt of the operation announced as `notification` on the
    /// record `record_id`.
    pub fn announcing(notification: Notification, record_id: String) -> (r: Receipt)
        ensures
            r@ == ReceiptView::announcing(notification, record_id@),
    {
        Receipt { message: notification.message(), notification: notification, record_id: record_id }
    }
}

} // verus!
