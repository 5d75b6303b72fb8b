//! Event intake: from the notifications of a batch to validated envelopes.

use vstd::prelude::*;

verus! {

/// One inbound notification about a delivered message, as it arrives:
/// any of its parts may be missing.
#[derive(Clone, Debug, PartialEq, Eq)]
pub struct Notification {
    /// The addresses the message was delivered to; the first one counts.
    pub recipients: Vec<String>,
    /// When the message was delivered, in seconds since the epoch.
    pub timestamp: Option<i64>,
    /// The identifier under which the raw message is archived.
    pub message_id: Option<String>,
    /// The subject header.
    pub subject: Option<String>,
}

/// A validated notification.
#[derive(Clone, Debug, PartialEq, Eq)]
pub struct MailEnvelope {
    pub recipient: String,
    pub received_at: i64,
    pub message_id: String,
    pub subject: String,
}

/// Why a notification is no envelope.
#[derive(Clone, Copy, Debug, PartialEq, Eq, Structural)]
pub enum ValidationError {
    /// It names no recipient, or its first recipient is the empty address.
    MissingRecipient,
    /// It carries no delivery timestamp.
    MissingTimestamp,
    /// It carries no message identifier.
    MissingMessageId,
}

/// A notification, as a value of the model.
pub struct NotificationView {
    pub recipients: Seq<Seq<char>>,
    pub timestamp: Option<i64>,
    pub message_id: Option<Seq<char>>,
    pub subject: Option<Seq<char>>,
}

/// An envelope, as a value of the model.
pub struct EnvelopeView {
    pub recipient: Seq<char>,
    pub received_at: i64,
    pub message_id: Seq<char>,
    pub subject: Seq<char>,
}

/// The characters of an optional string.
pub open spec fn text_of(s: Option<String>) -> Option<Seq<char>> {
    match s {
        Some(text) => Some(text@),
        None => None,
    }
}

impl View for Notification {
    type V = NotificationView;

    open spec fn view(&self) -> NotificationView {
        NotificationView {
            recipients: self.recipients@.map_values(|r: String| r@),
            timestamp: self.timestamp,
            message_id: text_of(self.message_id),
            subject: text_of(self.subject),
        }
    }
}

impl View for MailEnvelope {
    type V = EnvelopeView;

    open spec fn view(&self) -> EnvelopeView {
        EnvelopeView {
            recipient: self.recipient@,
            received_at: self.received_at,
            message_id: self.message_id@,
            subject: self.subject@,
        }
    }
}

impl EnvelopeView {
    /// An envelope names its recipient.
    pub open spec fn wf(self) -> bool {
        self.recipient.len() > 0
    }
}

impl MailEnvelope {
    /// An envelope names its recipient.
    pub open spec fn wf(&self) -> bool {
        self@.wf()
    }
}

/// What intake makes of one notification: the envelope of its first
/// recipient, or the first part that it lacks. A missing subject is the
/// empty subject.
pub open spec fn validate(n: NotificationView) -> Result<EnvelopeView, ValidationError> {
    if n.recipients.len() == 0 || n.recipients[0].len() == 0 {
        Err(ValidationError::MissingRecipient)
    } else if n.timestamp is None {
        Err(ValidationError::MissingTimestamp)
    } else if n.message_id is None {
        Err(ValidationError::MissingMessageId)
    } else {
        Ok(
            EnvelopeView {
                recipient: n.recipients[0],
                received_at: n.timestamp->0,
                message_id: n.message_id->0,
                subject: match n.subject {
                    Some(subject) => subject,
                    None => Seq::empty(),
                },
            },
        )
    }
}

/// The view of an intake result.
pub open spec fn admitted(r: Result<MailEnvelope, ValidationError>) -> Result<
    EnvelopeView,
    ValidationError,
> {
    match r {
        Ok(envelope) => Ok(envelope@),
        Err(e) => Err(e),
    }
}

/// Takes one notification apart: its first recipient, delivery time, message
/// identifier and subject. Rejects it where one of the first three is
/// missing.
pub fn get_params(input: &Notification) -> (envelope: Result<MailEnvelope, ValidationError>)
    ensures
        admitted(envelope) == validate(input@),
        envelope matches Ok(e) ==> e.wf(),
{
    if input.recipients.len() == 0 {
        return Err(ValidationError::MissingRecipient);
    }
    let first = &input.recipients[0];
    if first.as_str().is_empty() {
        return Err(ValidationError::MissingRecipient);
    }
    let received_at = match input.timestamp {
        Some(t) => t,
        None => {
            return Err(ValidationError::MissingTimestamp);
        },
    };
    let message_id = match &input.message_id {
        Some(id) => id.clone(),
        None => {
            return Err(ValidationError::MissingMessageId);
        },
    };
    let subject = match &input.subject {
        Some(subject) => subject.clone(),
        None => String::new(),
    };
    Ok(MailEnvelope { recipient: first.clone(), received_at, message_id, subject })
}

/// Validates a batch, notification by notification and in order. One that
/// is rejected leaves the others as they are.
pub fn intake(batch: &Vec<Notification>) -> (results: Vec<Result<MailEnvelope, ValidationError>>)
    ensures
        results.len() == batch.len(),
        forall|i: int|
            0 <= i < batch.len() ==> admitted(#[trigger] results[i]) == validate(batch[i]@),
{
    let mut results: Vec<Result<MailEnvelope, ValidationError>> = Vec::new();
    let mut i: usize = 0;
    while i < batch.len()
        invariant
            i <= batch.len(),
            results.len() == i,
            forall|j: int| 0 <= j < i ==> admitted(#[trigger] results[j]) == validate(batch[j]@),
        decreases batch.len() - i,
    {
        results.push(get_params(&batch[i]));
        i += 1;
    }
    results
}

} // verus!
