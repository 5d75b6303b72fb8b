//! The record normalizer: from an envelope and its preview to the record
//! that the ledger keeps.

use crate::envelope::{EnvelopeView, MailEnvelope};
use vstd::prelude::*;

verus! {

/// The version of the record layout that this library writes.
pub const SCHEMA_VERSION: u32 = 1;

/// A mail record of the ledger. Its key is `pk` (the recipient), `sk` (when
/// the message was received) and `message_id`.
#[derive(Clone, Debug, PartialEq, Eq)]
pub struct Mail {
    pub pk: String,
    pub sk: i64,
    pub message_id: String,
    pub subject: String,
    /// The preview of the body; empty where none could be derived.
    pub first_sentence: String,
    pub schema_version: u32,
}

/// The key of a record: recipient, time of receipt, message identifier.
pub struct RecordKey {
    pub recipient: Seq<char>,
    pub received_at: i64,
    pub message_id: Seq<char>,
}

/// What a record holds beside its key.
pub struct RecordFields {
    pub subject: Seq<char>,
    pub first_sentence: Seq<char>,
    pub schema_version: u32,
}

/// A record, as a value of the model: its key and what it holds.
pub struct MailView {
    pub key: RecordKey,
    pub fields: RecordFields,
}

impl View for Mail {
    type V = MailView;

    open spec fn view(&self) -> MailView {
        MailView {
            key: RecordKey {
                recipient: self.pk@,
                received_at: self.sk,
                message_id: self.message_id@,
            },
            fields: RecordFields {
                subject: self.subject@,
                first_sentence: self.first_sentence@,
                schema_version: self.schema_version,
            },
        }
    }
}

impl EnvelopeView {
    /// The ledger key of the record that this envelope gives.
    pub open spec fn key(self) -> RecordKey {
        RecordKey {
            recipient: self.recipient,
            received_at: self.received_at,
            message_id: self.message_id,
        }
    }
}

/// The record of an envelope and its preview: keyed by the envelope, in
/// the current layout.
pub open spec fn record_of(envelope: EnvelopeView, preview: Seq<char>) -> MailView {
    MailView {
        key: envelope.key(),
        fields: RecordFields {
            subject: envelope.subject,
            first_sentence: preview,
            schema_version: SCHEMA_VERSION,
        },
    }
}

/// Builds the record of an envelope and the preview that was resolved for
/// it.
pub fn normalize(envelope: &MailEnvelope, preview: String) -> (record: Mail)
    ensures
        record@ == record_of(envelope@, preview@),
        record@.key == envelope@.key(),
{
    Mail {
        pk: envelope.recipient.clone(),
        sk: envelope.received_at,
        message_id: envelope.message_id.clone(),
        subject: envelope.subject.clone(),
        first_sentence: preview,
        schema_version: SCHEMA_VERSION,
    }
}

} // verus!
