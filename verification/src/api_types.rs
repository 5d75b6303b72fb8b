//! What the stores hold, as the readers of the ledger see it.

use crate::record::{Mail, MailView};
use vstd::prelude::*;

verus! {

/// The rows of the mail ledger that a query returned.
#[derive(Clone, Debug, PartialEq, Eq)]
pub struct ListEmailsResponse {
    pub data: Vec<Mail>,
}

/// The counter row of one recipient.
#[derive(Clone, Debug, PartialEq, Eq)]
pub struct User {
    /// The partition that all counter rows share.
    pub pk: String,
    /// The address of the recipient.
    pub sk: String,
    /// How many distinct messages were ingested for the recipient.
    pub message_count: i64,
}

/// The counter rows that a query returned.
#[derive(Clone, Debug, PartialEq, Eq)]
pub struct ListUsersResponse {
    pub data: Vec<User>,
}

/// A counter row, as a value of the model.
pub struct UserView {
    pub pk: Seq<char>,
    pub sk: Seq<char>,
    pub message_count: i64,
}

impl View for User {
    type V = UserView;

    open spec fn view(&self) -> UserView {
        UserView { pk: self.pk@, sk: self.sk@, message_count: self.message_count }
    }
}

/// The views of a run of records.
pub open spec fn mail_views(mails: Seq<Mail>) -> Seq<MailView> {
    Seq::new(mails.len(), |i: int| mails[i]@)
}

/// The views of a run of counter rows.
pub open spec fn user_views(users: Seq<User>) -> Seq<UserView> {
    Seq::new(users.len(), |i: int| users[i]@)
}

impl View for ListEmailsResponse {
    type V = Seq<MailView>;

    open spec fn view(&self) -> Seq<MailView> {
        mail_views(self.data@)
    }
}

impl View for ListUsersResponse {
    type V = Seq<UserView>;

    open spec fn view(&self) -> Seq<UserView> {
        user_views(self.data@)
    }
}

} // verus!
