//! Where the stores are.

use crate::envelope::text_of;
use crate::orchestrator::InfrastructureError;
use vstd::prelude::*;
use vstd::string::*;

verus! {

/// The names of the stores that the pipeline works on.
#[derive(Clone, Debug, PartialEq, Eq)]
pub struct MailConfig {
    /// The bucket of the object store that archives the raw messages.
    pub mail_bucket: String,
    /// The table of the mail ledger.
    pub mail_db: String,
    /// The table of the per-recipient counters.
    pub user_db: String,
}

/// The names of the stores, as a value of the model.
pub struct MailConfigView {
    pub mail_bucket: Seq<char>,
    pub mail_db: Seq<char>,
    pub user_db: Seq<char>,
}

impl View for MailConfig {
    type V = MailConfigView;

    open spec fn view(&self) -> MailConfigView {
        MailConfigView {
            mail_bucket: self.mail_bucket@,
            mail_db: self.mail_db@,
            user_db: self.user_db@,
        }
    }
}

/// The names of the stores that the given settings stand for. The bucket
/// and the ledger table have to be named. The counter table has a name of
/// old, which holds where none is given.
pub open spec fn config_of(
    mail_bucket: Option<Seq<char>>,
    mail_db: Option<Seq<char>>,
    user_db: Option<Seq<char>>,
) -> Result<MailConfigView, InfrastructureError> {
    match (mail_bucket, mail_db) {
        (Some(bucket), Some(db)) => Ok(
            MailConfigView {
                mail_bucket: bucket,
                mail_db: db,
                user_db: match user_db {
                    Some(name) => name,
                    None => "SupermailerUserTable"@,
                },
            },
        ),
        _ => Err(InfrastructureError),
    }
}

impl MailConfig {
    /// Puts the configuration together from the settings that were found.
    /// Without the name of the bucket or of the ledger table no store can be
    /// reached.
    pub fn from_settings(
        mail_bucket: Option<String>,
        mail_db: Option<String>,
        user_db: Option<String>,
    ) -> (config: Result<MailConfig, InfrastructureError>)
        ensures
            match config {
                Ok(c) => Ok(c@),
                Err(e) => Err(e),
            } == config_of(text_of(mail_bucket), text_of(mail_db), text_of(user_db)),
    {
        let mail_bucket = match mail_bucket {
            Some(name) => name,
            None => {
                return Err(InfrastructureError);
            },
        };
        let mail_db = match mail_db {
            Some(name) => name,
            None => {
                return Err(InfrastructureError);
            },
        };
        let user_db = match user_db {
            Some(name) => name,
            None => String::from_str("SupermailerUserTable"),
        };
        Ok(MailConfig { mail_bucket, mail_db, user_db })
    }
}

} // verus!
