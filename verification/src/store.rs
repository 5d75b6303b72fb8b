//! What the pipeline expects of its stores: the object store, the mail
//! ledger and the per-recipient counters, as maps, and what each command
//! does to them.

use crate::envelope::{validate, NotificationView};
use crate::orchestrator::{
    admitted_recipients, counts_in, lemma_one_count_per_message, openings, CommandView, ItemReport,
    Outcome, ReplyView, SlotView,
};
use crate::preview::{resolution, ContentView};
use crate::record::{record_of, MailView, RecordFields, RecordKey};
use vstd::multiset::*;
use vstd::prelude::*;
use vstd::seq_lib::*;

verus! {

/// The highest count that a counter row can hold.
pub const COUNTER_LIMIT: u64 = 0x7FFF_FFFF_FFFF_FFFF;

/// The three stores.
pub struct StoresView {
    /// The archived messages of the object store, by message identifier:
    /// the text body of each, or none where it cannot be read as a message
    /// with a text body.
    pub objects: Map<Seq<char>, Option<Seq<char>>>,
    /// The records of the mail ledger, by key.
    pub ledger: Map<RecordKey, RecordFields>,
    /// The message counters, by recipient.
    pub counters: Map<Seq<char>, nat>,
}

/// What fetching and reading the message `message_id` gives.
pub open spec fn fetched(
    objects: Map<Seq<char>, Option<Seq<char>>>,
    message_id: Seq<char>,
) -> ContentView {
    if objects.dom().contains(message_id) {
        match objects[message_id] {
            Some(body) => ContentView::Body(body),
            None => ContentView::Unparseable,
        }
    } else {
        ContentView::Unavailable
    }
}

/// The ledger after the upsert of `record`: the record stands under its
/// key, in place of whatever stood there.
pub open spec fn upsert(ledger: Map<RecordKey, RecordFields>, record: MailView) -> Map<
    RecordKey,
    RecordFields,
> {
    ledger.insert(record.key, record.fields)
}

/// The count of `recipient`: zero where it has no counter yet.
pub open spec fn counter_at(counters: Map<Seq<char>, nat>, recipient: Seq<char>) -> nat {
    if counters.dom().contains(recipient) {
        counters[recipient]
    } else {
        0
    }
}

/// The counters after one atomic count for `recipient`: its counter is
/// created with one where it was missing, and grows by one otherwise.
pub open spec fn count_up(counters: Map<Seq<char>, nat>, recipient: Seq<char>) -> Map<
    Seq<char>,
    nat,
> {
    counters.insert(recipient, counter_at(counters, recipient) + 1)
}

/// The counters after one atomic count for each recipient of `schedule`,
/// in that order.
pub open spec fn count_all(counters: Map<Seq<char>, nat>, schedule: Seq<Seq<char>>) -> Map<
    Seq<char>,
    nat,
>
    decreases schedule.len(),
{
    if schedule.len() == 0 {
        counters
    } else {
        count_up(count_all(counters, schedule.drop_last()), schedule.last())
    }
}

impl StoresView {
    /// What a command does to stores that are always there: the stores
    /// after it and their answer. The only request that they refuse is a
    /// count beyond what a counter can hold.
    pub open spec fn perform(self, command: CommandView) -> (StoresView, ReplyView) {
        match command {
            CommandView::FetchContent { message_id } => (
                self,
                ReplyView::Content { content: fetched(self.objects, message_id) },
            ),
            CommandView::CountMessage { recipient } => {
                if counter_at(self.counters, recipient) < COUNTER_LIMIT {
                    (
                        StoresView { counters: count_up(self.counters, recipient), ..self },
                        ReplyView::Counted { ok: true },
                    )
                } else {
                    (self, ReplyView::Counted { ok: false })
                }
            },
            CommandView::WriteRecord { record } => (
                StoresView { ledger: upsert(self.ledger, record), ..self },
                ReplyView::Written { ok: true },
            ),
        }
    }

    /// The stores after the ingestion of one notification, and its report.
    /// A rejected notification changes nothing. A valid one is written to
    /// the ledger under its key, with the preview that its archived message
    /// gives, and counted for its recipient.
    pub open spec fn ingest_one(self, notification: NotificationView) -> (StoresView, ItemReport) {
        match validate(notification) {
            Err(e) => (self, SlotView::Rejected(e).report()),
            Ok(envelope) => {
                let (preview, warning) = resolution(fetched(self.objects, envelope.message_id));
                let full = counter_at(self.counters, envelope.recipient) >= COUNTER_LIMIT;
                (
                    StoresView {
                        objects: self.objects,
                        ledger: upsert(self.ledger, record_of(envelope, preview)),
                        counters: if full {
                            self.counters
                        } else {
                            count_up(self.counters, envelope.recipient)
                        },
                    },
                    ItemReport {
                        outcome: Outcome::Success,
                        content_warning: warning,
                        aggregate_write_error: full,
                    },
                )
            },
        }
    }

    /// The stores after the ingestion of a batch, and one report for each
    /// of its notifications, in their order.
    pub open spec fn ingest(self, batch: Seq<NotificationView>) -> (StoresView, Seq<ItemReport>)
        decreases batch.len(),
    {
        if batch.len() == 0 {
            (self, Seq::empty())
        } else {
            let (stores, reports) = self.ingest(batch.drop_last());
            let (after, report) = stores.ingest_one(batch.last());
            (after, reports.push(report))
        }
    }
}

/// Idempotence of the ledger: two upserts under one key leave one record
/// there, which holds what the second one wrote and nothing of the first.
pub proof fn lemma_upsert_overwrites(
    ledger: Map<RecordKey, RecordFields>,
    first: MailView,
    second: MailView,
)
    requires
        first.key == second.key,
    ensures
        upsert(upsert(ledger, first), second) == upsert(ledger, second),
        upsert(upsert(ledger, first), second)[second.key] == second.fields,
        upsert(upsert(ledger, first), second).dom() == ledger.dom().insert(second.key),
{
    assert(upsert(upsert(ledger, first), second) =~= upsert(ledger, second));
    assert(upsert(upsert(ledger, first), second).dom() =~= ledger.dom().insert(second.key));
}

/// Submitting an envelope twice leaves the ledger as the second submission
/// alone would: no second record, nothing left over from the first.
pub proof fn lemma_resubmission_overwrites(
    stores: StoresView,
    first: NotificationView,
    second: NotificationView,
)
    requires
        validate(first) is Ok,
        validate(second) is Ok,
        validate(first)->Ok_0.key() == validate(second)->Ok_0.key(),
    ensures
        stores.ingest_one(first).0.ingest_one(second).0.ledger == stores.ingest_one(
            second,
        ).0.ledger,
{
    let envelope = validate(second)->Ok_0;
    let once = stores.ingest_one(first).0;
    assert(once.objects == stores.objects);
    let preview = resolution(fetched(stores.objects, envelope.message_id)).0;
    let earlier = resolution(fetched(stores.objects, validate(first)->Ok_0.message_id)).0;
    lemma_upsert_overwrites(
        stores.ledger,
        record_of(validate(first)->Ok_0, earlier),
        record_of(envelope, preview),
    );
}

/// A valid notification leaves exactly one record under its key, and
/// touches no other key of the ledger.
pub proof fn lemma_one_record_per_envelope(stores: StoresView, notification: NotificationView)
    requires
        validate(notification) is Ok,
    ensures
        ({
            let key = validate(notification)->Ok_0.key();
            let after = stores.ingest_one(notification).0.ledger;
            &&& after.dom() == stores.ledger.dom().insert(key)
            &&& forall|other: RecordKey|
                other != key && stores.ledger.dom().contains(other) ==> after[other]
                    == stores.ledger[other]
        }),
{
    let key = validate(notification)->Ok_0.key();
    let after = stores.ingest_one(notification).0.ledger;
    assert(after.dom() =~= stores.ledger.dom().insert(key));
}

/// Who has a counter after a schedule of counts: whoever had one before,
/// and whoever was counted.
pub proof fn lemma_counted_recipients(
    counters: Map<Seq<char>, nat>,
    schedule: Seq<Seq<char>>,
    recipient: Seq<char>,
)
    ensures
        count_all(counters, schedule).dom().contains(recipient) <==> counters.dom().contains(
            recipient,
        ) || schedule.to_multiset().count(recipient) > 0,
    decreases schedule.len(),
{
    broadcast use group_multiset_axioms;

    if schedule.len() == 0 {
        assert(schedule.to_multiset().count(recipient) == 0) by {
            schedule.to_multiset_ensures();
            assert(!schedule.contains(recipient));
        }
    } else {
        lemma_counted_recipients(counters, schedule.drop_last(), recipient);
        assert(schedule =~= schedule.drop_last().push(schedule.last()));
        to_multiset_build(schedule.drop_last(), schedule.last());
    }
}

/// Counter correctness: after any schedule of atomic counts, the counter of
/// a recipient is what it was before plus the number of counts for that
/// recipient in the schedule, wherever in the schedule they stand and
/// whatever is counted between them.
pub proof fn lemma_counts_add_up(
    counters: Map<Seq<char>, nat>,
    schedule: Seq<Seq<char>>,
    recipient: Seq<char>,
)
    ensures
        counter_at(count_all(counters, schedule), recipient) == counter_at(counters, recipient)
            + schedule.to_multiset().count(recipient),
    decreases schedule.len(),
{
    broadcast use group_multiset_axioms;

    if schedule.len() == 0 {
        assert(schedule.to_multiset().count(recipient) == 0) by {
            schedule.to_multiset_ensures();
            assert(!schedule.contains(recipient));
        }
    } else {
        lemma_counts_add_up(counters, schedule.drop_last(), recipient);
        assert(schedule =~= schedule.drop_last().push(schedule.last()));
        to_multiset_build(schedule.drop_last(), schedule.last());
    }
}

/// Interleaving does not matter: two schedules that hold the same counts,
/// in whatever order, leave the same counters.
pub proof fn lemma_count_order_is_irrelevant(
    counters: Map<Seq<char>, nat>,
    one: Seq<Seq<char>>,
    other: Seq<Seq<char>>,
)
    requires
        one.to_multiset() == other.to_multiset(),
    ensures
        count_all(counters, one) == count_all(counters, other),
{
    let a = count_all(counters, one);
    let b = count_all(counters, other);
    assert forall|r: Seq<char>| a.dom().contains(r) == b.dom().contains(r) by {
        lemma_counted_recipients(counters, one, r);
        lemma_counted_recipients(counters, other, r);
    }
    assert forall|r: Seq<char>| a.dom().contains(r) implies a[r] == b[r] by {
        lemma_counts_add_up(counters, one, r);
        lemma_counts_add_up(counters, other, r);
    }
    assert(a =~= b);
}

/// Counter correctness under concurrency: when the counts that a batch asks
/// for are performed in any order whatever, the counter of a recipient ends
/// at what it was before plus the number of messages that the batch admits
/// for that recipient.
pub proof fn lemma_concurrent_counts(
    counters: Map<Seq<char>, nat>,
    slots: Seq<SlotView>,
    schedule: Seq<Seq<char>>,
    recipient: Seq<char>,
)
    requires
        schedule.to_multiset() == counts_in(openings(slots, slots.len() as int)).to_multiset(),
    ensures
        counter_at(count_all(counters, schedule), recipient) == counter_at(counters, recipient)
            + admitted_recipients(slots, slots.len() as int).to_multiset().count(recipient),
{
    lemma_one_count_per_message(slots, slots.len() as int);
    lemma_counts_add_up(counters, schedule, recipient);
}

} // verus!
