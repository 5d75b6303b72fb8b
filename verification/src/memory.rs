//! Stores that live in memory and do what the pipeline expects of the real
//! ones. They make a run of the pipeline repeatable: a batch can be
//! ingested into them from start to end without any outside service.

use crate::envelope::{text_of, validate, Notification, NotificationView};
use crate::preview::Content;
use crate::orchestrator::{
    dispatch_views, opening, openings, reports, slot_of, Batch, BatchView, Command, DispatchView,
    ItemReport, Reply,
};
use crate::record::{Mail, RecordFields, RecordKey};
use crate::store::{counter_at, count_up, fetched, upsert, StoresView, COUNTER_LIMIT};
use vstd::prelude::*;

verus! {

/// One archived message: its text body, or none where it cannot be read as
/// a message with a text body.
#[derive(Clone, Debug, PartialEq, Eq)]
pub struct StoredObject {
    pub key: String,
    pub body: Option<String>,
}

/// The counter of one recipient.
#[derive(Clone, Debug, PartialEq, Eq)]
pub struct Counter {
    pub recipient: String,
    pub count: u64,
}

/// An object store, a mail ledger and a counter table in memory.
#[derive(Clone, Debug, PartialEq, Eq)]
pub struct MemoryStores {
    objects: Vec<StoredObject>,
    ledger: Vec<Mail>,
    counters: Vec<Counter>,
}

/// The map that a run of entries stands for: each key with its value, a
/// later entry of the same key replacing an earlier one.
pub open spec fn table<K, V>(entries: Seq<(K, V)>) -> Map<K, V>
    decreases entries.len(),
{
    if entries.len() == 0 {
        Map::empty()
    } else {
        table(entries.drop_last()).insert(entries.last().0, entries.last().1)
    }
}

/// The entries of a run of archived messages.
pub open spec fn object_entries(objects: Seq<StoredObject>) -> Seq<(Seq<char>, Option<Seq<char>>)> {
    Seq::new(objects.len(), |i: int| (objects[i].key@, text_of(objects[i].body)))
}

/// The entries of a run of records.
pub open spec fn ledger_entries(ledger: Seq<Mail>) -> Seq<(RecordKey, RecordFields)> {
    Seq::new(ledger.len(), |i: int| (ledger[i]@.key, ledger[i]@.fields))
}

/// The entries of a run of counters.
pub open spec fn counter_entries(counters: Seq<Counter>) -> Seq<(Seq<char>, nat)> {
    Seq::new(counters.len(), |i: int| (counters[i].recipient@, counters[i].count as nat))
}

/// The views of a run of notifications.
pub open spec fn notification_views(batch: Seq<Notification>) -> Seq<NotificationView> {
    Seq::new(batch.len(), |i: int| batch[i]@)
}

/// The last entry under a key is the one that counts.
proof fn lemma_table_holds<K, V>(entries: Seq<(K, V)>, j: int)
    requires
        0 <= j < entries.len(),
        forall|i: int| j < i < entries.len() ==> entries[i].0 != entries[j].0,
    ensures
        table(entries).dom().contains(entries[j].0),
        table(entries)[entries[j].0] == entries[j].1,
    decreases entries.len(),
{
    if j < entries.len() - 1 {
        lemma_table_holds(entries.drop_last(), j);
    }
}

/// A key that no entry has is not in the table.
proof fn lemma_table_lacks<K, V>(entries: Seq<(K, V)>, key: K)
    requires
        forall|i: int| 0 <= i < entries.len() ==> entries[i].0 != key,
    ensures
        !table(entries).dom().contains(key),
    decreases entries.len(),
{
    if entries.len() > 0 {
        lemma_table_lacks(entries.drop_last(), key);
    }
}

/// A new value in the last entry under a key is a new value under that key
/// in the table.
proof fn lemma_table_replace<K, V>(entries: Seq<(K, V)>, j: int, value: V)
    requires
        0 <= j < entries.len(),
        forall|i: int| j < i < entries.len() ==> entries[i].0 != entries[j].0,
    ensures
        table(entries.update(j, (entries[j].0, value))) == table(entries).insert(
            entries[j].0,
            value,
        ),
    decreases entries.len(),
{
    let changed = entries.update(j, (entries[j].0, value));
    if j < entries.len() - 1 {
        lemma_table_replace(entries.drop_last(), j, value);
        assert(changed.drop_last() =~= entries.drop_last().update(j, (entries[j].0, value)));
        assert(table(changed) =~= table(entries).insert(entries[j].0, value));
    } else {
        assert(changed.drop_last() =~= entries.drop_last());
        assert(table(changed) =~= table(entries).insert(entries[j].0, value));
    }
}

impl View for MemoryStores {
    type V = StoresView;

    closed spec fn view(&self) -> StoresView {
        StoresView {
            objects: table(object_entries(self.objects@)),
            ledger: table(ledger_entries(self.ledger@)),
            counters: table(counter_entries(self.counters@)),
        }
    }
}

impl MemoryStores {
    /// Stores that hold nothing.
    pub fn new() -> (stores: MemoryStores)
        ensures
            stores@.objects == Map::<Seq<char>, Option<Seq<char>>>::empty(),
            stores@.ledger == Map::<RecordKey, RecordFields>::empty(),
            stores@.counters == Map::<Seq<char>, nat>::empty(),
    {
        MemoryStores { objects: Vec::new(), ledger: Vec::new(), counters: Vec::new() }
    }

    /// Archives a message under `key`, in place of what was there: its text
    /// body, or none for an object that cannot be read as a message.
    pub fn put_object(&mut self, key: String, body: Option<String>)
        ensures
            final(self)@ == (StoresView {
                objects: old(self)@.objects.insert(key@, text_of(body)),
                ..old(self)@
            }),
    {
        let ghost before = object_entries(self.objects@);
        self.objects.push(StoredObject { key, body });
        assert(object_entries(self.objects@).drop_last() =~= before);
    }

    /// The position of the entry that counts for `key`.
    fn find_object(&self, key: &String) -> (found: Option<usize>)
        ensures
            match found {
                Some(j) => j < self.objects.len() && self.objects[j as int].key@ == key@
                    && forall|i: int|
                    j < i < self.objects.len() ==> self.objects[i].key@ != key@,
                None => forall|i: int| 0 <= i < self.objects.len() ==> self.objects[i].key@ != key@,
            },
    {
        let mut i: usize = self.objects.len();
        while i > 0
            invariant
                i <= self.objects.len(),
                forall|k: int| i <= k < self.objects.len() ==> self.objects[k].key@ != key@,
            decreases i,
        {
            i -= 1;
            if self.objects[i].key == *key {
                return Some(i);
            }
        }
        None
    }

    /// The position of the record under the key of `record`.
    fn find_record(&self, record: &Mail) -> (found: Option<usize>)
        ensures
            match found {
                Some(j) => j < self.ledger.len() && self.ledger[j as int]@.key == record@.key
                    && forall|i: int|
                    j < i < self.ledger.len() ==> self.ledger[i]@.key != record@.key,
                None => forall|i: int|
                    0 <= i < self.ledger.len() ==> self.ledger[i]@.key != record@.key,
            },
    {
        let mut i: usize = self.ledger.len();
        while i > 0
            invariant
                i <= self.ledger.len(),
                forall|k: int| i <= k < self.ledger.len() ==> self.ledger[k]@.key != record@.key,
            decreases i,
        {
            i -= 1;
            let held = &self.ledger[i];
            if held.pk == record.pk && held.sk == record.sk && held.message_id
                == record.message_id {
                return Some(i);
            }
        }
        None
    }

    /// The position of the counter of `recipient`.
    fn find_counter(&self, recipient: &String) -> (found: Option<usize>)
        ensures
            match found {
                Some(j) => j < self.counters.len() && self.counters[j as int].recipient@
                    == recipient@ && forall|i: int|
                    j < i < self.counters.len() ==> self.counters[i].recipient@ != recipient@,
                None => forall|i: int|
                    0 <= i < self.counters.len() ==> self.counters[i].recipient@ != recipient@,
            },
    {
        let mut i: usize = self.counters.len();
        while i > 0
            invariant
                i <= self.counters.len(),
                forall|k: int|
                    i <= k < self.counters.len() ==> self.counters[k].recipient@ != recipient@,
            decreases i,
        {
            i -= 1;
            if self.counters[i].recipient == *recipient {
                return Some(i);
            }
        }
        None
    }

    /// What fetching and reading the message `message_id` gives.
    pub fn object(&self, message_id: &String) -> (content: Content)
        ensures
            content@ == fetched(self@.objects, message_id@),
    {
        let ghost entries = object_entries(self.objects@);
        match self.find_object(message_id) {
            Some(j) => {
                proof {
                    lemma_table_holds(entries, j as int);
                }
                match &self.objects[j].body {
                    Some(body) => Content::Body(body.clone()),
                    None => Content::Unparseable,
                }
            },
            None => {
                proof {
                    lemma_table_lacks(entries, message_id@);
                }
                Content::Unavailable
            },
        }
    }

    /// How many messages were counted for `recipient`.
    pub fn message_count(&self, recipient: &String) -> (count: u64)
        ensures
            count == counter_at(self@.counters, recipient@),
    {
        let ghost entries = counter_entries(self.counters@);
        match self.find_counter(recipient) {
            Some(j) => {
                proof {
                    lemma_table_holds(entries, j as int);
                }
                self.counters[j].count
            },
            None => {
                proof {
                    lemma_table_lacks(entries, recipient@);
                }
                0
            },
        }
    }

    /// The record that the ledger holds under the key of `like`.
    pub fn record(&self, like: &Mail) -> (held: Option<&Mail>)
        ensures
            match held {
                Some(m) => self@.ledger.dom().contains(like@.key) && m@.key == like@.key
                    && m@.fields == self@.ledger[like@.key],
                None => !self@.ledger.dom().contains(like@.key),
            },
    {
        let ghost entries = ledger_entries(self.ledger@);
        match self.find_record(like) {
            Some(j) => {
                proof {
                    lemma_table_holds(entries, j as int);
                }
                Some(&self.ledger[j])
            },
            None => {
                proof {
                    lemma_table_lacks(entries, like@.key);
                }
                None
            },
        }
    }

    /// Upserts `record` into the ledger.
    fn write(&mut self, record: Mail)
        ensures
            final(self)@ == (StoresView {
                ledger: upsert(old(self)@.ledger, record@),
                ..old(self)@
            }),
    {
        let ghost entries = ledger_entries(self.ledger@);
        match self.find_record(&record) {
            Some(j) => {
                proof {
                    lemma_table_replace(entries, j as int, record@.fields);
                }
                self.ledger.set(j, record);
                assert(ledger_entries(self.ledger@) =~= entries.update(
                    j as int,
                    (entries[j as int].0, record@.fields),
                ));
            },
            None => {
                self.ledger.push(record);
                assert(ledger_entries(self.ledger@).drop_last() =~= entries);
            },
        }
    }

    /// Counts one more message for `recipient`, unless its counter is full.
    fn count(&mut self, recipient: &String) -> (ok: bool)
        ensures
            ok == (counter_at(old(self)@.counters, recipient@) < COUNTER_LIMIT),
            final(self)@ == if ok {
                StoresView { counters: count_up(old(self)@.counters, recipient@), ..old(self)@ }
            } else {
                old(self)@
            },
    {
        let ghost entries = counter_entries(self.counters@);
        match self.find_counter(recipient) {
            Some(j) => {
                proof {
                    lemma_table_holds(entries, j as int);
                }
                let count = self.counters[j].count;
                if count >= COUNTER_LIMIT {
                    return false;
                }
                proof {
                    lemma_table_replace(entries, j as int, (count + 1) as nat);
                }
                self.counters.set(j, Counter { recipient: recipient.clone(), count: count + 1 });
                assert(counter_entries(self.counters@) =~= entries.update(
                    j as int,
                    (entries[j as int].0, (count + 1) as nat),
                ));
                true
            },
            None => {
                proof {
                    lemma_table_lacks(entries, recipient@);
                }
                self.counters.push(Counter { recipient: recipient.clone(), count: 1 });
                assert(counter_entries(self.counters@).drop_last() =~= entries);
                true
            },
        }
    }

    /// Performs one command and answers it.
    pub fn perform(&mut self, command: &Command) -> (reply: Reply)
        ensures
            (final(self)@, reply@) == old(self)@.perform(command@),
    {
        match command {
            Command::FetchContent { message_id } => Reply::Content {
                content: self.object(message_id),
            },
            Command::CountMessage { recipient } => Reply::Counted { ok: self.count(recipient) },
            Command::WriteRecord { record } => {
                self.write(
                    Mail {
                        pk: record.pk.clone(),
                        sk: record.sk,
                        message_id: record.message_id.clone(),
                        subject: record.subject.clone(),
                        first_sentence: record.first_sentence.clone(),
                        schema_version: record.schema_version,
                    },
                );
                Reply::Written { ok: true }
            },
        }
    }
}

/// The stores and the batch after one dispatch is performed and answered,
/// together with the command that the answer leads to.
pub open spec fn dispatched(state: (StoresView, BatchView), dispatch: DispatchView) -> (
    StoresView,
    BatchView,
) {
    let (stores, batch) = state;
    let (stores_1, reply_1) = stores.perform(dispatch.command);
    let batch_1 = batch.after(dispatch.index, reply_1);
    match batch.next(dispatch.index, reply_1) {
        None => (stores_1, batch_1),
        Some(command) => {
            let (stores_2, reply_2) = stores_1.perform(command);
            (stores_2, batch_1.after(dispatch.index, reply_2))
        },
    }
}

/// The stores and the batch after a run of dispatches, one after the other.
pub open spec fn driven(state: (StoresView, BatchView), dispatches: Seq<DispatchView>) -> (
    StoresView,
    BatchView,
)
    decreases dispatches.len(),
{
    if dispatches.len() == 0 {
        state
    } else {
        dispatched(driven(state, dispatches.drop_last()), dispatches.last())
    }
}

proof fn lemma_driven_add(
    state: (StoresView, BatchView),
    a: Seq<DispatchView>,
    b: Seq<DispatchView>,
)
    ensures
        driven(state, a + b) == driven(driven(state, a), b),
    decreases b.len(),
{
    if b.len() == 0 {
        assert(a + b =~= a);
    } else {
        lemma_driven_add(state, a, b.drop_last());
        assert((a + b).drop_last() =~= a + b.drop_last());
    }
}

/// Driving the opening commands of the first `n` notifications of a batch,
/// each to its end, ingests these notifications one after the other and
/// settles their slots; the slots behind them are untouched.
proof fn lemma_driven_openings(stores: StoresView, batch: Seq<Notification>, n: int)
    requires
        0 <= n <= batch.len(),
    ensures
        ({
            let start = BatchView::admitted(batch);
            let (after, progress) = driven((stores, start), openings(start.slots, n));
            let (ingested, all) = stores.ingest(notification_views(batch).take(n));
            &&& after == ingested
            &&& all.len() == n
            &&& !progress.aborted
            &&& progress.slots.len() == batch.len()
            &&& forall|j: int|
                0 <= j < n ==> (#[trigger] progress.slots[j]).settled() && progress.slots[j].report()
                    == all[j]
            &&& forall|j: int| n <= j < batch.len() ==> progress.slots[j] == start.slots[j]
        }),
    decreases n,
{
    let start = BatchView::admitted(batch);
    if n > 0 {
        lemma_driven_openings(stores, batch, n - 1);
        let before = driven((stores, start), openings(start.slots, n - 1));
        let views = notification_views(batch);
        assert(views.take(n).drop_last() =~= views.take(n - 1));
        assert(views.take(n).last() == batch[n - 1]@);
        let (ingested, all) = stores.ingest(views.take(n - 1));
        assert(before.0 == ingested);
        assert(start.slots[n - 1] == slot_of(validate(batch[n - 1]@)));
        assert(before.1.slots[n - 1] == start.slots[n - 1]);
        match validate(batch[n - 1]@) {
            Err(e) => {
                let progress = before.1;
                let last = stores.ingest(views.take(n)).1;
                assert forall|j: int| 0 <= j < n implies (#[trigger] progress.slots[j]).settled()
                    && progress.slots[j].report() == last[j] by {
                    if j < n - 1 {
                        assert(last[j] == all[j]);
                    }
                }
            },
            Ok(envelope) => {
                let both = opening(n - 1, envelope);
                lemma_driven_add((stores, start), openings(start.slots, n - 1), both);
                let one = both.drop_last();
                assert(one.drop_last() =~= Seq::<DispatchView>::empty());
                assert(driven(before, one.drop_last()) == before);
                assert(one.last() == both[0]);
                let mid = dispatched(before, both[0]);
                assert(driven(before, one) == mid);
                let end = dispatched(mid, both[1]);
                assert(driven(before, both) == end);
                assert(before.1.accepts(n - 1));
                assert(mid.1.accepts(n - 1));
                let last = stores.ingest(views.take(n)).1;
                assert(end.0 == stores.ingest(views.take(n)).0);
                assert forall|j: int| 0 <= j < n implies (#[trigger] end.1.slots[j]).settled()
                    && end.1.slots[j].report() == last[j] by {
                    if j < n - 1 {
                        assert(last[j] == all[j]);
                        assert(end.1.slots[j] == before.1.slots[j]);
                    }
                }
            },
        }
    }
}

impl MemoryStores {
    /// Ingests a batch from start to end: admits it, performs every command
    /// of the orchestrator on these stores and hands each answer back, until
    /// nothing is left to do. Returns one report for each notification, in
    /// the order of the batch.
    pub fn ingest(&mut self, notifications: &Vec<Notification>) -> (result: Vec<ItemReport>)
        ensures
            (final(self)@, result@) == old(self)@.ingest(notification_views(notifications@)),
    {
        let (mut batch, dispatches) = Batch::start(notifications);
        let ghost begin = (self@, batch@);
        let ghost all = dispatch_views(dispatches@);
        let mut p: usize = 0;
        assert(all.take(0) =~= Seq::<DispatchView>::empty());
        while p < dispatches.len()
            invariant
                p <= dispatches.len(),
                all == dispatch_views(dispatches@),
                (self@, batch@) == driven(begin, all.take(p as int)),
            decreases dispatches.len() - p,
        {
            let index = dispatches[p].index;
            let reply = self.perform(&dispatches[p].command);
            let next = batch.handle(index, reply);
            if let Some(command) = next {
                let reply = self.perform(&command);
                let _ = batch.handle(index, reply);
            }
            proof {
                assert(all.take(p + 1).drop_last() =~= all.take(p as int));
                assert(all.take(p + 1).last() == dispatches[p as int]@);
            }
            p += 1;
        }
        proof {
            assert(all.take(p as int) =~= all);
            lemma_driven_openings(old(self)@, notifications@, notifications.len() as int);
            let views = notification_views(notifications@);
            assert(views.take(notifications.len() as int) =~= views);
            assert(batch@.settled());
            assert(reports(batch@.slots) =~= old(self)@.ingest(views).1);
        }
        match batch.outcomes() {
            Some(Ok(result)) => result,
            _ => Vec::new(),
        }
    }
}

} // verus!
