use supermailer::envelope::{Notification, ValidationError};
use supermailer::memory::MemoryStores;
use supermailer::orchestrator::{
    reply_to_failure, Batch, Command, CounterStage, Dispatch, InfrastructureError, ItemReport,
    LedgerStage, Outcome, Reply, Slot, StoreFailure,
};
use supermailer::preview::{Content, ContentResolutionError};
use supermailer::record::Mail;

fn notification(recipient: &str, timestamp: i64, id: &str, subject: &str) -> Notification {
    Notification {
        recipients: vec![recipient.to_string()],
        timestamp: Some(timestamp),
        message_id: Some(id.to_string()),
        subject: Some(subject.to_string()),
    }
}

fn no_recipient(timestamp: i64, id: &str) -> Notification {
    Notification {
        recipients: Vec::new(),
        timestamp: Some(timestamp),
        message_id: Some(id.to_string()),
        subject: Some("lost".to_string()),
    }
}

fn message(body: &str) -> Option<String> {
    Some(body.to_string())
}

fn read(body: &str) -> Content {
    Content::Body(body.to_string())
}

fn key(recipient: &str, timestamp: i64, id: &str) -> Mail {
    Mail {
        pk: recipient.to_string(),
        sk: timestamp,
        message_id: id.to_string(),
        subject: String::new(),
        first_sentence: String::new(),
        schema_version: 0,
    }
}

fn success() -> ItemReport {
    ItemReport { outcome: Outcome::Success, content_warning: None, aggregate_write_error: false }
}

#[test]
fn start_opens_two_chains_for_each_valid_message() {
    let batch = vec![notification("a@example.com", 1, "m-1", "one"), no_recipient(2, "m-2"), notification("c@example.com", 3, "m-3", "three")];
    let (state, dispatches) = Batch::start(&batch);
    assert_eq!(
        dispatches,
        vec![
            Dispatch { index: 0, command: Command::FetchContent { message_id: "m-1".to_string() } },
            Dispatch { index: 0, command: Command::CountMessage { recipient: "a@example.com".to_string() } },
            Dispatch { index: 2, command: Command::FetchContent { message_id: "m-3".to_string() } },
            Dispatch { index: 2, command: Command::CountMessage { recipient: "c@example.com".to_string() } },
        ]
    );
    assert_eq!(state.slots.len(), 3);
    assert_eq!(state.slots[1], Slot::Rejected(ValidationError::MissingRecipient));
    assert!(!state.is_settled());
    assert_eq!(state.outcomes(), None);
}

#[test]
fn an_empty_batch_is_settled_at_once() {
    let (state, dispatches) = Batch::start(&Vec::new());
    assert!(dispatches.is_empty());
    assert!(state.is_settled());
    assert_eq!(state.outcomes(), Some(Ok(Vec::new())));
}

#[test]
fn content_reply_leads_to_the_write_of_the_record() {
    let (mut state, _) = Batch::start(&vec![notification("a@example.com", 7, "m-1", "one")]);
    let next = state.handle(0, Reply::Content { content: read("Hello \r\n\r\n World \r\n\r\n Foo \r\n\r\n Bar") });
    assert_eq!(
        next,
        Some(Command::WriteRecord {
            record: Mail {
                pk: "a@example.com".to_string(),
                sk: 7,
                message_id: "m-1".to_string(),
                subject: "one".to_string(),
                first_sentence: "HelloWorldFoo".to_string(),
                schema_version: 1,
            },
        })
    );
    assert_eq!(state.handle(0, Reply::Written { ok: true }), None);
    assert!(!state.is_settled());
    assert_eq!(state.handle(0, Reply::Counted { ok: true }), None);
    assert!(state.is_settled());
    assert_eq!(state.outcomes(), Some(Ok(vec![success()])));
}

#[test]
fn the_two_chains_advance_in_any_order() {
    let (mut state, _) = Batch::start(&vec![notification("a@example.com", 7, "m-1", "one")]);
    assert_eq!(state.handle(0, Reply::Counted { ok: true }), None);
    assert!(state.handle(0, Reply::Content { content: read("x") }).is_some());
    assert_eq!(state.handle(0, Reply::Written { ok: true }), None);
    assert_eq!(state.outcomes(), Some(Ok(vec![success()])));
}

#[test]
fn a_rejected_ledger_write_fails_the_item_only() {
    let batch = vec![notification("a@example.com", 1, "m-1", "one"), notification("b@example.com", 2, "m-2", "two")];
    let (mut state, _) = Batch::start(&batch);
    state.handle(0, Reply::Content { content: read("x") });
    state.handle(1, Reply::Content { content: read("y") });
    state.handle(0, Reply::Written { ok: false });
    state.handle(1, Reply::Written { ok: true });
    state.handle(0, Reply::Counted { ok: true });
    state.handle(1, Reply::Counted { ok: true });
    assert_eq!(
        state.outcomes(),
        Some(Ok(vec![
            ItemReport { outcome: Outcome::LedgerWriteError, content_warning: None, aggregate_write_error: false },
            success(),
        ]))
    );
}

#[test]
fn a_failed_count_does_not_block_the_ledger_write() {
    let (mut state, _) = Batch::start(&vec![notification("a@example.com", 1, "m-1", "one")]);
    state.handle(0, Reply::Counted { ok: false });
    assert!(matches!(state.handle(0, Reply::Content { content: read("x") }), Some(Command::WriteRecord { .. })));
    state.handle(0, Reply::Written { ok: true });
    assert_eq!(
        state.outcomes(),
        Some(Ok(vec![ItemReport { outcome: Outcome::Success, content_warning: None, aggregate_write_error: true }]))
    );
}

#[test]
fn a_reply_that_nothing_waits_for_changes_nothing() {
    let batch = vec![notification("a@example.com", 1, "m-1", "one"), no_recipient(2, "m-2")];
    let (mut state, _) = Batch::start(&batch);
    let before = state.clone();
    assert_eq!(state.handle(0, Reply::Written { ok: true }), None);
    assert_eq!(state.handle(1, Reply::Content { content: Content::Unavailable }), None);
    assert_eq!(state.handle(2, Reply::Counted { ok: true }), None);
    assert_eq!(state, before);
    state.handle(0, Reply::Content { content: Content::Unavailable });
    let once = state.clone();
    assert_eq!(state.handle(0, Reply::Content { content: read("late") }), None);
    assert_eq!(state, once);
}

#[test]
fn a_reply_for_one_message_leaves_the_others_alone() {
    let batch = vec![notification("a@example.com", 1, "m-1", "one"), notification("b@example.com", 2, "m-2", "two"), no_recipient(3, "m-3")];
    let (mut state, _) = Batch::start(&batch);
    let before = state.clone();
    state.handle(1, Reply::Written { ok: false });
    state.handle(1, Reply::Content { content: Content::Unavailable });
    state.handle(1, Reply::Written { ok: false });
    state.handle(1, Reply::Counted { ok: false });
    assert_eq!(state.slots[0], before.slots[0]);
    assert_eq!(state.slots[2], before.slots[2]);
    match &state.slots[1] {
        Slot::Admitted(item) => {
            assert_eq!(item.ledger, LedgerStage::Failed);
            assert_eq!(item.counter, CounterStage::Failed);
        }
        Slot::Rejected(_) => panic!("the second notification is valid"),
    }
}

#[test]
fn an_aborted_batch_attempts_nothing_further() {
    let (mut state, _) = Batch::start(&vec![notification("a@example.com", 1, "m-1", "one")]);
    state.abort();
    assert_eq!(state.handle(0, Reply::Content { content: read("x") }), None);
    assert_eq!(state.outcomes(), Some(Err(InfrastructureError)));
}

#[test]
fn partial_failure_isolation() {
    let mut stores = MemoryStores::new();
    stores.put_object("m-1".to_string(), message("first"));
    stores.put_object("m-3".to_string(), message("third"));
    let batch = vec![notification("a@example.com", 1, "m-1", "one"), no_recipient(2, "m-2"), notification("c@example.com", 3, "m-3", "three")];
    let reports = stores.ingest(&batch);
    assert_eq!(
        reports,
        vec![
            success(),
            ItemReport { outcome: Outcome::ValidationError(ValidationError::MissingRecipient), content_warning: None, aggregate_write_error: false },
            success(),
        ]
    );
    assert_eq!(stores.record(&key("a@example.com", 1, "m-1")).unwrap().first_sentence, "first");
    assert_eq!(stores.record(&key("c@example.com", 3, "m-3")).unwrap().first_sentence, "third");
    assert_eq!(stores.message_count(&"a@example.com".to_string()), 1);
    assert_eq!(stores.message_count(&"c@example.com".to_string()), 1);
}

#[test]
fn missing_object_degradation() {
    let mut stores = MemoryStores::new();
    let reports = stores.ingest(&vec![notification("a@example.com", 1, "gone", "one")]);
    assert_eq!(
        reports,
        vec![ItemReport {
            outcome: Outcome::Success,
            content_warning: Some(ContentResolutionError::ObjectUnavailable),
            aggregate_write_error: false,
        }]
    );
    assert_eq!(
        stores.record(&key("a@example.com", 1, "gone")),
        Some(&Mail {
            pk: "a@example.com".to_string(),
            sk: 1,
            message_id: "gone".to_string(),
            subject: "one".to_string(),
            first_sentence: String::new(),
            schema_version: 1,
        })
    );
}

#[test]
fn unparseable_object_degradation() {
    let mut stores = MemoryStores::new();
    stores.put_object("m-1".to_string(), None);
    let reports = stores.ingest(&vec![notification("a@example.com", 1, "m-1", "one")]);
    assert_eq!(reports[0].outcome, Outcome::Success);
    assert_eq!(reports[0].content_warning, Some(ContentResolutionError::Unparseable));
    assert_eq!(stores.record(&key("a@example.com", 1, "m-1")).unwrap().first_sentence, "");
}

#[test]
fn every_valid_envelope_leaves_one_record_under_its_key() {
    let mut stores = MemoryStores::new();
    let batch = vec![
        notification("a@example.com", 1, "m-1", "one"),
        notification("a@example.com", 1, "m-2", "two"),
        notification("a@example.com", 2, "m-1", "three"),
        notification("b@example.com", 1, "m-1", "four"),
    ];
    stores.ingest(&batch);
    assert_eq!(stores.record(&key("a@example.com", 1, "m-1")).unwrap().subject, "one");
    assert_eq!(stores.record(&key("a@example.com", 1, "m-2")).unwrap().subject, "two");
    assert_eq!(stores.record(&key("a@example.com", 2, "m-1")).unwrap().subject, "three");
    assert_eq!(stores.record(&key("b@example.com", 1, "m-1")).unwrap().subject, "four");
    assert_eq!(stores.record(&key("b@example.com", 2, "m-1")), None);
}

#[test]
fn resubmission_overwrites_the_record() {
    let mut stores = MemoryStores::new();
    stores.put_object("m-1".to_string(), message("old body"));
    stores.ingest(&vec![notification("a@example.com", 1, "m-1", "first subject")]);
    stores.put_object("m-1".to_string(), message("new body"));
    let mut twice = stores.clone();
    twice.ingest(&vec![notification("a@example.com", 1, "m-1", "second subject")]);
    let held = twice.record(&key("a@example.com", 1, "m-1")).unwrap();
    assert_eq!(held.subject, "second subject");
    assert_eq!(held.first_sentence, "new body");

    let mut only_second = MemoryStores::new();
    only_second.put_object("m-1".to_string(), message("new body"));
    only_second.ingest(&vec![notification("a@example.com", 1, "m-1", "second subject")]);
    assert_eq!(twice.record(&key("a@example.com", 1, "m-1")), only_second.record(&key("a@example.com", 1, "m-1")));
}

#[test]
fn the_same_envelope_twice_is_one_record() {
    let mut stores = MemoryStores::new();
    let n = notification("a@example.com", 1, "m-1", "same");
    let first = stores.ingest(&vec![n.clone()]);
    let after_first = stores.record(&key("a@example.com", 1, "m-1")).cloned();
    let second = stores.ingest(&vec![n]);
    assert_eq!(first, second);
    assert_eq!(stores.record(&key("a@example.com", 1, "m-1")).cloned(), after_first);
}

#[test]
fn fifty_counts_for_one_recipient_in_any_interleaving() {
    let recipient = "web@example.com".to_string();
    let mut batch = Vec::new();
    for i in 0..50 {
        batch.push(notification("web@example.com", 1000 + i, &format!("m-{}", i), "s"));
        batch.push(notification("other@example.com", 1000 + i, &format!("o-{}", i), "s"));
    }
    let (_, dispatches) = Batch::start(&batch);
    let counts: Vec<Command> = dispatches
        .into_iter()
        .map(|d| d.command)
        .filter(|c| matches!(c, Command::CountMessage { .. }))
        .collect();
    assert_eq!(counts.len(), 100);

    let mut orders: Vec<Vec<usize>> = Vec::new();
    orders.push((0..100).collect());
    orders.push((0..100).rev().collect());
    orders.push((0..100).map(|i| (i * 37 + 11) % 100).collect());
    orders.push((0..50).map(|i| 2 * i + 1).chain((0..50).map(|i| 2 * i)).collect());
    for order in orders {
        let mut stores = MemoryStores::new();
        for _ in 0..7 {
            stores.perform(&Command::CountMessage { recipient: recipient.clone() });
        }
        for i in order {
            assert_eq!(stores.perform(&counts[i]), Reply::Counted { ok: true });
        }
        assert_eq!(stores.message_count(&recipient), 7 + 50);
        assert_eq!(stores.message_count(&"other@example.com".to_string()), 50);
    }
}

#[test]
fn a_first_message_creates_the_counter_with_one() {
    let mut stores = MemoryStores::new();
    assert_eq!(stores.message_count(&"a@example.com".to_string()), 0);
    stores.ingest(&vec![notification("a@example.com", 1, "m-1", "one")]);
    assert_eq!(stores.message_count(&"a@example.com".to_string()), 1);
    stores.ingest(&vec![notification("a@example.com", 2, "m-2", "two"), notification("a@example.com", 3, "m-3", "three")]);
    assert_eq!(stores.message_count(&"a@example.com".to_string()), 3);
}

#[test]
fn perform_answers_each_command() {
    let mut stores = MemoryStores::new();
    stores.put_object("m-1".to_string(), message("one"));
    stores.put_object("m-0".to_string(), None);
    assert_eq!(stores.perform(&Command::FetchContent { message_id: "m-1".to_string() }), Reply::Content { content: read("one") });
    assert_eq!(stores.perform(&Command::FetchContent { message_id: "m-0".to_string() }), Reply::Content { content: Content::Unparseable });
    assert_eq!(stores.perform(&Command::FetchContent { message_id: "m-2".to_string() }), Reply::Content { content: Content::Unavailable });
    stores.put_object("m-1".to_string(), message("two"));
    assert_eq!(stores.object(&"m-1".to_string()), read("two"));
    let record = Mail { pk: "a".to_string(), sk: 1, message_id: "m".to_string(), subject: "s".to_string(), first_sentence: "p".to_string(), schema_version: 1 };
    assert_eq!(stores.perform(&Command::WriteRecord { record: record.clone() }), Reply::Written { ok: true });
    assert_eq!(stores.record(&record), Some(&record));
}

#[test]
fn a_failure_of_one_request_stands_for_its_reply() {
    let fetch = Command::FetchContent { message_id: "m".to_string() };
    let count = Command::CountMessage { recipient: "a".to_string() };
    let write = Command::WriteRecord { record: key("a", 1, "m") };
    for failure in [StoreFailure::TimedOut, StoreFailure::Refused] {
        assert_eq!(reply_to_failure(&fetch, failure), Some(Reply::Content { content: Content::Unavailable }));
        assert_eq!(reply_to_failure(&count, failure), Some(Reply::Counted { ok: false }));
        assert_eq!(reply_to_failure(&write, failure), Some(Reply::Written { ok: false }));
    }
}

#[test]
fn a_store_out_of_reach_has_no_reply() {
    let fetch = Command::FetchContent { message_id: "m".to_string() };
    let write = Command::WriteRecord { record: key("a", 1, "m") };
    for failure in [StoreFailure::NotBuilt, StoreFailure::NotSent] {
        assert_eq!(reply_to_failure(&fetch, failure), None);
        assert_eq!(reply_to_failure(&write, failure), None);
    }
}

#[test]
fn a_timed_out_fetch_still_leads_to_the_write() {
    let (mut state, dispatches) = Batch::start(&vec![notification("a@example.com", 7, "m-1", "one")]);
    let next = state.handle_failure(0, &dispatches[0].command, StoreFailure::TimedOut);
    assert_eq!(
        next,
        Some(Command::WriteRecord {
            record: Mail {
                pk: "a@example.com".to_string(),
                sk: 7,
                message_id: "m-1".to_string(),
                subject: "one".to_string(),
                first_sentence: String::new(),
                schema_version: 1,
            },
        })
    );
    assert!(!state.aborted);
    assert_eq!(state.handle_failure(0, &dispatches[1].command, StoreFailure::Refused), None);
    assert_eq!(state.handle_failure(0, &next.unwrap(), StoreFailure::TimedOut), None);
    assert_eq!(
        state.outcomes(),
        Some(Ok(vec![ItemReport {
            outcome: Outcome::LedgerWriteError,
            content_warning: Some(ContentResolutionError::ObjectUnavailable),
            aggregate_write_error: true,
        }]))
    );
}

#[test]
fn a_store_out_of_reach_gives_up_the_batch() {
    let batch = vec![notification("a@example.com", 1, "m-1", "one"), notification("b@example.com", 2, "m-2", "two")];
    for failure in [StoreFailure::NotBuilt, StoreFailure::NotSent] {
        let (mut state, dispatches) = Batch::start(&batch);
        state.handle(0, Reply::Counted { ok: true });
        assert_eq!(state.handle_failure(1, &dispatches[2].command, failure), None);
        assert!(state.aborted);
        assert_eq!(state.handle(0, Reply::Content { content: read("x") }), None);
        assert_eq!(state.outcomes(), Some(Err(InfrastructureError)));
    }
}
