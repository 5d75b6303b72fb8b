//! The batch orchestrator: what has to be asked of the stores for each
//! message of a batch, and what each answer leads to.
//!
//! The orchestrator decides and never waits. Its caller performs the
//! commands, in any order and as concurrently as it likes, and hands back
//! each reply. The two chains of a message (resolve the content, then write
//! the record; count the message) advance independently, and no reply for
//! one message touches another.

use crate::envelope::{get_params, validate, EnvelopeView, MailEnvelope, Notification, ValidationError};
use crate::preview::{
    get_email_first_sentence, resolution, Content, ContentResolutionError, ContentView,
};
use crate::record::{normalize, record_of, Mail, MailView};
use vstd::prelude::*;

verus! {

/// A request to one of the stores.
#[derive(Clone, Debug, PartialEq, Eq)]
pub enum Command {
    /// Fetch the raw message from the object store.
    FetchContent { message_id: String },
    /// Add one to the counter of the recipient, creating it where it is
    /// missing, in a single atomic request.
    CountMessage { recipient: String },
    /// Upsert the record into the ledger.
    WriteRecord { record: Mail },
}

/// What a store answered.
#[derive(Clone, Debug, PartialEq, Eq)]
pub enum Reply {
    /// The answer to `FetchContent`: what fetching the object and reading
    /// it gave.
    Content { content: Content },
    /// The answer to `CountMessage`.
    Counted { ok: bool },
    /// The answer to `WriteRecord`.
    Written { ok: bool },
}

/// How far the record of a message has come.
#[derive(Clone, Copy, Debug, PartialEq, Eq, Structural)]
pub enum LedgerStage {
    /// The content is being fetched.
    Resolving,
    /// The record is being written.
    Writing,
    /// The record is in the ledger.
    Written,
    /// The ledger rejected the record.
    Failed,
}

/// How far the counting of a message has come.
#[derive(Clone, Copy, Debug, PartialEq, Eq, Structural)]
pub enum CounterStage {
    Counting,
    Counted,
    Failed,
}

/// The progress of one admitted message.
#[derive(Clone, Debug, PartialEq, Eq)]
pub struct Item {
    pub envelope: MailEnvelope,
    pub ledger: LedgerStage,
    pub counter: CounterStage,
    /// Why the record carries no preview, once the content is resolved.
    pub content_warning: Option<ContentResolutionError>,
}

/// The place of one notification of the batch.
#[derive(Clone, Debug, PartialEq, Eq)]
pub enum Slot {
    Rejected(ValidationError),
    Admitted(Item),
}

/// A command together with the index of the message that it is for.
#[derive(Clone, Debug, PartialEq, Eq)]
pub struct Dispatch {
    pub index: usize,
    pub command: Command,
}

/// How the processing of one message ended.
#[derive(Clone, Copy, Debug, PartialEq, Eq, Structural)]
pub enum Outcome {
    /// The record is in the ledger.
    Success,
    /// The notification was rejected at intake; nothing was written.
    ValidationError(ValidationError),
    /// The ledger rejected the record.
    LedgerWriteError,
}

/// The outcome of one message, with what went wrong beside it.
#[derive(Clone, Copy, Debug, PartialEq, Eq, Structural)]
pub struct ItemReport {
    pub outcome: Outcome,
    /// Set where the record was written without a preview.
    pub content_warning: Option<ContentResolutionError>,
    /// Set where the counter of the recipient could not be updated.
    pub aggregate_write_error: bool,
}

/// A store could not be reached at all: the batch was given up.
#[derive(Clone, Copy, Debug, PartialEq, Eq, Structural)]
pub struct InfrastructureError;

/// How a request to a store failed.
#[derive(Clone, Copy, Debug, PartialEq, Eq, Structural)]
pub enum StoreFailure {
    /// The store did not answer in time.
    TimedOut,
    /// The request could not be built: the store's address or the
    /// credentials for it are missing.
    NotBuilt,
    /// The request could not be sent: there is no connection to the store.
    NotSent,
    /// The store refused the request, or answered what cannot be read.
    Refused,
}

/// A command, as a value of the model.
pub enum CommandView {
    FetchContent { message_id: Seq<char> },
    CountMessage { recipient: Seq<char> },
    WriteRecord { record: MailView },
}

/// A reply, as a value of the model.
pub enum ReplyView {
    Content { content: ContentView },
    Counted { ok: bool },
    Written { ok: bool },
}

/// The progress of a message, as a value of the model.
pub struct ItemView {
    pub envelope: EnvelopeView,
    pub ledger: LedgerStage,
    pub counter: CounterStage,
    pub content_warning: Option<ContentResolutionError>,
}

/// A slot, as a value of the model.
pub enum SlotView {
    Rejected(ValidationError),
    Admitted(ItemView),
}

/// A dispatch, as a value of the model.
pub struct DispatchView {
    pub index: int,
    pub command: CommandView,
}

impl View for Command {
    type V = CommandView;

    open spec fn view(&self) -> CommandView {
        match *self {
            Command::FetchContent { message_id } => CommandView::FetchContent {
                message_id: message_id@,
            },
            Command::CountMessage { recipient } => CommandView::CountMessage {
                recipient: recipient@,
            },
            Command::WriteRecord { record } => CommandView::WriteRecord { record: record@ },
        }
    }
}

impl View for Reply {
    type V = ReplyView;

    open spec fn view(&self) -> ReplyView {
        match *self {
            Reply::Content { content } => ReplyView::Content { content: content@ },
            Reply::Counted { ok } => ReplyView::Counted { ok },
            Reply::Written { ok } => ReplyView::Written { ok },
        }
    }
}

impl View for Item {
    type V = ItemView;

    open spec fn view(&self) -> ItemView {
        ItemView {
            envelope: self.envelope@,
            ledger: self.ledger,
            counter: self.counter,
            content_warning: self.content_warning,
        }
    }
}

impl View for Slot {
    type V = SlotView;

    open spec fn view(&self) -> SlotView {
        match *self {
            Slot::Rejected(e) => SlotView::Rejected(e),
            Slot::Admitted(item) => SlotView::Admitted(item@),
        }
    }
}

impl View for Dispatch {
    type V = DispatchView;

    open spec fn view(&self) -> DispatchView {
        DispatchView { index: self.index as int, command: self.command@ }
    }
}

/// The view of an optional command.
pub open spec fn command_of(command: Option<Command>) -> Option<CommandView> {
    match command {
        Some(c) => Some(c@),
        None => None,
    }
}

/// The state of a message that has just been admitted.
pub open spec fn fresh(envelope: EnvelopeView) -> ItemView {
    ItemView {
        envelope,
        ledger: LedgerStage::Resolving,
        counter: CounterStage::Counting,
        content_warning: None,
    }
}

/// The slot of a notification at intake.
pub open spec fn slot_of(validated: Result<EnvelopeView, ValidationError>) -> SlotView {
    match validated {
        Ok(envelope) => SlotView::Admitted(fresh(envelope)),
        Err(e) => SlotView::Rejected(e),
    }
}

/// The two commands that start an admitted message at index `index`.
pub open spec fn opening(index: int, envelope: EnvelopeView) -> Seq<DispatchView> {
    seq![
        DispatchView {
            index,
            command: CommandView::FetchContent { message_id: envelope.message_id },
        },
        DispatchView { index, command: CommandView::CountMessage { recipient: envelope.recipient } },
    ]
}

/// The commands that start the first `n` slots, in order: two for each
/// admitted message, none for a rejected one.
pub open spec fn openings(slots: Seq<SlotView>, n: int) -> Seq<DispatchView>
    decreases n,
{
    if n <= 0 {
        Seq::empty()
    } else {
        match slots[n - 1] {
            SlotView::Admitted(item) => openings(slots, n - 1) + opening(n - 1, item.envelope),
            SlotView::Rejected(_) => openings(slots, n - 1),
        }
    }
}

/// What a reply does to a message: the state it leaves and the command that
/// follows, if any. A reply that the message is not waiting for changes
/// nothing.
pub open spec fn step(item: ItemView, reply: ReplyView) -> (ItemView, Option<CommandView>) {
    match reply {
        ReplyView::Content { content } => {
            if item.ledger == LedgerStage::Resolving {
                let (preview, warning) = resolution(content);
                (
                    ItemView { ledger: LedgerStage::Writing, content_warning: warning, ..item },
                    Some(CommandView::WriteRecord { record: record_of(item.envelope, preview) }),
                )
            } else {
                (item, None)
            }
        },
        ReplyView::Written { ok } => {
            if item.ledger == LedgerStage::Writing {
                (
                    ItemView {
                        ledger: if ok {
                            LedgerStage::Written
                        } else {
                            LedgerStage::Failed
                        },
                        ..item
                    },
                    None,
                )
            } else {
                (item, None)
            }
        },
        ReplyView::Counted { ok } => {
            if item.counter == CounterStage::Counting {
                (
                    ItemView {
                        counter: if ok {
                            CounterStage::Counted
                        } else {
                            CounterStage::Failed
                        },
                        ..item
                    },
                    None,
                )
            } else {
                (item, None)
            }
        },
    }
}

impl ItemView {
    /// Both chains of the message have ended.
    pub open spec fn settled(self) -> bool {
        &&& self.ledger == LedgerStage::Written || self.ledger == LedgerStage::Failed
        &&& self.counter == CounterStage::Counted || self.counter == CounterStage::Failed
    }

    /// The report of a settled message.
    pub open spec fn report(self) -> ItemReport {
        ItemReport {
            outcome: if self.ledger == LedgerStage::Written {
                Outcome::Success
            } else {
                Outcome::LedgerWriteError
            },
            content_warning: self.content_warning,
            aggregate_write_error: self.counter == CounterStage::Failed,
        }
    }
}

impl SlotView {
    /// Nothing is left to wait for.
    pub open spec fn settled(self) -> bool {
        match self {
            SlotView::Rejected(_) => true,
            SlotView::Admitted(item) => item.settled(),
        }
    }

    /// The report of a settled slot.
    pub open spec fn report(self) -> ItemReport {
        match self {
            SlotView::Rejected(e) => ItemReport {
                outcome: Outcome::ValidationError(e),
                content_warning: None,
                aggregate_write_error: false,
            },
            SlotView::Admitted(item) => item.report(),
        }
    }

    /// The slot after a reply.
    pub open spec fn after(self, reply: ReplyView) -> SlotView {
        match self {
            SlotView::Rejected(_) => self,
            SlotView::Admitted(item) => SlotView::Admitted(step(item, reply).0),
        }
    }

    /// The command that a reply leads to.
    pub open spec fn next(self, reply: ReplyView) -> Option<CommandView> {
        match self {
            SlotView::Rejected(_) => None,
            SlotView::Admitted(item) => step(item, reply).1,
        }
    }
}

/// Whether a failure shows that the store is out of reach, which gives up
/// the whole batch. A request that ran out of time or was refused has
/// failed for its message alone.
pub open spec fn out_of_reach(failure: StoreFailure) -> bool {
    failure is NotBuilt || failure is NotSent
}

/// The reply that stands for a command that failed for its message alone:
/// no content, no count, no record.
pub open spec fn failed_reply(command: CommandView) -> ReplyView {
    match command {
        CommandView::FetchContent { .. } => ReplyView::Content { content: ContentView::Unavailable },
        CommandView::CountMessage { .. } => ReplyView::Counted { ok: false },
        CommandView::WriteRecord { .. } => ReplyView::Written { ok: false },
    }
}

/// The reply that stands for the failure of `command`, or nothing where the
/// failure shows that the store is out of reach.
pub fn reply_to_failure(command: &Command, failure: StoreFailure) -> (reply: Option<Reply>)
    ensures
        match reply {
            Some(r) => !out_of_reach(failure) && r@ == failed_reply(command@),
            None => out_of_reach(failure),
        },
{
    match failure {
        StoreFailure::NotBuilt => None,
        StoreFailure::NotSent => None,
        _ => Some(
            match command {
                Command::FetchContent { .. } => Reply::Content { content: Content::Unavailable },
                Command::CountMessage { .. } => Reply::Counted { ok: false },
                Command::WriteRecord { .. } => Reply::Written { ok: false },
            },
        ),
    }
}

impl Item {
    /// Takes in a reply for this message and returns the command that
    /// follows from it, if any.
    pub fn advance(&mut self, reply: Reply) -> (command: Option<Command>)
        ensures
            (final(self)@, command_of(command)) == step(old(self)@, reply@),
    {
        match reply {
            Reply::Content { content } => {
                if self.ledger == LedgerStage::Resolving {
                    let resolved = get_email_first_sentence(content);
                    let record = normalize(&self.envelope, resolved.preview);
                    self.ledger = LedgerStage::Writing;
                    self.content_warning = resolved.warning;
                    Some(Command::WriteRecord { record })
                } else {
                    None
                }
            },
            Reply::Written { ok } => {
                if self.ledger == LedgerStage::Writing {
                    self.ledger = if ok {
                        LedgerStage::Written
                    } else {
                        LedgerStage::Failed
                    };
                }
                None
            },
            Reply::Counted { ok } => {
                if self.counter == CounterStage::Counting {
                    self.counter = if ok {
                        CounterStage::Counted
                    } else {
                        CounterStage::Failed
                    };
                }
                None
            },
        }
    }
}

/// The views of a run of slots.
pub open spec fn slot_views(slots: Seq<Slot>) -> Seq<SlotView> {
    Seq::new(slots.len(), |i: int| slots[i]@)
}

/// The views of a run of dispatches.
pub open spec fn dispatch_views(dispatches: Seq<Dispatch>) -> Seq<DispatchView> {
    Seq::new(dispatches.len(), |i: int| dispatches[i]@)
}

/// The reports of a run of slots.
pub open spec fn reports(slots: Seq<SlotView>) -> Seq<ItemReport> {
    Seq::new(slots.len(), |i: int| slots[i].report())
}

/// One batch in flight: a slot for each of its notifications, in their
/// order.
#[derive(Clone, Debug, PartialEq, Eq)]
pub struct Batch {
    pub slots: Vec<Slot>,
    /// Set once a store could not be reached at all.
    pub aborted: bool,
}

/// A batch in flight, as a value of the model.
pub struct BatchView {
    pub slots: Seq<SlotView>,
    pub aborted: bool,
}

impl View for Batch {
    type V = BatchView;

    open spec fn view(&self) -> BatchView {
        BatchView { slots: slot_views(self.slots@), aborted: self.aborted }
    }
}

impl BatchView {
    /// The batch that intake makes of `notifications`.
    pub open spec fn admitted(notifications: Seq<Notification>) -> BatchView {
        BatchView {
            slots: Seq::new(notifications.len(), |i: int| slot_of(validate(notifications[i]@))),
            aborted: false,
        }
    }

    /// Whether a reply for the message at `index` is taken in.
    pub open spec fn accepts(self, index: int) -> bool {
        !self.aborted && 0 <= index < self.slots.len()
    }

    /// The batch after a reply for the message at `index`: that slot
    /// advances and every other slot stays as it is. A batch that was given
    /// up takes in nothing.
    pub open spec fn after(self, index: int, reply: ReplyView) -> BatchView {
        if self.accepts(index) {
            BatchView { slots: self.slots.update(index, self.slots[index].after(reply)), ..self }
        } else {
            self
        }
    }

    /// The command that a reply for the message at `index` leads to.
    pub open spec fn next(self, index: int, reply: ReplyView) -> Option<CommandView> {
        if self.accepts(index) {
            self.slots[index].next(reply)
        } else {
            None
        }
    }

    /// The batch after the command `command` of the message at `index`
    /// failed: given up where the store is out of reach; else as after the
    /// reply that stands for the failure.
    pub open spec fn after_failure(
        self,
        index: int,
        command: CommandView,
        failure: StoreFailure,
    ) -> BatchView {
        if out_of_reach(failure) {
            BatchView { aborted: true, ..self }
        } else {
            self.after(index, failed_reply(command))
        }
    }

    /// The command that the failure of `command` leads to.
    pub open spec fn next_after_failure(
        self,
        index: int,
        command: CommandView,
        failure: StoreFailure,
    ) -> Option<CommandView> {
        if out_of_reach(failure) {
            None
        } else {
            self.next(index, failed_reply(command))
        }
    }

    /// Every slot is settled.
    pub open spec fn settled(self) -> bool {
        forall|i: int| 0 <= i < self.slots.len() ==> (#[trigger] self.slots[i]).settled()
    }

    /// What the batch has to show: nothing while a message is in flight, the
    /// failure where the batch was given up, else one report for each
    /// notification, in the order of the batch.
    pub open spec fn outcomes(self) -> Option<Result<Seq<ItemReport>, InfrastructureError>> {
        if self.aborted {
            Some(Err(InfrastructureError))
        } else if self.settled() {
            Some(Ok(reports(self.slots)))
        } else {
            None
        }
    }
}

/// The view of what `Batch::outcomes` returns.
pub open spec fn outcomes_of(
    outcomes: Option<Result<Vec<ItemReport>, InfrastructureError>>,
) -> Option<Result<Seq<ItemReport>, InfrastructureError>> {
    match outcomes {
        Some(Ok(reports)) => Some(Ok(reports@)),
        Some(Err(e)) => Some(Err(e)),
        None => None,
    }
}

impl Slot {
    /// Whether nothing is left to wait for.
    pub fn is_settled(&self) -> (settled: bool)
        ensures
            settled == self@.settled(),
    {
        match self {
            Slot::Rejected(_) => true,
            Slot::Admitted(item) => {
                (item.ledger == LedgerStage::Written || item.ledger == LedgerStage::Failed) && (
                item.counter == CounterStage::Counted || item.counter == CounterStage::Failed)
            },
        }
    }

    /// The report of this slot, once it is settled.
    pub fn report(&self) -> (report: Option<ItemReport>)
        ensures
            report == if self@.settled() {
                Some(self@.report())
            } else {
                None
            },
    {
        if !self.is_settled() {
            return None;
        }
        Some(
            match self {
                Slot::Rejected(e) => ItemReport {
                    outcome: Outcome::ValidationError(*e),
                    content_warning: None,
                    aggregate_write_error: false,
                },
                Slot::Admitted(item) => ItemReport {
                    outcome: if item.ledger == LedgerStage::Written {
                        Outcome::Success
                    } else {
                        Outcome::LedgerWriteError
                    },
                    content_warning: item.content_warning,
                    aggregate_write_error: item.counter == CounterStage::Failed,
                },
            },
        )
    }
}

impl Batch {
    /// Takes in a batch: validates each notification and returns, beside the
    /// batch, the commands that start every valid message. A notification
    /// that is rejected gets its slot and no command.
    pub fn start(notifications: &Vec<Notification>) -> (started: (Batch, Vec<Dispatch>))
        ensures
            started.0@ == BatchView::admitted(notifications@),
            dispatch_views(started.1@) == openings(started.0@.slots, notifications.len() as int),
    {
        let mut slots: Vec<Slot> = Vec::new();
        let mut dispatches: Vec<Dispatch> = Vec::new();
        let mut i: usize = 0;
        while i < notifications.len()
            invariant
                i <= notifications.len(),
                slots.len() == i,
                forall|j: int|
                    0 <= j < i ==> (#[trigger] slots[j])@ == slot_of(validate(notifications[j]@)),
                dispatch_views(dispatches@) == openings(slot_views(slots@), i as int),
            decreases notifications.len() - i,
        {
            let ghost before = slot_views(slots@);
            match get_params(&notifications[i]) {
                Ok(envelope) => {
                    dispatches.push(
                        Dispatch {
                            index: i,
                            command: Command::FetchContent { message_id: envelope.message_id.clone() },
                        },
                    );
                    dispatches.push(
                        Dispatch {
                            index: i,
                            command: Command::CountMessage { recipient: envelope.recipient.clone() },
                        },
                    );
                    slots.push(
                        Slot::Admitted(
                            Item {
                                envelope,
                                ledger: LedgerStage::Resolving,
                                counter: CounterStage::Counting,
                                content_warning: None,
                            },
                        ),
                    );
                },
                Err(e) => {
                    slots.push(Slot::Rejected(e));
                },
            }
            proof {
                let after = slot_views(slots@);
                assert(after.take(i as int) =~= before);
                lemma_openings_prefix(after, before, i as int);
                assert(dispatch_views(dispatches@) =~= openings(after, i + 1));
            }
            i += 1;
        }
        let batch = Batch { slots, aborted: false };
        assert(batch@.slots =~= BatchView::admitted(notifications@).slots);
        (batch, dispatches)
    }

    /// Takes in the reply to a command of the message at `index` and returns
    /// the command that follows from it, if any. No other message is
    /// touched.
    pub fn handle(&mut self, index: usize, reply: Reply) -> (command: Option<Command>)
        ensures
            final(self)@ == old(self)@.after(index as int, reply@),
            command_of(command) == old(self)@.next(index as int, reply@),
    {
        if self.aborted || index >= self.slots.len() {
            return None;
        }
        let command = match &mut self.slots[index] {
            Slot::Admitted(item) => item.advance(reply),
            Slot::Rejected(_) => None,
        };
        assert(self@.slots =~= old(self)@.slots.update(
            index as int,
            old(self)@.slots[index as int].after(reply@),
        ));
        command
    }

    /// Takes in the failure of a command of the message at `index`. A store
    /// that is out of reach gives up the batch; any other failure is that
    /// of the one message, and the batch goes on.
    pub fn handle_failure(&mut self, index: usize, command: &Command, failure: StoreFailure) -> (next:
        Option<Command>)
        ensures
            final(self)@ == old(self)@.after_failure(index as int, command@, failure),
            command_of(next) == old(self)@.next_after_failure(index as int, command@, failure),
    {
        match reply_to_failure(command, failure) {
            Some(reply) => self.handle(index, reply),
            None => {
                self.abort();
                None
            },
        }
    }

    /// Gives the batch up: a store could not be reached at all. Nothing
    /// further is attempted.
    pub fn abort(&mut self)
        ensures
            final(self)@ == (BatchView { aborted: true, ..old(self)@ }),
    {
        self.aborted = true;
    }

    /// Whether no message of the batch is in flight any more.
    pub fn is_settled(&self) -> (settled: bool)
        ensures
            settled == self@.settled(),
    {
        let mut i: usize = 0;
        while i < self.slots.len()
            invariant
                i <= self.slots.len(),
                forall|j: int| 0 <= j < i ==> (#[trigger] self@.slots[j]).settled(),
            decreases self.slots.len() - i,
        {
            if !self.slots[i].is_settled() {
                assert(!self@.slots[i as int].settled());
                return false;
            }
            i += 1;
        }
        true
    }

    /// The outcome of the batch: one report for each notification, in the
    /// order of the batch, once every message is settled.
    pub fn outcomes(&self) -> (outcomes: Option<Result<Vec<ItemReport>, InfrastructureError>>)
        ensures
            outcomes_of(outcomes) == self@.outcomes(),
    {
        if self.aborted {
            return Some(Err(InfrastructureError));
        }
        if !self.is_settled() {
            return None;
        }
        let mut reports_so_far: Vec<ItemReport> = Vec::new();
        let mut i: usize = 0;
        while i < self.slots.len()
            invariant
                i <= self.slots.len(),
                self@.settled(),
                reports_so_far.len() == i,
                forall|j: int| 0 <= j < i ==> reports_so_far[j] == self@.slots[j].report(),
            decreases self.slots.len() - i,
        {
            assert(self@.slots[i as int].settled());
            if let Some(report) = self.slots[i].report() {
                reports_so_far.push(report);
            }
            i += 1;
        }
        assert(reports_so_far@ =~= reports(self@.slots));
        Some(Ok(reports_so_far))
    }
}

/// The opening commands of the first `n` slots depend on those slots only.
proof fn lemma_openings_prefix(longer: Seq<SlotView>, shorter: Seq<SlotView>, n: int)
    requires
        0 <= n <= shorter.len() <= longer.len(),
        longer.take(shorter.len() as int) == shorter,
    ensures
        openings(longer, n) == openings(shorter, n),
    decreases n,
{
    if n > 0 {
        assert(longer[n - 1] == longer.take(shorter.len() as int)[n - 1]);
        lemma_openings_prefix(longer, shorter, n - 1);
    }
}

/// The state of a message after the replies `replies`, taken in order, and
/// the commands that they led to.
pub open spec fn run(item: ItemView, replies: Seq<ReplyView>) -> (ItemView, Seq<CommandView>)
    decreases replies.len(),
{
    if replies.len() == 0 {
        (item, Seq::empty())
    } else {
        let (before, commands) = run(item, replies.drop_last());
        let (after, command) = step(before, replies.last());
        (
            after,
            match command {
                Some(c) => commands.push(c),
                None => commands,
            },
        )
    }
}

/// Whatever the stores answer and in whatever order, a message leads to at
/// most one write of a record, and to exactly one once its content is
/// resolved; the record is keyed by the recipient, the time of receipt and
/// the message identifier of its envelope.
pub proof fn lemma_one_record_per_message(envelope: EnvelopeView, replies: Seq<ReplyView>)
    ensures
        ({
            let (item, commands) = run(fresh(envelope), replies);
            &&& item.envelope == envelope
            &&& item.ledger == LedgerStage::Resolving ==> commands.len() == 0
            &&& item.ledger != LedgerStage::Resolving ==> {
                &&& commands.len() == 1
                &&& commands[0] is WriteRecord
                &&& commands[0]->record.key == envelope.key()
            }
        }),
    decreases replies.len(),
{
    if replies.len() > 0 {
        lemma_one_record_per_message(envelope, replies.drop_last());
    }
}

/// A message whose object is missing from the object store is written all
/// the same: with an empty preview, and with the warning in its report.
pub proof fn lemma_missing_object_degrades(item: ItemView)
    requires
        item.ledger == LedgerStage::Resolving,
    ensures
        ({
            let (after, command) = step(
                item,
                ReplyView::Content { content: ContentView::Unavailable },
            );
            &&& command == Some(
                CommandView::WriteRecord { record: record_of(item.envelope, Seq::empty()) },
            )
            &&& after.content_warning == Some(ContentResolutionError::ObjectUnavailable)
            &&& step(after, ReplyView::Written { ok: true }).0.report().outcome == Outcome::Success
            &&& step(after, ReplyView::Written { ok: true }).0.report().content_warning == Some(
                ContentResolutionError::ObjectUnavailable,
            )
        }),
{
}

/// A reply for one message leaves every other message of the batch as it
/// is, and a rejected notification stays rejected: a failure in one place
/// neither cancels nor undoes anything elsewhere.
pub proof fn lemma_replies_are_isolated(batch: BatchView, index: int, reply: ReplyView, other: int)
    requires
        0 <= other < batch.slots.len(),
    ensures
        batch.after(index, reply).slots.len() == batch.slots.len(),
        other != index ==> batch.after(index, reply).slots[other] == batch.slots[other],
        batch.slots[other] is Rejected ==> batch.after(index, reply).slots[other]
            == batch.slots[other],
{
}

/// A batch that is neither given up nor in flight reports on every
/// notification, in the order of the batch.
pub proof fn lemma_one_report_per_notification(batch: BatchView)
    requires
        !batch.aborted,
        batch.settled(),
    ensures
        batch.outcomes() matches Some(Ok(all)) && all.len() == batch.slots.len() && forall|i: int|
            0 <= i < all.len() ==> all[i] == batch.slots[i].report(),
{
}

/// The recipients that the count commands among `dispatches` name, in
/// their order.
pub open spec fn counts_in(dispatches: Seq<DispatchView>) -> Seq<Seq<char>>
    decreases dispatches.len(),
{
    if dispatches.len() == 0 {
        Seq::empty()
    } else {
        match dispatches.last().command {
            CommandView::CountMessage { recipient } => counts_in(dispatches.drop_last()).push(
                recipient,
            ),
            _ => counts_in(dispatches.drop_last()),
        }
    }
}

/// The recipients of the admitted messages among the first `n` slots, in
/// their order.
pub open spec fn admitted_recipients(slots: Seq<SlotView>, n: int) -> Seq<Seq<char>>
    decreases n,
{
    if n <= 0 {
        Seq::empty()
    } else {
        match slots[n - 1] {
            SlotView::Admitted(item) => admitted_recipients(slots, n - 1).push(
                item.envelope.recipient,
            ),
            SlotView::Rejected(_) => admitted_recipients(slots, n - 1),
        }
    }
}

/// A batch asks for one count for each message that it admits, for the
/// recipient of that message, and for no other count.
pub proof fn lemma_one_count_per_message(slots: Seq<SlotView>, n: int)
    requires
        0 <= n <= slots.len(),
    ensures
        counts_in(openings(slots, n)) == admitted_recipients(slots, n),
    decreases n,
{
    if n > 0 {
        lemma_one_count_per_message(slots, n - 1);
        match slots[n - 1] {
            SlotView::Admitted(item) => {
                let earlier = openings(slots, n - 1);
                let both = opening(n - 1, item.envelope);
                let all = earlier + both;
                let mid = all.drop_last();
                assert(mid =~= earlier.push(both[0]));
                assert(mid.drop_last() =~= earlier);
                assert(mid.last() == both[0]);
                assert(counts_in(mid) == counts_in(earlier));
                assert(all.last() == both[1]);
                assert(counts_in(all) == counts_in(mid).push(item.envelope.recipient));
                assert(openings(slots, n) == all);
            },
            SlotView::Rejected(_) => {},
        }
    }
}

/// A settled message stays as it is: no further reply changes it or leads to
/// a command.
pub proof fn lemma_settled_is_final(item: ItemView, reply: ReplyView)
    requires
        item.settled(),
    ensures
        step(item, reply) == (item, None::<CommandView>),
{
}

/// The three answers that a message waits for settle it, and its report
/// does not depend on when the answer of the counter arrives among those of
/// the content and of the ledger.
pub proof fn lemma_three_answers_settle(
    envelope: EnvelopeView,
    fetched: ContentView,
    written: bool,
    counted: bool,
)
    ensures
        ({
            let content = ReplyView::Content { content: fetched };
            let ledger = ReplyView::Written { ok: written };
            let counter = ReplyView::Counted { ok: counted };
            let last = run(fresh(envelope), seq![content, ledger, counter]).0;
            let between = run(fresh(envelope), seq![content, counter, ledger]).0;
            let first = run(fresh(envelope), seq![counter, content, ledger]).0;
            &&& last.settled()
            &&& between == last
            &&& first == last
            &&& last.report().outcome == if written {
                Outcome::Success
            } else {
                Outcome::LedgerWriteError
            }
            &&& last.report().content_warning == resolution(fetched).1
            &&& last.report().aggregate_write_error == !counted
        }),
{
    let content = ReplyView::Content { content: fetched };
    let ledger = ReplyView::Written { ok: written };
    let counter = ReplyView::Counted { ok: counted };
    lemma_run_three(fresh(envelope), content, ledger, counter);
    lemma_run_three(fresh(envelope), content, counter, ledger);
    lemma_run_three(fresh(envelope), counter, content, ledger);
}

/// The state after three replies is the third step after the second after
/// the first.
proof fn lemma_run_three(item: ItemView, a: ReplyView, b: ReplyView, c: ReplyView)
    ensures
        run(item, seq![a, b, c]).0 == step(step(step(item, a).0, b).0, c).0,
{
    let three = seq![a, b, c];
    let two = three.drop_last();
    let one = two.drop_last();
    assert(one.drop_last() =~= Seq::<ReplyView>::empty());
    assert(run(item, one.drop_last()).0 == item);
    assert(one.last() == a);
    assert(run(item, one).0 == step(item, a).0);
    assert(two.last() == b);
    assert(run(item, two).0 == step(step(item, a).0, b).0);
    assert(three.last() == c);
}

} // verus!
