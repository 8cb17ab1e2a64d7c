//! One message's unit of work as a state machine: the seen check, the fetch,
//! the seen mark and the count write, closed by one commit.

use crate::ledger::{any_positive, count_write, lemma_write_is_record, reports};
use crate::ledger::{increment_sender_mails, seen_mail, CountWrite, Ledger, Mail, StorageError};
use crate::sender::{sender_of, sender_position};
use crate::sender::{message_sender, sender_header, DataError, Message};
use vstd::prelude::*;

verus! {

/// Where a unit of work stands.
#[derive(Clone, Debug)]
pub enum UnitState {
    /// Waiting for the answer to the seen query for `id`.
    Checking { id: String },
    /// Waiting for the message `id`.
    Fetching { id: String },
    /// The seen mark is written; waiting for the count row of `sender`.
    Counting { sender: String },
    /// Waiting for the commit.
    Committing,
    /// Committed.
    Closed,
}

/// What the driver reports back.
#[derive(Clone, Debug)]
pub enum UnitEvent {
    /// The record counts that the seen query returned, one per row.
    SeenRows(Vec<u32>),
    /// The fetched message.
    Fetched(Message),
    /// The count stored for the sender, or `None` where it has no row.
    CountRow(Option<i64>),
    /// The transaction is committed.
    Committed,
}

/// What the driver does next, inside the message's transaction.
#[derive(Clone, Debug)]
pub enum UnitAction {
    /// Open the transaction and query the seen set for `id`.
    QuerySeen { id: String },
    /// Fetch the message `id` from the provider.
    Fetch { id: String },
    /// Insert the seen record of `id`, then read the count row of `sender`.
    /// `anomalous`: no header of the message names a sender.
    MarkSeen { id: String, sender: String, anomalous: bool },
    /// Apply `write` to the row of `sender`, then commit.
    WriteCount { sender: String, write: CountWrite },
    /// Commit with nothing written: the message was seen before.
    Commit,
    /// The unit of work is complete.
    Done,
}

/// Why a unit of work stops; the pass it belongs to is abandoned.
#[derive(Clone, Copy, Debug, PartialEq, Eq, Structural)]
pub enum UnitError {
    Data(DataError),
    Storage(StorageError),
    /// The state does not wait for the reported event.
    Unexpected,
}

/// `UnitState` over mathematical values.
pub enum UnitStateView {
    Checking { id: Seq<char> },
    Fetching { id: Seq<char> },
    Counting { sender: Seq<char> },
    Committing,
    Closed,
}

/// `UnitAction` over mathematical values.
pub enum UnitActionView {
    QuerySeen { id: Seq<char> },
    Fetch { id: Seq<char> },
    MarkSeen { id: Seq<char>, sender: Seq<char>, anomalous: bool },
    WriteCount { sender: Seq<char>, write: CountWrite },
    Commit,
    Done,
}

impl View for UnitState {
    type V = UnitStateView;

    open spec fn view(&self) -> UnitStateView {
        match *self {
            UnitState::Checking { id } => UnitStateView::Checking { id: id@ },
            UnitState::Fetching { id } => UnitStateView::Fetching { id: id@ },
            UnitState::Counting { sender } => UnitStateView::Counting { sender: sender@ },
            UnitState::Committing => UnitStateView::Committing,
            UnitState::Closed => UnitStateView::Closed,
        }
    }
}

impl View for UnitAction {
    type V = UnitActionView;

    open spec fn view(&self) -> UnitActionView {
        match *self {
            UnitAction::QuerySeen { id } => UnitActionView::QuerySeen { id: id@ },
            UnitAction::Fetch { id } => UnitActionView::Fetch { id: id@ },
            UnitAction::MarkSeen { id, sender, anomalous } => UnitActionView::MarkSeen {
                id: id@,
                sender: sender@,
                anomalous,
            },
            UnitAction::WriteCount { sender, write } => UnitActionView::WriteCount {
                sender: sender@,
                write,
            },
            UnitAction::Commit => UnitActionView::Commit,
            UnitAction::Done => UnitActionView::Done,
        }
    }
}

/// The step after the seen query: a seen message is committed untouched, any
/// other is fetched.
pub open spec fn after_check(id: Seq<char>, rows: Seq<u32>) -> (UnitStateView, UnitActionView) {
    if any_positive(rows) {
        (UnitStateView::Committing, UnitActionView::Commit)
    } else {
        (UnitStateView::Fetching { id }, UnitActionView::Fetch { id })
    }
}

/// The step after the fetch: the listed identifier is marked seen and the
/// count row of the message's canonical sender is asked for.
pub open spec fn after_fetch(id: Seq<char>, message: Message) -> Result<
    (UnitStateView, UnitActionView),
    UnitError,
> {
    match sender_of(message.headers@) {
        Ok(sender) => Ok(
            (
                UnitStateView::Counting { sender },
                UnitActionView::MarkSeen {
                    id,
                    sender,
                    anomalous: sender_position(message.headers@) is None,
                },
            ),
        ),
        Err(e) => Err(UnitError::Data(e)),
    }
}

/// The step after the count row is read: one more message is counted.
pub open spec fn after_count(sender: Seq<char>, current: Option<i64>) -> Result<
    (UnitStateView, UnitActionView),
    UnitError,
> {
    match count_write(current) {
        Ok(write) => Ok(
            (UnitStateView::Committing, UnitActionView::WriteCount { sender, write }),
        ),
        Err(e) => Err(UnitError::Storage(e)),
    }
}

/// The transition of a unit of work.
pub open spec fn unit_step(state: UnitStateView, event: UnitEvent) -> Result<
    (UnitStateView, UnitActionView),
    UnitError,
> {
    match (state, event) {
        (UnitStateView::Checking { id }, UnitEvent::SeenRows(rows)) => Ok(after_check(id, rows@)),
        (UnitStateView::Fetching { id }, UnitEvent::Fetched(message)) => after_fetch(id, message),
        (UnitStateView::Counting { sender }, UnitEvent::CountRow(current)) => after_count(
            sender,
            current,
        ),
        (UnitStateView::Committing, UnitEvent::Committed) => Ok(
            (UnitStateView::Closed, UnitActionView::Done),
        ),
        _ => Err(UnitError::Unexpected),
    }
}

/// Starts the unit of work of the listed message `id`.
pub fn begin_unit(id: String) -> (step: (UnitState, UnitAction))
    ensures
        step.0@ == (UnitStateView::Checking { id: id@ }),
        step.1@ == (UnitActionView::QuerySeen { id: id@ }),
{
    let again = id.clone();
    (UnitState::Checking { id }, UnitAction::QuerySeen { id: again })
}

/// Takes a unit of work one step on: from the state and what the driver
/// reports to the next state and what the driver does next, or to the error
/// that ends the pass.
pub fn advance_unit(state: UnitState, event: UnitEvent) -> (step: Result<
    (UnitState, UnitAction),
    UnitError,
>)
    ensures
        match step {
            Ok(s) => unit_step(state@, event) == Ok::<(UnitStateView, UnitActionView), UnitError>(
                (s.0@, s.1@),
            ),
            Err(e) => unit_step(state@, event) == Err::<(UnitStateView, UnitActionView), UnitError>(
                e,
            ),
        },
{
    match state {
        UnitState::Checking { id } => match event {
            UnitEvent::SeenRows(rows) => {
                if seen_mail(&rows) {
                    Ok((UnitState::Committing, UnitAction::Commit))
                } else {
                    let again = id.clone();
                    Ok((UnitState::Fetching { id }, UnitAction::Fetch { id: again }))
                }
            },
            _ => Err(UnitError::Unexpected),
        },
        UnitState::Fetching { id } => match event {
            UnitEvent::Fetched(message) => {
                let anomalous = sender_header(&message).is_none();
                match message_sender(&message) {
                    Ok(sender) => {
                        let again = sender.clone();
                        Ok(
                            (
                                UnitState::Counting { sender },
                                UnitAction::MarkSeen { id, sender: again, anomalous },
                            ),
                        )
                    },
                    Err(e) => Err(UnitError::Data(e)),
                }
            },
            _ => Err(UnitError::Unexpected),
        },
        UnitState::Counting { sender } => match event {
            UnitEvent::CountRow(current) => match increment_sender_mails(current) {
                Ok(write) => Ok((UnitState::Committing, UnitAction::WriteCount { sender, write })),
                Err(e) => Err(UnitError::Storage(e)),
            },
            _ => Err(UnitError::Unexpected),
        },
        UnitState::Committing => match event {
            UnitEvent::Committed => Ok((UnitState::Closed, UnitAction::Done)),
            _ => Err(UnitError::Unexpected),
        },
        UnitState::Closed => Err(UnitError::Unexpected),
    }
}

/// What carrying out an action does to the ledger.
pub open spec fn effect(ledger: Ledger, action: UnitActionView) -> Ledger {
    match action {
        UnitActionView::MarkSeen { id, .. } => Ledger {
            seen: ledger.seen.insert(id),
            counts: ledger.counts,
        },
        UnitActionView::WriteCount { sender, write } => Ledger {
            seen: ledger.seen,
            counts: ledger.counts.insert(sender, write.new_count() as nat),
        },
        _ => ledger,
    }
}

/// A unit of work on a seen message writes nothing: it goes from the seen
/// query straight to the commit.
pub proof fn lemma_seen_unit_writes_nothing(ledger: Ledger, mail: Mail, rows: Seq<u32>)
    requires
        ledger.has_seen(mail.id),
        any_positive(rows),
    ensures
        after_check(mail.id, rows) == (UnitStateView::Committing, UnitActionView::Commit),
        effect(ledger, after_check(mail.id, rows).1) == ledger.process(mail),
{
}

/// A unit of work on a new message, driven by a storage that reports the
/// ledger truthfully, leaves the ledger as processing the message does: the
/// listed identifier is seen and its sender counted once more.
pub proof fn lemma_new_unit_is_process(
    ledger: Ledger,
    mail: Mail,
    rows: Seq<u32>,
    message: Message,
    current: Option<i64>,
)
    requires
        !ledger.has_seen(mail.id),
        !any_positive(rows),
        sender_of(message.headers@) == Ok::<Seq<char>, DataError>(mail.sender),
        reports(ledger, mail.sender, current),
        count_write(current) is Ok,
    ensures
        after_check(mail.id, rows) == (
            UnitStateView::Fetching { id: mail.id },
            UnitActionView::Fetch { id: mail.id },
        ),
        after_fetch(mail.id, message) is Ok,
        after_fetch(mail.id, message)->Ok_0.0 == (UnitStateView::Counting { sender: mail.sender }),
        after_count(mail.sender, current) is Ok,
        after_count(mail.sender, current)->Ok_0.0 == UnitStateView::Committing,
        effect(
            effect(ledger, after_fetch(mail.id, message)->Ok_0.1),
            after_count(mail.sender, current)->Ok_0.1,
        ) == ledger.process(mail),
{
    let write = count_write(current)->Ok_0;
    lemma_write_is_record(ledger, mail, current, write);
}

/// A message that no header names the sender of is still processed: it is
/// flagged, marked seen, and counted under the empty sender.
pub proof fn lemma_anomalous_unit(id: Seq<char>, message: Message)
    requires
        sender_position(message.headers@) is None,
    ensures
        after_fetch(id, message) == Ok::<(UnitStateView, UnitActionView), UnitError>(
            (
                UnitStateView::Counting { sender: Seq::empty() },
                UnitActionView::MarkSeen { id, sender: Seq::empty(), anomalous: true },
            ),
        ),
{
}

/// The events of a unit of work applied in turn from its first state: the
/// state reached and the ledger as the writes asked for so far would leave
/// it, or the error that stopped the unit.
pub open spec fn unit_trace(ledger: Ledger, id: Seq<char>, events: Seq<UnitEvent>) -> Result<
    (UnitStateView, Ledger),
    UnitError,
>
    decreases events.len(),
{
    if events.len() == 0 {
        Ok((UnitStateView::Checking { id }, ledger))
    } else {
        match unit_trace(ledger, id, events.drop_last()) {
            Ok((state, staged)) => match unit_step(state, events.last()) {
                Ok((next, action)) => Ok((next, effect(staged, action))),
                Err(e) => Err(e),
            },
            Err(e) => Err(e),
        }
    }
}

/// What a transactional storage holds after a unit of work that began on
/// `ledger`: the writes of a unit that was committed, and nothing of one that
/// stopped on an error or was cut off before its commit.
pub open spec fn durable(ledger: Ledger, trace: Result<(UnitStateView, Ledger), UnitError>) -> Ledger {
    match trace {
        Ok((UnitStateView::Closed, staged)) => staged,
        _ => ledger,
    }
}

/// Whether `after` is `ledger` with the seen mark of `id` and one count
/// written, both.
pub open spec fn both_writes(ledger: Ledger, id: Seq<char>, after: Ledger) -> bool {
    &&& after.seen == ledger.seen.insert(id)
    &&& exists|sender: Seq<char>, count: nat|
        after.counts == #[trigger] ledger.counts.insert(sender, count)
}

/// What holds of the writes asked for so far in each state of a unit.
pub open spec fn staged_as_due(
    ledger: Ledger,
    id: Seq<char>,
    state: UnitStateView,
    staged: Ledger,
) -> bool {
    match state {
        UnitStateView::Checking { id: asked } => asked == id && staged == ledger,
        UnitStateView::Fetching { id: asked } => asked == id && staged == ledger,
        UnitStateView::Counting { .. } => staged == (Ledger {
            seen: ledger.seen.insert(id),
            counts: ledger.counts,
        }),
        UnitStateView::Committing => staged == ledger || both_writes(ledger, id, staged),
        UnitStateView::Closed => staged == ledger || both_writes(ledger, id, staged),
    }
}

/// Whatever the driver reports, the seen mark is asked for only after the
/// fetch, the count write only after the seen mark, and the commit only
/// after both or neither.
pub proof fn lemma_writes_in_order(ledger: Ledger, id: Seq<char>, events: Seq<UnitEvent>)
    ensures
        unit_trace(ledger, id, events) matches Ok(reached) ==> staged_as_due(
            ledger,
            id,
            reached.0,
            reached.1,
        ),
    decreases events.len(),
{
    if events.len() > 0 {
        lemma_writes_in_order(ledger, id, events.drop_last());
        match unit_trace(ledger, id, events.drop_last()) {
            Ok((state, staged)) => match unit_step(state, events.last()) {
                Ok((next, action)) => {
                    if let UnitActionView::WriteCount { sender, write } = action {
                        assert(effect(staged, action).counts == ledger.counts.insert(
                            sender,
                            write.new_count() as nat,
                        ));
                    }
                },
                Err(_) => {},
            },
            Err(_) => {},
        }
    }
}

/// A unit of work is all or nothing: whatever the driver reports and wherever
/// the unit stops, the storage afterwards holds the ledger as it was, or the
/// ledger with the seen mark and the count write together, never one of the
/// two alone.
pub proof fn lemma_unit_is_atomic(ledger: Ledger, id: Seq<char>, events: Seq<UnitEvent>)
    ensures
        durable(ledger, unit_trace(ledger, id, events)) == ledger || both_writes(
            ledger,
            id,
            durable(ledger, unit_trace(ledger, id, events)),
        ),
        !(unit_trace(ledger, id, events) matches Ok((UnitStateView::Closed, _))) ==> durable(
            ledger,
            unit_trace(ledger, id, events),
        ) == ledger,
{
    lemma_writes_in_order(ledger, id, events);
}

/// The events of a unit of work on a message that is fetched and counted.
pub open spec fn full_run(rows: Vec<u32>, message: Message, current: Option<i64>) -> Seq<
    UnitEvent,
> {
    seq![
        UnitEvent::SeenRows(rows),
        UnitEvent::Fetched(message),
        UnitEvent::CountRow(current),
        UnitEvent::Committed,
    ]
}

/// A new message is counted exactly by the commit: a unit driven by a storage
/// that reports the ledger truthfully leaves it as processing the message
/// does once all four events are in, and untouched when cut off earlier.
pub proof fn lemma_new_unit_commits_or_not(
    ledger: Ledger,
    mail: Mail,
    rows: Vec<u32>,
    message: Message,
    current: Option<i64>,
    reached: int,
)
    requires
        !ledger.has_seen(mail.id),
        !any_positive(rows@),
        sender_of(message.headers@) == Ok::<Seq<char>, DataError>(mail.sender),
        reports(ledger, mail.sender, current),
        count_write(current) is Ok,
        0 <= reached <= 4,
    ensures
        durable(
            ledger,
            unit_trace(ledger, mail.id, full_run(rows, message, current).take(reached)),
        ) == if reached == 4 {
            ledger.process(mail)
        } else {
            ledger
        },
{
    let events = full_run(rows, message, current);
    let e0 = events.take(0);
    let e1 = events.take(1);
    let e2 = events.take(2);
    let e3 = events.take(3);
    let e4 = events.take(4);
    assert(e1.drop_last() =~= e0 && e1.last() == events[0]);
    assert(e2.drop_last() =~= e1 && e2.last() == events[1]);
    assert(e3.drop_last() =~= e2 && e3.last() == events[2]);
    assert(e4.drop_last() =~= e3 && e4.last() == events[3]);
    lemma_new_unit_is_process(ledger, mail, rows@, message, current);
    assert(unit_trace(ledger, mail.id, e0) == Ok::<(UnitStateView, Ledger), UnitError>(
        (UnitStateView::Checking { id: mail.id }, ledger),
    ));
    assert(unit_trace(ledger, mail.id, e1) == Ok::<(UnitStateView, Ledger), UnitError>(
        (UnitStateView::Fetching { id: mail.id }, ledger),
    ));
    assert(unit_trace(ledger, mail.id, e2) matches Ok(r) && r.0 == (UnitStateView::Counting {
        sender: mail.sender,
    }));
    assert(unit_trace(ledger, mail.id, e3) matches Ok(r) && r.0 == UnitStateView::Committing
        && r.1 == ledger.process(mail));
    assert(unit_trace(ledger, mail.id, e4) == Ok::<(UnitStateView, Ledger), UnitError>(
        (UnitStateView::Closed, ledger.process(mail)),
    ));
}

} // verus!
