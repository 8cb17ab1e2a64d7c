//! The ingestion pass as a state machine: the driver lists pages and runs
//! each message's unit of work, and asks here what to do next.

use crate::ledger::{Ledger, Mail};
use vstd::prelude::*;

verus! {

/// How many passes may follow the first failed one.
pub const MAX_RETRIES: u32 = 3;

/// How many message stubs one page of the listing holds at most.
pub const PAGE_SIZE: u32 = 500;

/// Whether the listing includes spam and trash.
pub const INCLUDE_SPAM_TRASH: bool = false;

/// Why a pass stops.
#[derive(Clone, Copy, Debug, PartialEq, Eq, Structural)]
pub enum PassError {
    /// The state does not wait for the reported event.
    Unexpected,
    /// The message that is next in its page was listed without identifier.
    MissingId,
}

/// Where a pass stands.
#[derive(Clone, Debug)]
pub enum PassState {
    /// Waiting for the page that `token` continues (`None`: the first page).
    Listing { token: Option<String> },
    /// Waiting for the unit of work of `stubs[position]`; `next` continues
    /// the listing after this page.
    ProcessingPage { stubs: Vec<Option<String>>, position: usize, next: Option<String> },
    /// Every page was processed.
    Done,
}

/// What the driver reports back.
#[derive(Clone, Debug)]
pub enum PassEvent {
    /// The page asked for: the identifiers of its messages in listing order
    /// (`None` for a message listed without one), and the token of the page
    /// after it, if any.
    Page { stubs: Vec<Option<String>>, next: Option<String> },
    /// The unit of work of the message asked for is committed.
    Processed,
}

/// What the driver does next.
#[derive(Clone, Debug)]
pub enum PassAction {
    /// Ask the provider for the page that `token` continues.
    List { token: Option<String> },
    /// Run the unit of work of the message `id`.
    Process { id: String },
    /// The pass is complete.
    Finish,
}

/// `PassState` over mathematical values.
pub enum PassStateView {
    Listing { token: Option<Seq<char>> },
    ProcessingPage { stubs: Seq<Option<Seq<char>>>, position: int, next: Option<Seq<char>> },
    Done,
}

/// `PassEvent` over mathematical values.
pub enum PassEventView {
    Page { stubs: Seq<Option<Seq<char>>>, next: Option<Seq<char>> },
    Processed,
}

/// `PassAction` over mathematical values.
pub enum PassActionView {
    List { token: Option<Seq<char>> },
    Process { id: Seq<char> },
    Finish,
}

impl View for PassState {
    type V = PassStateView;

    open spec fn view(&self) -> PassStateView {
        match *self {
            PassState::Listing { token } => PassStateView::Listing { token: token.deep_view() },
            PassState::ProcessingPage { stubs, position, next } => PassStateView::ProcessingPage {
                stubs: stubs.deep_view(),
                position: position as int,
                next: next.deep_view(),
            },
            PassState::Done => PassStateView::Done,
        }
    }
}

impl View for PassEvent {
    type V = PassEventView;

    open spec fn view(&self) -> PassEventView {
        match *self {
            PassEvent::Page { stubs, next } => PassEventView::Page {
                stubs: stubs.deep_view(),
                next: next.deep_view(),
            },
            PassEvent::Processed => PassEventView::Processed,
        }
    }
}

impl View for PassAction {
    type V = PassActionView;

    open spec fn view(&self) -> PassActionView {
        match *self {
            PassAction::List { token } => PassActionView::List { token: token.deep_view() },
            PassAction::Process { id } => PassActionView::Process { id: id@ },
            PassAction::Finish => PassActionView::Finish,
        }
    }
}

/// Leaving a page: on to the next one where a token continues the listing,
/// else the pass is done.
pub open spec fn leave_page(next: Option<Seq<char>>) -> (PassStateView, PassActionView) {
    match next {
        Some(token) => (
            PassStateView::Listing { token: Some(token) },
            PassActionView::List { token: Some(token) },
        ),
        None => (PassStateView::Done, PassActionView::Finish),
    }
}

/// Standing at `position` of a page: that message is processed next, unless
/// it has no identifier, which stops the pass there; the page is left where
/// it has no such message.
pub open spec fn enter_page(
    stubs: Seq<Option<Seq<char>>>,
    position: int,
    next: Option<Seq<char>>,
) -> Result<(PassStateView, PassActionView), PassError> {
    if 0 <= position < stubs.len() {
        match stubs[position] {
            Some(id) => Ok(
                (
                    PassStateView::ProcessingPage { stubs, position, next },
                    PassActionView::Process { id },
                ),
            ),
            None => Err(PassError::MissingId),
        }
    } else {
        Ok(leave_page(next))
    }
}

/// The first state of a pass and its first action: list from the beginning.
pub open spec fn first_step() -> (PassStateView, PassActionView) {
    (PassStateView::Listing { token: None }, PassActionView::List { token: None })
}

/// The transition of the pass: a page is entered at its first message, a
/// processed message is followed by the next one of its page, and an event
/// that the state does not wait for stops the pass.
pub open spec fn next_step(state: PassStateView, event: PassEventView) -> Result<
    (PassStateView, PassActionView),
    PassError,
> {
    match (state, event) {
        (PassStateView::Listing { .. }, PassEventView::Page { stubs, next }) => enter_page(
            stubs,
            0,
            next,
        ),
        (
            PassStateView::ProcessingPage { stubs, position, next },
            PassEventView::Processed,
        ) => enter_page(stubs, position + 1, next),
        _ => Err(PassError::Unexpected),
    }
}

fn leave(next: Option<String>) -> (step: (PassState, PassAction))
    ensures
        (step.0@, step.1@) == leave_page(next.deep_view()),
{
    match next {
        Some(token) => {
            let again = token.clone();
            (PassState::Listing { token: Some(token) }, PassAction::List { token: Some(again) })
        },
        None => (PassState::Done, PassAction::Finish),
    }
}

fn enter(stubs: Vec<Option<String>>, position: usize, next: Option<String>) -> (step: Result<
    (PassState, PassAction),
    PassError,
>)
    ensures
        match step {
            Ok(s) => enter_page(stubs.deep_view(), position as int, next.deep_view()) == Ok::<
                (PassStateView, PassActionView),
                PassError,
            >((s.0@, s.1@)),
            Err(e) => enter_page(stubs.deep_view(), position as int, next.deep_view()) == Err::<
                (PassStateView, PassActionView),
                PassError,
            >(e),
        },
{
    if position < stubs.len() {
        assert(stubs.deep_view()[position as int] == stubs[position as int].deep_view());
        let listed = match &stubs[position] {
            Some(id) => Some(id.clone()),
            None => None,
        };
        match listed {
            Some(id) => Ok(
                (PassState::ProcessingPage { stubs, position, next }, PassAction::Process { id }),
            ),
            None => Err(PassError::MissingId),
        }
    } else {
        Ok(leave(next))
    }
}

/// Starts a pass: always from the first page, whatever an earlier pass
/// reached.
pub fn begin() -> (step: (PassState, PassAction))
    ensures
        (step.0@, step.1@) == first_step(),
{
    (PassState::Listing { token: None }, PassAction::List { token: None })
}

/// Takes the pass one step on: from the state and what the driver reports to
/// the next state and what the driver does next, or to the error that stops
/// the pass: an event that the state does not wait for, or a next message
/// without identifier.
pub fn advance(state: PassState, event: PassEvent) -> (step: Result<
    (PassState, PassAction),
    PassError,
>)
    ensures
        match step {
            Ok(s) => next_step(state@, event@) == Ok::<(PassStateView, PassActionView), PassError>(
                (s.0@, s.1@),
            ),
            Err(e) => next_step(state@, event@) == Err::<(PassStateView, PassActionView), PassError>(
                e,
            ),
        },
{
    match state {
        PassState::Listing { token } => match event {
            PassEvent::Page { stubs, next } => enter(stubs, 0, next),
            PassEvent::Processed => Err(PassError::Unexpected),
        },
        PassState::ProcessingPage { stubs, position, next } => match event {
            PassEvent::Processed => {
                if position < stubs.len() {
                    enter(stubs, position + 1, next)
                } else {
                    Ok(leave(next))
                }
            },
            PassEvent::Page { .. } => Err(PassError::Unexpected),
        },
        PassState::Done => Err(PassError::Unexpected),
    }
}

/// Whether another pass follows a failed one: the first failure and the two
/// after it are retried from the beginning, the fourth ends the run.
pub fn should_retry(failed_passes: u32) -> (retry: bool)
    ensures
        retry == (failed_passes <= MAX_RETRIES),
{
    failed_passes <= MAX_RETRIES
}

/// Where a pass stands once `done` messages of an entered page are
/// processed, if the page has that many.
pub open spec fn after_processed(
    stubs: Seq<Option<Seq<char>>>,
    next: Option<Seq<char>>,
    done: nat,
) -> Result<(PassStateView, PassActionView), PassError>
    decreases done,
{
    if done == 0 {
        enter_page(stubs, 0, next)
    } else {
        match after_processed(stubs, next, (done - 1) as nat) {
            Ok(before) => next_step(before.0, PassEventView::Processed),
            Err(e) => Err(e),
        }
    }
}

/// No omission, no duplicate: a page is walked in listing order. Once `done`
/// of its messages are processed the pass stands at message `done`: it asks
/// for that message next, or stops where it has no identifier. Once all are
/// processed it leaves the page: for the next page where a token continues
/// the listing, else for good.
pub proof fn lemma_page_walk(stubs: Seq<Option<Seq<char>>>, next: Option<Seq<char>>, done: nat)
    requires
        done <= stubs.len(),
        forall|j: int| 0 <= j < done ==> stubs[j] is Some,
    ensures
        after_processed(stubs, next, done) == enter_page(stubs, done as int, next),
        done < stubs.len() ==> enter_page(stubs, done as int, next) == (match stubs[done as int] {
            Some(id) => Ok::<(PassStateView, PassActionView), PassError>(
                (
                    PassStateView::ProcessingPage { stubs, position: done as int, next },
                    PassActionView::Process { id },
                ),
            ),
            None => Err::<(PassStateView, PassActionView), PassError>(PassError::MissingId),
        }),
        done == stubs.len() ==> enter_page(stubs, done as int, next) == Ok::<
            (PassStateView, PassActionView),
            PassError,
        >(leave_page(next)),
    decreases done,
{
    if done > 0 {
        lemma_page_walk(stubs, next, (done - 1) as nat);
        assert(stubs[done - 1] is Some);
    }
}

/// The identifiers of a page of messages, in listing order.
pub open spec fn stubs_of(page: Seq<Mail>) -> Seq<Option<Seq<char>>> {
    Seq::new(page.len(), |i: int| Some(page[i].id))
}

/// The ledger once the pass has asked for `done` messages of an entered page
/// and each was processed when asked for.
pub open spec fn page_ledger(
    ledger: Ledger,
    page: Seq<Mail>,
    next: Option<Seq<char>>,
    done: nat,
) -> Ledger
    decreases done,
{
    if done == 0 {
        ledger
    } else {
        let before = page_ledger(ledger, page, next, (done - 1) as nat);
        match after_processed(stubs_of(page), next, (done - 1) as nat) {
            Ok((_, PassActionView::Process { id })) => before.process(
                Mail { id, sender: page[done - 1].sender },
            ),
            _ => before,
        }
    }
}

/// Walking a page leaves the ledger as ingesting the page does: each message
/// is processed once, in listing order, and none is left out.
pub proof fn lemma_page_is_ingested(
    ledger: Ledger,
    page: Seq<Mail>,
    next: Option<Seq<char>>,
    done: nat,
)
    requires
        done <= page.len(),
    ensures
        page_ledger(ledger, page, next, done) == ledger.ingest(page.take(done as int)),
    decreases done,
{
    if done > 0 {
        let before = (done - 1) as nat;
        lemma_page_is_ingested(ledger, page, next, before);
        lemma_page_walk(stubs_of(page), next, before);
        let listed = page.take(done as int);
        assert(listed.drop_last() =~= page.take(before as int));
        assert(listed.last() == page[done - 1]);
    }
}

} // verus!
