use sender_stats::ingest::{
    advance, begin, should_retry, PassAction, PassError, PassEvent, PassState,
    INCLUDE_SPAM_TRASH, MAX_RETRIES, PAGE_SIZE,
};
use sender_stats::ledger::{increment_sender_mails, seen_mail, CountWrite, StorageError};
use sender_stats::sender::{DataError, Header, Message};
use sender_stats::unit::{advance_unit, begin_unit, UnitAction, UnitError, UnitEvent, UnitState};
use std::collections::{HashMap, HashSet};

struct Store {
    seen: HashSet<String>,
    counts: HashMap<String, i64>,
}

struct Mailbox {
    pages: Vec<Vec<String>>,
    senders: HashMap<String, Option<String>>,
}

struct Outcome {
    listed: Vec<String>,
    fetched: Vec<String>,
    anomalies: usize,
    list_calls: usize,
}

fn new_store() -> Store {
    Store { seen: HashSet::new(), counts: HashMap::new() }
}

fn mailbox(messages: &[(&str, Option<&str>)], page_size: usize) -> Mailbox {
    let mut pages: Vec<Vec<String>> = Vec::new();
    let mut senders = HashMap::new();
    for (id, from) in messages {
        if pages.last().map_or(true, |p| p.len() == page_size) {
            pages.push(Vec::new());
        }
        pages.last_mut().unwrap().push(id.to_string());
        senders.insert(id.to_string(), from.map(|f| f.to_string()));
    }
    Mailbox { pages, senders }
}

fn fetch(mailbox: &Mailbox, id: &str) -> Message {
    let mut headers = vec![Header { name: Some("Subject".to_string()), value: Some("hi".to_string()) }];
    if let Some(from) = &mailbox.senders[id] {
        headers.push(Header { name: Some("From".to_string()), value: Some(from.clone()) });
    }
    Message { id: id.to_string(), headers }
}

fn list(mailbox: &Mailbox, token: Option<String>) -> PassEvent {
    let page: usize = token.map_or(0, |t| t.parse().unwrap());
    let stubs: Vec<Option<String>> =
        mailbox.pages.get(page).cloned().unwrap_or_default().into_iter().map(Some).collect();
    let next = if page + 1 < mailbox.pages.len() { Some((page + 1).to_string()) } else { None };
    PassEvent::Page { stubs, next }
}

/// Runs one message's unit of work; `crash` stops it after the fetch, before
/// the commit. Returns whether it committed.
fn run_unit(
    store: &mut Store,
    mailbox: &Mailbox,
    id: String,
    crash: bool,
    outcome: &mut Outcome,
) -> Result<bool, UnitError> {
    let (mut state, mut action) = begin_unit(id);
    let mut staged_seen: Option<String> = None;
    let mut staged_count: Option<(String, i64)> = None;
    loop {
        let event = match action {
            UnitAction::QuerySeen { id } => {
                UnitEvent::SeenRows(vec![if store.seen.contains(&id) { 1 } else { 0 }])
            }
            UnitAction::Fetch { id } => {
                outcome.fetched.push(id.clone());
                UnitEvent::Fetched(fetch(mailbox, &id))
            }
            UnitAction::MarkSeen { id, sender, anomalous } => {
                if anomalous {
                    outcome.anomalies += 1;
                }
                staged_seen = Some(id);
                UnitEvent::CountRow(store.counts.get(&sender).copied())
            }
            UnitAction::WriteCount { sender, write } => {
                let count = match write {
                    CountWrite::Insert => 1,
                    CountWrite::Update(n) => n,
                };
                staged_count = Some((sender, count));
                if crash {
                    return Ok(false);
                }
                UnitEvent::Committed
            }
            UnitAction::Commit => UnitEvent::Committed,
            UnitAction::Done => {
                if let Some(id) = staged_seen.take() {
                    assert!(store.seen.insert(id));
                }
                if let Some((sender, count)) = staged_count.take() {
                    store.counts.insert(sender, count);
                }
                return Ok(true);
            }
        };
        let step = advance_unit(state, event)?;
        state = step.0;
        action = step.1;
    }
}

/// Runs a pass; `crash_at` names a message whose unit of work is interrupted,
/// which ends the pass there.
fn run_pass(store: &mut Store, mailbox: &Mailbox, crash_at: Option<&str>) -> Outcome {
    let mut outcome = Outcome { listed: Vec::new(), fetched: Vec::new(), anomalies: 0, list_calls: 0 };
    let (mut state, mut action) = begin();
    loop {
        let event = match action {
            PassAction::List { token } => {
                outcome.list_calls += 1;
                list(mailbox, token)
            }
            PassAction::Process { id } => {
                outcome.listed.push(id.clone());
                let crash = crash_at == Some(id.as_str());
                let committed = run_unit(store, mailbox, id, crash, &mut outcome).unwrap();
                if !committed {
                    return outcome;
                }
                PassEvent::Processed
            }
            PassAction::Finish => {
                assert!(matches!(state, PassState::Done));
                return outcome;
            }
        };
        let step = advance(state, event).unwrap();
        state = step.0;
        action = step.1;
    }
}

fn sorted_counts(store: &Store) -> Vec<(String, i64)> {
    let mut rows: Vec<(String, i64)> = store.counts.iter().map(|(k, v)| (k.clone(), *v)).collect();
    rows.sort();
    rows
}

#[test]
fn counts_per_sender_after_one_pass() {
    let mb = mailbox(
        &[
            ("1", Some("A <a@x.com>")),
            ("2", Some("b@x.com")),
            ("3", Some("a@x.com")),
            ("4", Some("Someone Else <a@x.com>")),
        ],
        500,
    );
    let mut store = new_store();
    let outcome = run_pass(&mut store, &mb, None);
    assert_eq!(outcome.fetched.len(), 4);
    assert_eq!(sorted_counts(&store), vec![("a@x.com".to_string(), 3), ("b@x.com".to_string(), 1)]);
}

#[test]
fn second_pass_changes_no_count() {
    let mb = mailbox(&[("1", Some("a@x.com")), ("2", Some("b@x.com")), ("3", Some("a@x.com"))], 2);
    let mut store = new_store();
    run_pass(&mut store, &mb, None);
    let first = sorted_counts(&store);
    let again = run_pass(&mut store, &mb, None);
    assert_eq!(sorted_counts(&store), first);
    assert_eq!(first, vec![("a@x.com".to_string(), 2), ("b@x.com".to_string(), 1)]);
    assert_eq!(again.listed.len(), 3);
    assert!(again.fetched.is_empty());
    assert_eq!(store.seen.len(), 3);
}

#[test]
fn message_is_unseen_before_and_seen_after() {
    let mb = mailbox(&[("1", Some("a@x.com")), ("2", Some("b@x.com"))], 500);
    let mut store = new_store();
    assert!(!store.seen.contains("1"));
    assert!(!store.seen.contains("2"));
    run_pass(&mut store, &mb, None);
    assert!(store.seen.contains("1"));
    assert!(store.seen.contains("2"));
    assert!(!store.seen.contains("3"));
}

#[test]
fn message_without_sender_header_is_counted_under_the_empty_sender() {
    let mb = mailbox(&[("1", None)], 500);
    let mut store = new_store();
    let outcome = run_pass(&mut store, &mb, None);
    assert_eq!(outcome.anomalies, 1);
    assert_eq!(store.seen.len(), 1);
    assert!(store.seen.contains("1"));
    assert_eq!(sorted_counts(&store), vec![(String::new(), 1)]);
}

#[test]
fn message_with_sender_header_is_no_anomaly() {
    let mb = mailbox(&[("1", Some("not an email"))], 500);
    let mut store = new_store();
    let outcome = run_pass(&mut store, &mb, None);
    assert_eq!(outcome.anomalies, 0);
    assert_eq!(sorted_counts(&store), vec![("not an email".to_string(), 1)]);
}

#[test]
fn twelve_hundred_stubs_in_three_pages() {
    let ids: Vec<String> = (0..1200).map(|i| format!("id{}", i)).collect();
    let messages: Vec<(&str, Option<&str>)> =
        ids.iter().map(|id| (id.as_str(), Some("a@x.com"))).collect();
    let mb = mailbox(&messages, 500);
    assert_eq!(mb.pages.iter().map(|p| p.len()).collect::<Vec<_>>(), vec![500, 500, 200]);
    let mut processed: Vec<String> = Vec::new();
    let mut tokens: Vec<Option<String>> = Vec::new();
    let (mut state, mut action) = begin();
    loop {
        let event = match action {
            PassAction::List { token } => {
                tokens.push(token.clone());
                list(&mb, token)
            }
            PassAction::Process { id } => {
                processed.push(id);
                PassEvent::Processed
            }
            PassAction::Finish => break,
        };
        let step = advance(state, event).unwrap();
        state = step.0;
        action = step.1;
    }
    assert_eq!(tokens, vec![None, Some("1".to_string()), Some("2".to_string())]);
    assert_eq!(processed.len(), 1200);
    assert_eq!(processed, ids);
    let distinct: HashSet<&String> = processed.iter().collect();
    assert_eq!(distinct.len(), 1200);
}

#[test]
fn every_message_of_every_page_is_counted() {
    let ids: Vec<String> = (0..12).map(|i| format!("id{}", i)).collect();
    let messages: Vec<(&str, Option<&str>)> =
        ids.iter().map(|id| (id.as_str(), Some("A <a@x.com>"))).collect();
    let mb = mailbox(&messages, 5);
    assert_eq!(mb.pages.iter().map(|p| p.len()).collect::<Vec<_>>(), vec![5, 5, 2]);
    let mut store = new_store();
    let outcome = run_pass(&mut store, &mb, None);
    assert_eq!(outcome.list_calls, 3);
    assert_eq!(outcome.listed, ids);
    assert_eq!(outcome.fetched, ids);
    assert_eq!(store.seen.len(), 12);
    assert_eq!(sorted_counts(&store), vec![("a@x.com".to_string(), 12)]);
}

#[test]
fn interrupted_message_is_processed_once_by_the_next_pass() {
    let mb = mailbox(&[("1", Some("a@x.com")), ("2", Some("a@x.com")), ("3", Some("b@x.com"))], 500);
    let mut store = new_store();
    let broken = run_pass(&mut store, &mb, Some("2"));
    assert_eq!(broken.fetched, vec!["1".to_string(), "2".to_string()]);
    assert!(store.seen.contains("1"));
    assert!(!store.seen.contains("2"));
    assert_eq!(sorted_counts(&store), vec![("a@x.com".to_string(), 1)]);
    let resumed = run_pass(&mut store, &mb, None);
    assert_eq!(resumed.fetched, vec!["2".to_string(), "3".to_string()]);
    assert_eq!(sorted_counts(&store), vec![("a@x.com".to_string(), 2), ("b@x.com".to_string(), 1)]);
    let third = run_pass(&mut store, &mb, None);
    assert!(third.fetched.is_empty());
    assert_eq!(sorted_counts(&store), vec![("a@x.com".to_string(), 2), ("b@x.com".to_string(), 1)]);
}

#[test]
fn empty_mailbox_finishes_after_one_listing() {
    let mb = mailbox(&[], 500);
    let mut store = new_store();
    let outcome = run_pass(&mut store, &mb, None);
    assert_eq!(outcome.list_calls, 1);
    assert!(outcome.listed.is_empty());
}

#[test]
fn pass_begins_with_the_first_page() {
    let (state, action) = begin();
    assert!(matches!(state, PassState::Listing { token: None }));
    assert!(matches!(action, PassAction::List { token: None }));
}

#[test]
fn empty_page_with_token_lists_the_next_page() {
    let (state, _) = begin();
    let step = advance(state, PassEvent::Page { stubs: vec![], next: Some("t2".to_string()) });
    match step {
        Ok((PassState::Listing { token }, PassAction::List { token: asked })) => {
            assert_eq!(token, Some("t2".to_string()));
            assert_eq!(asked, Some("t2".to_string()));
        }
        _ => panic!("the empty page should be left for the next one"),
    }
}

#[test]
fn page_is_processed_in_listing_order_then_left() {
    let (state, _) = begin();
    let page = PassEvent::Page {
        stubs: vec![Some("a".to_string()), Some("b".to_string())],
        next: None,
    };
    let (state, action) = advance(state, page).unwrap();
    assert!(matches!(&action, PassAction::Process { id } if id == "a"));
    assert!(matches!(&state, PassState::ProcessingPage { position: 0, .. }));
    let (state, action) = advance(state, PassEvent::Processed).unwrap();
    assert!(matches!(&action, PassAction::Process { id } if id == "b"));
    assert!(matches!(&state, PassState::ProcessingPage { position: 1, .. }));
    let (state, action) = advance(state, PassEvent::Processed).unwrap();
    assert!(matches!(action, PassAction::Finish));
    assert!(matches!(state, PassState::Done));
}

#[test]
fn event_that_the_pass_does_not_wait_for_is_refused() {
    let (state, _) = begin();
    assert!(matches!(advance(state, PassEvent::Processed), Err(PassError::Unexpected)));
    assert!(matches!(advance(PassState::Done, PassEvent::Processed), Err(PassError::Unexpected)));
    assert!(matches!(
        advance(PassState::Done, PassEvent::Page { stubs: vec![], next: None }),
        Err(PassError::Unexpected)
    ));
    let processing =
        PassState::ProcessingPage { stubs: vec![Some("a".to_string())], position: 0, next: None };
    assert!(matches!(
        advance(processing, PassEvent::Page { stubs: vec![], next: None }),
        Err(PassError::Unexpected)
    ));
}

#[test]
fn stub_without_identifier_stops_the_pass_when_it_is_reached() {
    let (state, _) = begin();
    let page = PassEvent::Page {
        stubs: vec![Some("a".to_string()), None, Some("c".to_string())],
        next: Some("t2".to_string()),
    };
    let (state, action) = advance(state, page).unwrap();
    assert!(matches!(&action, PassAction::Process { id } if id == "a"));
    assert!(matches!(advance(state, PassEvent::Processed), Err(PassError::MissingId)));
}

#[test]
fn first_stub_without_identifier_stops_the_pass_at_once() {
    let (state, _) = begin();
    let page = PassEvent::Page { stubs: vec![None], next: None };
    assert!(matches!(advance(state, page), Err(PassError::MissingId)));
}

#[test]
fn three_failed_passes_are_retried_and_the_fourth_is_not() {
    assert_eq!(MAX_RETRIES, 3);
    assert!(should_retry(1));
    assert!(should_retry(2));
    assert!(should_retry(3));
    assert!(!should_retry(4));
    assert!(!should_retry(u32::MAX));
}

#[test]
fn listing_asks_for_pages_of_five_hundred_without_spam_and_trash() {
    assert_eq!(PAGE_SIZE, 500);
    assert!(!INCLUDE_SPAM_TRASH);
}

#[test]
fn seen_query_answers() {
    assert!(!seen_mail(&vec![]));
    assert!(!seen_mail(&vec![0]));
    assert!(seen_mail(&vec![1]));
    assert!(seen_mail(&vec![0, 0, 2]));
}

#[test]
fn first_message_of_a_sender_inserts_a_row() {
    assert_eq!(increment_sender_mails(None), Ok(CountWrite::Insert));
}

#[test]
fn later_message_of_a_sender_adds_one() {
    assert_eq!(increment_sender_mails(Some(1)), Ok(CountWrite::Update(2)));
    assert_eq!(increment_sender_mails(Some(41)), Ok(CountWrite::Update(42)));
    assert_eq!(increment_sender_mails(Some(i64::MAX - 1)), Ok(CountWrite::Update(i64::MAX)));
}

#[test]
fn stored_count_that_is_not_positive_counts_as_zero() {
    assert_eq!(increment_sender_mails(Some(0)), Ok(CountWrite::Update(1)));
    assert_eq!(increment_sender_mails(Some(-5)), Ok(CountWrite::Update(1)));
}

#[test]
fn largest_count_cannot_grow() {
    assert_eq!(increment_sender_mails(Some(i64::MAX)), Err(StorageError::CountOverflow));
}

#[test]
fn unit_of_a_seen_message_commits_without_fetching() {
    let (state, action) = begin_unit("m1".to_string());
    assert!(matches!(&action, UnitAction::QuerySeen { id } if id == "m1"));
    let (state, action) = advance_unit(state, UnitEvent::SeenRows(vec![1])).unwrap();
    assert!(matches!(action, UnitAction::Commit));
    let (state, action) = advance_unit(state, UnitEvent::Committed).unwrap();
    assert!(matches!(action, UnitAction::Done));
    assert!(matches!(state, UnitState::Closed));
}

#[test]
fn unit_of_a_new_message_marks_it_seen_and_counts_its_sender() {
    let (state, _) = begin_unit("m1".to_string());
    let (state, action) = advance_unit(state, UnitEvent::SeenRows(vec![0])).unwrap();
    assert!(matches!(&action, UnitAction::Fetch { id } if id == "m1"));
    let fetched = Message {
        id: "m1".to_string(),
        headers: vec![Header {
            name: Some("From".to_string()),
            value: Some("Jane Doe <jane@example.com>".to_string()),
        }],
    };
    let (state, action) = advance_unit(state, UnitEvent::Fetched(fetched)).unwrap();
    match action {
        UnitAction::MarkSeen { id, sender, anomalous } => {
            assert_eq!(id, "m1");
            assert_eq!(sender, "jane@example.com");
            assert!(!anomalous);
        }
        _ => panic!("the message should be marked seen"),
    }
    let (state, action) = advance_unit(state, UnitEvent::CountRow(Some(7))).unwrap();
    match action {
        UnitAction::WriteCount { sender, write } => {
            assert_eq!(sender, "jane@example.com");
            assert_eq!(write, CountWrite::Update(8));
        }
        _ => panic!("the count should be written"),
    }
    assert!(matches!(state, UnitState::Committing));
}

#[test]
fn unit_stops_on_a_sender_header_without_value() {
    let (state, _) = begin_unit("m1".to_string());
    let (state, _) = advance_unit(state, UnitEvent::SeenRows(vec![0])).unwrap();
    let fetched = Message {
        id: "m1".to_string(),
        headers: vec![Header { name: Some("From".to_string()), value: None }],
    };
    let step = advance_unit(state, UnitEvent::Fetched(fetched));
    assert!(matches!(step, Err(UnitError::Data(DataError::MissingSenderValue))));
}

#[test]
fn unit_stops_on_a_count_that_cannot_grow() {
    let state = UnitState::Counting { sender: "a@x.com".to_string() };
    let step = advance_unit(state, UnitEvent::CountRow(Some(i64::MAX)));
    assert!(matches!(step, Err(UnitError::Storage(StorageError::CountOverflow))));
}

#[test]
fn event_that_the_unit_does_not_wait_for_is_refused() {
    let (state, _) = begin_unit("m1".to_string());
    assert!(matches!(advance_unit(state, UnitEvent::Committed), Err(UnitError::Unexpected)));
    assert!(matches!(
        advance_unit(UnitState::Closed, UnitEvent::Committed),
        Err(UnitError::Unexpected)
    ));
    assert!(matches!(
        advance_unit(UnitState::Committing, UnitEvent::CountRow(None)),
        Err(UnitError::Unexpected)
    ));
    assert!(matches!(
        advance_unit(UnitState::Fetching { id: "m1".to_string() }, UnitEvent::SeenRows(vec![0])),
        Err(UnitError::Unexpected)
    ));
}

#[test]
fn unit_that_fails_after_the_seen_mark_leaves_nothing_behind() {
    let mb = mailbox(&[("1", Some("a@x.com"))], 500);
    let mut store = new_store();
    store.counts.insert("a@x.com".to_string(), i64::MAX);
    let mut outcome = Outcome { listed: Vec::new(), fetched: Vec::new(), anomalies: 0, list_calls: 0 };
    let result = run_unit(&mut store, &mb, "1".to_string(), false, &mut outcome);
    assert!(matches!(result, Err(UnitError::Storage(StorageError::CountOverflow))));
    assert_eq!(outcome.fetched, vec!["1".to_string()]);
    assert!(store.seen.is_empty());
    assert_eq!(sorted_counts(&store), vec![("a@x.com".to_string(), i64::MAX)]);
}

#[test]
fn seen_mark_and_count_write_come_before_the_one_commit() {
    let (state, _) = begin_unit("m1".to_string());
    let (state, _) = advance_unit(state, UnitEvent::SeenRows(vec![0])).unwrap();
    let fetched = Message {
        id: "m1".to_string(),
        headers: vec![Header { name: Some("From".to_string()), value: Some("a@x.com".to_string()) }],
    };
    let (state, action) = advance_unit(state, UnitEvent::Fetched(fetched)).unwrap();
    assert!(matches!(action, UnitAction::MarkSeen { .. }));
    assert!(matches!(
        advance_unit(state.clone(), UnitEvent::Committed),
        Err(UnitError::Unexpected)
    ));
    let (state, action) = advance_unit(state, UnitEvent::CountRow(None)).unwrap();
    assert!(matches!(action, UnitAction::WriteCount { write: CountWrite::Insert, .. }));
    let (state, action) = advance_unit(state, UnitEvent::Committed).unwrap();
    assert!(matches!(action, UnitAction::Done));
    assert!(matches!(state, UnitState::Closed));
}
