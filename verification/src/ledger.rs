//! The two durable stores as one mathematical ledger, the decisions taken on
//! what the storage reports, and the laws of an ingestion pass over them.

use vstd::prelude::*;

verus! {

/// A message of the mailbox, reduced to what the ledger records of it.
pub struct Mail {
    pub id: Seq<char>,
    pub sender: Seq<char>,
}

/// The seen set and the per-sender counts.
pub struct Ledger {
    pub seen: Set<Seq<char>>,
    pub counts: Map<Seq<char>, nat>,
}

impl Ledger {
    /// The ledger before any message was ingested.
    pub open spec fn empty() -> Ledger {
        Ledger { seen: Set::empty(), counts: Map::empty() }
    }

    /// Whether the message `id` has been processed.
    pub open spec fn has_seen(self, id: Seq<char>) -> bool {
        self.seen.contains(id)
    }

    /// The cumulative count of `sender`; 0 for a sender without a row.
    pub open spec fn count_of(self, sender: Seq<char>) -> nat {
        if self.counts.dom().contains(sender) {
            self.counts[sender]
        } else {
            0
        }
    }

    /// One unit of work: the message is marked seen and its sender's count
    /// grows by one, together.
    pub open spec fn record(self, mail: Mail) -> Ledger {
        Ledger {
            seen: self.seen.insert(mail.id),
            counts: self.counts.insert(mail.sender, self.count_of(mail.sender) + 1),
        }
    }

    /// Processing one listed message: nothing for one already seen, else its
    /// unit of work.
    pub open spec fn process(self, mail: Mail) -> Ledger {
        if self.has_seen(mail.id) {
            self
        } else {
            self.record(mail)
        }
    }

    /// Processing a listing in order.
    pub open spec fn ingest(self, listing: Seq<Mail>) -> Ledger
        decreases listing.len(),
    {
        if listing.len() == 0 {
            self
        } else {
            self.ingest(listing.drop_last()).process(listing.last())
        }
    }
}

/// The count that an answer to a count query stands for: 0 for no row and
/// for a stored count that is not positive.
pub open spec fn stored_count(current: Option<i64>) -> nat {
    match current {
        Some(c) => if c > 0 {
            c as nat
        } else {
            0
        },
        None => 0,
    }
}

/// Whether `current` is what the storage holding `ledger` reports for
/// `sender`: no row, or the row's count.
pub open spec fn reports(ledger: Ledger, sender: Seq<char>, current: Option<i64>) -> bool {
    match current {
        Some(c) => ledger.counts.dom().contains(sender) && ledger.counts[sender] == c,
        None => !ledger.counts.dom().contains(sender),
    }
}

/// The write that raises a sender's count by one.
#[derive(Clone, Copy, Debug, PartialEq, Eq, Structural)]
pub enum CountWrite {
    /// The sender has no row: insert one with count 1.
    Insert,
    /// The sender has a row: set its count to this value.
    Update(i64),
}

impl CountWrite {
    /// The count that the sender's row holds after the write.
    pub open spec fn new_count(self) -> int {
        match self {
            CountWrite::Insert => 1,
            CountWrite::Update(n) => n as int,
        }
    }
}

/// Why a count cannot be written.
#[derive(Clone, Copy, Debug, PartialEq, Eq, Structural)]
pub enum StorageError {
    /// The sender's count is the largest that a row can hold.
    CountOverflow,
}

/// Whether some row of the answer to a seen query counts at least one record.
pub open spec fn any_positive(rows: Seq<u32>) -> bool {
    exists|i: int| 0 <= i < rows.len() && rows[i] > 0
}

/// The write that counts one more message on top of what the storage reports:
/// a first row, else the stored count plus one, unless no row can hold that.
pub open spec fn count_write(current: Option<i64>) -> Result<CountWrite, StorageError> {
    match current {
        None => Ok(CountWrite::Insert),
        Some(c) => if c == i64::MAX {
            Err(StorageError::CountOverflow)
        } else {
            Ok(CountWrite::Update((stored_count(current) + 1) as i64))
        },
    }
}

/// Whether the answer to a seen query says that the message was processed:
/// some returned row counts at least one record.
pub fn seen_mail(rows: &Vec<u32>) -> (seen: bool)
    ensures
        seen == any_positive(rows@),
{
    let mut i: usize = 0;
    while i < rows.len()
        invariant
            i <= rows.len(),
            forall|j: int| 0 <= j < i ==> rows@[j] == 0,
        decreases rows.len() - i,
    {
        if rows[i] > 0 {
            return true;
        }
        i = i + 1;
    }
    false
}

/// The write that counts one more message for a sender whose row the storage
/// reports as `current`: a first row with count 1, else the stored count
/// (taken as 0 where it is not positive) plus one.
pub fn increment_sender_mails(current: Option<i64>) -> (write: Result<CountWrite, StorageError>)
    ensures
        write == count_write(current),
{
    match current {
        None => Ok(CountWrite::Insert),
        Some(c) => {
            if c == i64::MAX {
                Err(StorageError::CountOverflow)
            } else if c > 0 {
                Ok(CountWrite::Update(c + 1))
            } else {
                Ok(CountWrite::Update(1))
            }
        },
    }
}

/// The write decided from what the storage reports is the ledger's unit of
/// work: it leaves the sender's count at the recorded one.
pub proof fn lemma_write_is_record(
    ledger: Ledger,
    mail: Mail,
    current: Option<i64>,
    write: CountWrite,
)
    requires
        reports(ledger, mail.sender, current),
        count_write(current) == Ok::<CountWrite, StorageError>(write),
    ensures
        write.new_count() == ledger.record(mail).count_of(mail.sender),
        ledger.counts.insert(mail.sender, write.new_count() as nat) == ledger.record(mail).counts,
{
}

/// Processing a message marks it seen and forgets no other.
pub proof fn lemma_process_marks_seen(ledger: Ledger, mail: Mail)
    ensures
        ledger.process(mail).has_seen(mail.id),
        forall|id: Seq<char>| ledger.has_seen(id) ==> #[trigger] ledger.process(mail).has_seen(id),
        forall|id: Seq<char>|
            id != mail.id ==> (#[trigger] ledger.process(mail).has_seen(id) == ledger.has_seen(id)),
{
}

/// A message that was not seen before is counted exactly once: its sender's
/// count grows by one and no other count changes.
pub proof fn lemma_process_counts_once(ledger: Ledger, mail: Mail)
    requires
        !ledger.has_seen(mail.id),
    ensures
        ledger.process(mail).count_of(mail.sender) == ledger.count_of(mail.sender) + 1,
        forall|sender: Seq<char>|
            sender != mail.sender ==> #[trigger] ledger.process(mail).count_of(sender)
                == ledger.count_of(sender),
{
}

/// After a pass, an identifier is seen exactly if it was seen before or was
/// listed: whatever happens to the other messages of the listing.
pub proof fn lemma_ingest_seen(ledger: Ledger, listing: Seq<Mail>, id: Seq<char>)
    ensures
        ledger.ingest(listing).has_seen(id) == (ledger.has_seen(id) || exists|i: int|
            0 <= i < listing.len() && #[trigger] listing[i].id == id),
    decreases listing.len(),
{
    if listing.len() > 0 {
        let front = listing.drop_last();
        lemma_ingest_seen(ledger, front, id);
        if exists|i: int| 0 <= i < front.len() && #[trigger] front[i].id == id {
            let i = choose|i: int| 0 <= i < front.len() && #[trigger] front[i].id == id;
            assert(listing[i].id == id);
        }
        if exists|i: int| 0 <= i < listing.len() && #[trigger] listing[i].id == id {
            let i = choose|i: int| 0 <= i < listing.len() && #[trigger] listing[i].id == id;
            if i < front.len() {
                assert(front[i].id == id);
            }
        } else {
            assert(listing[listing.len() - 1].id != id);
        }
    }
}

/// A pass over a listing whose messages are all seen changes nothing.
pub proof fn lemma_ingest_seen_listing(ledger: Ledger, listing: Seq<Mail>)
    requires
        forall|i: int| 0 <= i < listing.len() ==> ledger.has_seen(#[trigger] listing[i].id),
    ensures
        ledger.ingest(listing) == ledger,
    decreases listing.len(),
{
    if listing.len() > 0 {
        let front = listing.drop_last();
        assert forall|i: int| 0 <= i < front.len() implies ledger.has_seen(
            #[trigger] front[i].id,
        ) by {
            assert(front[i] == listing[i]);
        }
        lemma_ingest_seen_listing(ledger, front);
        assert(ledger.has_seen(listing[listing.len() - 1].id));
    }
}

/// Idempotence: a second pass over the same listing leaves the ledger, and so
/// every sender's count, as the first pass left it.
pub proof fn lemma_second_pass_changes_nothing(ledger: Ledger, listing: Seq<Mail>)
    ensures
        ledger.ingest(listing).ingest(listing) == ledger.ingest(listing),
{
    let after = ledger.ingest(listing);
    assert forall|i: int| 0 <= i < listing.len() implies after.has_seen(
        #[trigger] listing[i].id,
    ) by {
        lemma_ingest_seen(ledger, listing, listing[i].id);
    }
    lemma_ingest_seen_listing(after, listing);
}

/// Pagination: processing a listing page by page is processing it whole.
pub proof fn lemma_ingest_pages(ledger: Ledger, first: Seq<Mail>, rest: Seq<Mail>)
    ensures
        ledger.ingest(first + rest) == ledger.ingest(first).ingest(rest),
    decreases rest.len(),
{
    if rest.len() == 0 {
        assert(first + rest =~= first);
    } else {
        assert((first + rest).drop_last() =~= first + rest.drop_last());
        assert((first + rest).last() == rest.last());
        lemma_ingest_pages(ledger, first, rest.drop_last());
    }
}

/// How many messages of `listing` have the sender `sender`.
pub open spec fn sent_by(listing: Seq<Mail>, sender: Seq<char>) -> nat
    decreases listing.len(),
{
    if listing.len() == 0 {
        0
    } else {
        sent_by(listing.drop_last(), sender) + if listing.last().sender == sender {
            1nat
        } else {
            0nat
        }
    }
}

/// Whether a listing names each message once and none that is already seen.
pub open spec fn fresh_listing(ledger: Ledger, listing: Seq<Mail>) -> bool {
    &&& forall|i: int| 0 <= i < listing.len() ==> !ledger.has_seen(#[trigger] listing[i].id)
    &&& forall|i: int, j: int|
        0 <= i < j < listing.len() ==> #[trigger] listing[i].id != #[trigger] listing[j].id
}

/// Count correctness: after a pass over new messages, each sender's count has
/// grown by the number of messages listed from that sender.
pub proof fn lemma_ingest_counts(ledger: Ledger, listing: Seq<Mail>, sender: Seq<char>)
    requires
        fresh_listing(ledger, listing),
    ensures
        ledger.ingest(listing).count_of(sender) == ledger.count_of(sender) + sent_by(
            listing,
            sender,
        ),
    decreases listing.len(),
{
    if listing.len() > 0 {
        let front = listing.drop_last();
        let last = listing.last();
        assert forall|i: int| 0 <= i < front.len() implies front[i] == listing[i] by {}
        assert(fresh_listing(ledger, front));
        lemma_ingest_counts(ledger, front, sender);
        lemma_ingest_seen(ledger, front, last.id);
        assert(!ledger.has_seen(listing[listing.len() - 1].id));
        if exists|i: int| 0 <= i < front.len() && #[trigger] front[i].id == last.id {
            let i = choose|i: int| 0 <= i < front.len() && #[trigger] front[i].id == last.id;
            assert(listing[i].id != listing[listing.len() - 1].id);
        }
        lemma_process_counts_once(ledger.ingest(front), last);
    }
}

/// Count correctness of a first pass: from the empty ledger, over a listing
/// that names each message once, every sender ends with the number of
/// messages listed from that sender.
pub proof fn lemma_first_pass_counts(listing: Seq<Mail>, sender: Seq<char>)
    requires
        forall|i: int, j: int|
            0 <= i < j < listing.len() ==> #[trigger] listing[i].id != #[trigger] listing[j].id,
    ensures
        Ledger::empty().ingest(listing).count_of(sender) == sent_by(listing, sender),
{
    lemma_ingest_counts(Ledger::empty(), listing, sender);
}

} // verus!
