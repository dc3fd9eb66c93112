//! The operations on a record as mathematics: what each one makes of a record,
//! and when it is refused.

use vstd::prelude::*;
use crate::state::{Entry, ErrorCode, PortfolioView};

verus! {

/// The entry at `index` is the first one that names `author`.
pub open spec fn is_first_by(entries: Seq<Entry>, author: Seq<u8>, index: int) -> bool {
    &&& 0 <= index < entries.len()
    &&& entries[index].author == author
    &&& forall|j: int| 0 <= j < index ==> (#[trigger] entries[j]).author != author
}

/// Position of the first entry that names `author`, if there is one.
pub open spec fn first_by(entries: Seq<Entry>, author: Seq<u8>) -> Option<int> {
    if exists|index: int| is_first_by(entries, author, index) {
        Some(choose|index: int| is_first_by(entries, author, index))
    } else {
        None
    }
}

/// Number of entries that name `author`.
pub open spec fn count_by(entries: Seq<Entry>, author: Seq<u8>) -> nat
    decreases entries.len(),
{
    if entries.len() == 0 {
        0
    } else {
        count_by(entries.drop_last(), author) + if entries.last().author == author {
            1nat
        } else {
            0nat
        }
    }
}

/// The sum of two counters, started again from zero where it passes the
/// largest 64-bit value.
pub open spec fn wrapped_sum(a: u64, b: u64) -> u64 {
    if a + b > u64::MAX {
        (a + b - 0x1_0000_0000_0000_0000) as u64
    } else {
        (a + b) as u64
    }
}

/// The first entry that names `author` is found at one position only.
pub proof fn lemma_first_by(entries: Seq<Entry>, author: Seq<u8>, index: int)
    requires
        is_first_by(entries, author, index),
    ensures
        first_by(entries, author) == Some(index),
{
    let chosen = choose|i: int| is_first_by(entries, author, i);
    assert(is_first_by(entries, author, chosen));
    if chosen < index {
        assert(entries[chosen].author != author);
    } else if index < chosen {
        assert(entries[index].author != author);
    }
}

/// Where no entry names `author`, there is no first one.
pub proof fn lemma_first_by_none(entries: Seq<Entry>, author: Seq<u8>)
    requires
        forall|j: int| 0 <= j < entries.len() ==> (#[trigger] entries[j]).author != author,
    ensures
        first_by(entries, author) is None,
{
    if exists|i: int| is_first_by(entries, author, i) {
        let chosen = choose|i: int| is_first_by(entries, author, i);
        assert(entries[chosen].author != author);
    }
}

/// What an operation leaves behind: the record after it, and its verdict.
pub struct Outcome {
    pub record: PortfolioView,
    pub result: Result<(), ErrorCode>,
}

/// An operation on a record that exists, with its arguments as plain data.
pub enum InstructionView {
    CreatePortfolio { bio: Seq<char> },
    StoreLinks { links: Seq<Seq<char>> },
    StoreImage { image_url: Seq<char> },
    RequestVouch { vouch: Entry },
    ApproveVouch { vouch_user: Seq<u8> },
    SendMessage { content: Seq<char> },
    Tip { amount: u64 },
}

impl InstructionView {
    /// The operations that only the owner may invoke.
    pub open spec fn owner_restricted(self) -> bool {
        self is CreatePortfolio || self is StoreLinks || self is StoreImage || self is ApproveVouch
    }
}

impl PortfolioView {
    /// The record as it is created: nothing in it but the owner and the bump.
    pub open spec fn created(owner: Seq<u8>, bump: u8) -> PortfolioView {
        PortfolioView {
            owner,
            bio: Seq::empty(),
            links: Seq::empty(),
            image_url: Seq::empty(),
            vouches: Seq::empty(),
            vouch_requests: Seq::empty(),
            messages: Seq::empty(),
            tip_amount: 0,
            bump,
        }
    }

    /// The authorization guard: the acting identity is the record's owner.
    pub open spec fn is_owner(self, authority: Seq<u8>) -> bool {
        authority == self.owner
    }

    /// The record with its bio overwritten.
    pub open spec fn with_bio(self, bio: Seq<char>) -> PortfolioView {
        PortfolioView { bio, ..self }
    }

    /// The record with more links at the end.
    pub open spec fn with_links(self, links: Seq<Seq<char>>) -> PortfolioView {
        PortfolioView { links: self.links + links, ..self }
    }

    /// The record with its image URL overwritten.
    pub open spec fn with_image(self, image_url: Seq<char>) -> PortfolioView {
        PortfolioView { image_url, ..self }
    }

    /// The record with one more pending request at the end.
    pub open spec fn with_request(self, request: Entry) -> PortfolioView {
        PortfolioView { vouch_requests: self.vouch_requests.push(request), ..self }
    }

    /// The record after the first pending request of `requester` has been
    /// moved to the end of the endorsements; the record itself where
    /// `requester` has none pending.
    pub open spec fn approved(self, requester: Seq<u8>) -> PortfolioView {
        match first_by(self.vouch_requests, requester) {
            Some(index) => PortfolioView {
                vouches: self.vouches.push(self.vouch_requests[index]),
                vouch_requests: self.vouch_requests.remove(index),
                ..self
            },
            None => self,
        }
    }

    /// The record with one more message at the end.
    pub open spec fn with_message(self, message: Entry) -> PortfolioView {
        PortfolioView { messages: self.messages.push(message), ..self }
    }

    /// The record with `amount` added to its tip counter, which wraps around
    /// past the largest 64-bit value.
    pub open spec fn tipped(self, amount: u64) -> PortfolioView {
        PortfolioView { tip_amount: wrapped_sum(self.tip_amount, amount), ..self }
    }

    /// An operation open to anyone: it is applied where its result fits in the
    /// reserved bytes, and refused otherwise.
    pub open spec fn if_fits(self, changed: PortfolioView) -> Outcome {
        if changed.within_capacity() {
            Outcome { record: changed, result: Ok(()) }
        } else {
            Outcome { record: self, result: Err(ErrorCode::CapacityExceeded) }
        }
    }

    /// An operation reserved to the owner: it is refused to anyone else, and
    /// then applied where its result fits in the reserved bytes.
    pub open spec fn if_owner(self, authority: Seq<u8>, changed: PortfolioView) -> Outcome {
        if !self.is_owner(authority) {
            Outcome { record: self, result: Err(ErrorCode::Unauthorized) }
        } else {
            self.if_fits(changed)
        }
    }

    /// Overwriting the bio, as `authority`.
    pub open spec fn create_portfolio(self, authority: Seq<u8>, bio: Seq<char>) -> Outcome {
        self.if_owner(authority, self.with_bio(bio))
    }

    /// Appending links, as `authority`.
    pub open spec fn store_links(self, authority: Seq<u8>, links: Seq<Seq<char>>) -> Outcome {
        self.if_owner(authority, self.with_links(links))
    }

    /// Overwriting the image URL, as `authority`.
    pub open spec fn store_image(self, authority: Seq<u8>, image_url: Seq<char>) -> Outcome {
        self.if_owner(authority, self.with_image(image_url))
    }

    /// Filing a request for endorsement.
    pub open spec fn request_vouch(self, request: Entry) -> Outcome {
        self.if_fits(self.with_request(request))
    }

    /// Approving the first pending request of `requester`, as `authority`.
    pub open spec fn approve_vouch(self, authority: Seq<u8>, requester: Seq<u8>) -> Outcome {
        if !self.is_owner(authority) {
            Outcome { record: self, result: Err(ErrorCode::Unauthorized) }
        } else {
            Outcome { record: self.approved(requester), result: Ok(()) }
        }
    }

    /// Leaving a message, as `authority`.
    pub open spec fn send_message(self, authority: Seq<u8>, content: Seq<char>) -> Outcome {
        self.if_fits(self.with_message(Entry { author: authority, text: content }))
    }

    /// Tipping the owner.
    pub open spec fn tip(self, amount: u64) -> Outcome {
        Outcome { record: self.tipped(amount), result: Ok(()) }
    }

    /// Any operation, invoked by `authority`.
    pub open spec fn apply(self, authority: Seq<u8>, instruction: InstructionView) -> Outcome {
        match instruction {
            InstructionView::CreatePortfolio { bio } => self.create_portfolio(authority, bio),
            InstructionView::StoreLinks { links } => self.store_links(authority, links),
            InstructionView::StoreImage { image_url } => self.store_image(authority, image_url),
            InstructionView::RequestVouch { vouch } => self.request_vouch(vouch),
            InstructionView::ApproveVouch { vouch_user } => self.approve_vouch(
                authority,
                vouch_user,
            ),
            InstructionView::SendMessage { content } => self.send_message(authority, content),
            InstructionView::Tip { amount } => self.tip(amount),
        }
    }
}

/// The records of a store, by the bytes of their owners' identities.
pub type Records = Map<Seq<u8>, PortfolioView>;

/// What an operation leaves behind in a store: the records after it, and
/// its verdict.
pub struct StoreOutcome {
    pub records: Records,
    pub result: Result<(), ErrorCode>,
}

/// Creating the record of `creator`: refused where one stands already.
pub open spec fn store_initialize(records: Records, creator: Seq<u8>, bump: u8) -> StoreOutcome {
    if records.contains_key(creator) {
        StoreOutcome { records, result: Err(ErrorCode::AlreadyExists) }
    } else {
        StoreOutcome {
            records: records.insert(creator, PortfolioView::created(creator, bump)),
            result: Ok(()),
        }
    }
}

/// Writing back a record: refused where its owner has none in the store, or
/// where it does not fit in the reserved bytes.
pub open spec fn store_commit(records: Records, record: PortfolioView) -> StoreOutcome {
    if !records.contains_key(record.owner) {
        StoreOutcome { records, result: Err(ErrorCode::NotFound) }
    } else if !record.within_capacity() {
        StoreOutcome { records, result: Err(ErrorCode::CapacityExceeded) }
    } else {
        StoreOutcome { records: records.insert(record.owner, record), result: Ok(()) }
    }
}

/// Invoking an operation on the record of `owner`, as `authority`: refused
/// where `owner` has no record, and else what the operation makes of it.
pub open spec fn store_execute(
    records: Records,
    owner: Seq<u8>,
    authority: Seq<u8>,
    instruction: InstructionView,
) -> StoreOutcome {
    if !records.contains_key(owner) {
        StoreOutcome { records, result: Err(ErrorCode::NotFound) }
    } else {
        let outcome = records[owner].apply(authority, instruction);
        StoreOutcome { records: records.insert(owner, outcome.record), result: outcome.result }
    }
}

} // verus!
