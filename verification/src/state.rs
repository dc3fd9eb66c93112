//! The profile record and the entries it collects, with their mathematical views.

use vstd::prelude::*;
use crate::identity::Pubkey;

verus! {

/// What an endorsement, an endorsement request or a message is, seen as plain
/// data: the 32 bytes of the identity it names as its author, and its text.
#[verifier::ext_equal]
pub struct Entry {
    pub author: Seq<u8>,
    pub text: Seq<char>,
}

/// An endorsement of the record's owner, granted by approving a request.
#[derive(Clone, Debug, PartialEq, Eq)]
pub struct Vouch {
    pub vouched_by: Pubkey,
    pub comment: String,
}

/// A pending request to endorse the record's owner.
#[derive(Clone, Debug, PartialEq, Eq)]
pub struct VouchRequest {
    pub vouched_by: Pubkey,
    pub comment: String,
}

/// A message left on the record.
#[derive(Clone, Debug, PartialEq, Eq)]
pub struct Message {
    pub sender: Pubkey,
    pub content: String,
}

impl View for Vouch {
    type V = Entry;

    open spec fn view(&self) -> Entry {
        Entry { author: self.vouched_by@, text: self.comment@ }
    }
}

impl View for VouchRequest {
    type V = Entry;

    open spec fn view(&self) -> Entry {
        Entry { author: self.vouched_by@, text: self.comment@ }
    }
}

impl View for Message {
    type V = Entry;

    open spec fn view(&self) -> Entry {
        Entry { author: self.sender@, text: self.content@ }
    }
}

/// What endorsements, requests and messages have in common: each is a text
/// attributed to an identity.
pub trait Attributed: Sized {
    /// The entry as plain data.
    spec fn entry(&self) -> Entry;

    /// The identity that the entry names as its author.
    fn author(&self) -> (key: &Pubkey)
        ensures
            key@ == self.entry().author,
    ;

    /// The text of the entry.
    fn text(&self) -> (text: &String)
        ensures
            text@ == self.entry().text,
    ;

    /// An entry with the given author and text.
    fn attribute(author: Pubkey, text: String) -> (entry: Self)
        ensures
            entry.entry() == (Entry { author: author@, text: text@ }),
    ;
}

impl Attributed for Vouch {
    open spec fn entry(&self) -> Entry {
        self@
    }

    fn author(&self) -> (key: &Pubkey) {
        &self.vouched_by
    }

    fn text(&self) -> (text: &String) {
        &self.comment
    }

    fn attribute(author: Pubkey, text: String) -> (entry: Vouch) {
        Vouch { vouched_by: author, comment: text }
    }
}

impl Attributed for VouchRequest {
    open spec fn entry(&self) -> Entry {
        self@
    }

    fn author(&self) -> (key: &Pubkey) {
        &self.vouched_by
    }

    fn text(&self) -> (text: &String) {
        &self.comment
    }

    fn attribute(author: Pubkey, text: String) -> (entry: VouchRequest) {
        VouchRequest { vouched_by: author, comment: text }
    }
}

impl Attributed for Message {
    open spec fn entry(&self) -> Entry {
        self@
    }

    fn author(&self) -> (key: &Pubkey) {
        &self.sender
    }

    fn text(&self) -> (text: &String) {
        &self.content
    }

    fn attribute(author: Pubkey, text: String) -> (entry: Message) {
        Message { sender: author, content: text }
    }
}

/// The texts of a sequence as plain data.
pub open spec fn text_views(texts: Seq<String>) -> Seq<Seq<char>> {
    texts.map_values(|s: String| s@)
}

/// The entries of a sequence as plain data.
pub open spec fn entry_views<T: Attributed>(entries: Seq<T>) -> Seq<Entry> {
    entries.map_values(|e: T| e.entry())
}

/// The profile record of one owner.
#[derive(Clone, Debug, PartialEq, Eq)]
pub struct Portfolio {
    pub owner: Pubkey,
    pub bio: String,
    pub links: Vec<String>,
    pub image_url: String,
    pub vouches: Vec<Vouch>,
    pub vouch_requests: Vec<VouchRequest>,
    pub messages: Vec<Message>,
    pub tip_amount: u64,
    pub bump: u8,
}

/// The record as plain data: what the byte format stores and the operations change.
#[verifier::ext_equal]
pub struct PortfolioView {
    pub owner: Seq<u8>,
    pub bio: Seq<char>,
    pub links: Seq<Seq<char>>,
    pub image_url: Seq<char>,
    pub vouches: Seq<Entry>,
    pub vouch_requests: Seq<Entry>,
    pub messages: Seq<Entry>,
    pub tip_amount: u64,
    pub bump: u8,
}

impl View for Portfolio {
    type V = PortfolioView;

    open spec fn view(&self) -> PortfolioView {
        PortfolioView {
            owner: self.owner@,
            bio: self.bio@,
            links: text_views(self.links@),
            image_url: self.image_url@,
            vouches: entry_views(self.vouches@),
            vouch_requests: entry_views(self.vouch_requests@),
            messages: entry_views(self.messages@),
            tip_amount: self.tip_amount,
            bump: self.bump,
        }
    }
}

impl Portfolio {
    /// A record as it is created: nothing in it but the owner and the bump.
    pub fn new(owner: Pubkey, bump: u8) -> (record: Portfolio)
        ensures
            record@ == PortfolioView::created(owner@, bump),
    {
        let record = Portfolio {
            owner,
            bio: String::new(),
            links: Vec::new(),
            image_url: String::new(),
            vouches: Vec::new(),
            vouch_requests: Vec::new(),
            messages: Vec::new(),
            tip_amount: 0,
            bump,
        };
        assert(record@ =~= PortfolioView::created(owner@, bump));
        record
    }

    /// Bytes reserved for a stored record. The budget was drawn up field by
    /// field, but only the total is enforced: a record may spend it on any field.
    pub const LEN: usize = 8  // leading tag of the storage slot
        + 32  // owner
        + 4 + 30  // bio
        + 4 + 50 * 2  // links
        + 4 + 30  // image_url
        + 4 + 3 * (32 + 4 + 20)  // vouches
        + 4 + 3 * (32 + 4 + 20)  // vouch_requests
        + 4 + 2 * (32 + 4 + 10)  // messages
        + 8  // tip_amount
        + 1;  // bump
}

/// Why an operation was refused.
#[derive(Clone, Copy, Debug, PartialEq, Eq, Structural)]
pub enum ErrorCode {
    /// The acting identity is not the record's owner.
    Unauthorized,
    /// A record for this owner has been created before.
    AlreadyExists,
    /// The record would no longer fit in the bytes reserved for it.
    CapacityExceeded,
    /// No record has been created for this owner.
    NotFound,
}

impl ErrorCode {
    /// The words that describe the refusal.
    pub open spec fn message_text(self) -> Seq<char> {
        match self {
            ErrorCode::Unauthorized => "Unauthorized access."@,
            ErrorCode::AlreadyExists => "A record for this owner exists already."@,
            ErrorCode::CapacityExceeded => "The record would exceed its reserved capacity."@,
            ErrorCode::NotFound => "No record exists for this owner."@,
        }
    }

    /// The words that describe the refusal.
    pub fn message(&self) -> (text: String)
        ensures
            text@ == self.message_text(),
    {
        match self {
            ErrorCode::Unauthorized => "Unauthorized access.".to_owned(),
            ErrorCode::AlreadyExists => "A record for this owner exists already.".to_owned(),
            ErrorCode::CapacityExceeded => {
                "The record would exceed its reserved capacity.".to_owned()
            },
            ErrorCode::NotFound => "No record exists for this owner.".to_owned(),
        }
    }
}

} // verus!
