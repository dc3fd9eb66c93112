//! The byte format of a stored record, as mathematics.
//!
//! Fields follow each other in declaration order. An identity is its 32 bytes,
//! a counter its little-endian bytes, a text the count of its UTF-8 bytes in
//! four little-endian bytes followed by those bytes, and a sequence the count
//! of its items in four little-endian bytes followed by the items.

use vstd::prelude::*;
use vstd::bytes::{spec_u32_to_le_bytes, spec_u64_to_le_bytes};
use vstd::utf8::encode_utf8;
use crate::state::{Entry, PortfolioView};

verus! {

/// Bytes at the head of a storage slot that are not the record's.
pub const TAG_LEN: usize = 8;

/// Bytes that a stored record may occupy: what is reserved for the slot,
/// less its leading tag.
pub const CAPACITY: usize = 653;

/// A text: the count of its UTF-8 bytes, then the bytes.
pub open spec fn encode_text(text: Seq<char>) -> Seq<u8> {
    spec_u32_to_le_bytes(encode_utf8(text).len() as u32) + encode_utf8(text)
}

/// The texts of a sequence one after the other, without the leading count.
pub open spec fn encode_text_items(texts: Seq<Seq<char>>) -> Seq<u8>
    decreases texts.len(),
{
    if texts.len() == 0 {
        Seq::empty()
    } else {
        encode_text_items(texts.drop_last()) + encode_text(texts.last())
    }
}

/// A sequence of texts: the count of items, then each text.
pub open spec fn encode_texts(texts: Seq<Seq<char>>) -> Seq<u8> {
    spec_u32_to_le_bytes(texts.len() as u32) + encode_text_items(texts)
}

/// An entry: the author's 32 bytes, then the text.
pub open spec fn encode_entry(entry: Entry) -> Seq<u8> {
    entry.author + encode_text(entry.text)
}

/// The entries of a sequence one after the other, without the leading count.
pub open spec fn encode_entry_items(entries: Seq<Entry>) -> Seq<u8>
    decreases entries.len(),
{
    if entries.len() == 0 {
        Seq::empty()
    } else {
        encode_entry_items(entries.drop_last()) + encode_entry(entries.last())
    }
}

/// A sequence of entries: the count of items, then each item.
pub open spec fn encode_entries(entries: Seq<Entry>) -> Seq<u8> {
    spec_u32_to_le_bytes(entries.len() as u32) + encode_entry_items(entries)
}

/// The bytes of a whole record.
pub open spec fn encode_record(record: PortfolioView) -> Seq<u8> {
    record.owner + encode_text(record.bio) + encode_texts(record.links) + encode_text(
        record.image_url,
    ) + encode_entries(record.vouches) + encode_entries(record.vouch_requests)
        + encode_entries(record.messages) + spec_u64_to_le_bytes(record.tip_amount)
        + seq![record.bump]
}

/// Every author in the sequence is a 32-byte identity.
pub open spec fn authors_are_keys(entries: Seq<Entry>) -> bool {
    forall|i: int| 0 <= i < entries.len() ==> (#[trigger] entries[i]).author.len() == 32
}

impl PortfolioView {
    /// The identities in the record are 32 bytes each.
    pub open spec fn well_formed(self) -> bool {
        &&& self.owner.len() == 32
        &&& authors_are_keys(self.vouches)
        &&& authors_are_keys(self.vouch_requests)
        &&& authors_are_keys(self.messages)
    }

    /// Number of bytes in the record's encoding.
    pub open spec fn encoded_len(self) -> nat {
        encode_record(self).len()
    }

    /// The record's encoding fits in the bytes reserved for it.
    pub open spec fn within_capacity(self) -> bool {
        self.encoded_len() <= CAPACITY
    }
}

/// `bytes` is the stored form of `record`: the encoding of a well-formed
/// record that fits in the reserved bytes.
pub open spec fn is_encoding(bytes: Seq<u8>, record: PortfolioView) -> bool {
    record.well_formed() && record.within_capacity() && encode_record(record) == bytes
}

/// The record that `bytes` store, if they store one.
pub open spec fn decode_record(bytes: Seq<u8>) -> Option<PortfolioView> {
    if exists|record: PortfolioView| is_encoding(bytes, record) {
        Some(choose|record: PortfolioView| is_encoding(bytes, record))
    } else {
        None
    }
}

} // verus!
