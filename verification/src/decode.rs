//! Decoding a record from its byte format.

use vstd::prelude::*;
use vstd::bytes::{
    spec_u32_from_le_bytes, spec_u64_from_le_bytes, u32_from_le_bytes, u64_from_le_bytes,
};
use vstd::slice::{slice_subrange, slice_to_vec};
use vstd::utf8::{decode_utf8, encode_utf8, encode_utf8_decode_utf8, valid_utf8};
use crate::format::{decode_record, CAPACITY};
use crate::identity::Pubkey;
use crate::roundtrip::lemma_parse_is_decode;
use crate::state::{
    entry_views, text_views, Attributed, Entry, Message, Portfolio, PortfolioView, Vouch,
    VouchRequest,
};

verus! {

/// Reads a four-byte count at `at`: the count and the position after it.
pub(crate) open spec fn parse_count(bytes: Seq<u8>, at: int) -> Option<(u32, int)> {
    if 0 <= at && at + 4 <= bytes.len() {
        Some((spec_u32_from_le_bytes(bytes.subrange(at, at + 4)), at + 4))
    } else {
        None
    }
}

/// Reads a text at `at`: the text and the position after it.
pub(crate) open spec fn parse_text(bytes: Seq<u8>, at: int) -> Option<(Seq<char>, int)> {
    match parse_count(bytes, at) {
        Some((count, start)) => {
            if start + count <= bytes.len() && valid_utf8(bytes.subrange(start, start + count)) {
                Some((decode_utf8(bytes.subrange(start, start + count)), start + count))
            } else {
                None
            }
        },
        None => None,
    }
}

/// Reads `count` texts one after the other, starting at `at`.
pub(crate) open spec fn parse_text_items(bytes: Seq<u8>, at: int, count: nat) -> Option<
    (Seq<Seq<char>>, int),
>
    decreases count,
{
    if count == 0 {
        Some((Seq::empty(), at))
    } else {
        match parse_text_items(bytes, at, (count - 1) as nat) {
            Some((texts, middle)) => match parse_text(bytes, middle) {
                Some((text, end)) => Some((texts.push(text), end)),
                None => None,
            },
            None => None,
        }
    }
}

/// Reads a sequence of texts at `at`.
pub(crate) open spec fn parse_texts(bytes: Seq<u8>, at: int) -> Option<(Seq<Seq<char>>, int)> {
    match parse_count(bytes, at) {
        Some((count, start)) => parse_text_items(bytes, start, count as nat),
        None => None,
    }
}

/// Reads the 32 bytes of an identity at `at`.
pub(crate) open spec fn parse_key(bytes: Seq<u8>, at: int) -> Option<(Seq<u8>, int)> {
    if 0 <= at && at + 32 <= bytes.len() {
        Some((bytes.subrange(at, at + 32), at + 32))
    } else {
        None
    }
}

/// Reads an entry at `at`.
pub(crate) open spec fn parse_entry(bytes: Seq<u8>, at: int) -> Option<(Entry, int)> {
    match parse_key(bytes, at) {
        Some((author, start)) => match parse_text(bytes, start) {
            Some((text, end)) => Some((Entry { author, text }, end)),
            None => None,
        },
        None => None,
    }
}

/// Reads `count` entries one after the other, starting at `at`.
pub(crate) open spec fn parse_entry_items(bytes: Seq<u8>, at: int, count: nat) -> Option<
    (Seq<Entry>, int),
>
    decreases count,
{
    if count == 0 {
        Some((Seq::empty(), at))
    } else {
        match parse_entry_items(bytes, at, (count - 1) as nat) {
            Some((entries, middle)) => match parse_entry(bytes, middle) {
                Some((entry, end)) => Some((entries.push(entry), end)),
                None => None,
            },
            None => None,
        }
    }
}

/// Reads a sequence of entries at `at`.
pub(crate) open spec fn parse_entries(bytes: Seq<u8>, at: int) -> Option<(Seq<Entry>, int)> {
    match parse_count(bytes, at) {
        Some((count, start)) => parse_entry_items(bytes, start, count as nat),
        None => None,
    }
}

/// Reads an eight-byte counter at `at`.
pub(crate) open spec fn parse_amount(bytes: Seq<u8>, at: int) -> Option<(u64, int)> {
    if 0 <= at && at + 8 <= bytes.len() {
        Some((spec_u64_from_le_bytes(bytes.subrange(at, at + 8)), at + 8))
    } else {
        None
    }
}

/// Reads the fields up to and including the image URL.
pub(crate) open spec fn parse_head(bytes: Seq<u8>) -> Option<
    (Seq<u8>, Seq<char>, Seq<Seq<char>>, Seq<char>, int),
> {
    match parse_key(bytes, 0) {
        Some((owner, p1)) => match parse_text(bytes, p1) {
            Some((bio, p2)) => match parse_texts(bytes, p2) {
                Some((links, p3)) => match parse_text(bytes, p3) {
                    Some((image_url, p4)) => Some((owner, bio, links, image_url, p4)),
                    None => None,
                },
                None => None,
            },
            None => None,
        },
        None => None,
    }
}

/// Reads the three sequences of entries that follow the image URL.
pub(crate) open spec fn parse_lists(bytes: Seq<u8>, at: int) -> Option<
    (Seq<Entry>, Seq<Entry>, Seq<Entry>, int),
> {
    match parse_entries(bytes, at) {
        Some((vouches, p1)) => match parse_entries(bytes, p1) {
            Some((vouch_requests, p2)) => match parse_entries(bytes, p2) {
                Some((messages, p3)) => Some((vouches, vouch_requests, messages, p3)),
                None => None,
            },
            None => None,
        },
        None => None,
    }
}

/// Reads a whole record: every field in order, with nothing left over and
/// no more bytes than are reserved for a record.
pub(crate) open spec fn parse_record(bytes: Seq<u8>) -> Option<PortfolioView> {
    match parse_head(bytes) {
        Some((owner, bio, links, image_url, p1)) => match parse_lists(bytes, p1) {
            Some((vouches, vouch_requests, messages, p2)) => match parse_amount(bytes, p2) {
                Some((tip_amount, p3)) => {
                    if p3 + 1 == bytes.len() && bytes.len() <= CAPACITY {
                        Some(
                            PortfolioView {
                                owner,
                                bio,
                                links,
                                image_url,
                                vouches,
                                vouch_requests,
                                messages,
                                tip_amount,
                                bump: bytes[p3],
                            },
                        )
                    } else {
                        None
                    }
                },
                None => None,
            },
            None => None,
        },
        None => None,
    }
}

/// `String::from_utf8` of the standard library: it accepts exactly the byte
/// vectors that are valid UTF-8, and the string it returns consists of the
/// bytes it was given.
#[verifier::external_body]
fn string_from_utf8(bytes: Vec<u8>) -> (text: Option<String>)
    ensures
        text is Some <==> valid_utf8(bytes@),
        text matches Some(s) ==> encode_utf8(s@) == bytes@,
{
    String::from_utf8(bytes).ok()
}

/// Reads a four-byte count.
fn read_count(bytes: &[u8], at: usize) -> (result: Option<(u32, usize)>)
    requires
        at <= bytes@.len(),
    ensures
        match result {
            Some((count, next)) => parse_count(bytes@, at as int) == Some((count, next as int)),
            None => parse_count(bytes@, at as int) is None,
        },
{
    if bytes.len() - at < 4 {
        return None;
    }
    let count = u32_from_le_bytes(slice_subrange(bytes, at, at + 4));
    Some((count, at + 4))
}

/// Reads a text.
fn read_text(bytes: &[u8], at: usize) -> (result: Option<(String, usize)>)
    requires
        at <= bytes@.len(),
    ensures
        match result {
            Some((text, next)) => next <= bytes@.len() && parse_text(bytes@, at as int)
                == Some((text@, next as int)),
            None => parse_text(bytes@, at as int) is None,
        },
{
    let (count, start) = match read_count(bytes, at) {
        Some(found) => found,
        None => { return None; },
    };
    if bytes.len() - start < count as usize {
        return None;
    }
    let end = start + count as usize;
    let raw = slice_to_vec(slice_subrange(bytes, start, end));
    match string_from_utf8(raw) {
        Some(text) => {
            proof {
                encode_utf8_decode_utf8(text@);
            }
            Some((text, end))
        },
        None => None,
    }
}

/// Once a text fails to parse, no longer run of texts parses either.
proof fn lemma_text_items_stop(bytes: Seq<u8>, at: int, done: nat, count: nat)
    requires
        done < count,
        parse_text_items(bytes, at, done) matches Some((_, middle)) && parse_text(
            bytes,
            middle,
        ) is None,
    ensures
        parse_text_items(bytes, at, count) is None,
    decreases count,
{
    if count - 1 > done {
        lemma_text_items_stop(bytes, at, done, (count - 1) as nat);
    }
}

/// Once an entry fails to parse, no longer run of entries parses either.
proof fn lemma_entry_items_stop(bytes: Seq<u8>, at: int, done: nat, count: nat)
    requires
        done < count,
        parse_entry_items(bytes, at, done) matches Some((_, middle)) && parse_entry(
            bytes,
            middle,
        ) is None,
    ensures
        parse_entry_items(bytes, at, count) is None,
    decreases count,
{
    if count - 1 > done {
        lemma_entry_items_stop(bytes, at, done, (count - 1) as nat);
    }
}

/// Reads a sequence of texts.
fn read_texts(bytes: &[u8], at: usize) -> (result: Option<(Vec<String>, usize)>)
    requires
        at <= bytes@.len(),
    ensures
        match result {
            Some((texts, next)) => next <= bytes@.len() && parse_texts(bytes@, at as int)
                == Some((text_views(texts@), next as int)),
            None => parse_texts(bytes@, at as int) is None,
        },
{
    let (count, start) = match read_count(bytes, at) {
        Some(found) => found,
        None => { return None; },
    };
    let mut texts: Vec<String> = Vec::new();
    let mut pos: usize = start;
    let mut i: u32 = 0;
    proof {
        assert(text_views(texts@) =~= Seq::empty());
    }
    while i < count
        invariant
            i <= count,
            pos <= bytes@.len(),
            parse_count(bytes@, at as int) == Some((count, start as int)),
            parse_text_items(bytes@, start as int, i as nat) == Some(
                (text_views(texts@), pos as int),
            ),
        decreases count - i,
    {
        match read_text(bytes, pos) {
            Some((text, next)) => {
                proof {
                    assert(text_views(texts@.push(text)) =~= text_views(texts@).push(text@));
                }
                texts.push(text);
                pos = next;
            },
            None => {
                proof {
                    lemma_text_items_stop(bytes@, start as int, i as nat, count as nat);
                }
                return None;
            },
        }
        i += 1;
    }
    Some((texts, pos))
}

/// Reads the 32 bytes of an identity.
fn read_key(bytes: &[u8], at: usize) -> (result: Option<(Pubkey, usize)>)
    requires
        at <= bytes@.len(),
    ensures
        match result {
            Some((key, next)) => next <= bytes@.len() && parse_key(bytes@, at as int) == Some(
                (key@, next as int),
            ),
            None => parse_key(bytes@, at as int) is None,
        },
{
    if bytes.len() - at < 32 {
        return None;
    }
    let mut raw: [u8; 32] = [0u8; 32];
    let mut i: usize = 0;
    while i < 32
        invariant
            i <= 32,
            at + 32 <= bytes@.len() <= usize::MAX,
            forall|j: int| 0 <= j < i ==> raw@[j] == bytes@[at + j],
        decreases 32 - i,
    {
        raw[i] = bytes[at + i];
        i += 1;
    }
    let key = Pubkey::new_from_array(raw);
    proof {
        assert(key@ =~= bytes@.subrange(at as int, at + 32));
    }
    Some((key, at + 32))
}

/// Reads an entry.
fn read_entry<T: Attributed>(bytes: &[u8], at: usize) -> (result: Option<(T, usize)>)
    requires
        at <= bytes@.len(),
    ensures
        match result {
            Some((entry, next)) => next <= bytes@.len() && parse_entry(bytes@, at as int)
                == Some((entry.entry(), next as int)),
            None => parse_entry(bytes@, at as int) is None,
        },
{
    let (author, start) = match read_key(bytes, at) {
        Some(found) => found,
        None => { return None; },
    };
    match read_text(bytes, start) {
        Some((text, next)) => Some((T::attribute(author, text), next)),
        None => None,
    }
}

/// Reads a sequence of entries.
fn read_entries<T: Attributed>(bytes: &[u8], at: usize) -> (result: Option<(Vec<T>, usize)>)
    requires
        at <= bytes@.len(),
    ensures
        match result {
            Some((entries, next)) => next <= bytes@.len() && parse_entries(
                bytes@,
                at as int,
            ) == Some((entry_views(entries@), next as int)),
            None => parse_entries(bytes@, at as int) is None,
        },
{
    let (count, start) = match read_count(bytes, at) {
        Some(found) => found,
        None => { return None; },
    };
    let mut entries: Vec<T> = Vec::new();
    let mut pos: usize = start;
    let mut i: u32 = 0;
    proof {
        assert(entry_views(entries@) =~= Seq::empty());
    }
    while i < count
        invariant
            i <= count,
            pos <= bytes@.len(),
            parse_count(bytes@, at as int) == Some((count, start as int)),
            parse_entry_items(bytes@, start as int, i as nat) == Some(
                (entry_views(entries@), pos as int),
            ),
        decreases count - i,
    {
        match read_entry::<T>(bytes, pos) {
            Some((entry, next)) => {
                proof {
                    assert(entry_views(entries@.push(entry)) =~= entry_views(entries@).push(
                        entry.entry(),
                    ));
                }
                entries.push(entry);
                pos = next;
            },
            None => {
                proof {
                    lemma_entry_items_stop(bytes@, start as int, i as nat, count as nat);
                }
                return None;
            },
        }
        i += 1;
    }
    Some((entries, pos))
}

/// Reads a record from bytes that hold exactly one record.
pub fn decode(bytes: &[u8]) -> (result: Option<Portfolio>)
    ensures
        match result {
            Some(record) => decode_record(bytes@) == Some(record@),
            None => decode_record(bytes@) is None,
        },
{
    proof {
        lemma_parse_is_decode(bytes@);
    }
    if bytes.len() > CAPACITY {
        return None;
    }
    let (owner, p1) = match read_key(bytes, 0) {
        Some(found) => found,
        None => { return None; },
    };
    let (bio, p2) = match read_text(bytes, p1) {
        Some(found) => found,
        None => { return None; },
    };
    let (links, p3) = match read_texts(bytes, p2) {
        Some(found) => found,
        None => { return None; },
    };
    let (image_url, p4) = match read_text(bytes, p3) {
        Some(found) => found,
        None => { return None; },
    };
    let (vouches, p5) = match read_entries::<Vouch>(bytes, p4) {
        Some(found) => found,
        None => { return None; },
    };
    let (vouch_requests, p6) = match read_entries::<VouchRequest>(bytes, p5) {
        Some(found) => found,
        None => { return None; },
    };
    let (messages, p7) = match read_entries::<Message>(bytes, p6) {
        Some(found) => found,
        None => { return None; },
    };
    if bytes.len() - p7 != 9 {
        return None;
    }
    let tip_amount = u64_from_le_bytes(slice_subrange(bytes, p7, p7 + 8));
    let bump = bytes[p7 + 8];
    Some(
        Portfolio {
            owner,
            bio,
            links,
            image_url,
            vouches,
            vouch_requests,
            messages,
            tip_amount,
            bump,
        },
    )
}

} // verus!
