//! Encoding a record into its byte format, within the reserved capacity.

use vstd::prelude::*;
use vstd::bytes::{
    lemma_auto_spec_u32_to_from_le_bytes, lemma_auto_spec_u64_to_from_le_bytes,
    spec_u32_to_le_bytes, u32_to_le_bytes, u64_to_le_bytes,
};
use vstd::slice::slice_to_vec;
use vstd::string::StrSliceExecFns;
use vstd::utf8::encode_utf8;
use crate::format::{
    encode_record, encode_entry, encode_entry_items, encode_entries, encode_text,
    encode_text_items, encode_texts, CAPACITY,
};
use crate::identity::Pubkey;
use crate::state::{entry_views, text_views, Attributed, Entry, ErrorCode, Portfolio};

verus! {

/// A length, cut off just above the capacity.
pub(crate) open spec fn capped(n: nat) -> nat {
    if n <= CAPACITY {
        n
    } else {
        (CAPACITY + 1) as nat
    }
}

/// The encoding of a text is four bytes longer than its UTF-8 form.
pub proof fn lemma_text_len(text: Seq<char>)
    ensures
        encode_text(text).len() == 4 + encode_utf8(text).len(),
{
    lemma_auto_spec_u32_to_from_le_bytes();
}

/// Appending a text to a sequence appends its encoding to the items.
pub proof fn lemma_text_items_push(texts: Seq<Seq<char>>, text: Seq<char>)
    ensures
        encode_text_items(texts.push(text)) == encode_text_items(texts) + encode_text(text),
{
    assert(texts.push(text).drop_last() =~= texts);
}

/// Appending an entry to a sequence appends its encoding to the items.
pub proof fn lemma_entry_items_push(entries: Seq<Entry>, entry: Entry)
    ensures
        encode_entry_items(entries.push(entry)) == encode_entry_items(entries) + encode_entry(
            entry,
        ),
{
    assert(entries.push(entry).drop_last() =~= entries);
}

/// The items of a prefix take no more bytes than the items of the whole
/// sequence, and each text takes four bytes at least.
pub proof fn lemma_text_items_len(texts: Seq<Seq<char>>, i: int)
    requires
        0 <= i <= texts.len(),
    ensures
        encode_text_items(texts.take(i)).len() <= encode_text_items(texts).len(),
        encode_text_items(texts).len() >= 4 * texts.len(),
    decreases texts.len(),
{
    if texts.len() == 0 {
        assert(texts.take(i) =~= texts);
    } else {
        lemma_text_len(texts.last());
        if i == texts.len() {
            assert(texts.take(i) =~= texts);
            lemma_text_items_len(texts.drop_last(), 0);
        } else {
            lemma_text_items_len(texts.drop_last(), i);
            assert(texts.drop_last().take(i) =~= texts.take(i));
        }
    }
}

/// The items of a prefix take no more bytes than the items of the whole
/// sequence, and each entry takes four bytes at least.
pub proof fn lemma_entry_items_len(entries: Seq<Entry>, i: int)
    requires
        0 <= i <= entries.len(),
    ensures
        encode_entry_items(entries.take(i)).len() <= encode_entry_items(entries).len(),
        encode_entry_items(entries).len() >= 4 * entries.len(),
    decreases entries.len(),
{
    if entries.len() == 0 {
        assert(entries.take(i) =~= entries);
    } else {
        lemma_text_len(entries.last().text);
        if i == entries.len() {
            assert(entries.take(i) =~= entries);
            lemma_entry_items_len(entries.drop_last(), 0);
        } else {
            lemma_entry_items_len(entries.drop_last(), i);
            assert(entries.drop_last().take(i) =~= entries.take(i));
        }
    }
}

/// The identities in a record are 32 bytes each, whatever the record.
pub proof fn lemma_record_well_formed(record: Portfolio)
    ensures
        record@.well_formed(),
{
    assert(record.owner.bytes@.len() == 32);
    let view = record@;
    assert forall|i: int| 0 <= i < view.vouches.len() implies (
    #[trigger] view.vouches[i]).author.len() == 32 by {
        assert(record.vouches@[i].vouched_by.bytes@.len() == 32);
    }
    assert forall|i: int| 0 <= i < view.vouch_requests.len() implies (
    #[trigger] view.vouch_requests[i]).author.len() == 32 by {
        assert(record.vouch_requests@[i].vouched_by.bytes@.len() == 32);
    }
    assert forall|i: int| 0 <= i < view.messages.len() implies (
    #[trigger] view.messages[i]).author.len() == 32 by {
        assert(record.messages@[i].sender.bytes@.len() == 32);
    }
}

/// Adds a piece to a running length that is cut off just above the capacity.
fn add_capped(total: usize, piece: usize) -> (sum: usize)
    requires
        total <= CAPACITY + 1,
    ensures
        sum == capped((total + piece) as nat),
{
    if piece > CAPACITY + 1 - total {
        CAPACITY + 1
    } else {
        total + piece
    }
}

/// Length of a text's encoding, cut off just above the capacity.
fn text_len_capped(text: &String) -> (len: usize)
    ensures
        len == capped(encode_text(text@).len()),
{
    proof {
        lemma_text_len(text@);
    }
    add_capped(4, text.as_str().as_bytes().len())
}

/// Length of the encoding of a sequence of texts, cut off just above the capacity.
fn texts_len_capped(texts: &Vec<String>) -> (len: usize)
    ensures
        len == capped(encode_texts(text_views(texts@)).len()),
{
    let ghost view = text_views(texts@);
    let mut total: usize = 4;
    let mut i: usize = 0;
    proof {
        lemma_auto_spec_u32_to_from_le_bytes();
        assert(view.take(0) =~= Seq::empty());
    }
    while i < texts.len()
        invariant
            i <= texts.len(),
            view == text_views(texts@),
            total == capped(4 + encode_text_items(view.take(i as int)).len()),
        decreases texts.len() - i,
    {
        let piece = text_len_capped(&texts[i]);
        proof {
            assert(view.take(i as int + 1) =~= view.take(i as int).push(view[i as int]));
            lemma_text_items_push(view.take(i as int), view[i as int]);
        }
        total = add_capped(total, piece);
        i += 1;
    }
    proof {
        assert(view.take(i as int) =~= view);
    }
    total
}

/// Length of the encoding of a sequence of entries, cut off just above
/// the capacity.
fn entries_len_capped<T: Attributed>(entries: &Vec<T>) -> (len: usize)
    ensures
        len == capped(encode_entries(entry_views(entries@)).len()),
{
    let ghost view = entry_views(entries@);
    let mut total: usize = 4;
    let mut i: usize = 0;
    proof {
        lemma_auto_spec_u32_to_from_le_bytes();
        assert(view.take(0) =~= Seq::empty());
    }
    while i < entries.len()
        invariant
            i <= entries.len(),
            view == entry_views(entries@),
            total == capped(4 + encode_entry_items(view.take(i as int)).len()),
        decreases entries.len() - i,
    {
        let piece = text_len_capped(entries[i].text());
        let key = entries[i].author();
        proof {
            assert(view.take(i as int + 1) =~= view.take(i as int).push(view[i as int]));
            lemma_entry_items_push(view.take(i as int), view[i as int]);
            assert(key@.len() == 32);
        }
        total = add_capped(total, 32);
        total = add_capped(total, piece);
        i += 1;
    }
    proof {
        assert(view.take(i as int) =~= view);
    }
    total
}

/// The length of a record's encoding, where the record fits in the reserved
/// bytes, and `None` where it does not.
pub fn checked_len(record: &Portfolio) -> (len: Option<usize>)
    ensures
        len == if record@.within_capacity() {
            Some(record@.encoded_len() as usize)
        } else {
            None::<usize>
        },
{
    proof {
        lemma_auto_spec_u64_to_from_le_bytes();
        assert(record.owner@.len() == 32);
    }
    let mut total: usize = 32;
    total = add_capped(total, text_len_capped(&record.bio));
    total = add_capped(total, texts_len_capped(&record.links));
    total = add_capped(total, text_len_capped(&record.image_url));
    total = add_capped(total, entries_len_capped(&record.vouches));
    total = add_capped(total, entries_len_capped(&record.vouch_requests));
    total = add_capped(total, entries_len_capped(&record.messages));
    total = add_capped(total, 8);
    total = add_capped(total, 1);
    if total <= CAPACITY {
        Some(total)
    } else {
        None
    }
}

/// Whether a record fits in the bytes reserved for it.
pub fn fits(record: &Portfolio) -> (ok: bool)
    ensures
        ok == record@.within_capacity(),
{
    checked_len(record).is_some()
}

/// Appends the four-byte form of a count.
fn put_count(out: &mut Vec<u8>, count: u32)
    ensures
        final(out)@ == old(out)@ + spec_u32_to_le_bytes(count),
{
    let mut bytes = u32_to_le_bytes(count);
    out.append(&mut bytes);
}

/// Appends the 32 bytes of an identity.
fn put_key(out: &mut Vec<u8>, key: &Pubkey)
    ensures
        final(out)@ == old(out)@ + key@,
{
    let mut bytes = slice_to_vec(key.bytes.as_slice());
    out.append(&mut bytes);
}

/// Appends the encoding of a text.
fn put_text(out: &mut Vec<u8>, text: &String)
    requires
        encode_utf8(text@).len() <= u32::MAX,
    ensures
        final(out)@ == old(out)@ + encode_text(text@),
{
    let mut bytes = text.as_str().as_bytes_vec();
    put_count(out, bytes.len() as u32);
    out.append(&mut bytes);
    proof {
        assert(out@ =~= old(out)@ + encode_text(text@));
    }
}

/// Appends the encoding of a sequence of texts.
fn put_texts(out: &mut Vec<u8>, texts: &Vec<String>)
    requires
        encode_texts(text_views(texts@)).len() <= CAPACITY,
    ensures
        final(out)@ == old(out)@ + encode_texts(text_views(texts@)),
{
    let ghost view = text_views(texts@);
    proof {
        lemma_auto_spec_u32_to_from_le_bytes();
        lemma_text_items_len(view, 0);
        assert(view.take(0) =~= Seq::empty());
    }
    put_count(out, texts.len() as u32);
    let mut i: usize = 0;
    while i < texts.len()
        invariant
            i <= texts.len(),
            view == text_views(texts@),
            encode_text_items(view).len() <= CAPACITY,
            out@ == old(out)@ + spec_u32_to_le_bytes(texts.len() as u32) + encode_text_items(
                view.take(i as int),
            ),
        decreases texts.len() - i,
    {
        proof {
            assert(view.take(i as int + 1) =~= view.take(i as int).push(view[i as int]));
            lemma_text_items_push(view.take(i as int), view[i as int]);
            lemma_text_items_len(view, i as int + 1);
            lemma_text_len(view[i as int]);
        }
        put_text(out, &texts[i]);
        i += 1;
    }
    proof {
        assert(view.take(i as int) =~= view);
    }
}

/// Appends the encoding of a sequence of entries.
fn put_entries<T: Attributed>(out: &mut Vec<u8>, entries: &Vec<T>)
    requires
        encode_entries(entry_views(entries@)).len() <= CAPACITY,
    ensures
        final(out)@ == old(out)@ + encode_entries(entry_views(entries@)),
{
    let ghost view = entry_views(entries@);
    proof {
        lemma_auto_spec_u32_to_from_le_bytes();
        lemma_entry_items_len(view, 0);
        assert(view.take(0) =~= Seq::empty());
    }
    put_count(out, entries.len() as u32);
    let mut i: usize = 0;
    while i < entries.len()
        invariant
            i <= entries.len(),
            view == entry_views(entries@),
            encode_entry_items(view).len() <= CAPACITY,
            out@ == old(out)@ + spec_u32_to_le_bytes(entries.len() as u32) + encode_entry_items(
                view.take(i as int),
            ),
        decreases entries.len() - i,
    {
        proof {
            assert(view.take(i as int + 1) =~= view.take(i as int).push(view[i as int]));
            lemma_entry_items_push(view.take(i as int), view[i as int]);
            lemma_entry_items_len(view, i as int + 1);
            lemma_text_len(view[i as int].text);
        }
        put_key(out, entries[i].author());
        put_text(out, entries[i].text());
        i += 1;
    }
    proof {
        assert(view.take(i as int) =~= view);
    }
}

/// Encodes a record, or refuses it where it does not fit in the bytes
/// reserved for it.
pub fn encode(record: &Portfolio) -> (result: Result<Vec<u8>, ErrorCode>)
    ensures
        match result {
            Ok(bytes) => record@.within_capacity() && bytes@ == encode_record(record@),
            Err(code) => !record@.within_capacity() && code == ErrorCode::CapacityExceeded,
        },
{
    if !fits(record) {
        return Err(ErrorCode::CapacityExceeded);
    }
    proof {
        lemma_text_len(record@.bio);
        lemma_text_len(record@.image_url);
    }
    let mut out: Vec<u8> = Vec::new();
    put_key(&mut out, &record.owner);
    put_text(&mut out, &record.bio);
    put_texts(&mut out, &record.links);
    put_text(&mut out, &record.image_url);
    put_entries(&mut out, &record.vouches);
    put_entries(&mut out, &record.vouch_requests);
    put_entries(&mut out, &record.messages);
    let mut amount = u64_to_le_bytes(record.tip_amount);
    out.append(&mut amount);
    out.push(record.bump);
    proof {
        assert(out@ =~= encode_record(record@));
    }
    Ok(out)
}

} // verus!
