//! Why decoding is the inverse of encoding: every parser reads back exactly
//! what the matching encoder wrote, and accepts nothing else.

use vstd::prelude::*;
use vstd::bytes::{
    lemma_auto_spec_u32_to_from_le_bytes, lemma_auto_spec_u64_to_from_le_bytes,
    spec_u32_to_le_bytes, spec_u64_to_le_bytes,
};
use vstd::utf8::{
    decode_utf8, decode_utf8_encode_utf8, encode_utf8, encode_utf8_decode_utf8,
    encode_utf8_valid_utf8,
};
use crate::codec::{lemma_entry_items_len, lemma_text_items_len, lemma_text_len};
use crate::decode::{
    parse_amount, parse_count, parse_head, parse_key, parse_lists, parse_record, parse_entry,
    parse_entry_items, parse_entries, parse_text, parse_text_items, parse_texts,
};
use crate::format::{
    decode_record, encode_record, encode_entry, encode_entry_items, encode_entries,
    encode_text, encode_text_items, encode_texts, is_encoding, authors_are_keys,
};
use crate::state::{Entry, PortfolioView};

verus! {

/// `whole` holds `piece` from position `at` on.
pub(crate) open spec fn holds_at(whole: Seq<u8>, at: int, piece: Seq<u8>) -> bool {
    &&& 0 <= at
    &&& at + piece.len() <= whole.len()
    &&& whole.subrange(at, at + piece.len()) == piece
}

/// Where bytes hold a longer piece, they hold its parts.
proof fn lemma_holds_parts(whole: Seq<u8>, at: int, first: Seq<u8>, second: Seq<u8>)
    requires
        holds_at(whole, at, first + second),
    ensures
        holds_at(whole, at, first),
        holds_at(whole, at + first.len(), second),
{
    let piece = first + second;
    assert(whole.subrange(at, at + first.len()) =~= piece.subrange(0, first.len() as int));
    assert(piece.subrange(0, first.len() as int) =~= first);
    assert(whole.subrange(at + first.len(), at + first.len() + second.len()) =~= piece.subrange(
        first.len() as int,
        piece.len() as int,
    ));
    assert(piece.subrange(first.len() as int, piece.len() as int) =~= second);
}

/// Where bytes hold two pieces one after the other, they hold both as one.
proof fn lemma_holds_joined(whole: Seq<u8>, at: int, first: Seq<u8>, second: Seq<u8>)
    requires
        holds_at(whole, at, first),
        holds_at(whole, at + first.len(), second),
    ensures
        holds_at(whole, at, first + second),
{
    let piece = first + second;
    assert(whole.subrange(at, at + piece.len()) =~= whole.subrange(at, at + first.len())
        + whole.subrange(at + first.len(), at + first.len() + second.len()));
}

/// A count that was written is read back.
proof fn lemma_count_complete(bytes: Seq<u8>, at: int, count: u32)
    requires
        holds_at(bytes, at, spec_u32_to_le_bytes(count)),
    ensures
        parse_count(bytes, at) == Some((count, at + 4)),
{
    lemma_auto_spec_u32_to_from_le_bytes();
}

/// A count that was read stands in the bytes as written.
proof fn lemma_count_sound(bytes: Seq<u8>, at: int)
    requires
        parse_count(bytes, at) is Some,
    ensures
        parse_count(bytes, at) matches Some((count, end)) && end == at + 4 && holds_at(
            bytes,
            at,
            spec_u32_to_le_bytes(count),
        ),
{
    lemma_auto_spec_u32_to_from_le_bytes();
}

/// A text that was written is read back.
proof fn lemma_text_complete(bytes: Seq<u8>, at: int, text: Seq<char>)
    requires
        encode_utf8(text).len() <= u32::MAX,
        holds_at(bytes, at, encode_text(text)),
    ensures
        parse_text(bytes, at) == Some((text, at + encode_text(text).len())),
{
    let count = encode_utf8(text).len() as u32;
    lemma_auto_spec_u32_to_from_le_bytes();
    lemma_holds_parts(bytes, at, spec_u32_to_le_bytes(count), encode_utf8(text));
    lemma_count_complete(bytes, at, count);
    encode_utf8_valid_utf8(text);
    encode_utf8_decode_utf8(text);
}

/// A text that was read stands in the bytes as written.
proof fn lemma_text_sound(bytes: Seq<u8>, at: int)
    requires
        parse_text(bytes, at) is Some,
    ensures
        parse_text(bytes, at) matches Some((text, end)) && end == at + encode_text(text).len()
            && encode_utf8(text).len() <= u32::MAX && holds_at(bytes, at, encode_text(text)),
{
    lemma_count_sound(bytes, at);
    lemma_auto_spec_u32_to_from_le_bytes();
    let (count, start) = parse_count(bytes, at)->0;
    let raw = bytes.subrange(start, start + count);
    decode_utf8_encode_utf8(raw);
    let text = decode_utf8(raw);
    assert(encode_utf8(text) == raw);
    assert(holds_at(bytes, start, raw));
    lemma_holds_joined(bytes, at, spec_u32_to_le_bytes(count), raw);
}

/// Texts that were written one after the other are read back.
proof fn lemma_text_items_complete(bytes: Seq<u8>, at: int, texts: Seq<Seq<char>>)
    requires
        encode_text_items(texts).len() <= u32::MAX,
        holds_at(bytes, at, encode_text_items(texts)),
    ensures
        parse_text_items(bytes, at, texts.len()) == Some(
            (texts, at + encode_text_items(texts).len()),
        ),
    decreases texts.len(),
{
    if texts.len() > 0 {
        let front = texts.drop_last();
        let last = texts.last();
        lemma_holds_parts(bytes, at, encode_text_items(front), encode_text(last));
        lemma_text_len(last);
        lemma_text_items_complete(bytes, at, front);
        lemma_text_complete(bytes, at + encode_text_items(front).len(), last);
        assert(front.push(last) =~= texts);
    }
}

/// Texts that were read one after the other stand in the bytes as written.
proof fn lemma_text_items_sound(bytes: Seq<u8>, at: int, count: nat)
    requires
        0 <= at <= bytes.len(),
        parse_text_items(bytes, at, count) is Some,
    ensures
        parse_text_items(bytes, at, count) matches Some((texts, end)) && texts.len() == count
            && end == at + encode_text_items(texts).len() && holds_at(
            bytes,
            at,
            encode_text_items(texts),
        ),
    decreases count,
{
    if count > 0 {
        lemma_text_items_sound(bytes, at, (count - 1) as nat);
        let (front, middle) = parse_text_items(bytes, at, (count - 1) as nat)->0;
        lemma_text_sound(bytes, middle);
        let (text, end) = parse_text(bytes, middle)->0;
        assert(front.push(text).drop_last() =~= front);
        lemma_holds_joined(bytes, at, encode_text_items(front), encode_text(text));
    } else {
        assert(bytes.subrange(at, at) =~= Seq::<u8>::empty());
    }
}

/// A sequence of texts that was written is read back.
proof fn lemma_texts_complete(bytes: Seq<u8>, at: int, texts: Seq<Seq<char>>)
    requires
        encode_texts(texts).len() <= u32::MAX,
        holds_at(bytes, at, encode_texts(texts)),
    ensures
        parse_texts(bytes, at) == Some((texts, at + encode_texts(texts).len())),
{
    lemma_auto_spec_u32_to_from_le_bytes();
    lemma_text_items_len(texts, 0);
    let count = texts.len() as u32;
    lemma_holds_parts(bytes, at, spec_u32_to_le_bytes(count), encode_text_items(texts));
    lemma_count_complete(bytes, at, count);
    lemma_text_items_complete(bytes, at + 4, texts);
}

/// A sequence of texts that was read stands in the bytes as written.
proof fn lemma_texts_sound(bytes: Seq<u8>, at: int)
    requires
        parse_texts(bytes, at) is Some,
    ensures
        parse_texts(bytes, at) matches Some((texts, end)) && end == at + encode_texts(texts).len()
            && holds_at(bytes, at, encode_texts(texts)),
{
    lemma_auto_spec_u32_to_from_le_bytes();
    lemma_count_sound(bytes, at);
    let (count, start) = parse_count(bytes, at)->0;
    lemma_text_items_sound(bytes, start, count as nat);
    let (texts, end) = parse_text_items(bytes, start, count as nat)->0;
    lemma_holds_joined(bytes, at, spec_u32_to_le_bytes(count), encode_text_items(texts));
}

/// An entry that was written is read back.
proof fn lemma_entry_complete(bytes: Seq<u8>, at: int, entry: Entry)
    requires
        entry.author.len() == 32,
        encode_utf8(entry.text).len() <= u32::MAX,
        holds_at(bytes, at, encode_entry(entry)),
    ensures
        parse_entry(bytes, at) == Some((entry, at + encode_entry(entry).len())),
{
    lemma_holds_parts(bytes, at, entry.author, encode_text(entry.text));
    lemma_text_complete(bytes, at + 32, entry.text);
}

/// An entry that was read stands in the bytes as written.
proof fn lemma_entry_sound(bytes: Seq<u8>, at: int)
    requires
        parse_entry(bytes, at) is Some,
    ensures
        parse_entry(bytes, at) matches Some((entry, end)) && end == at + encode_entry(
            entry,
        ).len() && entry.author.len() == 32 && holds_at(bytes, at, encode_entry(entry)),
{
    let (author, start) = parse_key(bytes, at)->0;
    lemma_text_sound(bytes, start);
    let (text, end) = parse_text(bytes, start)->0;
    assert(holds_at(bytes, at, author));
    lemma_holds_joined(bytes, at, author, encode_text(text));
}

/// Attributed texts that were written one after the other are read back.
proof fn lemma_entry_items_complete(bytes: Seq<u8>, at: int, entries: Seq<Entry>)
    requires
        authors_are_keys(entries),
        encode_entry_items(entries).len() <= u32::MAX,
        holds_at(bytes, at, encode_entry_items(entries)),
    ensures
        parse_entry_items(bytes, at, entries.len()) == Some(
            (entries, at + encode_entry_items(entries).len()),
        ),
    decreases entries.len(),
{
    if entries.len() > 0 {
        let front = entries.drop_last();
        let last = entries.last();
        lemma_holds_parts(bytes, at, encode_entry_items(front), encode_entry(last));
        lemma_text_len(last.text);
        assert(authors_are_keys(front)) by {
            assert forall|i: int| 0 <= i < front.len() implies (#[trigger] front[i]).author.len()
                == 32 by {
                assert(front[i] == entries[i]);
            }
        }
        lemma_entry_items_complete(bytes, at, front);
        lemma_entry_complete(bytes, at + encode_entry_items(front).len(), last);
        assert(front.push(last) =~= entries);
    }
}

/// Attributed texts that were read one after the other stand in the bytes as written.
proof fn lemma_entry_items_sound(bytes: Seq<u8>, at: int, count: nat)
    requires
        0 <= at <= bytes.len(),
        parse_entry_items(bytes, at, count) is Some,
    ensures
        parse_entry_items(bytes, at, count) matches Some((entries, end)) && entries.len()
            == count && authors_are_keys(entries) && end == at + encode_entry_items(
            entries,
        ).len() && holds_at(bytes, at, encode_entry_items(entries)),
    decreases count,
{
    if count > 0 {
        lemma_entry_items_sound(bytes, at, (count - 1) as nat);
        let (front, middle) = parse_entry_items(bytes, at, (count - 1) as nat)->0;
        lemma_entry_sound(bytes, middle);
        let (entry, end) = parse_entry(bytes, middle)->0;
        assert(front.push(entry).drop_last() =~= front);
        lemma_holds_joined(bytes, at, encode_entry_items(front), encode_entry(entry));
    } else {
        assert(bytes.subrange(at, at) =~= Seq::<u8>::empty());
    }
}

/// A sequence of entries that was written is read back.
proof fn lemma_entries_complete(bytes: Seq<u8>, at: int, entries: Seq<Entry>)
    requires
        authors_are_keys(entries),
        encode_entries(entries).len() <= u32::MAX,
        holds_at(bytes, at, encode_entries(entries)),
    ensures
        parse_entries(bytes, at) == Some((entries, at + encode_entries(entries).len())),
{
    lemma_auto_spec_u32_to_from_le_bytes();
    lemma_entry_items_len(entries, 0);
    let count = entries.len() as u32;
    lemma_holds_parts(bytes, at, spec_u32_to_le_bytes(count), encode_entry_items(entries));
    lemma_count_complete(bytes, at, count);
    lemma_entry_items_complete(bytes, at + 4, entries);
}

/// A sequence of entries that was read stands in the bytes as written.
proof fn lemma_entries_sound(bytes: Seq<u8>, at: int)
    requires
        parse_entries(bytes, at) is Some,
    ensures
        parse_entries(bytes, at) matches Some((entries, end)) && authors_are_keys(entries)
            && end == at + encode_entries(entries).len() && holds_at(
            bytes,
            at,
            encode_entries(entries),
        ),
{
    lemma_auto_spec_u32_to_from_le_bytes();
    lemma_count_sound(bytes, at);
    let (count, start) = parse_count(bytes, at)->0;
    lemma_entry_items_sound(bytes, start, count as nat);
    let (entries, end) = parse_entry_items(bytes, start, count as nat)->0;
    lemma_holds_joined(bytes, at, spec_u32_to_le_bytes(count), encode_entry_items(entries));
}

/// The record that was encoded is the one that is parsed from the bytes.
#[verifier::rlimit(60)]
#[verifier::spinoff_prover]
pub(crate) proof fn lemma_record_complete(record: PortfolioView)
    requires
        record.well_formed(),
        record.within_capacity(),
    ensures
        parse_record(encode_record(record)) == Some(record),
{
    lemma_auto_spec_u64_to_from_le_bytes();
    let bytes = encode_record(record);
    let owner = record.owner;
    let bio = encode_text(record.bio);
    let links = encode_texts(record.links);
    let image = encode_text(record.image_url);
    let vouches = encode_entries(record.vouches);
    let requests = encode_entries(record.vouch_requests);
    let messages = encode_entries(record.messages);
    let amount = spec_u64_to_le_bytes(record.tip_amount);
    let last = seq![record.bump];
    let x1 = owner + bio;
    let x2 = x1 + links;
    let x3 = x2 + image;
    let x4 = x3 + vouches;
    let x5 = x4 + requests;
    let x6 = x5 + messages;
    let x7 = x6 + amount;
    assert(bytes == x7 + last);
    assert(bytes.subrange(0, bytes.len() as int) =~= bytes);
    lemma_holds_parts(bytes, 0, x7, last);
    lemma_holds_parts(bytes, 0, x6, amount);
    lemma_holds_parts(bytes, 0, x5, messages);
    lemma_holds_parts(bytes, 0, x4, requests);
    lemma_holds_parts(bytes, 0, x3, vouches);
    lemma_holds_parts(bytes, 0, x2, image);
    lemma_holds_parts(bytes, 0, x1, links);
    lemma_holds_parts(bytes, 0, owner, bio);
    lemma_text_len(record.bio);
    lemma_text_len(record.image_url);
    assert(parse_key(bytes, 0) == Some((owner, 32int)));
    lemma_text_complete(bytes, 32, record.bio);
    lemma_texts_complete(bytes, x1.len() as int, record.links);
    lemma_text_complete(bytes, x2.len() as int, record.image_url);
    assert(parse_head(bytes) == Some(
        (owner, record.bio, record.links, record.image_url, x3.len() as int),
    ));
    lemma_entries_complete(bytes, x3.len() as int, record.vouches);
    lemma_entries_complete(bytes, x4.len() as int, record.vouch_requests);
    lemma_entries_complete(bytes, x5.len() as int, record.messages);
    assert(parse_lists(bytes, x3.len() as int) == Some(
        (record.vouches, record.vouch_requests, record.messages, x6.len() as int),
    ));
    assert(parse_amount(bytes, x6.len() as int) == Some((record.tip_amount, x7.len() as int)));
    assert(bytes[x7.len() as int] == record.bump) by {
        assert(bytes.subrange(x7.len() as int, x7.len() as int + 1)[0] == last[0]);
    }
}

/// The bytes from which a record was parsed are the record's encoding.
#[verifier::rlimit(60)]
#[verifier::spinoff_prover]
pub(crate) proof fn lemma_record_sound(bytes: Seq<u8>)
    requires
        parse_record(bytes) is Some,
    ensures
        parse_record(bytes) matches Some(record) && record.well_formed()
            && record.within_capacity() && encode_record(record) == bytes,
{
    lemma_auto_spec_u64_to_from_le_bytes();
    let record = parse_record(bytes)->0;
    let (owner, p1) = parse_key(bytes, 0)->0;
    lemma_text_sound(bytes, p1);
    let (_, p2) = parse_text(bytes, p1)->0;
    lemma_texts_sound(bytes, p2);
    let (_, p3) = parse_texts(bytes, p2)->0;
    lemma_text_sound(bytes, p3);
    let (_, p4) = parse_text(bytes, p3)->0;
    lemma_entries_sound(bytes, p4);
    let (_, p5) = parse_entries(bytes, p4)->0;
    lemma_entries_sound(bytes, p5);
    let (_, p6) = parse_entries(bytes, p5)->0;
    lemma_entries_sound(bytes, p6);
    let (_, p7) = parse_entries(bytes, p6)->0;
    let bio = encode_text(record.bio);
    let links = encode_texts(record.links);
    let image = encode_text(record.image_url);
    let vouches = encode_entries(record.vouches);
    let requests = encode_entries(record.vouch_requests);
    let messages = encode_entries(record.messages);
    let amount = spec_u64_to_le_bytes(record.tip_amount);
    let last = seq![record.bump];
    let x1 = owner + bio;
    let x2 = x1 + links;
    let x3 = x2 + image;
    let x4 = x3 + vouches;
    let x5 = x4 + requests;
    let x6 = x5 + messages;
    let x7 = x6 + amount;
    assert(holds_at(bytes, 0, owner));
    lemma_holds_joined(bytes, 0, owner, bio);
    lemma_holds_joined(bytes, 0, x1, links);
    lemma_holds_joined(bytes, 0, x2, image);
    lemma_holds_joined(bytes, 0, x3, vouches);
    lemma_holds_joined(bytes, 0, x4, requests);
    lemma_holds_joined(bytes, 0, x5, messages);
    assert(holds_at(bytes, p7, amount));
    lemma_holds_joined(bytes, 0, x6, amount);
    assert(holds_at(bytes, p7 + 8, last)) by {
        assert(bytes.subrange(p7 + 8, p7 + 9) =~= last);
    }
    lemma_holds_joined(bytes, 0, x7, last);
    assert(bytes.subrange(0, bytes.len() as int) =~= bytes);
}

/// Parsing field by field finds exactly the record that the bytes store.
pub(crate) proof fn lemma_parse_is_decode(bytes: Seq<u8>)
    ensures
        parse_record(bytes) == decode_record(bytes),
{
    if parse_record(bytes) is Some {
        lemma_record_sound(bytes);
        let parsed = parse_record(bytes)->0;
        assert(is_encoding(bytes, parsed));
        let chosen = choose|record: PortfolioView| is_encoding(bytes, record);
        lemma_record_complete(chosen);
    } else {
        if exists|record: PortfolioView| is_encoding(bytes, record) {
            let chosen = choose|record: PortfolioView| is_encoding(bytes, record);
            lemma_record_complete(chosen);
        }
    }
}

} // verus!
