//! What holds of the operations and of the byte format, whatever the record.

use vstd::prelude::*;
use vstd::bytes::lemma_auto_spec_u64_to_from_le_bytes;
use crate::codec::lemma_entry_items_push;
use crate::format::{
    decode_record, encode_record, encode_entry, encode_entry_items, is_encoding, CAPACITY,
    TAG_LEN,
};
use crate::model::{
    count_by, first_by, is_first_by, lemma_first_by, lemma_first_by_none, store_execute,
    store_initialize, InstructionView, Records,
};
use crate::roundtrip::{lemma_parse_is_decode, lemma_record_complete};
use crate::state::{Entry, ErrorCode, Portfolio, PortfolioView};

verus! {

/// The bytes that a record may occupy and the tag before them are together
/// what is reserved for a storage slot.
pub proof fn law_capacity_is_the_reserved_length()
    ensures
        CAPACITY + TAG_LEN == Portfolio::LEN,
        Portfolio::LEN == 661,
{
}

/// Decoding gives back the record that was encoded, for every well-formed
/// record that fits in the reserved bytes.
pub proof fn law_round_trip(record: PortfolioView)
    requires
        record.well_formed(),
        record.within_capacity(),
    ensures
        decode_record(encode_record(record)) == Some(record),
{
    lemma_record_complete(record);
    lemma_parse_is_decode(encode_record(record));
}

/// No two records share their stored bytes.
pub proof fn law_encoding_is_unique(bytes: Seq<u8>, first: PortfolioView, second: PortfolioView)
    requires
        is_encoding(bytes, first),
        is_encoding(bytes, second),
    ensures
        first == second,
{
    law_round_trip(first);
    law_round_trip(second);
}

/// An operation reserved to the owner, invoked by anyone else, is refused
/// as unauthorized and leaves the record, and so its stored bytes, as they were.
pub proof fn law_strangers_are_refused(
    record: PortfolioView,
    stranger: Seq<u8>,
    instruction: InstructionView,
)
    requires
        instruction.owner_restricted(),
        stranger != record.owner,
    ensures
        record.apply(stranger, instruction).result == Err::<(), ErrorCode>(
            ErrorCode::Unauthorized,
        ),
        record.apply(stranger, instruction).record == record,
        encode_record(record.apply(stranger, instruction).record) == encode_record(record),
{
}

/// An operation that is refused, for whatever reason, leaves the record as
/// it was.
pub proof fn law_refusal_changes_nothing(
    record: PortfolioView,
    authority: Seq<u8>,
    instruction: InstructionView,
)
    requires
        record.apply(authority, instruction).result is Err,
    ensures
        record.apply(authority, instruction).record == record,
{
}

/// No operation changes the owner or the bump of a record.
pub proof fn law_owner_and_bump_are_fixed(
    record: PortfolioView,
    authority: Seq<u8>,
    instruction: InstructionView,
)
    ensures
        record.apply(authority, instruction).record.owner == record.owner,
        record.apply(authority, instruction).record.bump == record.bump,
{
}

/// Approving an identity that has no request pending succeeds and changes
/// nothing.
pub proof fn law_approve_without_request(record: PortfolioView, requester: Seq<u8>)
    requires
        forall|j: int|
            0 <= j < record.vouch_requests.len() ==> (#[trigger] record.vouch_requests[j]).author
                != requester,
    ensures
        record.approve_vouch(record.owner, requester).result == Ok::<(), ErrorCode>(()),
        record.approve_vouch(record.owner, requester).record == record,
{
    lemma_first_by_none(record.vouch_requests, requester);
}

/// An entry appended to a sequence counts for its author and for nobody else.
pub proof fn lemma_count_push(entries: Seq<Entry>, entry: Entry, author: Seq<u8>)
    ensures
        count_by(entries.push(entry), author) == count_by(entries, author) + if entry.author
            == author {
            1nat
        } else {
            0nat
        },
{
    assert(entries.push(entry).drop_last() =~= entries);
}

/// An entry taken out of a sequence no longer counts for its author.
pub proof fn lemma_count_remove(entries: Seq<Entry>, index: int, author: Seq<u8>)
    requires
        0 <= index < entries.len(),
    ensures
        count_by(entries, author) == count_by(entries.remove(index), author) + if entries[index]
            .author == author {
            1nat
        } else {
            0nat
        },
    decreases entries.len(),
{
    if index == entries.len() - 1 {
        assert(entries.remove(index) =~= entries.drop_last());
    } else {
        lemma_count_remove(entries.drop_last(), index, author);
        assert(entries.remove(index).drop_last() =~= entries.drop_last().remove(index));
        assert(entries.remove(index).last() == entries.last());
    }
}

/// An entry taken out of a sequence takes its bytes with it.
pub proof fn lemma_entry_items_remove(entries: Seq<Entry>, index: int)
    requires
        0 <= index < entries.len(),
    ensures
        encode_entry_items(entries).len() == encode_entry_items(entries.remove(index)).len()
            + encode_entry(entries[index]).len(),
    decreases entries.len(),
{
    if index == entries.len() - 1 {
        assert(entries.remove(index) =~= entries.drop_last());
    } else {
        lemma_entry_items_remove(entries.drop_last(), index);
        assert(entries.remove(index).drop_last() =~= entries.drop_last().remove(index));
        assert(entries.remove(index).last() == entries.last());
    }
}

/// Approving a request moves bytes from one sequence to the other: the
/// record's encoding keeps its length.
pub proof fn lemma_approved_len(record: PortfolioView, requester: Seq<u8>)
    ensures
        record.approved(requester).encoded_len() == record.encoded_len(),
{
    match first_by(record.vouch_requests, requester) {
        Some(index) => {
            assert(is_first_by(record.vouch_requests, requester, index));
            lemma_entry_items_remove(record.vouch_requests, index);
            lemma_entry_items_push(record.vouches, record.vouch_requests[index]);
            vstd::bytes::lemma_auto_spec_u32_to_from_le_bytes();
        },
        None => {},
    }
}

/// A request that was filed and then approved: the owner's approval
/// succeeds, the requester has one endorsement more than before and one
/// pending request fewer than after filing, and the request that left is the
/// requester's first pending one.
pub proof fn law_request_then_approve(record: PortfolioView, request: Entry)
    requires
        record.request_vouch(request).result is Ok,
    ensures
        ({
            let requester = request.author;
            let filed = record.request_vouch(request).record;
            let approval = filed.approve_vouch(record.owner, requester);
            &&& approval.result == Ok::<(), ErrorCode>(())
            &&& count_by(approval.record.vouches, requester) == count_by(record.vouches, requester)
                + 1
            &&& count_by(approval.record.vouch_requests, requester) + 1 == count_by(
                filed.vouch_requests,
                requester,
            )
            &&& approval.record.vouches.len() == record.vouches.len() + 1
            &&& approval.record.vouch_requests.len() + 1 == filed.vouch_requests.len()
            &&& exists|index: int|
                {
                    &&& #[trigger] is_first_by(filed.vouch_requests, requester, index)
                    &&& approval.record.vouch_requests == filed.vouch_requests.remove(index)
                    &&& approval.record.vouches == record.vouches.push(
                        filed.vouch_requests[index],
                    )
                }
        }),
{
    let requester = request.author;
    let filed = record.request_vouch(request).record;
    let requests = filed.vouch_requests;
    assert(requests == record.vouch_requests.push(request));
    let index = lemma_some_first(requests, requester, requests.len() - 1);
    lemma_first_by(requests, requester, index);
    lemma_count_remove(requests, index, requester);
    lemma_count_push(record.vouches, requests[index], requester);
}

/// Where some entry names `author`, one of them is the first.
pub proof fn lemma_some_first(entries: Seq<Entry>, author: Seq<u8>, at: int) -> (index: int)
    requires
        0 <= at < entries.len(),
        entries[at].author == author,
    ensures
        is_first_by(entries, author, index),
        index <= at,
    decreases at,
{
    if exists|j: int| 0 <= j < at && (#[trigger] entries[j]).author == author {
        let j = choose|j: int| 0 <= j < at && (#[trigger] entries[j]).author == author;
        lemma_some_first(entries, author, j)
    } else {
        at
    }
}

/// A record that fits in the reserved bytes still fits after any operation.
pub proof fn law_capacity_is_kept(
    record: PortfolioView,
    authority: Seq<u8>,
    instruction: InstructionView,
)
    requires
        record.within_capacity(),
    ensures
        record.apply(authority, instruction).record.within_capacity(),
{
    match instruction {
        InstructionView::ApproveVouch { vouch_user } => {
            lemma_approved_len(record, vouch_user);
        },
        InstructionView::Tip { amount } => {
            lemma_auto_spec_u64_to_from_le_bytes();
        },
        _ => {},
    }
}

/// The arguments of an operation name identities of 32 bytes.
pub open spec fn well_formed_call(authority: Seq<u8>, instruction: InstructionView) -> bool {
    &&& authority.len() == 32
    &&& instruction matches InstructionView::RequestVouch { vouch } ==> vouch.author.len() == 32
}

/// A well-formed record is still well-formed after any operation.
pub proof fn law_well_formed_is_kept(
    record: PortfolioView,
    authority: Seq<u8>,
    instruction: InstructionView,
)
    requires
        record.well_formed(),
        well_formed_call(authority, instruction),
    ensures
        record.apply(authority, instruction).record.well_formed(),
{
    match instruction {
        InstructionView::ApproveVouch { vouch_user } => {
            match first_by(record.vouch_requests, vouch_user) {
                Some(index) => {
                    assert(is_first_by(record.vouch_requests, vouch_user, index));
                },
                None => {},
            }
        },
        _ => {},
    }
}

/// A new record is well-formed and takes 65 of the reserved bytes.
pub proof fn law_created_record_fits(owner: Seq<u8>, bump: u8)
    requires
        owner.len() == 32,
    ensures
        PortfolioView::created(owner, bump).well_formed(),
        PortfolioView::created(owner, bump).encoded_len() == 65,
        PortfolioView::created(owner, bump).within_capacity(),
{
    vstd::bytes::lemma_auto_spec_u32_to_from_le_bytes();
    lemma_auto_spec_u64_to_from_le_bytes();
    vstd::utf8::encode_utf8_valid_utf8(Seq::<char>::empty());
    assert(vstd::utf8::encode_utf8(Seq::<char>::empty()).len() == 0);
}

/// Tips add up: the counter grows by the amount tipped, as long as the sum
/// stays below the largest 64-bit value, and starts again from zero beyond it.
pub proof fn law_tips_add_up(record: PortfolioView, amount: u64)
    ensures
        record.tip(amount).result == Ok::<(), ErrorCode>(()),
        record.tip_amount + amount <= u64::MAX ==> record.tip(amount).record.tip_amount
            == record.tip_amount + amount,
        record.tip_amount + amount > u64::MAX ==> record.tip(amount).record.tip_amount
            == record.tip_amount + amount - 0x1_0000_0000_0000_0000,
{
}

/// A record is created once: after `initialize` was invoked for an owner,
/// whether it succeeded or not, invoking it again for the same owner is
/// refused and changes nothing.
pub proof fn law_initialize_only_once(records: Records, creator: Seq<u8>, bump: u8, again: u8)
    ensures
        ({
            let first = store_initialize(records, creator, bump);
            let second = store_initialize(first.records, creator, again);
            &&& second.result == Err::<(), ErrorCode>(ErrorCode::AlreadyExists)
            &&& second.records == first.records
            &&& first.result is Ok ==> first.records[creator] == PortfolioView::created(
                creator,
                bump,
            )
        }),
{
}

/// In a store, an operation reserved to the owner and invoked by anyone
/// else is refused as unauthorized, and every record stays as it was.
pub proof fn law_store_refuses_strangers(
    records: Records,
    owner: Seq<u8>,
    stranger: Seq<u8>,
    instruction: InstructionView,
)
    requires
        records.contains_key(owner),
        records[owner].owner == owner,
        instruction.owner_restricted(),
        stranger != owner,
    ensures
        store_execute(records, owner, stranger, instruction).result == Err::<(), ErrorCode>(
            ErrorCode::Unauthorized,
        ),
        store_execute(records, owner, stranger, instruction).records == records,
{
    law_strangers_are_refused(records[owner], stranger, instruction);
    assert(records.insert(owner, records[owner]) =~= records);
}

/// An operation on one owner's record creates no record, removes none, and
/// leaves the records of all other owners as they were.
pub proof fn law_store_touches_one_record(
    records: Records,
    owner: Seq<u8>,
    authority: Seq<u8>,
    instruction: InstructionView,
    other: Seq<u8>,
)
    ensures
        store_execute(records, owner, authority, instruction).records.dom() == records.dom(),
        other != owner && records.contains_key(other) ==> store_execute(
            records,
            owner,
            authority,
            instruction,
        ).records[other] == records[other],
{
    assert(store_execute(records, owner, authority, instruction).records.dom()
        =~= records.dom());
}

} // verus!
