//! The store: one record per owner, kept as its encoded bytes.

use vstd::prelude::*;
use vstd::slice::slice_to_vec;
use crate::codec::{encode, lemma_record_well_formed};
use crate::decode::decode;
use crate::format::{decode_record, encode_record};
use crate::identity::Pubkey;
use crate::instructions::{process, Instruction};
use crate::laws::{
    law_capacity_is_kept, law_created_record_fits, law_owner_and_bump_are_fixed, law_round_trip,
};
use crate::model::{store_commit, store_execute, store_initialize};
use crate::state::{ErrorCode, Portfolio, PortfolioView};

verus! {

/// The place of one record in the store: its owner, and the record's bytes.
pub struct Slot {
    owner: Pubkey,
    data: Vec<u8>,
}

/// A keyed store of records, at most one for each owner.
pub struct Store {
    slots: Vec<Slot>,
}

impl Slot {
    /// The slot holds the bytes of a record that belongs to the slot's owner.
    pub closed spec fn well_formed(self) -> bool {
        decode_record(self.data@) matches Some(record) && record.owner == self.owner@
    }

    /// The record that the slot holds.
    pub closed spec fn record(self) -> PortfolioView {
        decode_record(self.data@)->0
    }
}

impl Store {
    /// Some slot belongs to `owner`.
    pub closed spec fn has(self, owner: Seq<u8>) -> bool {
        exists|i: int| 0 <= i < self.slots@.len() && (#[trigger] self.slots@[i]).owner@ == owner
    }

    /// Position of a slot that belongs to `owner`.
    pub closed spec fn place(self, owner: Seq<u8>) -> int {
        choose|i: int| 0 <= i < self.slots@.len() && (#[trigger] self.slots@[i]).owner@ == owner
    }

    /// Every slot is well-formed, and no two slots belong to one owner.
    pub closed spec fn well_formed(self) -> bool {
        &&& forall|i: int| 0 <= i < self.slots@.len() ==> (#[trigger] self.slots@[i]).well_formed()
        &&& forall|i: int, j: int|
            0 <= i < j < self.slots@.len() ==> (#[trigger] self.slots@[i]).owner@
                != (#[trigger] self.slots@[j]).owner@
    }

    /// A store without records.
    pub fn new() -> (store: Store)
        ensures
            store.well_formed(),
            store@ == Map::<Seq<u8>, PortfolioView>::empty(),
    {
        let store = Store { slots: Vec::new() };
        assert(store@ =~= Map::<Seq<u8>, PortfolioView>::empty());
        store
    }

    /// The slot at `index` is the one that the view shows for its owner.
    proof fn lemma_slot(self, index: int)
        requires
            self.well_formed(),
            0 <= index < self.slots@.len(),
        ensures
            self@.contains_key(self.slots@[index].owner@),
            self@[self.slots@[index].owner@] == self.slots@[index].record(),
            self.place(self.slots@[index].owner@) == index,
    {
        let owner = self.slots@[index].owner@;
        assert(self.has(owner));
        let chosen = self.place(owner);
        assert(0 <= chosen < self.slots@.len() && self.slots@[chosen].owner@ == owner);
        if chosen < index {
            assert(self.slots@[chosen].owner@ != self.slots@[index].owner@);
        } else if index < chosen {
            assert(self.slots@[index].owner@ != self.slots@[chosen].owner@);
        }
    }

    /// Every record in the store belongs to the owner it is kept for, and
    /// fits in the reserved bytes.
    pub proof fn lemma_stored(self, owner: Seq<u8>)
        requires
            self.well_formed(),
            self@.contains_key(owner),
        ensures
            self@[owner].owner == owner,
            self@[owner].well_formed(),
            self@[owner].within_capacity(),
    {
        let index = self.place(owner);
        assert(self.has(owner));
        assert(self.slots@[index].well_formed());
    }

    /// Position of the slot that belongs to `owner`.
    fn find(&self, owner: &Pubkey) -> (found: Option<usize>)
        requires
            self.well_formed(),
        ensures
            match found {
                Some(index) => index < self.slots@.len() && self.slots@[index as int].owner@
                    == owner@ && self@.contains_key(owner@),
                None => !self@.contains_key(owner@),
            },
    {
        let mut index: usize = 0;
        while index < self.slots.len()
            invariant
                self.well_formed(),
                index <= self.slots@.len(),
                forall|j: int| 0 <= j < index ==> (#[trigger] self.slots@[j]).owner@ != owner@,
            decreases self.slots@.len() - index,
        {
            if self.slots[index].owner.same(owner) {
                proof {
                    self.lemma_slot(index as int);
                }
                return Some(index);
            }
            index += 1;
        }
        None
    }

    /// Whether a record has been created for `owner`.
    pub fn contains(&self, owner: &Pubkey) -> (present: bool)
        requires
            self.well_formed(),
        ensures
            present == self@.contains_key(owner@),
    {
        self.find(owner).is_some()
    }

    /// The record of `owner`, read from its stored bytes.
    pub fn load(&self, owner: &Pubkey) -> (found: Option<Portfolio>)
        requires
            self.well_formed(),
        ensures
            match found {
                Some(record) => self@.contains_key(owner@) && record@ == self@[owner@],
                None => !self@.contains_key(owner@),
            },
    {
        match self.find(owner) {
            Some(index) => {
                proof {
                    self.lemma_slot(index as int);
                }
                decode(self.slots[index].data.as_slice())
            },
            None => None,
        }
    }

    /// Creates the record of `creator` with the given bump and nothing else
    /// in it. Where `creator` has a record already, the call is refused and
    /// the record stays as it is.
    pub fn initialize(&mut self, creator: Pubkey, bump: u8) -> (result: Result<(), ErrorCode>)
        requires
            old(self).well_formed(),
        ensures
            final(self).well_formed(),
            final(self)@ == store_initialize(old(self)@, creator@, bump).records,
            result == store_initialize(old(self)@, creator@, bump).result,
    {
        if self.contains(&creator) {
            return Err(ErrorCode::AlreadyExists);
        }
        let record = Portfolio::new(creator, bump);
        proof {
            assert(creator.bytes@.len() == 32);
            law_created_record_fits(creator@, bump);
            law_round_trip(record@);
        }
        match encode(&record) {
            Ok(data) => {
                let slot = Slot { owner: creator, data };
                let ghost before = *self;
                self.slots.push(slot);
                proof {
                    lemma_pushed(before, *self, slot);
                }
                Ok(())
            },
            Err(code) => Err(code),
        }
    }

    /// Writes a record back as its encoded bytes. The call is refused, and
    /// the store stays as it is, where the record's owner has none in the
    /// store or the record does not fit in the reserved bytes.
    pub fn commit(&mut self, record: &Portfolio) -> (result: Result<(), ErrorCode>)
        requires
            old(self).well_formed(),
        ensures
            final(self).well_formed(),
            final(self)@ == store_commit(old(self)@, record@).records,
            result == store_commit(old(self)@, record@).result,
    {
        let index = match self.find(&record.owner) {
            Some(index) => index,
            None => { return Err(ErrorCode::NotFound); },
        };
        match encode(record) {
            Ok(data) => {
                proof {
                    lemma_record_well_formed(*record);
                    law_round_trip(record@);
                }
                let slot = Slot { owner: record.owner, data };
                let ghost before = *self;
                self.slots.set(index, slot);
                proof {
                    lemma_replaced(before, *self, index as int, slot);
                }
                Ok(())
            },
            Err(code) => Err(code),
        }
    }

    /// Invokes an operation on the record of `owner`, as `authority`: the
    /// record is read from its bytes, changed, and written back. Where the
    /// operation is refused, or `owner` has no record, the store stays as it is.
    pub fn execute(
        &mut self,
        owner: &Pubkey,
        authority: Pubkey,
        instruction: Instruction,
    ) -> (result: Result<(), ErrorCode>)
        requires
            old(self).well_formed(),
        ensures
            final(self).well_formed(),
            final(self)@ == store_execute(old(self)@, owner@, authority@, instruction@).records,
            result == store_execute(old(self)@, owner@, authority@, instruction@).result,
    {
        let record = match self.load(owner) {
            Some(record) => record,
            None => { return Err(ErrorCode::NotFound); },
        };
        let ghost stored = record@;
        let (changed, verdict) = process(record, authority, instruction);
        proof {
            law_owner_and_bump_are_fixed(stored, authority@, instruction@);
            law_capacity_is_kept(stored, authority@, instruction@);
            self.lemma_stored(owner@);
        }
        if verdict.is_err() {
            assert(self@ =~= self@.insert(owner@, stored));
            return verdict;
        }
        let written = self.commit(&changed);
        assert(written is Ok);
        verdict
    }

    /// The stored bytes of the record of `owner`.
    pub fn stored(&self, owner: &Pubkey) -> (found: Option<Vec<u8>>)
        requires
            self.well_formed(),
        ensures
            match found {
                Some(bytes) => self@.contains_key(owner@) && bytes@ == encode_record(self@[owner@]),
                None => !self@.contains_key(owner@),
            },
    {
        match self.find(owner) {
            Some(index) => {
                proof {
                    self.lemma_slot(index as int);
                }
                Some(slice_to_vec(self.slots[index].data.as_slice()))
            },
            None => None,
        }
    }
}

/// A store with one more slot, for an owner who had none, shows one more record.
proof fn lemma_pushed(before: Store, after: Store, slot: Slot)
    requires
        before.well_formed(),
        slot.well_formed(),
        !before@.contains_key(slot.owner@),
        after.slots@ == before.slots@.push(slot),
    ensures
        after.well_formed(),
        after@ == before@.insert(slot.owner@, slot.record()),
{
    let last = before.slots@.len() as int;
    assert forall|i: int, j: int| 0 <= i < j < after.slots@.len() implies (
    #[trigger] after.slots@[i]).owner@ != (#[trigger] after.slots@[j]).owner@ by {
        if j == last {
            assert(before.slots@[i].owner@ == after.slots@[i].owner@);
            if after.slots@[i].owner@ == slot.owner@ {
                assert(before.has(slot.owner@));
            }
        } else {
            assert(before.slots@[i].owner@ != before.slots@[j].owner@);
        }
    }
    assert forall|i: int| 0 <= i < after.slots@.len() implies (
    #[trigger] after.slots@[i]).well_formed() by {
        if i < last {
            assert(before.slots@[i].well_formed());
        }
    }
    assert forall|owner: Seq<u8>| #[trigger]
        after@.contains_key(owner) <==> before@.insert(slot.owner@, slot.record()).contains_key(
            owner,
        ) by {
        if before.has(owner) {
            let i = before.place(owner);
            assert(after.slots@[i].owner@ == owner);
        }
        if after.has(owner) {
            let i = after.place(owner);
            if i < last {
                assert(before.slots@[i].owner@ == owner);
            }
        }
        assert(after.slots@[last].owner@ == slot.owner@);
    }
    assert forall|owner: Seq<u8>| #[trigger] after@.contains_key(owner) implies after@[owner]
        == before@.insert(slot.owner@, slot.record())[owner] by {
        let i = after.place(owner);
        after.lemma_slot(i);
        if i < last {
            assert(before.slots@[i].owner@ == owner);
            before.lemma_slot(i);
        }
    }
    assert(after@ =~= before@.insert(slot.owner@, slot.record()));
}

/// A store in which the bytes of one slot were replaced shows the new record
/// for that slot's owner.
proof fn lemma_replaced(before: Store, after: Store, index: int, slot: Slot)
    requires
        before.well_formed(),
        slot.well_formed(),
        0 <= index < before.slots@.len(),
        slot.owner@ == before.slots@[index].owner@,
        after.slots@ == before.slots@.update(index, slot),
    ensures
        after.well_formed(),
        after@ == before@.insert(slot.owner@, slot.record()),
{
    assert forall|i: int, j: int| 0 <= i < j < after.slots@.len() implies (
    #[trigger] after.slots@[i]).owner@ != (#[trigger] after.slots@[j]).owner@ by {
        assert(before.slots@[i].owner@ != before.slots@[j].owner@);
    }
    assert forall|i: int| 0 <= i < after.slots@.len() implies (
    #[trigger] after.slots@[i]).well_formed() by {
        if i != index {
            assert(before.slots@[i].well_formed());
        }
    }
    assert forall|owner: Seq<u8>| #[trigger]
        after@.contains_key(owner) <==> before@.insert(slot.owner@, slot.record()).contains_key(
            owner,
        ) by {
        if before.has(owner) {
            let i = before.place(owner);
            assert(after.slots@[i].owner@ == owner);
        }
        if after.has(owner) {
            let i = after.place(owner);
            assert(before.slots@[i].owner@ == owner);
        }
        assert(after.slots@[index].owner@ == slot.owner@);
    }
    assert forall|owner: Seq<u8>| #[trigger] after@.contains_key(owner) implies after@[owner]
        == before@.insert(slot.owner@, slot.record())[owner] by {
        let i = after.place(owner);
        after.lemma_slot(i);
        assert(before.slots@[i].owner@ == owner);
        before.lemma_slot(i);
    }
    assert(after@ =~= before@.insert(slot.owner@, slot.record()));
}

impl View for Store {
    type V = Map<Seq<u8>, PortfolioView>;

    /// The records of the store, by the bytes of their owners' identities.
    closed spec fn view(&self) -> Map<Seq<u8>, PortfolioView> {
        Map::new(
            |owner: Seq<u8>| self.has(owner),
            |owner: Seq<u8>| self.slots@[self.place(owner)].record(),
        )
    }
}

} // verus!
