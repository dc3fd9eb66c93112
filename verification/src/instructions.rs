//! The operations on a record. Each takes the accounts it works on: the record
//! and, where the operation has an acting identity, that identity.

use vstd::prelude::*;
use crate::codec::fits;
use crate::identity::Pubkey;
use crate::model::{first_by, lemma_first_by, lemma_first_by_none, InstructionView};
use crate::state::{
    entry_views, text_views, ErrorCode, Message, Portfolio, PortfolioView, Vouch, VouchRequest,
};

verus! {

/// Accounts for creating a record: the place where it will stand, empty
/// until then, and the creator.
#[derive(Clone, Debug, PartialEq, Eq)]
pub struct Initialize {
    pub portfolio: Option<Portfolio>,
    pub authority: Pubkey,
}

/// Accounts for overwriting the bio.
#[derive(Clone, Debug, PartialEq, Eq)]
pub struct CreatePortfolio {
    pub portfolio: Portfolio,
    pub authority: Pubkey,
}

/// Accounts for appending links.
#[derive(Clone, Debug, PartialEq, Eq)]
pub struct StoreLinks {
    pub portfolio: Portfolio,
    pub authority: Pubkey,
}

/// Accounts for overwriting the image URL.
#[derive(Clone, Debug, PartialEq, Eq)]
pub struct StoreImage {
    pub portfolio: Portfolio,
    pub authority: Pubkey,
}

/// Accounts for filing a request for endorsement.
#[derive(Clone, Debug, PartialEq, Eq)]
pub struct RequestVouch {
    pub portfolio: Portfolio,
}

/// Accounts for approving a request for endorsement.
#[derive(Clone, Debug, PartialEq, Eq)]
pub struct ApproveVouch {
    pub portfolio: Portfolio,
    pub authority: Pubkey,
}

/// Accounts for leaving a message.
#[derive(Clone, Debug, PartialEq, Eq)]
pub struct SendMessage {
    pub portfolio: Portfolio,
    pub authority: Pubkey,
}

/// Accounts for tipping.
#[derive(Clone, Debug, PartialEq, Eq)]
pub struct Tip {
    pub portfolio: Portfolio,
}

/// An operation on a record that exists, with its arguments.
#[derive(Clone, Debug, PartialEq, Eq)]
pub enum Instruction {
    CreatePortfolio { bio: String },
    StoreLinks { links: Vec<String> },
    StoreImage { image_url: String },
    RequestVouch { vouch: VouchRequest },
    ApproveVouch { vouch_user: Pubkey },
    SendMessage { content: String },
    Tip { amount: u64 },
}

impl View for Instruction {
    type V = InstructionView;

    open spec fn view(&self) -> InstructionView {
        match *self {
            Instruction::CreatePortfolio { bio } => InstructionView::CreatePortfolio { bio: bio@ },
            Instruction::StoreLinks { links } => InstructionView::StoreLinks {
                links: text_views(links@),
            },
            Instruction::StoreImage { image_url } => InstructionView::StoreImage {
                image_url: image_url@,
            },
            Instruction::RequestVouch { vouch } => InstructionView::RequestVouch { vouch: vouch@ },
            Instruction::ApproveVouch { vouch_user } => InstructionView::ApproveVouch {
                vouch_user: vouch_user@,
            },
            Instruction::SendMessage { content } => InstructionView::SendMessage {
                content: content@,
            },
            Instruction::Tip { amount } => InstructionView::Tip { amount },
        }
    }
}

/// The authorization guard: whether `authority` is the owner of `record`.
pub fn is_owner(record: &Portfolio, authority: &Pubkey) -> (allowed: bool)
    ensures
        allowed == record@.is_owner(authority@),
{
    authority.same(&record.owner)
}

/// Creates the record of `ctx.authority` with the given bump and nothing
/// else in it. A record that stands already is never overwritten: the call
/// is refused.
pub fn initialize(ctx: &mut Initialize, bump: u8) -> (result: Result<(), ErrorCode>)
    ensures
        final(ctx).authority == old(ctx).authority,
        match old(ctx).portfolio {
            Some(_) => {
                &&& result == Err::<(), ErrorCode>(ErrorCode::AlreadyExists)
                &&& final(ctx).portfolio == old(ctx).portfolio
            },
            None => {
                &&& result == Ok::<(), ErrorCode>(())
                &&& final(ctx).portfolio matches Some(record)
                &&& record@ == PortfolioView::created(old(ctx).authority@, bump)
            },
        },
{
    if ctx.portfolio.is_some() {
        return Err(ErrorCode::AlreadyExists);
    }
    ctx.portfolio = Some(Portfolio::new(ctx.authority, bump));
    Ok(())
}

/// Overwrites the bio. Only the owner may; the record must still fit.
pub fn create_portfolio(ctx: &mut CreatePortfolio, bio: String) -> (result: Result<
    (),
    ErrorCode,
>)
    ensures
        final(ctx).authority == old(ctx).authority,
        final(ctx).portfolio@ == old(ctx).portfolio@.create_portfolio(
            old(ctx).authority@,
            bio@,
        ).record,
        result == old(ctx).portfolio@.create_portfolio(old(ctx).authority@, bio@).result,
{
    if !is_owner(&ctx.portfolio, &ctx.authority) {
        return Err(ErrorCode::Unauthorized);
    }
    let mut other = bio;
    std::mem::swap(&mut ctx.portfolio.bio, &mut other);
    assert(ctx.portfolio@ =~= old(ctx).portfolio@.with_bio(bio@));
    if !fits(&ctx.portfolio) {
        std::mem::swap(&mut ctx.portfolio.bio, &mut other);
        assert(ctx.portfolio@ =~= old(ctx).portfolio@);
        return Err(ErrorCode::CapacityExceeded);
    }
    Ok(())
}

/// Appends links. Only the owner may; the record must still fit.
pub fn store_links(ctx: &mut StoreLinks, links: Vec<String>) -> (result: Result<(), ErrorCode>)
    ensures
        final(ctx).authority == old(ctx).authority,
        final(ctx).portfolio@ == old(ctx).portfolio@.store_links(
            old(ctx).authority@,
            text_views(links@),
        ).record,
        result == old(ctx).portfolio@.store_links(
            old(ctx).authority@,
            text_views(links@),
        ).result,
{
    if !is_owner(&ctx.portfolio, &ctx.authority) {
        return Err(ErrorCode::Unauthorized);
    }
    let kept = ctx.portfolio.links.len();
    let mut more = links;
    ctx.portfolio.links.append(&mut more);
    assert(text_views(ctx.portfolio.links@) =~= text_views(old(ctx).portfolio.links@)
        + text_views(links@));
    assert(ctx.portfolio@ =~= old(ctx).portfolio@.with_links(text_views(links@)));
    if !fits(&ctx.portfolio) {
        ctx.portfolio.links.truncate(kept);
        assert(ctx.portfolio.links@ =~= old(ctx).portfolio.links@);
        assert(ctx.portfolio@ =~= old(ctx).portfolio@);
        return Err(ErrorCode::CapacityExceeded);
    }
    Ok(())
}

/// Overwrites the image URL. Only the owner may; the record must still fit.
pub fn store_image(ctx: &mut StoreImage, image_url: String) -> (result: Result<(), ErrorCode>)
    ensures
        final(ctx).authority == old(ctx).authority,
        final(ctx).portfolio@ == old(ctx).portfolio@.store_image(
            old(ctx).authority@,
            image_url@,
        ).record,
        result == old(ctx).portfolio@.store_image(old(ctx).authority@, image_url@).result,
{
    if !is_owner(&ctx.portfolio, &ctx.authority) {
        return Err(ErrorCode::Unauthorized);
    }
    let mut other = image_url;
    std::mem::swap(&mut ctx.portfolio.image_url, &mut other);
    assert(ctx.portfolio@ =~= old(ctx).portfolio@.with_image(image_url@));
    if !fits(&ctx.portfolio) {
        std::mem::swap(&mut ctx.portfolio.image_url, &mut other);
        assert(ctx.portfolio@ =~= old(ctx).portfolio@);
        return Err(ErrorCode::CapacityExceeded);
    }
    Ok(())
}

/// Files a request for endorsement. Anyone may, under any name and any
/// number of times; the record must still fit.
pub fn request_vouch(ctx: &mut RequestVouch, vouch: VouchRequest) -> (result: Result<
    (),
    ErrorCode,
>)
    ensures
        final(ctx).portfolio@ == old(ctx).portfolio@.request_vouch(vouch@).record,
        result == old(ctx).portfolio@.request_vouch(vouch@).result,
{
    ctx.portfolio.vouch_requests.push(vouch);
    assert(entry_views(ctx.portfolio.vouch_requests@) =~= entry_views(
        old(ctx).portfolio.vouch_requests@,
    ).push(vouch@));
    assert(ctx.portfolio@ =~= old(ctx).portfolio@.with_request(vouch@));
    if !fits(&ctx.portfolio) {
        ctx.portfolio.vouch_requests.pop();
        assert(ctx.portfolio.vouch_requests@ =~= old(ctx).portfolio.vouch_requests@);
        assert(ctx.portfolio@ =~= old(ctx).portfolio@);
        return Err(ErrorCode::CapacityExceeded);
    }
    Ok(())
}

/// Position of the first pending request in the name of `requester`.
fn first_request_by(requests: &Vec<VouchRequest>, requester: &Pubkey) -> (found: Option<usize>)
    ensures
        match found {
            Some(index) => first_by(entry_views(requests@), requester@) == Some(index as int),
            None => first_by(entry_views(requests@), requester@) is None,
        },
{
    let mut index: usize = 0;
    while index < requests.len()
        invariant
            index <= requests.len(),
            forall|j: int|
                0 <= j < index ==> (#[trigger] entry_views(requests@)[j]).author != requester@,
        decreases requests.len() - index,
    {
        if requests[index].vouched_by.same(requester) {
            proof {
                lemma_first_by(entry_views(requests@), requester@, index as int);
            }
            return Some(index);
        }
        index += 1;
    }
    proof {
        lemma_first_by_none(entry_views(requests@), requester@);
    }
    None
}

/// Approves the first pending request of `vouch_user`: the request leaves
/// the pending ones and joins the endorsements. Only the owner may. Where
/// `vouch_user` has no request pending, nothing changes and the call succeeds.
pub fn approve_vouch(ctx: &mut ApproveVouch, vouch_user: Pubkey) -> (result: Result<
    (),
    ErrorCode,
>)
    ensures
        final(ctx).authority == old(ctx).authority,
        final(ctx).portfolio@ == old(ctx).portfolio@.approve_vouch(
            old(ctx).authority@,
            vouch_user@,
        ).record,
        result == old(ctx).portfolio@.approve_vouch(old(ctx).authority@, vouch_user@).result,
{
    if !is_owner(&ctx.portfolio, &ctx.authority) {
        return Err(ErrorCode::Unauthorized);
    }
    match first_request_by(&ctx.portfolio.vouch_requests, &vouch_user) {
        Some(index) => {
            let request = ctx.portfolio.vouch_requests.remove(index);
            let vouch = Vouch { vouched_by: request.vouched_by, comment: request.comment };
            ctx.portfolio.vouches.push(vouch);
            proof {
                let before = old(ctx).portfolio@;
                assert(entry_views(ctx.portfolio.vouch_requests@)
                    =~= before.vouch_requests.remove(index as int));
                assert(entry_views(ctx.portfolio.vouches@) =~= before.vouches.push(
                    before.vouch_requests[index as int],
                ));
                assert(ctx.portfolio@ =~= before.approved(vouch_user@));
            }
        },
        None => {},
    }
    Ok(())
}

/// Leaves a message in the name of the acting identity. Anyone may; the record
/// must still fit.
pub fn send_message(ctx: &mut SendMessage, content: String) -> (result: Result<(), ErrorCode>)
    ensures
        final(ctx).authority == old(ctx).authority,
        final(ctx).portfolio@ == old(ctx).portfolio@.send_message(
            old(ctx).authority@,
            content@,
        ).record,
        result == old(ctx).portfolio@.send_message(old(ctx).authority@, content@).result,
{
    let message = Message { sender: ctx.authority, content };
    ctx.portfolio.messages.push(message);
    assert(entry_views(ctx.portfolio.messages@) =~= entry_views(
        old(ctx).portfolio.messages@,
    ).push(message@));
    assert(ctx.portfolio@ =~= old(ctx).portfolio@.with_message(message@));
    if !fits(&ctx.portfolio) {
        ctx.portfolio.messages.pop();
        assert(ctx.portfolio.messages@ =~= old(ctx).portfolio.messages@);
        assert(ctx.portfolio@ =~= old(ctx).portfolio@);
        return Err(ErrorCode::CapacityExceeded);
    }
    Ok(())
}

/// Adds `amount` to the tip counter. Anyone may. The counter wraps around
/// past the largest 64-bit value; the call never fails.
pub fn tip(ctx: &mut Tip, amount: u64) -> (result: Result<(), ErrorCode>)
    ensures
        final(ctx).portfolio@ == old(ctx).portfolio@.tip(amount).record,
        result == old(ctx).portfolio@.tip(amount).result,
{
    ctx.portfolio.tip_amount = ctx.portfolio.tip_amount.wrapping_add(amount);
    assert(ctx.portfolio@ =~= old(ctx).portfolio@.tipped(amount));
    Ok(())
}

/// Carries out any operation on `record`, invoked by `authority`. A refused
/// operation leaves the record as it was.
pub fn process(record: Portfolio, authority: Pubkey, instruction: Instruction) -> (done: (
    Portfolio,
    Result<(), ErrorCode>,
))
    ensures
        done.0@ == record@.apply(authority@, instruction@).record,
        done.1 == record@.apply(authority@, instruction@).result,
{
    match instruction {
        Instruction::CreatePortfolio { bio } => {
            let mut ctx = CreatePortfolio { portfolio: record, authority };
            let result = create_portfolio(&mut ctx, bio);
            (ctx.portfolio, result)
        },
        Instruction::StoreLinks { links } => {
            let mut ctx = StoreLinks { portfolio: record, authority };
            let result = store_links(&mut ctx, links);
            (ctx.portfolio, result)
        },
        Instruction::StoreImage { image_url } => {
            let mut ctx = StoreImage { portfolio: record, authority };
            let result = store_image(&mut ctx, image_url);
            (ctx.portfolio, result)
        },
        Instruction::RequestVouch { vouch } => {
            let mut ctx = RequestVouch { portfolio: record };
            let result = request_vouch(&mut ctx, vouch);
            (ctx.portfolio, result)
        },
        Instruction::ApproveVouch { vouch_user } => {
            let mut ctx = ApproveVouch { portfolio: record, authority };
            let result = approve_vouch(&mut ctx, vouch_user);
            (ctx.portfolio, result)
        },
        Instruction::SendMessage { content } => {
            let mut ctx = SendMessage { portfolio: record, authority };
            let result = send_message(&mut ctx, content);
            (ctx.portfolio, result)
        },
        Instruction::Tip { amount } => {
            let mut ctx = Tip { portfolio: record };
            let result = tip(&mut ctx, amount);
            (ctx.portfolio, result)
        },
    }
}

} // verus!
