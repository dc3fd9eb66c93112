use portfolio_program::{
    approve_vouch, create_portfolio, encode, fits, initialize, is_owner, process, request_vouch,
    send_message, store_image, store_links, tip, ApproveVouch, CreatePortfolio, ErrorCode,
    Initialize, Instruction, Message, Portfolio, Pubkey, RequestVouch, SendMessage, StoreImage,
    StoreLinks, Tip, Vouch, VouchRequest,
};

fn key(fill: u8) -> Pubkey {
    Pubkey::new_from_array([fill; 32])
}

fn created(owner: Pubkey, bump: u8) -> Portfolio {
    let mut ctx = Initialize { portfolio: None, authority: owner };
    assert_eq!(initialize(&mut ctx, bump), Ok(()));
    ctx.portfolio.unwrap()
}

#[test]
fn initialize_creates_an_empty_record() {
    let owner = key(1);
    let record = created(owner, 254);
    assert_eq!(
        record,
        Portfolio {
            owner,
            bio: String::new(),
            links: vec![],
            image_url: String::new(),
            vouches: vec![],
            vouch_requests: vec![],
            messages: vec![],
            tip_amount: 0,
            bump: 254,
        }
    );
}

#[test]
fn new_record_is_the_one_that_initialize_creates() {
    assert_eq!(Portfolio::new(key(3), 17), created(key(3), 17));
    assert_eq!(encode(&Portfolio::new(key(3), 17)).unwrap().len(), 65);
}

#[test]
fn initialize_never_overwrites_a_record() {
    let owner = key(1);
    let mut record = created(owner, 254);
    record.bio = "kept".to_string();
    let mut ctx = Initialize { portfolio: Some(record.clone()), authority: owner };
    assert_eq!(initialize(&mut ctx, 7), Err(ErrorCode::AlreadyExists));
    assert_eq!(ctx.portfolio, Some(record));
}

#[test]
fn owner_guard_compares_all_bytes() {
    let record = created(key(1), 255);
    assert!(is_owner(&record, &key(1)));
    assert!(!is_owner(&record, &key(2)));
    let mut almost = [1u8; 32];
    almost[31] = 0;
    assert!(!is_owner(&record, &Pubkey::new_from_array(almost)));
}

#[test]
fn owner_updates_bio_links_and_image() {
    let owner = key(1);
    let mut ctx = CreatePortfolio { portfolio: created(owner, 255), authority: owner };
    assert_eq!(create_portfolio(&mut ctx, "hi".to_string()), Ok(()));
    assert_eq!(create_portfolio(&mut ctx, "hello".to_string()), Ok(()));
    assert_eq!(ctx.portfolio.bio, "hello");

    let mut ctx = StoreLinks { portfolio: ctx.portfolio, authority: owner };
    assert_eq!(store_links(&mut ctx, vec!["a".to_string(), "b".to_string()]), Ok(()));
    assert_eq!(store_links(&mut ctx, vec!["c".to_string()]), Ok(()));
    assert_eq!(store_links(&mut ctx, vec![]), Ok(()));
    assert_eq!(ctx.portfolio.links, vec!["a".to_string(), "b".to_string(), "c".to_string()]);

    let mut ctx = StoreImage { portfolio: ctx.portfolio, authority: owner };
    assert_eq!(store_image(&mut ctx, "one".to_string()), Ok(()));
    assert_eq!(store_image(&mut ctx, "two".to_string()), Ok(()));
    assert_eq!(ctx.portfolio.image_url, "two");
    assert_eq!(ctx.portfolio.bio, "hello");
    assert_eq!(ctx.portfolio.owner, owner);
}

#[test]
fn strangers_are_refused_and_change_nothing() {
    let owner = key(1);
    let stranger = key(2);
    let mut record = created(owner, 255);
    record.bio = "mine".to_string();
    record.vouch_requests.push(VouchRequest { vouched_by: stranger, comment: "me".to_string() });
    let bytes = encode(&record).unwrap();

    let mut ctx = CreatePortfolio { portfolio: record.clone(), authority: stranger };
    assert_eq!(create_portfolio(&mut ctx, "x".to_string()), Err(ErrorCode::Unauthorized));
    assert_eq!(encode(&ctx.portfolio).unwrap(), bytes);

    let mut ctx = StoreLinks { portfolio: record.clone(), authority: stranger };
    assert_eq!(store_links(&mut ctx, vec!["x".to_string()]), Err(ErrorCode::Unauthorized));
    assert_eq!(encode(&ctx.portfolio).unwrap(), bytes);

    let mut ctx = StoreImage { portfolio: record.clone(), authority: stranger };
    assert_eq!(store_image(&mut ctx, "x".to_string()), Err(ErrorCode::Unauthorized));
    assert_eq!(encode(&ctx.portfolio).unwrap(), bytes);

    let mut ctx = ApproveVouch { portfolio: record.clone(), authority: stranger };
    assert_eq!(approve_vouch(&mut ctx, stranger), Err(ErrorCode::Unauthorized));
    assert_eq!(encode(&ctx.portfolio).unwrap(), bytes);
    assert_eq!(ctx.portfolio, record);
}

#[test]
fn request_then_approve_moves_the_request() {
    let owner = key(1);
    let stranger = key(2);
    let mut ctx = CreatePortfolio { portfolio: created(owner, 255), authority: owner };
    assert_eq!(create_portfolio(&mut ctx, "hi".to_string()), Ok(()));
    let mut ctx = RequestVouch { portfolio: ctx.portfolio };
    let request = VouchRequest { vouched_by: stranger, comment: "great work".to_string() };
    assert_eq!(request_vouch(&mut ctx, request), Ok(()));
    let mut ctx = ApproveVouch { portfolio: ctx.portfolio, authority: owner };
    assert_eq!(approve_vouch(&mut ctx, stranger), Ok(()));
    assert_eq!(
        ctx.portfolio.vouches,
        vec![Vouch { vouched_by: stranger, comment: "great work".to_string() }]
    );
    assert_eq!(ctx.portfolio.vouch_requests, vec![]);
    assert_eq!(ctx.portfolio.bio, "hi");
}

#[test]
fn approve_takes_the_first_of_two_requests() {
    let owner = key(1);
    let stranger = key(2);
    let mut ctx = RequestVouch { portfolio: created(owner, 255) };
    let first = VouchRequest { vouched_by: stranger, comment: "a".to_string() };
    let second = VouchRequest { vouched_by: stranger, comment: "b".to_string() };
    assert_eq!(request_vouch(&mut ctx, first), Ok(()));
    assert_eq!(request_vouch(&mut ctx, second.clone()), Ok(()));
    let mut ctx = ApproveVouch { portfolio: ctx.portfolio, authority: owner };
    assert_eq!(approve_vouch(&mut ctx, stranger), Ok(()));
    assert_eq!(ctx.portfolio.vouch_requests, vec![second]);
    assert_eq!(
        ctx.portfolio.vouches,
        vec![Vouch { vouched_by: stranger, comment: "a".to_string() }]
    );
}

#[test]
fn approve_skips_requests_of_others() {
    let owner = key(1);
    let mut ctx = RequestVouch { portfolio: created(owner, 255) };
    let r3 = VouchRequest { vouched_by: key(3), comment: "three".to_string() };
    let r4 = VouchRequest { vouched_by: key(4), comment: "four".to_string() };
    let r5 = VouchRequest { vouched_by: key(5), comment: "five".to_string() };
    assert_eq!(request_vouch(&mut ctx, r3.clone()), Ok(()));
    assert_eq!(request_vouch(&mut ctx, r4), Ok(()));
    assert_eq!(request_vouch(&mut ctx, r5.clone()), Ok(()));
    let mut ctx = ApproveVouch { portfolio: ctx.portfolio, authority: owner };
    assert_eq!(approve_vouch(&mut ctx, key(4)), Ok(()));
    assert_eq!(ctx.portfolio.vouch_requests, vec![r3, r5]);
    assert_eq!(
        ctx.portfolio.vouches,
        vec![Vouch { vouched_by: key(4), comment: "four".to_string() }]
    );
}

#[test]
fn approve_without_request_is_a_silent_success() {
    let owner = key(1);
    let mut record = created(owner, 255);
    record.vouch_requests.push(VouchRequest { vouched_by: key(3), comment: "x".to_string() });
    record.vouches.push(Vouch { vouched_by: key(4), comment: "y".to_string() });
    let mut ctx = ApproveVouch { portfolio: record.clone(), authority: owner };
    assert_eq!(approve_vouch(&mut ctx, key(9)), Ok(()));
    assert_eq!(ctx.portfolio, record);
}

#[test]
fn owner_may_request_an_endorsement_of_itself() {
    let owner = key(1);
    let mut ctx = RequestVouch { portfolio: created(owner, 255) };
    let request = VouchRequest { vouched_by: owner, comment: "self".to_string() };
    assert_eq!(request_vouch(&mut ctx, request.clone()), Ok(()));
    assert_eq!(ctx.portfolio.vouch_requests, vec![request]);
}

#[test]
fn messages_are_appended_with_their_sender() {
    let owner = key(1);
    let mut ctx = SendMessage { portfolio: created(owner, 255), authority: key(2) };
    assert_eq!(send_message(&mut ctx, "one".to_string()), Ok(()));
    ctx.authority = key(3);
    assert_eq!(send_message(&mut ctx, "two".to_string()), Ok(()));
    assert_eq!(
        ctx.portfolio.messages,
        vec![
            Message { sender: key(2), content: "one".to_string() },
            Message { sender: key(3), content: "two".to_string() },
        ]
    );
}

#[test]
fn tips_add_up_and_wrap_around() {
    let mut ctx = Tip { portfolio: created(key(1), 255) };
    assert_eq!(tip(&mut ctx, 10), Ok(()));
    assert_eq!(ctx.portfolio.tip_amount, 10);
    assert_eq!(tip(&mut ctx, 5), Ok(()));
    assert_eq!(ctx.portfolio.tip_amount, 15);
    assert_eq!(tip(&mut ctx, u64::MAX), Ok(()));
    assert_eq!(ctx.portfolio.tip_amount, 14);
    assert_eq!(tip(&mut ctx, 0), Ok(()));
    assert_eq!(ctx.portfolio.tip_amount, 14);
}

#[test]
fn bio_that_fills_the_capacity_is_accepted_and_one_byte_more_is_refused() {
    let owner = key(1);
    let mut ctx = CreatePortfolio { portfolio: created(owner, 255), authority: owner };
    assert_eq!(create_portfolio(&mut ctx, "short".to_string()), Ok(()));
    assert_eq!(create_portfolio(&mut ctx, "x".repeat(589)), Err(ErrorCode::CapacityExceeded));
    assert_eq!(ctx.portfolio.bio, "short");
    assert_eq!(create_portfolio(&mut ctx, "x".repeat(588)), Ok(()));
    assert_eq!(encode(&ctx.portfolio).unwrap().len(), 653);
    assert!(fits(&ctx.portfolio));
}

#[test]
fn growth_beyond_the_capacity_is_refused_and_rolled_back() {
    let owner = key(1);
    let mut full = created(owner, 255);
    full.bio = "x".repeat(580);
    assert_eq!(encode(&full).unwrap().len(), 645);

    let mut ctx = StoreLinks { portfolio: full.clone(), authority: owner };
    assert_eq!(
        store_links(&mut ctx, vec!["a".to_string(), "bcdef".to_string()]),
        Err(ErrorCode::CapacityExceeded)
    );
    assert_eq!(ctx.portfolio, full);
    assert_eq!(store_links(&mut ctx, vec!["abcd".to_string()]), Ok(()));
    assert_eq!(encode(&ctx.portfolio).unwrap().len(), 653);

    let mut ctx = StoreImage { portfolio: full.clone(), authority: owner };
    assert_eq!(store_image(&mut ctx, "123456789".to_string()), Err(ErrorCode::CapacityExceeded));
    assert_eq!(ctx.portfolio, full);
    assert_eq!(store_image(&mut ctx, "12345678".to_string()), Ok(()));

    let mut ctx = RequestVouch { portfolio: full.clone() };
    let request = VouchRequest { vouched_by: key(2), comment: String::new() };
    assert_eq!(request_vouch(&mut ctx, request), Err(ErrorCode::CapacityExceeded));
    assert_eq!(ctx.portfolio, full);

    let mut ctx = SendMessage { portfolio: full.clone(), authority: key(2) };
    assert_eq!(send_message(&mut ctx, String::new()), Err(ErrorCode::CapacityExceeded));
    assert_eq!(ctx.portfolio, full);
}

#[test]
fn approval_and_tips_succeed_on_a_full_record() {
    let owner = key(1);
    let mut full = created(owner, 255);
    full.vouch_requests.push(VouchRequest { vouched_by: key(2), comment: "x".repeat(552) });
    assert_eq!(encode(&full).unwrap().len(), 653);
    let mut ctx = ApproveVouch { portfolio: full, authority: owner };
    assert_eq!(approve_vouch(&mut ctx, key(2)), Ok(()));
    assert_eq!(ctx.portfolio.vouches.len(), 1);
    assert_eq!(encode(&ctx.portfolio).unwrap().len(), 653);
    let mut ctx = Tip { portfolio: ctx.portfolio };
    assert_eq!(tip(&mut ctx, 77), Ok(()));
    assert_eq!(encode(&ctx.portfolio).unwrap().len(), 653);
}

#[test]
fn process_dispatches_every_operation() {
    let owner = key(1);
    let other = key(2);
    let record = created(owner, 255);
    let (record, r) = process(record, owner, Instruction::CreatePortfolio { bio: "b".to_string() });
    assert_eq!(r, Ok(()));
    let (record, r) =
        process(record, owner, Instruction::StoreLinks { links: vec!["l".to_string()] });
    assert_eq!(r, Ok(()));
    let (record, r) =
        process(record, owner, Instruction::StoreImage { image_url: "i".to_string() });
    assert_eq!(r, Ok(()));
    let vouch = VouchRequest { vouched_by: other, comment: "c".to_string() };
    let (record, r) = process(record, other, Instruction::RequestVouch { vouch });
    assert_eq!(r, Ok(()));
    let (record, r) = process(record, other, Instruction::ApproveVouch { vouch_user: other });
    assert_eq!(r, Err(ErrorCode::Unauthorized));
    let (record, r) = process(record, owner, Instruction::ApproveVouch { vouch_user: other });
    assert_eq!(r, Ok(()));
    let (record, r) =
        process(record, other, Instruction::SendMessage { content: "m".to_string() });
    assert_eq!(r, Ok(()));
    let (record, r) = process(record, other, Instruction::Tip { amount: 3 });
    assert_eq!(r, Ok(()));
    assert_eq!(
        record,
        Portfolio {
            owner,
            bio: "b".to_string(),
            links: vec!["l".to_string()],
            image_url: "i".to_string(),
            vouches: vec![Vouch { vouched_by: other, comment: "c".to_string() }],
            vouch_requests: vec![],
            messages: vec![Message { sender: other, content: "m".to_string() }],
            tip_amount: 3,
            bump: 255,
        }
    );
}

#[test]
fn error_codes_have_messages() {
    assert_eq!(ErrorCode::Unauthorized.message(), "Unauthorized access.");
    assert_eq!(ErrorCode::AlreadyExists.message(), "A record for this owner exists already.");
    assert_eq!(
        ErrorCode::CapacityExceeded.message(),
        "The record would exceed its reserved capacity."
    );
    assert_eq!(ErrorCode::NotFound.message(), "No record exists for this owner.");
}
