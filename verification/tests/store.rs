use portfolio_program::{
    decode, ErrorCode, Instruction, Portfolio, Pubkey, Store, Vouch, VouchRequest,
};

fn key(fill: u8) -> Pubkey {
    Pubkey::new_from_array([fill; 32])
}

#[test]
fn second_initialize_is_refused_and_overwrites_nothing() {
    let owner = key(1);
    let mut store = Store::new();
    assert!(!store.contains(&owner));
    assert_eq!(store.initialize(owner, 254), Ok(()));
    assert!(store.contains(&owner));
    assert_eq!(
        store.execute(&owner, owner, Instruction::CreatePortfolio { bio: "hi".to_string() }),
        Ok(())
    );
    let before = store.stored(&owner).unwrap();
    assert_eq!(store.initialize(owner, 9), Err(ErrorCode::AlreadyExists));
    assert_eq!(store.stored(&owner).unwrap(), before);
    let record = store.load(&owner).unwrap();
    assert_eq!(record.bio, "hi");
    assert_eq!(record.bump, 254);
}

#[test]
fn each_owner_has_a_record_of_its_own() {
    let mut store = Store::new();
    assert_eq!(store.initialize(key(1), 255), Ok(()));
    assert_eq!(store.initialize(key(2), 250), Ok(()));
    assert_eq!(store.execute(&key(2), key(9), Instruction::Tip { amount: 4 }), Ok(()));
    assert_eq!(store.load(&key(1)).unwrap().tip_amount, 0);
    assert_eq!(store.load(&key(2)).unwrap().tip_amount, 4);
    assert_eq!(store.load(&key(2)).unwrap().bump, 250);
    assert_eq!(store.load(&key(3)), None);
    assert_eq!(store.stored(&key(3)), None);
}

#[test]
fn operations_on_a_missing_record_are_refused() {
    let mut store = Store::new();
    assert_eq!(
        store.execute(&key(1), key(1), Instruction::Tip { amount: 1 }),
        Err(ErrorCode::NotFound)
    );
    let record = Portfolio {
        owner: key(1),
        bio: String::new(),
        links: vec![],
        image_url: String::new(),
        vouches: vec![],
        vouch_requests: vec![],
        messages: vec![],
        tip_amount: 0,
        bump: 1,
    };
    assert_eq!(store.commit(&record), Err(ErrorCode::NotFound));
    assert!(!store.contains(&key(1)));
}

#[test]
fn stored_bytes_are_the_encoding_of_the_record() {
    let owner = key(1);
    let mut store = Store::new();
    assert_eq!(store.initialize(owner, 3), Ok(()));
    let bytes = store.stored(&owner).unwrap();
    assert_eq!(bytes.len(), 65);
    assert_eq!(decode(&bytes), store.load(&owner));
    let mut record = store.load(&owner).unwrap();
    record.bio = "written back".to_string();
    assert_eq!(store.commit(&record), Ok(()));
    assert_eq!(store.load(&owner), Some(record));
}

#[test]
fn commit_over_capacity_is_refused_before_anything_is_written() {
    let owner = key(1);
    let mut store = Store::new();
    assert_eq!(store.initialize(owner, 3), Ok(()));
    let before = store.stored(&owner).unwrap();
    let mut record = store.load(&owner).unwrap();
    record.bio = "x".repeat(600);
    assert_eq!(store.commit(&record), Err(ErrorCode::CapacityExceeded));
    assert_eq!(store.stored(&owner).unwrap(), before);
}

#[test]
fn strangers_leave_the_stored_bytes_untouched() {
    let owner = key(1);
    let stranger = key(2);
    let mut store = Store::new();
    assert_eq!(store.initialize(owner, 3), Ok(()));
    let vouch = VouchRequest { vouched_by: stranger, comment: "please".to_string() };
    assert_eq!(store.execute(&owner, stranger, Instruction::RequestVouch { vouch }), Ok(()));
    let before = store.stored(&owner).unwrap();
    let attempts = vec![
        Instruction::CreatePortfolio { bio: "x".to_string() },
        Instruction::StoreLinks { links: vec!["x".to_string()] },
        Instruction::StoreImage { image_url: "x".to_string() },
        Instruction::ApproveVouch { vouch_user: stranger },
    ];
    for attempt in attempts {
        assert_eq!(store.execute(&owner, stranger, attempt), Err(ErrorCode::Unauthorized));
        assert_eq!(store.stored(&owner).unwrap(), before);
    }
}

#[test]
fn full_scenario_through_the_store() {
    let owner = key(1);
    let stranger = key(2);
    let mut store = Store::new();
    assert_eq!(store.initialize(owner, 255), Ok(()));
    assert_eq!(
        store.execute(&owner, owner, Instruction::CreatePortfolio { bio: "hi".to_string() }),
        Ok(())
    );
    let vouch = VouchRequest { vouched_by: stranger, comment: "great work".to_string() };
    assert_eq!(store.execute(&owner, stranger, Instruction::RequestVouch { vouch }), Ok(()));
    assert_eq!(
        store.execute(&owner, owner, Instruction::ApproveVouch { vouch_user: stranger }),
        Ok(())
    );
    let record = store.load(&owner).unwrap();
    assert_eq!(
        record.vouches,
        vec![Vouch { vouched_by: stranger, comment: "great work".to_string() }]
    );
    assert_eq!(record.vouch_requests, vec![]);
    assert_eq!(record.bio, "hi");
}

#[test]
fn refused_growth_keeps_the_stored_record() {
    let owner = key(1);
    let mut store = Store::new();
    assert_eq!(store.initialize(owner, 255), Ok(()));
    assert_eq!(
        store.execute(&owner, owner, Instruction::CreatePortfolio { bio: "x".repeat(588) }),
        Ok(())
    );
    let before = store.stored(&owner).unwrap();
    assert_eq!(before.len(), 653);
    assert_eq!(
        store.execute(&owner, key(2), Instruction::SendMessage { content: String::new() }),
        Err(ErrorCode::CapacityExceeded)
    );
    assert_eq!(store.stored(&owner).unwrap(), before);
    assert_eq!(store.execute(&owner, key(2), Instruction::Tip { amount: u64::MAX }), Ok(()));
    assert_eq!(store.load(&owner).unwrap().tip_amount, u64::MAX);
}
