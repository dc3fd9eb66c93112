use anchor_lang::AnchorSerialize;
use portfolio_program::{
    checked_len, decode, encode, fits, ErrorCode, Message, Portfolio, Pubkey, Vouch, VouchRequest,
    CAPACITY, TAG_LEN,
};

fn key(fill: u8) -> Pubkey {
    Pubkey::new_from_array([fill; 32])
}

fn empty_record(owner: Pubkey, bump: u8) -> Portfolio {
    Portfolio {
        owner,
        bio: String::new(),
        links: vec![],
        image_url: String::new(),
        vouches: vec![],
        vouch_requests: vec![],
        messages: vec![],
        tip_amount: 0,
        bump,
    }
}

#[test]
fn empty_record_encodes_to_sixty_five_bytes() {
    let record = empty_record(key(7), 254);
    let bytes = encode(&record).unwrap();
    let mut expected = vec![7u8; 32];
    expected.extend_from_slice(&[0u8; 4 * 6]);
    expected.extend_from_slice(&[0u8; 8]);
    expected.push(254);
    assert_eq!(bytes, expected);
    assert_eq!(bytes.len(), 65);
    assert_eq!(checked_len(&record), Some(65));
    assert!(fits(&record));
}

#[test]
fn encoded_fields_follow_each_other_with_little_endian_counts() {
    let mut record = empty_record(key(1), 3);
    record.bio = "hi".to_string();
    record.links = vec!["a".to_string(), "é".to_string()];
    record.image_url = "u".to_string();
    record.vouches = vec![Vouch { vouched_by: key(2), comment: "ok".to_string() }];
    record.vouch_requests = vec![VouchRequest { vouched_by: key(3), comment: String::new() }];
    record.messages = vec![Message { sender: key(4), content: "yo".to_string() }];
    record.tip_amount = 0x0102030405060708;
    let bytes = encode(&record).unwrap();
    let mut expected: Vec<u8> = vec![1u8; 32];
    expected.extend_from_slice(&[2, 0, 0, 0, b'h', b'i']);
    expected.extend_from_slice(&[2, 0, 0, 0]);
    expected.extend_from_slice(&[1, 0, 0, 0, b'a']);
    expected.extend_from_slice(&[2, 0, 0, 0, 0xc3, 0xa9]);
    expected.extend_from_slice(&[1, 0, 0, 0, b'u']);
    expected.extend_from_slice(&[1, 0, 0, 0]);
    expected.extend_from_slice(&[2u8; 32]);
    expected.extend_from_slice(&[2, 0, 0, 0, b'o', b'k']);
    expected.extend_from_slice(&[1, 0, 0, 0]);
    expected.extend_from_slice(&[3u8; 32]);
    expected.extend_from_slice(&[0, 0, 0, 0]);
    expected.extend_from_slice(&[1, 0, 0, 0]);
    expected.extend_from_slice(&[4u8; 32]);
    expected.extend_from_slice(&[2, 0, 0, 0, b'y', b'o']);
    expected.extend_from_slice(&[8, 7, 6, 5, 4, 3, 2, 1]);
    expected.push(3);
    assert_eq!(bytes, expected);
    assert_eq!(decode(&bytes), Some(record));
}

#[test]
fn decode_rejects_trailing_and_missing_bytes() {
    let record = empty_record(key(9), 1);
    let bytes = encode(&record).unwrap();
    let mut longer = bytes.clone();
    longer.push(0);
    assert_eq!(decode(&longer), None);
    assert_eq!(decode(&bytes[..bytes.len() - 1]), None);
    assert_eq!(decode(&[]), None);
}

#[test]
fn record_over_capacity_is_refused() {
    let mut record = empty_record(key(9), 1);
    record.bio = "x".repeat(653 - 65);
    assert_eq!(encode(&record).map(|b| b.len()), Ok(653));
    record.bio.push('x');
    assert_eq!(encode(&record), Err(ErrorCode::CapacityExceeded));
    assert_eq!(checked_len(&record), None);
    assert!(!fits(&record));
}

#[test]
fn capacity_is_the_reserved_length_less_the_tag() {
    assert_eq!(Portfolio::LEN, 661);
    assert_eq!(TAG_LEN, 8);
    assert_eq!(CAPACITY, 653);
}

#[test]
fn decode_rejects_text_that_is_not_utf8() {
    let mut record = empty_record(key(9), 1);
    record.bio = "ab".to_string();
    let mut bytes = encode(&record).unwrap();
    assert_eq!(&bytes[32..38], &[2, 0, 0, 0, b'a', b'b']);
    bytes[36] = 0xff;
    assert_eq!(decode(&bytes), None);
    bytes[36] = 0xc3;
    bytes[37] = 0xa9;
    assert_eq!(decode(&bytes).unwrap().bio, "é");
}

#[test]
fn decode_rejects_counts_that_run_past_the_end() {
    let record = empty_record(key(9), 1);
    let mut bytes = encode(&record).unwrap();
    bytes[32] = 1;
    assert_eq!(decode(&bytes), None);
    let mut bytes = encode(&record).unwrap();
    bytes[36..40].copy_from_slice(&[0xff, 0xff, 0xff, 0xff]);
    assert_eq!(decode(&bytes), None);
}

#[test]
fn decode_rejects_bytes_beyond_the_capacity() {
    let mut record = empty_record(key(9), 1);
    record.bio = "x".repeat(588);
    let bytes = encode(&record).unwrap();
    assert_eq!(bytes.len(), 653);
    assert_eq!(decode(&bytes), Some(record));
    let mut longer = vec![9u8; 32];
    longer.extend_from_slice(&[77, 2, 0, 0]);
    longer.extend_from_slice(&[b'x'; 589]);
    longer.extend_from_slice(&[0u8; 4 * 5 + 8]);
    longer.push(1);
    assert_eq!(longer.len(), 654);
    assert_eq!(decode(&longer), None);
}

#[test]
fn round_trip_of_a_record_with_every_field_in_use() {
    let record = Portfolio {
        owner: key(1),
        bio: "bio with ünïcödé".to_string(),
        links: vec!["https://a.example".to_string(), String::new(), "🦀".to_string()],
        image_url: "https://img.example/p.png".to_string(),
        vouches: vec![
            Vouch { vouched_by: key(2), comment: "first".to_string() },
            Vouch { vouched_by: key(3), comment: String::new() },
        ],
        vouch_requests: vec![VouchRequest { vouched_by: key(4), comment: "pending".to_string() }],
        messages: vec![
            Message { sender: key(5), content: "hello".to_string() },
            Message { sender: key(5), content: "again".to_string() },
            Message { sender: key(1), content: "thanks".to_string() },
        ],
        tip_amount: u64::MAX,
        bump: 0,
    };
    let bytes = encode(&record).unwrap();
    assert_eq!(checked_len(&record), Some(bytes.len()));
    assert_eq!(decode(&bytes), Some(record));
}

#[test]
fn pieces_are_encoded_as_the_serializer_of_the_chain_does() {
    let mut record = empty_record(key(6), 200);
    record.bio = "bio é".to_string();
    record.links = vec!["one".to_string(), "two".to_string()];
    record.image_url = "img".to_string();
    record.vouches = vec![Vouch { vouched_by: key(2), comment: "v".to_string() }];
    record.messages = vec![Message { sender: key(3), content: "m".to_string() }];
    record.tip_amount = 123_456_789_012;

    let mut expected: Vec<u8> = Vec::new();
    anchor_lang::prelude::Pubkey::new_from_array([6; 32]).serialize(&mut expected).unwrap();
    record.bio.serialize(&mut expected).unwrap();
    record.links.serialize(&mut expected).unwrap();
    record.image_url.serialize(&mut expected).unwrap();
    let vouches = vec![(anchor_lang::prelude::Pubkey::new_from_array([2; 32]), "v".to_string())];
    vouches.serialize(&mut expected).unwrap();
    let requests: Vec<(anchor_lang::prelude::Pubkey, String)> = vec![];
    requests.serialize(&mut expected).unwrap();
    let messages = vec![(anchor_lang::prelude::Pubkey::new_from_array([3; 32]), "m".to_string())];
    messages.serialize(&mut expected).unwrap();
    record.tip_amount.serialize(&mut expected).unwrap();
    record.bump.serialize(&mut expected).unwrap();

    assert_eq!(encode(&record).unwrap(), expected);
}
