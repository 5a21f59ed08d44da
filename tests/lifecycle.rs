use ticket_manager::{
    decode_ticket, derive_ticket_address, encode_ticket, get_ticket_info, purchase_ticket,
    redeem_ticket, GetTicketInfo, Ledger, ProgramConfig, PublicKey, PurchaseTicket, RedeemTicket,
    Ticket, TicketError, TicketStatus,
};

fn key(b: u8) -> PublicKey {
    PublicKey::new([b; 32])
}

fn program() -> PublicKey {
    key(7)
}

struct World {
    ledger: Ledger,
    buyer: PublicKey,
    venue: PublicKey,
}

fn world(buyer_balance: u64) -> World {
    let mut ledger = Ledger::new(ProgramConfig::standard(program()));
    let buyer = key(1);
    let venue = key(2);
    ledger.set_balance(&buyer, buyer_balance);
    ledger.set_balance(&venue, 0);
    World { ledger, buyer, venue }
}

fn issue(w: &mut World, event_id: &str, attendee: &str, price: u64) -> Result<PublicKey, TicketError> {
    let ctx = PurchaseTicket { buyer: w.buyer, venue: w.venue };
    purchase_ticket(
        &mut w.ledger,
        &ctx,
        event_id.to_string(),
        "Spring Concert".to_string(),
        1_700_000_000,
        "Main Hall".to_string(),
        attendee.to_string(),
        price,
        key(9),
        1_690_000_000,
    )
}

fn status_at(w: &World, address: PublicKey) -> Option<TicketStatus> {
    get_ticket_info(&w.ledger, &GetTicketInfo { ticket: address }).ok().map(|t| t.ticket_status)
}

fn redeem(w: &mut World, address: PublicKey) -> Result<(), TicketError> {
    let ctx = RedeemTicket { venue_authority: w.venue, ticket: address };
    redeem_ticket(&mut w.ledger, &ctx)
}

#[test]
fn paid_issue_moves_price_and_creates_active_record() {
    let mut w = world(5000);
    let address = issue(&mut w, "evt1", "Alice", 1000).unwrap();
    assert_eq!(w.ledger.balance(&w.buyer), Some(4000));
    assert_eq!(w.ledger.balance(&w.venue), Some(1000));
    let t = get_ticket_info(&w.ledger, &GetTicketInfo { ticket: address }).unwrap();
    assert_eq!(t.ticket_status, TicketStatus::Active);
    assert_eq!(t.price_paid, 1000);
    assert_eq!(t.owner.bytes, w.buyer.bytes);
    assert_eq!(t.created_at, 1_690_000_000);
    assert_eq!(t.event_id, "evt1");
    assert_eq!(t.attendee_name, "Alice");
}

#[test]
fn repeated_issue_fails_with_address_already_exists() {
    let mut w = world(5000);
    issue(&mut w, "evt1", "Alice", 1000).unwrap();
    assert_eq!(issue(&mut w, "evt1", "Alice", 1000), Err(TicketError::AddressAlreadyExists));
    assert_eq!(w.ledger.balance(&w.buyer), Some(4000));
    assert_eq!(w.ledger.balance(&w.venue), Some(1000));
}

#[test]
fn free_issue_moves_nothing() {
    let mut w = world(5000);
    let address = issue(&mut w, "evt2", "Bob", 0).unwrap();
    assert_eq!(w.ledger.balance(&w.buyer), Some(5000));
    assert_eq!(w.ledger.balance(&w.venue), Some(0));
    let t = get_ticket_info(&w.ledger, &GetTicketInfo { ticket: address }).unwrap();
    assert_eq!(t.price_paid, 0);
    assert_eq!(t.ticket_status, TicketStatus::Active);
}

#[test]
fn free_issue_needs_no_buyer_account() {
    let mut ledger = Ledger::new(ProgramConfig::standard(program()));
    let ctx = PurchaseTicket { buyer: key(3), venue: key(4) };
    let r = purchase_ticket(
        &mut ledger,
        &ctx,
        "evt2".to_string(),
        "Free Day".to_string(),
        0,
        "Park".to_string(),
        "Bob".to_string(),
        0,
        key(9),
        5,
    );
    assert!(r.is_ok());
    assert_eq!(ledger.balance(&key(3)), None);
}

#[test]
fn redeem_marks_ticket_redeemed() {
    let mut w = world(5000);
    let address = issue(&mut w, "evt1", "Alice", 1000).unwrap();
    assert_eq!(redeem(&mut w, address), Ok(()));
    assert_eq!(status_at(&w, address), Some(TicketStatus::Redeemed));
}

#[test]
fn second_redeem_fails_with_ticket_not_active() {
    let mut w = world(5000);
    let address = issue(&mut w, "evt1", "Alice", 1000).unwrap();
    redeem(&mut w, address).unwrap();
    assert_eq!(redeem(&mut w, address), Err(TicketError::TicketNotActive));
    assert_eq!(status_at(&w, address), Some(TicketStatus::Redeemed));
    assert_eq!(redeem(&mut w, address), Err(TicketError::TicketNotActive));
    assert_eq!(status_at(&w, address), Some(TicketStatus::Redeemed));
}

#[test]
fn redeem_keeps_owner_and_creation_time() {
    let mut w = world(5000);
    let address = issue(&mut w, "evt1", "Alice", 1000).unwrap();
    redeem(&mut w, address).unwrap();
    let t = get_ticket_info(&w.ledger, &GetTicketInfo { ticket: address }).unwrap();
    assert_eq!(t.owner.bytes, [1u8; 32]);
    assert_eq!(t.created_at, 1_690_000_000);
    assert_eq!(t.price_paid, 1000);
}

#[test]
fn insufficient_funds_creates_no_record() {
    let mut w = world(500);
    assert_eq!(issue(&mut w, "evt1", "Alice", 1000), Err(TicketError::InsufficientFunds));
    let (address, _) = derive_ticket_address(&program(), &"evt1".to_string(), &"Alice".to_string(), &w.buyer).unwrap();
    assert_eq!(status_at(&w, address), None);
    assert_eq!(w.ledger.balance(&w.buyer), Some(500));
    assert_eq!(w.ledger.balance(&w.venue), Some(0));
}

#[test]
fn unknown_venue_is_invalid_destination() {
    let mut ledger = Ledger::new(ProgramConfig::standard(program()));
    ledger.set_balance(&key(1), 5000);
    let ctx = PurchaseTicket { buyer: key(1), venue: key(5) };
    let r = purchase_ticket(
        &mut ledger,
        &ctx,
        "evt1".to_string(),
        "Gala".to_string(),
        0,
        "Hall".to_string(),
        "Alice".to_string(),
        10,
        key(9),
        0,
    );
    assert_eq!(r, Err(TicketError::InvalidDestination));
    assert_eq!(ledger.balance(&key(1)), Some(5000));
}

#[test]
fn venue_balance_overflow_is_invalid_destination() {
    let mut w = world(5000);
    w.ledger.set_balance(&w.venue, u64::MAX);
    assert_eq!(issue(&mut w, "evt1", "Alice", 1), Err(TicketError::InvalidDestination));
    assert_eq!(w.ledger.balance(&w.buyer), Some(5000));
}

#[test]
fn paying_oneself_keeps_balance() {
    let mut ledger = Ledger::new(ProgramConfig::standard(program()));
    ledger.set_balance(&key(1), u64::MAX);
    let ctx = PurchaseTicket { buyer: key(1), venue: key(1) };
    let r = purchase_ticket(
        &mut ledger,
        &ctx,
        "evt1".to_string(),
        "Gala".to_string(),
        0,
        "Hall".to_string(),
        "Alice".to_string(),
        10,
        key(9),
        0,
    );
    assert!(r.is_ok());
    assert_eq!(ledger.balance(&key(1)), Some(u64::MAX));
}

#[test]
fn exact_balance_is_enough() {
    let mut w = world(1000);
    assert!(issue(&mut w, "evt1", "Alice", 1000).is_ok());
    assert_eq!(w.ledger.balance(&w.buyer), Some(0));
    assert_eq!(w.ledger.balance(&w.venue), Some(1000));
}

#[test]
fn oversized_field_is_rejected() {
    let mut w = world(5000);
    let long_id = "e".repeat(65);
    assert_eq!(issue(&mut w, &long_id, "Alice", 10), Err(TicketError::InvalidFieldLength));
    assert_eq!(w.ledger.balance(&w.buyer), Some(5000));
}

#[test]
fn field_too_long_for_a_seed_is_rejected() {
    let mut w = world(5000);
    let id = "e".repeat(33);
    assert_eq!(issue(&mut w, &id, "Alice", 10), Err(TicketError::InvalidFieldLength));
    let id = "e".repeat(32);
    assert!(issue(&mut w, &id, "Alice", 10).is_ok());
}

#[test]
fn oversized_event_name_is_rejected() {
    let mut w = world(5000);
    let ctx = PurchaseTicket { buyer: w.buyer, venue: w.venue };
    let r = purchase_ticket(
        &mut w.ledger,
        &ctx,
        "evt1".to_string(),
        "n".repeat(129),
        0,
        "Hall".to_string(),
        "Alice".to_string(),
        10,
        key(9),
        0,
    );
    assert_eq!(r, Err(TicketError::InvalidFieldLength));
}

#[test]
fn redeem_of_missing_record_is_not_found() {
    let mut w = world(5000);
    assert_eq!(redeem(&mut w, key(42)), Err(TicketError::AccountNotFound));
    assert!(get_ticket_info(&w.ledger, &GetTicketInfo { ticket: key(42) }).is_err());
}

#[test]
fn different_attendees_get_different_addresses() {
    let mut w = world(5000);
    let a = issue(&mut w, "evt1", "Alice", 10).unwrap();
    let b = issue(&mut w, "evt1", "Bob", 10).unwrap();
    assert_ne!(a.bytes, b.bytes);
    assert_eq!(w.ledger.balance(&w.buyer), Some(4980));
}

#[test]
fn derived_address_is_deterministic_and_canonical() {
    let id = "evt1".to_string();
    let who = "Alice".to_string();
    let (a1, b1) = derive_ticket_address(&program(), &id, &who, &key(1)).unwrap();
    let (a2, b2) = derive_ticket_address(&program(), &id, &who, &key(1)).unwrap();
    assert_eq!(a1.bytes, a2.bytes);
    assert_eq!(b1, b2);
    assert!(b1 >= 1);
    assert_ne!(a1.bytes, program().bytes);
    assert_ne!(a1.bytes, key(1).bytes);
    let (other, _) = derive_ticket_address(&key(8), &id, &who, &key(1)).unwrap();
    assert_ne!(a1.bytes, other.bytes);
}

#[test]
fn issued_address_matches_derivation() {
    let mut w = world(5000);
    let address = issue(&mut w, "evt1", "Alice", 1000).unwrap();
    let (derived, bump) = derive_ticket_address(&program(), &"evt1".to_string(), &"Alice".to_string(), &w.buyer).unwrap();
    assert_eq!(address.bytes, derived.bytes);
    let t = get_ticket_info(&w.ledger, &GetTicketInfo { ticket: address }).unwrap();
    assert_eq!(t.bump, bump);
}

fn sample_ticket(status: TicketStatus) -> Ticket {
    Ticket {
        event_id: "evt1".to_string(),
        event_name: "Sommerfest \u{e9}t\u{e9}".to_string(),
        event_date: -12345,
        venue: "Main Hall".to_string(),
        attendee_name: "Alice".to_string(),
        price_paid: 1000,
        ticket_status: status,
        cnft_asset_id: key(9),
        owner: key(1),
        created_at: 1_690_000_000,
        bump: 254,
    }
}

#[test]
fn wire_round_trip_keeps_every_field() {
    for status in [TicketStatus::Active, TicketStatus::Redeemed, TicketStatus::Cancelled] {
        let t = sample_ticket(status);
        let bytes = encode_ticket(&t).unwrap();
        let back = decode_ticket(&bytes).unwrap();
        assert_eq!(back.event_id, t.event_id);
        assert_eq!(back.event_name, t.event_name);
        assert_eq!(back.event_date, t.event_date);
        assert_eq!(back.venue, t.venue);
        assert_eq!(back.attendee_name, t.attendee_name);
        assert_eq!(back.price_paid, t.price_paid);
        assert_eq!(back.ticket_status, t.ticket_status);
        assert_eq!(back.cnft_asset_id.bytes, t.cnft_asset_id.bytes);
        assert_eq!(back.owner.bytes, t.owner.bytes);
        assert_eq!(back.created_at, t.created_at);
        assert_eq!(back.bump, t.bump);
    }
}

#[test]
fn wire_layout_has_expected_bytes() {
    let t = Ticket {
        event_id: "ab".to_string(),
        event_name: "".to_string(),
        event_date: -1,
        venue: "v".to_string(),
        attendee_name: "".to_string(),
        price_paid: 0x0102,
        ticket_status: TicketStatus::Redeemed,
        cnft_asset_id: key(9),
        owner: key(1),
        created_at: 3,
        bump: 255,
    };
    let bytes = encode_ticket(&t).unwrap();
    let mut expected: Vec<u8> = vec![2, 0, 0, 0, b'a', b'b', 0, 0, 0, 0];
    expected.extend_from_slice(&[0xff; 8]);
    expected.extend_from_slice(&[1, 0, 0, 0, b'v', 0, 0, 0, 0]);
    expected.extend_from_slice(&[2, 1, 0, 0, 0, 0, 0, 0]);
    expected.push(1);
    expected.extend_from_slice(&[9; 32]);
    expected.extend_from_slice(&[1; 32]);
    expected.extend_from_slice(&[3, 0, 0, 0, 0, 0, 0, 0]);
    expected.push(255);
    assert_eq!(bytes, expected);
}

#[test]
fn malformed_wire_bytes_are_refused() {
    let t = sample_ticket(TicketStatus::Active);
    let bytes = encode_ticket(&t).unwrap();
    assert!(decode_ticket(&bytes[..bytes.len() - 1]).is_none());
    let mut longer = bytes.clone();
    longer.push(0);
    assert!(decode_ticket(&longer).is_none());
    let mut bad_tag = bytes.clone();
    let tag_at = bytes.len() - 1 - 8 - 32 - 32 - 1;
    assert_eq!(bad_tag[tag_at], 0);
    bad_tag[tag_at] = 3;
    assert!(decode_ticket(&bad_tag).is_none());
    let mut bad_text = bytes.clone();
    bad_text[4] = 0xff;
    assert!(decode_ticket(&bad_text).is_none());
    assert!(decode_ticket(&[]).is_none());
}

#[test]
fn same_key_compares_bytes() {
    assert!(key(1).same_as(&key(1)));
    assert!(!key(1).same_as(&key(2)));
    let mut b = [1u8; 32];
    b[31] = 0;
    assert!(!key(1).same_as(&PublicKey::new(b)));
    assert_eq!(PublicKey::new(b).to_bytes(), b);
}

#[test]
fn configured_bounds_apply() {
    let mut config = ProgramConfig::standard(program());
    config.max_event_id_len = 3;
    let mut ledger = Ledger::new(config);
    ledger.set_balance(&key(1), 100);
    ledger.set_balance(&key(2), 0);
    let ctx = PurchaseTicket { buyer: key(1), venue: key(2) };
    let make = |ledger: &mut Ledger, id: &str| {
        purchase_ticket(
            ledger,
            &ctx,
            id.to_string(),
            "Gala".to_string(),
            0,
            "Hall".to_string(),
            "Alice".to_string(),
            10,
            key(9),
            0,
        )
    };
    assert_eq!(make(&mut ledger, "evt1"), Err(TicketError::InvalidFieldLength));
    assert!(make(&mut ledger, "evt").is_ok());
    assert_eq!(ledger.balance(&key(1)), Some(90));
}
