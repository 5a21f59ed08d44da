use vstd::prelude::*;

use crate::key::PublicKey;

verus! {

/// Where a ticket stands in its lifecycle.
///
/// `Active` is the state a ticket is issued in, and `Redeemed` the only state
/// that an operation moves it to. `Cancelled` is reserved: no operation of this
/// library enters it.
#[derive(Clone, Copy, Debug, PartialEq, Eq, Structural)]
pub enum TicketStatus {
    Active,
    Redeemed,
    Cancelled,
}

/// Every reason an operation of the library can fail for.
#[derive(Clone, Copy, Debug, PartialEq, Eq, Structural)]
pub enum TicketError {
    /// Redemption of a ticket that is not `Active`.
    TicketNotActive,
    /// Redemption by a party that is not the venue. Under the permissive
    /// redemption policy of this library no operation returns it.
    UnauthorizedRedemption,
    /// Issuance at an address that already holds a ticket.
    AddressAlreadyExists,
    /// The buyer's balance is below a nonzero price.
    InsufficientFunds,
    /// The venue's payment address cannot receive the price.
    InvalidDestination,
    /// A text field is longer than its bound, or too long to serve as an
    /// address seed.
    InvalidFieldLength,
    /// No bump seed in the search range gives a valid address.
    AddressSpaceExhausted,
    /// No ticket record is stored at the given address.
    AccountNotFound,
}

/// One ticket record, as it is stored at its derived address.
#[derive(Debug)]
pub struct Ticket {
    pub event_id: String,
    pub event_name: String,
    pub event_date: i64,
    pub venue: String,
    pub attendee_name: String,
    pub price_paid: u64,
    pub ticket_status: TicketStatus,
    pub cnft_asset_id: PublicKey,
    pub owner: PublicKey,
    pub created_at: i64,
    pub bump: u8,
}

/// The mathematical value of a [`Ticket`]: text as characters, keys as bytes.
pub struct TicketView {
    pub event_id: Seq<char>,
    pub event_name: Seq<char>,
    pub event_date: i64,
    pub venue: Seq<char>,
    pub attendee_name: Seq<char>,
    pub price_paid: u64,
    pub ticket_status: TicketStatus,
    pub cnft_asset_id: Seq<u8>,
    pub owner: Seq<u8>,
    pub created_at: i64,
    pub bump: u8,
}

impl View for Ticket {
    type V = TicketView;

    open spec fn view(&self) -> TicketView {
        TicketView {
            event_id: self.event_id@,
            event_name: self.event_name@,
            event_date: self.event_date,
            venue: self.venue@,
            attendee_name: self.attendee_name@,
            price_paid: self.price_paid,
            ticket_status: self.ticket_status,
            cnft_asset_id: self.cnft_asset_id@,
            owner: self.owner@,
            created_at: self.created_at,
            bump: self.bump,
        }
    }
}

impl Ticket {
    /// Whether the ticket can still be redeemed.
    pub fn is_active(&self) -> (r: bool)
        ensures
            r == (self.ticket_status == TicketStatus::Active),
    {
        self.ticket_status == TicketStatus::Active
    }
}

} // verus!
