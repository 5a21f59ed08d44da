//! Atomic ticket issuance and single-use redemption on an addressed ledger.
//!
//! A ticket lives at an address derived from its event id, its attendee and its
//! buyer. Issuing a ticket moves the price from buyer to venue and creates the
//! record in one step; redeeming it turns an active ticket into a redeemed one,
//! exactly once.

pub mod address;
pub mod guarantees;
pub mod key;
pub mod ledger;
pub mod ticket;
pub mod wire;

pub use address::derive_ticket_address;
pub use key::PublicKey;
pub use ledger::{
    get_ticket_info, purchase_ticket, redeem_ticket, GetTicketInfo, Ledger, ProgramConfig,
    PurchaseTicket, RedeemTicket,
};
pub use ticket::{Ticket, TicketError, TicketStatus};
pub use wire::{decode_ticket, encode_ticket};
