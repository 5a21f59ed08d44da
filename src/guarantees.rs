//! What holds of every issuance and redemption, stated over the transition
//! functions that the operations' contracts use.
use vstd::prelude::*;

use crate::address::ticket_address;
use crate::ledger::{issue_outcome, redeem_outcome, transfer_error, LedgerView};
use crate::ticket::{TicketError, TicketStatus};

verus! {

/// Once a ticket has been issued for `(event_id, attendee_name, buyer)`, a
/// second issuance with the same inputs fails with `AddressAlreadyExists` and
/// changes nothing: of two identical issuances exactly one creates a record.
pub proof fn lemma_issue_is_unique(
    pre: LedgerView,
    buyer: Seq<u8>,
    venue: Seq<u8>,
    event_id: Seq<char>,
    event_name: Seq<char>,
    event_date: i64,
    venue_name: Seq<char>,
    attendee_name: Seq<char>,
    price: u64,
    cnft_asset_id: Seq<u8>,
    now: i64,
    later: i64,
)
    requires
        issue_outcome(pre, buyer, venue, event_id, event_name, event_date, venue_name,
            attendee_name, price, cnft_asset_id, now).0 is Ok,
    ensures
        ({
            let first = issue_outcome(pre, buyer, venue, event_id, event_name, event_date,
                venue_name, attendee_name, price, cnft_asset_id, now);
            let second = issue_outcome(first.1, buyer, venue, event_id, event_name, event_date,
                venue_name, attendee_name, price, cnft_asset_id, later);
            &&& second.0 == Err::<Seq<u8>, TicketError>(TicketError::AddressAlreadyExists)
            &&& second.1 == first.1
        }),
{
}

/// A failed issuance leaves the ledger exactly as it was: no balance moves and
/// no record is created.
pub proof fn lemma_failed_issue_changes_nothing(
    pre: LedgerView,
    buyer: Seq<u8>,
    venue: Seq<u8>,
    event_id: Seq<char>,
    event_name: Seq<char>,
    event_date: i64,
    venue_name: Seq<char>,
    attendee_name: Seq<char>,
    price: u64,
    cnft_asset_id: Seq<u8>,
    now: i64,
)
    ensures
        ({
            let out = issue_outcome(pre, buyer, venue, event_id, event_name, event_date,
                venue_name, attendee_name, price, cnft_asset_id, now);
            out.0 is Err ==> out.1 == pre
        }),
{
}

/// With a nonzero price that cannot be moved from buyer to venue, issuance
/// fails and the derived address still holds no record afterwards.
pub proof fn lemma_unpaid_issue_creates_no_record(
    pre: LedgerView,
    buyer: Seq<u8>,
    venue: Seq<u8>,
    event_id: Seq<char>,
    event_name: Seq<char>,
    event_date: i64,
    venue_name: Seq<char>,
    attendee_name: Seq<char>,
    price: u64,
    cnft_asset_id: Seq<u8>,
    now: i64,
    address: Seq<u8>,
    bump: u8,
)
    requires
        price > 0,
        transfer_error(pre.balances, buyer, venue, price) is Some,
        ticket_address(pre.config.program_id@, event_id, attendee_name, buyer) == Ok::<
            (Seq<u8>, u8),
            TicketError,
        >((address, bump)),
        !pre.tickets.contains_key(address),
    ensures
        ({
            let out = issue_outcome(pre, buyer, venue, event_id, event_name, event_date,
                venue_name, attendee_name, price, cnft_asset_id, now);
            &&& out.0 is Err
            &&& !out.1.tickets.contains_key(address)
        }),
{
}

/// A free ticket moves no balance, and the record it creates has paid zero.
pub proof fn lemma_free_issue_moves_nothing(
    pre: LedgerView,
    buyer: Seq<u8>,
    venue: Seq<u8>,
    event_id: Seq<char>,
    event_name: Seq<char>,
    event_date: i64,
    venue_name: Seq<char>,
    attendee_name: Seq<char>,
    cnft_asset_id: Seq<u8>,
    now: i64,
)
    ensures
        ({
            let out = issue_outcome(pre, buyer, venue, event_id, event_name, event_date,
                venue_name, attendee_name, 0, cnft_asset_id, now);
            &&& out.1.balances == pre.balances
            &&& out.0 is Ok ==> out.1.tickets.contains_key(out.0->Ok_0)
                && out.1.tickets[out.0->Ok_0].price_paid == 0
        }),
{
}

/// Redeeming a ticket that is already redeemed fails with `TicketNotActive`
/// and changes nothing.
pub proof fn lemma_redeemed_stays_redeemed(pre: LedgerView, address: Seq<u8>)
    requires
        pre.tickets.contains_key(address),
        pre.tickets[address].ticket_status == TicketStatus::Redeemed,
    ensures
        redeem_outcome(pre, address) == (Err::<(), TicketError>(TicketError::TicketNotActive), pre),
{
}

/// After one successful redemption, every further redemption of the same
/// ticket fails with `TicketNotActive` and leaves the ticket redeemed.
pub proof fn lemma_redeem_only_once(pre: LedgerView, address: Seq<u8>, n: nat)
    requires
        redeem_outcome(pre, address).0 is Ok,
    ensures
        ({
            let post = redeem_outcome(pre, address).1;
            &&& post.tickets[address].ticket_status == TicketStatus::Redeemed
            &&& repeat_redeem(post, address, n) == post
            &&& redeem_outcome(repeat_redeem(post, address, n), address).0 == Err::<
                (),
                TicketError,
            >(TicketError::TicketNotActive)
        }),
    decreases n,
{
    let post = redeem_outcome(pre, address).1;
    lemma_redeemed_stays_redeemed(post, address);
    if n > 0 {
        lemma_redeem_only_once(pre, address, (n - 1) as nat);
    }
}

/// The ledger after `n` more redemptions of the ticket at `address`.
pub open spec fn repeat_redeem(pre: LedgerView, address: Seq<u8>, n: nat) -> LedgerView
    decreases n,
{
    if n == 0 {
        pre
    } else {
        redeem_outcome(repeat_redeem(pre, address, (n - 1) as nat), address).1
    }
}

/// Redemption never changes any record's owner or creation time, nor which
/// records exist, nor any balance.
pub proof fn lemma_redeem_keeps_write_once_fields(pre: LedgerView, address: Seq<u8>, other: Seq<u8>)
    requires
        pre.tickets.contains_key(other),
    ensures
        ({
            let post = redeem_outcome(pre, address).1;
            &&& post.tickets.dom() == pre.tickets.dom()
            &&& post.balances == pre.balances
            &&& post.tickets[other].owner == pre.tickets[other].owner
            &&& post.tickets[other].created_at == pre.tickets[other].created_at
        }),
{
    let post = redeem_outcome(pre, address).1;
    assert(post.tickets.dom() =~= pre.tickets.dom());
}

} // verus!
