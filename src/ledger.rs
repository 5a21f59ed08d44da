use vstd::prelude::*;
use vstd::utf8::encode_utf8;

use crate::address::{derive_ticket_address, ticket_address};
use crate::key::PublicKey;
use crate::ticket::{Ticket, TicketError, TicketStatus, TicketView};

verus! {

/// Default bound, in bytes, of a ticket's event id.
pub const MAX_EVENT_ID_LEN: usize = 64;

/// Default bound, in bytes, of a ticket's event name.
pub const MAX_EVENT_NAME_LEN: usize = 128;

/// Default bound, in bytes, of a ticket's venue display name.
pub const MAX_VENUE_LEN: usize = 64;

/// Default bound, in bytes, of a ticket's attendee name.
pub const MAX_ATTENDEE_NAME_LEN: usize = 64;

/// The program's address space and the size bounds of a ticket's text fields.
#[derive(Clone, Copy, Debug)]
pub struct ProgramConfig {
    pub program_id: PublicKey,
    pub max_event_id_len: usize,
    pub max_event_name_len: usize,
    pub max_venue_len: usize,
    pub max_attendee_name_len: usize,
}

impl ProgramConfig {
    /// A configuration with the default field bounds.
    pub fn standard(program_id: PublicKey) -> (r: ProgramConfig)
        ensures
            r.program_id@ == program_id@,
            r.max_event_id_len == MAX_EVENT_ID_LEN,
            r.max_event_name_len == MAX_EVENT_NAME_LEN,
            r.max_venue_len == MAX_VENUE_LEN,
            r.max_attendee_name_len == MAX_ATTENDEE_NAME_LEN,
    {
        ProgramConfig {
            program_id,
            max_event_id_len: MAX_EVENT_ID_LEN,
            max_event_name_len: MAX_EVENT_NAME_LEN,
            max_venue_len: MAX_VENUE_LEN,
            max_attendee_name_len: MAX_ATTENDEE_NAME_LEN,
        }
    }

    /// Whether each text field, UTF-8 encoded, is within its bound.
    pub open spec fn fields_fit(
        &self,
        event_id: Seq<char>,
        event_name: Seq<char>,
        venue: Seq<char>,
        attendee_name: Seq<char>,
    ) -> bool {
        &&& encode_utf8(event_id).len() <= self.max_event_id_len
        &&& encode_utf8(event_name).len() <= self.max_event_name_len
        &&& encode_utf8(venue).len() <= self.max_venue_len
        &&& encode_utf8(attendee_name).len() <= self.max_attendee_name_len
    }
}

/// The accounts of an issuance: the signing buyer and the venue's payment
/// address.
#[derive(Clone, Copy, Debug)]
pub struct PurchaseTicket {
    pub buyer: PublicKey,
    pub venue: PublicKey,
}

/// The accounts of a redemption: the signing party and the ticket's address.
///
/// Redemption is permissive: any signer may redeem any active ticket, so the
/// signer is recorded here but not compared with anything.
#[derive(Clone, Copy, Debug)]
pub struct RedeemTicket {
    pub venue_authority: PublicKey,
    pub ticket: PublicKey,
}

/// The account of an inspection: the ticket's address.
#[derive(Clone, Copy, Debug)]
pub struct GetTicketInfo {
    pub ticket: PublicKey,
}

/// The mathematical value of a [`Ledger`]: balances and ticket records, each
/// keyed by the bytes of an address.
pub struct LedgerView {
    pub config: ProgramConfig,
    pub balances: Map<Seq<u8>, u64>,
    pub tickets: Map<Seq<u8>, TicketView>,
}

/// Addressed storage with native balances, on which tickets are issued and
/// redeemed. Each operation either takes full effect or none.
pub struct Ledger {
    config: ProgramConfig,
    account_keys: Vec<PublicKey>,
    account_lamports: Vec<u64>,
    ticket_addresses: Vec<PublicKey>,
    tickets: Vec<Ticket>,
    balances: Ghost<Map<Seq<u8>, u64>>,
    records: Ghost<Map<Seq<u8>, TicketView>>,
}

impl View for Ledger {
    type V = LedgerView;

    closed spec fn view(&self) -> LedgerView {
        LedgerView { config: self.config, balances: self.balances@, tickets: self.records@ }
    }
}

/// A balance, with an absent account counting as empty.
pub open spec fn balance_of(balances: Map<Seq<u8>, u64>, key: Seq<u8>) -> nat {
    if balances.contains_key(key) {
        balances[key] as nat
    } else {
        0
    }
}

/// Why moving `amount` from `from` to `to` cannot be done, if it cannot.
pub open spec fn transfer_error(
    balances: Map<Seq<u8>, u64>,
    from: Seq<u8>,
    to: Seq<u8>,
    amount: u64,
) -> Option<TicketError> {
    if balance_of(balances, from) < amount {
        Some(TicketError::InsufficientFunds)
    } else if !balances.contains_key(to) {
        Some(TicketError::InvalidDestination)
    } else if balance_of(balances.insert(from, (balances[from] - amount) as u64), to) + amount
        > u64::MAX {
        Some(TicketError::InvalidDestination)
    } else {
        None
    }
}

/// The balances after moving `amount` from `from` to `to`.
pub open spec fn transferred(
    balances: Map<Seq<u8>, u64>,
    from: Seq<u8>,
    to: Seq<u8>,
    amount: u64,
) -> Map<Seq<u8>, u64> {
    let debited = balances.insert(from, (balances[from] - amount) as u64);
    debited.insert(to, (debited[to] + amount) as u64)
}

/// The record that a successful issuance creates.
pub open spec fn issued_ticket(
    event_id: Seq<char>,
    event_name: Seq<char>,
    event_date: i64,
    venue: Seq<char>,
    attendee_name: Seq<char>,
    price: u64,
    cnft_asset_id: Seq<u8>,
    owner: Seq<u8>,
    now: i64,
    bump: u8,
) -> TicketView {
    TicketView {
        event_id,
        event_name,
        event_date,
        venue,
        attendee_name,
        price_paid: price,
        ticket_status: TicketStatus::Active,
        cnft_asset_id,
        owner,
        created_at: now,
        bump,
    }
}

/// What issuing a ticket returns, and the ledger afterwards.
///
/// Fields are checked against their bounds, then the address is derived; an
/// occupied address fails the issuance, and so does a nonzero price that cannot
/// be moved from buyer to venue. A price of zero moves nothing. On success the
/// price is moved and the record created together; on failure nothing changes.
pub open spec fn issue_outcome(
    pre: LedgerView,
    buyer: Seq<u8>,
    venue: Seq<u8>,
    event_id: Seq<char>,
    event_name: Seq<char>,
    event_date: i64,
    venue_name: Seq<char>,
    attendee_name: Seq<char>,
    price: u64,
    cnft_asset_id: Seq<u8>,
    now: i64,
) -> (Result<Seq<u8>, TicketError>, LedgerView) {
    if !pre.config.fields_fit(event_id, event_name, venue_name, attendee_name) {
        (Err(TicketError::InvalidFieldLength), pre)
    } else {
        match ticket_address(pre.config.program_id@, event_id, attendee_name, buyer) {
            Err(e) => (Err(e), pre),
            Ok((address, bump)) => {
                if pre.tickets.contains_key(address) {
                    (Err(TicketError::AddressAlreadyExists), pre)
                } else if price > 0 && transfer_error(pre.balances, buyer, venue, price) is Some {
                    (Err(transfer_error(pre.balances, buyer, venue, price)->Some_0), pre)
                } else {
                    let record = issued_ticket(
                        event_id,
                        event_name,
                        event_date,
                        venue_name,
                        attendee_name,
                        price,
                        cnft_asset_id,
                        buyer,
                        now,
                        bump,
                    );
                    (
                        Ok(address),
                        LedgerView {
                            config: pre.config,
                            balances: if price > 0 {
                                transferred(pre.balances, buyer, venue, price)
                            } else {
                                pre.balances
                            },
                            tickets: pre.tickets.insert(address, record),
                        },
                    )
                }
            },
        }
    }
}

/// What redeeming the ticket at `address` returns, and the ledger afterwards:
/// an active ticket becomes redeemed and nothing else changes.
pub open spec fn redeem_outcome(pre: LedgerView, address: Seq<u8>) -> (
    Result<(), TicketError>,
    LedgerView,
) {
    if !pre.tickets.contains_key(address) {
        (Err(TicketError::AccountNotFound), pre)
    } else if pre.tickets[address].ticket_status != TicketStatus::Active {
        (Err(TicketError::TicketNotActive), pre)
    } else {
        let t = pre.tickets[address];
        (
            Ok(()),
            LedgerView {
                config: pre.config,
                balances: pre.balances,
                tickets: pre.tickets.insert(
                    address,
                    TicketView { ticket_status: TicketStatus::Redeemed, ..t },
                ),
            },
        )
    }
}

/// Number of bytes in the UTF-8 encoding of `s`.
fn text_len(s: &String) -> (r: usize)
    ensures
        r == encode_utf8(s@).len(),
{
    s.as_str().as_bytes().len()
}

/// Index of `key` in `keys`, if it is there.
fn find_key(keys: &Vec<PublicKey>, key: &PublicKey) -> (r: Option<usize>)
    ensures
        match r {
            Some(i) => i < keys.len() && keys@[i as int]@ == key@,
            None => forall|i: int| 0 <= i < keys.len() ==> keys@[i]@ != key@,
        },
{
    let mut i: usize = 0;
    while i < keys.len()
        invariant
            i <= keys.len(),
            forall|j: int| 0 <= j < i ==> keys@[j]@ != key@,
        decreases keys.len() - i,
    {
        if keys[i].same_as(key) {
            return Some(i);
        }
        i = i + 1;
    }
    None
}

impl Ledger {
    /// Storage and balances agree, and no address is held twice.
    pub closed spec fn wf(&self) -> bool {
        &&& self.account_keys.len() == self.account_lamports.len()
        &&& self.ticket_addresses.len() == self.tickets.len()
        &&& forall|i: int, j: int|
            0 <= i < self.account_keys.len() && 0 <= j < self.account_keys.len() && i != j
                ==> #[trigger] self.account_keys@[i]@ != #[trigger] self.account_keys@[j]@
        &&& forall|i: int|
            0 <= i < self.account_keys.len() ==> {
                &&& self.balances@.contains_key(#[trigger] self.account_keys@[i]@)
                &&& self.balances@[self.account_keys@[i]@] == self.account_lamports@[i]
            }
        &&& forall|k: Seq<u8>|
            #[trigger] self.balances@.contains_key(k) ==> exists|i: int|
                0 <= i < self.account_keys.len() && #[trigger] self.account_keys@[i]@ == k
        &&& forall|i: int, j: int|
            0 <= i < self.ticket_addresses.len() && 0 <= j < self.ticket_addresses.len() && i
                != j ==> #[trigger] self.ticket_addresses@[i]@ != #[trigger] self.ticket_addresses@[j]@
        &&& forall|i: int|
            0 <= i < self.ticket_addresses.len() ==> {
                &&& self.records@.contains_key(#[trigger] self.ticket_addresses@[i]@)
                &&& self.records@[self.ticket_addresses@[i]@] == self.tickets@[i]@
            }
        &&& forall|k: Seq<u8>|
            #[trigger] self.records@.contains_key(k) ==> exists|i: int|
                0 <= i < self.ticket_addresses.len() && #[trigger] self.ticket_addresses@[i]@ == k
    }

    /// An empty ledger under `config`.
    pub fn new(config: ProgramConfig) -> (r: Ledger)
        ensures
            r.wf(),
            r@.config == config,
            r@.balances == Map::<Seq<u8>, u64>::empty(),
            r@.tickets == Map::<Seq<u8>, TicketView>::empty(),
    {
        Ledger {
            config,
            account_keys: Vec::new(),
            account_lamports: Vec::new(),
            ticket_addresses: Vec::new(),
            tickets: Vec::new(),
            balances: Ghost(Map::empty()),
            records: Ghost(Map::empty()),
        }
    }

    pub fn config(&self) -> (r: ProgramConfig)
        ensures
            r == self@.config,
    {
        self.config
    }

    /// The balance of `key`, if it is an account of the ledger.
    pub fn balance(&self, key: &PublicKey) -> (r: Option<u64>)
        requires
            self.wf(),
        ensures
            r == (if self@.balances.contains_key(key@) {
                Some(self@.balances[key@])
            } else {
                None
            }),
    {
        match find_key(&self.account_keys, key) {
            Some(i) => Some(self.account_lamports[i]),
            None => None,
        }
    }

    /// Sets the balance of `key`, opening the account if it is new.
    pub fn set_balance(&mut self, key: &PublicKey, lamports: u64)
        requires
            old(self).wf(),
        ensures
            final(self).wf(),
            final(self)@ == (LedgerView {
                balances: old(self)@.balances.insert(key@, lamports),
                ..old(self)@
            }),
    {
        match find_key(&self.account_keys, key) {
            Some(i) => self.set_lamports(i, lamports),
            None => {
                self.account_keys.push(*key);
                self.account_lamports.push(lamports);
                self.balances = Ghost(self.balances@.insert(key@, lamports));
                proof {
                    let n = self.account_keys.len() - 1;
                    assert(self.account_keys@[n as int]@ == key@);
                    assert forall|k: Seq<u8>| #[trigger]
                        self.balances@.contains_key(k) implies exists|i: int|
                        0 <= i < self.account_keys.len() && #[trigger] self.account_keys@[i]@
                            == k by {
                        if k != key@ {
                            let i = choose|i: int|
                                0 <= i < old(self).account_keys.len()
                                    && #[trigger] old(self).account_keys@[i]@ == k;
                            assert(self.account_keys@[i]@ == k);
                        }
                    }
                }
            },
        }
    }

    fn set_lamports(&mut self, i: usize, lamports: u64)
        requires
            old(self).wf(),
            i < old(self).account_keys.len(),
        ensures
            final(self).wf(),
            final(self).account_keys@ == old(self).account_keys@,
            final(self)@ == (LedgerView {
                balances: old(self)@.balances.insert(old(self).account_keys@[i as int]@, lamports),
                ..old(self)@
            }),
    {
        let ghost k = self.account_keys@[i as int]@;
        self.account_lamports[i] = lamports;
        self.balances = Ghost(self.balances@.insert(k, lamports));
        proof {
            assert forall|j: int| 0 <= j < self.account_keys.len() implies {
                &&& self.balances@.contains_key(#[trigger] self.account_keys@[j]@)
                &&& self.balances@[self.account_keys@[j]@] == self.account_lamports@[j]
            } by {
                if j != i {
                    assert(old(self).account_keys@[j]@ != old(self).account_keys@[i as int]@);
                }
            }
            assert forall|k2: Seq<u8>| #[trigger]
                self.balances@.contains_key(k2) implies exists|j: int|
                0 <= j < self.account_keys.len() && #[trigger] self.account_keys@[j]@ == k2 by {
                if k2 != k {
                    assert(old(self).balances@.contains_key(k2));
                    let j = choose|j: int|
                        0 <= j < old(self).account_keys.len()
                            && #[trigger] old(self).account_keys@[j]@ == k2;
                    assert(self.account_keys@[j]@ == k2);
                } else {
                    assert(self.account_keys@[i as int]@ == k2);
                }
            }
        }
    }

    fn insert_ticket(&mut self, address: PublicKey, ticket: Ticket)
        requires
            old(self).wf(),
            !old(self)@.tickets.contains_key(address@),
        ensures
            final(self).wf(),
            final(self)@ == (LedgerView {
                tickets: old(self)@.tickets.insert(address@, ticket@),
                ..old(self)@
            }),
    {
        let ghost tv = ticket@;
        self.ticket_addresses.push(address);
        self.tickets.push(ticket);
        self.records = Ghost(self.records@.insert(address@, tv));
        proof {
            let n = self.ticket_addresses.len() - 1;
            assert(self.ticket_addresses@[n as int]@ == address@);
            assert forall|i: int| 0 <= i < n implies old(self).ticket_addresses@[i]@
                != address@ by {
                assert(old(self).records@.contains_key(old(self).ticket_addresses@[i]@));
            }
            assert forall|i: int| 0 <= i < self.ticket_addresses.len() implies {
                &&& self.records@.contains_key(#[trigger] self.ticket_addresses@[i]@)
                &&& self.records@[self.ticket_addresses@[i]@] == self.tickets@[i]@
            } by {
                if i < n {
                    assert(old(self).records@.contains_key(old(self).ticket_addresses@[i]@));
                }
            }
            assert forall|i: int, j: int|
                0 <= i < self.ticket_addresses.len() && 0 <= j < self.ticket_addresses.len() && i
                    != j implies #[trigger] self.ticket_addresses@[i]@
                != #[trigger] self.ticket_addresses@[j]@ by {
                if i < n && j < n {
                    assert(old(self).ticket_addresses@[i]@ != old(self).ticket_addresses@[j]@);
                } else if i < n {
                    assert(old(self).records@.contains_key(old(self).ticket_addresses@[i]@));
                } else {
                    assert(old(self).records@.contains_key(old(self).ticket_addresses@[j]@));
                }
            }
            assert(self.account_keys == old(self).account_keys);
            assert forall|k: Seq<u8>| #[trigger]
                self.records@.contains_key(k) implies exists|i: int|
                0 <= i < self.ticket_addresses.len() && #[trigger] self.ticket_addresses@[i]@ == k by {
                if k != address@ {
                    let i = choose|i: int|
                        0 <= i < old(self).ticket_addresses.len()
                            && #[trigger] old(self).ticket_addresses@[i]@ == k;
                    assert(self.ticket_addresses@[i]@ == k);
                }
            }
        }
    }

    /// Index of the account of `key`, if it has one.
    fn find_account(&self, key: &PublicKey) -> (r: Option<usize>)
        requires
            self.wf(),
        ensures
            match r {
                Some(i) => i < self.account_keys.len() && self@.balances.contains_key(key@)
                    && self.account_keys@[i as int]@ == key@
                    && self@.balances[key@] == self.account_lamports@[i as int],
                None => !self@.balances.contains_key(key@),
            },
    {
        let r = find_key(&self.account_keys, key);
        proof {
            if r is None && self.balances@.contains_key(key@) {
                let i = choose|i: int|
                    0 <= i < self.account_keys.len() && #[trigger] self.account_keys@[i]@ == key@;
            }
        }
        r
    }

    /// Index of the ticket stored at `address`, if one is.
    fn find_ticket(&self, address: &PublicKey) -> (r: Option<usize>)
        requires
            self.wf(),
        ensures
            match r {
                Some(i) => i < self.tickets.len() && self@.tickets.contains_key(address@)
                    && self.ticket_addresses@[i as int]@ == address@,
                None => !self@.tickets.contains_key(address@),
            },
    {
        let r = find_key(&self.ticket_addresses, address);
        proof {
            if r is None && self.records@.contains_key(address@) {
                let i = choose|i: int|
                    0 <= i < self.ticket_addresses.len() && #[trigger] self.ticket_addresses@[i]@
                        == address@;
            }
        }
        r
    }
}

/// Issues a ticket: moves `price_lamports` from buyer to venue, unless it is
/// zero, and creates the record at the address derived from event id,
/// attendee and buyer, all in one step. Returns the record's address.
pub fn purchase_ticket(
    ledger: &mut Ledger,
    ctx: &PurchaseTicket,
    event_id: String,
    event_name: String,
    event_date: i64,
    venue: String,
    attendee_name: String,
    price_lamports: u64,
    cnft_asset_id: PublicKey,
    now: i64,
) -> (r: Result<PublicKey, TicketError>)
    requires
        old(ledger).wf(),
    ensures
        final(ledger).wf(),
        ({
            let out = issue_outcome(
                old(ledger)@,
                ctx.buyer@,
                ctx.venue@,
                event_id@,
                event_name@,
                event_date,
                venue@,
                attendee_name@,
                price_lamports,
                cnft_asset_id@,
                now,
            );
            &&& final(ledger)@ == out.1
            &&& match r {
                Ok(k) => out.0 == Ok::<Seq<u8>, TicketError>(k@),
                Err(e) => out.0 == Err::<Seq<u8>, TicketError>(e),
            }
        }),
{
    let config = ledger.config;
    if text_len(&event_id) > config.max_event_id_len || text_len(&event_name)
        > config.max_event_name_len || text_len(&venue) > config.max_venue_len || text_len(
        &attendee_name,
    ) > config.max_attendee_name_len {
        return Err(TicketError::InvalidFieldLength);
    }
    let (address, bump) = match derive_ticket_address(
        &config.program_id,
        &event_id,
        &attendee_name,
        &ctx.buyer,
    ) {
        Ok(found) => found,
        Err(e) => {
            return Err(e);
        },
    };
    if ledger.find_ticket(&address).is_some() {
        return Err(TicketError::AddressAlreadyExists);
    }
    if price_lamports > 0 {
        // Stage the whole transfer before touching any balance.
        let from = match ledger.find_account(&ctx.buyer) {
            Some(i) => i,
            None => {
                return Err(TicketError::InsufficientFunds);
            },
        };
        let from_before = ledger.account_lamports[from];
        if from_before < price_lamports {
            return Err(TicketError::InsufficientFunds);
        }
        let to = match ledger.find_account(&ctx.venue) {
            Some(j) => j,
            None => {
                return Err(TicketError::InvalidDestination);
            },
        };
        let from_after = from_before - price_lamports;
        let to_before = if to == from {
            from_after
        } else {
            ledger.account_lamports[to]
        };
        proof {
            if to != from {
                assert(ledger.account_keys@[to as int]@ != ledger.account_keys@[from as int]@);
            }
        }
        if to_before > u64::MAX - price_lamports {
            return Err(TicketError::InvalidDestination);
        }
        ledger.set_lamports(from, from_after);
        ledger.set_lamports(to, to_before + price_lamports);
    }
    let ticket = Ticket {
        event_id,
        event_name,
        event_date,
        venue,
        attendee_name,
        price_paid: price_lamports,
        ticket_status: TicketStatus::Active,
        cnft_asset_id,
        owner: ctx.buyer,
        created_at: now,
        bump,
    };
    ledger.insert_ticket(address, ticket);
    Ok(address)
}

/// Redeems the ticket at `ctx.ticket`: an active ticket becomes redeemed, and
/// no other field or account changes. Any signer may redeem.
pub fn redeem_ticket(ledger: &mut Ledger, ctx: &RedeemTicket) -> (r: Result<(), TicketError>)
    requires
        old(ledger).wf(),
    ensures
        final(ledger).wf(),
        (r, final(ledger)@) == redeem_outcome(old(ledger)@, ctx.ticket@),
{
    let i = match ledger.find_ticket(&ctx.ticket) {
        Some(i) => i,
        None => {
            return Err(TicketError::AccountNotFound);
        },
    };
    if !ledger.tickets[i].is_active() {
        return Err(TicketError::TicketNotActive);
    }
    let ghost old_ledger = *ledger;
    ledger.tickets[i].ticket_status = TicketStatus::Redeemed;
    proof {
        let k = ctx.ticket@;
        ledger.records@ = ledger.records@.insert(
            k,
            TicketView { ticket_status: TicketStatus::Redeemed, ..old_ledger.records@[k] },
        );
    }
    Ok(())
}

/// The record stored at `ctx.ticket`, for display or audit.
pub fn get_ticket_info<'a>(ledger: &'a Ledger, ctx: &GetTicketInfo) -> (r: Result<
    &'a Ticket,
    TicketError,
>)
    requires
        ledger.wf(),
    ensures
        match r {
            Ok(t) => ledger@.tickets.contains_key(ctx.ticket@) && t@ == ledger@.tickets[ctx.ticket@],
            Err(e) => !ledger@.tickets.contains_key(ctx.ticket@) && e == TicketError::AccountNotFound,
        },
{
    match ledger.find_ticket(&ctx.ticket) {
        Some(i) => Ok(&ledger.tickets[i]),
        None => Err(TicketError::AccountNotFound),
    }
}

} // verus!
