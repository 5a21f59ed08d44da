use vstd::prelude::*;
use vstd::utf8::encode_utf8;

use crate::key::PublicKey;
use crate::ticket::TicketError;

verus! {

/// Most seeds that one address derivation accepts.
pub const MAX_SEEDS: usize = 16;

/// Most bytes in one seed of an address derivation.
pub const MAX_SEED_LEN: usize = 32;

/// What the outside derivation yields for `seeds` under `program_id`: the
/// address, or `None` where the hash of the seeds lies on the curve.
pub uninterp spec fn program_address(seeds: Seq<Seq<u8>>, program_id: Seq<u8>) -> Option<Seq<u8>>;

pub open spec fn seeds_within_limits(seeds: Seq<Seq<u8>>) -> bool {
    &&& seeds.len() <= MAX_SEEDS
    &&& forall|i: int| 0 <= i < seeds.len() ==> #[trigger] seeds[i].len() <= MAX_SEED_LEN
}

/// Relies on `Pubkey::create_program_address` of solana-program (re-exported by
/// anchor-lang): it refuses more than 16 seeds or a seed over 32 bytes, and
/// otherwise hashes the seeds with the program id, failing exactly when the
/// hash is a curve point. Its result depends on its arguments alone.
#[verifier::external_body]
fn create_program_address(seeds: &Vec<Vec<u8>>, program_id: &PublicKey) -> (r: Option<PublicKey>)
    ensures
        match r {
            Some(k) => seeds_within_limits(seeds.deep_view())
                && program_address(seeds.deep_view(), program_id@) == Some(k@),
            None => !seeds_within_limits(seeds.deep_view())
                || program_address(seeds.deep_view(), program_id@) is None,
        },
{
    let parts: Vec<&[u8]> = seeds.iter().map(|s| s.as_slice()).collect();
    let id = anchor_lang::prelude::Pubkey::new_from_array(program_id.bytes);
    match anchor_lang::prelude::Pubkey::create_program_address(&parts, &id) {
        Ok(k) => Some(PublicKey { bytes: k.to_bytes() }),
        Err(_) => None,
    }
}

/// The first seed of every ticket address: the ASCII bytes of "ticket".
pub open spec fn ticket_seed_prefix() -> Seq<u8> {
    seq![116u8, 105u8, 99u8, 107u8, 101u8, 116u8]
}

/// The seeds of a ticket address: prefix, event id, attendee, owner, bump.
pub open spec fn ticket_seeds(event_id: Seq<u8>, attendee: Seq<u8>, owner: Seq<u8>, bump: u8) -> Seq<Seq<u8>> {
    seq![ticket_seed_prefix(), event_id, attendee, owner, seq![bump]]
}

/// The address that one bump seed gives, if any.
pub open spec fn address_for_bump(
    program_id: Seq<u8>,
    event_id: Seq<u8>,
    attendee: Seq<u8>,
    owner: Seq<u8>,
    bump: u8,
) -> Option<Seq<u8>> {
    program_address(ticket_seeds(event_id, attendee, owner, bump), program_id)
}

/// `bump` is the largest bump seed in 1..=255 that gives an address.
pub open spec fn is_canonical_bump(
    program_id: Seq<u8>,
    event_id: Seq<u8>,
    attendee: Seq<u8>,
    owner: Seq<u8>,
    bump: u8,
) -> bool {
    &&& 1 <= bump
    &&& address_for_bump(program_id, event_id, attendee, owner, bump) is Some
    &&& forall|b: u8| bump < b ==> #[trigger] address_for_bump(program_id, event_id, attendee, owner, b) is None
}

/// Whether event id and attendee fit into one seed each (the owner always does).
pub open spec fn seeds_fit(event_id: Seq<u8>, attendee: Seq<u8>) -> bool {
    event_id.len() <= MAX_SEED_LEN && attendee.len() <= MAX_SEED_LEN
}

/// The address and bump seed of the ticket of `(event_id, attendee, owner)`.
pub open spec fn ticket_address(
    program_id: Seq<u8>,
    event_id: Seq<char>,
    attendee: Seq<char>,
    owner: Seq<u8>,
) -> Result<(Seq<u8>, u8), TicketError> {
    let e = encode_utf8(event_id);
    let a = encode_utf8(attendee);
    if !seeds_fit(e, a) {
        Err(TicketError::InvalidFieldLength)
    } else if exists|b: u8| is_canonical_bump(program_id, e, a, owner, b) {
        let b = choose|b: u8| is_canonical_bump(program_id, e, a, owner, b);
        Ok((address_for_bump(program_id, e, a, owner, b)->Some_0, b))
    } else {
        Err(TicketError::AddressSpaceExhausted)
    }
}

/// Two canonical bump seeds of the same inputs are the same.
proof fn lemma_canonical_bump_unique(
    program_id: Seq<u8>,
    event_id: Seq<u8>,
    attendee: Seq<u8>,
    owner: Seq<u8>,
    b1: u8,
    b2: u8,
)
    requires
        is_canonical_bump(program_id, event_id, attendee, owner, b1),
        is_canonical_bump(program_id, event_id, attendee, owner, b2),
    ensures
        b1 == b2,
{
    if b1 < b2 {
        assert(address_for_bump(program_id, event_id, attendee, owner, b2) is None);
    } else if b2 < b1 {
        assert(address_for_bump(program_id, event_id, attendee, owner, b1) is None);
    }
}

fn text_bytes(s: &String) -> (r: Vec<u8>)
    ensures
        r@ == encode_utf8(s@),
{
    vstd::slice::slice_to_vec(s.as_str().as_bytes())
}

/// Derives the address of the ticket of `(event_id, attendee_name, owner)`,
/// searching the bump seed from 255 down to 1.
pub fn derive_ticket_address(
    program_id: &PublicKey,
    event_id: &String,
    attendee_name: &String,
    owner: &PublicKey,
) -> (r: Result<(PublicKey, u8), TicketError>)
    ensures
        match r {
            Ok((k, b)) => ticket_address(program_id@, event_id@, attendee_name@, owner@) == Ok::<(Seq<u8>, u8), TicketError>((k@, b)),
            Err(e) => ticket_address(program_id@, event_id@, attendee_name@, owner@) == Err::<(Seq<u8>, u8), TicketError>(e),
        },
{
    let e = text_bytes(event_id);
    let a = text_bytes(attendee_name);
    if e.len() > MAX_SEED_LEN || a.len() > MAX_SEED_LEN {
        return Err(TicketError::InvalidFieldLength);
    }
    let ghost pid = program_id@;
    let ghost o = owner@;
    let mut bump: u8 = 255;
    while bump >= 1
        invariant
            seeds_fit(e@, a@),
            e@ == encode_utf8(event_id@),
            a@ == encode_utf8(attendee_name@),
            pid == program_id@,
            o == owner@,
            forall|b: u8| bump < b ==> #[trigger] address_for_bump(pid, e@, a@, o, b) is None,
        decreases bump,
    {
        let prefix: Vec<u8> = vec![116u8, 105u8, 99u8, 107u8, 101u8, 116u8];
        let e1 = e.clone();
        let a1 = a.clone();
        let o1 = vstd::slice::slice_to_vec(owner.bytes.as_slice());
        let b1: Vec<u8> = vec![bump];
        proof {
            assert(prefix@ =~= ticket_seed_prefix());
            assert(e1@ =~= e@);
            assert(a1@ =~= a@);
            assert(b1@ =~= seq![bump]);
            assert(o1@ =~= o);
            assert(prefix.deep_view() =~= prefix@);
            assert(e1.deep_view() =~= e1@);
            assert(a1.deep_view() =~= a1@);
            assert(o1.deep_view() =~= o1@);
            assert(b1.deep_view() =~= b1@);
        }
        let seeds: Vec<Vec<u8>> = vec![prefix, e1, a1, o1, b1];
        proof {
            assert(seeds.deep_view() =~= ticket_seeds(e@, a@, o, bump));
            assert(seeds_within_limits(seeds.deep_view()));
        }
        match create_program_address(&seeds, program_id) {
            Some(k) => {
                proof {
                    assert(is_canonical_bump(pid, e@, a@, o, bump));
                    let c = choose|b: u8| is_canonical_bump(pid, e@, a@, o, b);
                    lemma_canonical_bump_unique(pid, e@, a@, o, bump, c);
                }
                return Ok((k, bump));
            },
            None => {},
        }
        bump = bump - 1;
    }
    proof {
        assert forall|b: u8| !is_canonical_bump(pid, e@, a@, o, b) by {
            if 1 <= b {
                assert(address_for_bump(pid, e@, a@, o, b) is None);
            }
        }
    }
    Err(TicketError::AddressSpaceExhausted)
}

} // verus!
