//! Giving addresses to controllers that wait behind the mapper.
//!
//! ENE DRAM controllers can boot behind a mapper at 0x77 instead of having
//! individual addresses. Each configured slot is given its stable address
//! before the bus is probed.
use super::identity::address_responds;
use super::identity::address_responds_run;
use super::identity::probe_address;
use super::identity::probe_address_run;
use crate::fault::BusError;
use crate::fault::Fault;
use crate::profile::EneDramProfile;
use crate::profile::DRAM_MAPPER_ADDRESS;
use crate::request::Access;
use crate::request::Request;
use crate::session::exchange;
use crate::session::outcome_view;
use crate::session::plain_view;
use crate::session::Session;
use crate::session::Stop;
use crate::session::Tape;
use vstd::prelude::*;

verus! {

pub const DRAM_MAPPER_SLOT_REGISTER: u16 = 0x80f8;

pub const DRAM_MAPPER_ADDRESS_REGISTER: u16 = 0x80f9;

/// Of the first `count` addresses those where nothing answers yet, with their
/// slots.
pub open spec fn assignments_run(tape: Tape, addresses: Seq<u16>, count: nat) -> (
    Result<Seq<(usize, u16)>, Stop<Access, Fault>>,
    Tape,
)
    decreases count,
{
    if count == 0 {
        (Ok(seq![]), tape)
    } else {
        match assignments_run(tape, addresses, (count - 1) as nat) {
            (Ok(assignments), before) => {
                let address = addresses[count - 1];
                match address_responds_run(before, address) {
                    (Ok(true), after) => (Ok(assignments), after),
                    (Ok(false), after) => (
                        Ok(assignments.push(((count - 1) as usize, address))),
                        after,
                    ),
                    (Err(stop), after) => (Err(stop), after),
                }
            },
            (Err(stop), before) => (Err(stop), before),
        }
    }
}

proof fn lemma_assignments_stop(tape: Tape, addresses: Seq<u16>, shorter: nat, count: nat)
    requires
        shorter <= count,
        assignments_run(tape, addresses, shorter).0 is Err,
    ensures
        assignments_run(tape, addresses, count) == assignments_run(tape, addresses, shorter),
    decreases count,
{
    if shorter < count {
        lemma_assignments_stop(tape, addresses, shorter, (count - 1) as nat);
    }
}

/// Finds the slots whose address nobody has yet.
pub fn mapper_assignments(session: &mut Session, addresses: &[u16]) -> (result: Result<
    Vec<(usize, u16)>,
    Stop<Request, BusError>,
>)
    ensures
        (outcome_view(result), final(session)@) == assignments_run(
            old(session)@,
            addresses@,
            addresses@.len(),
        ),
{
    let ghost start = session@;
    let mut assignments: Vec<(usize, u16)> = Vec::new();
    let mut slot: usize = 0;
    while slot < addresses.len()
        invariant
            slot <= addresses@.len(),
            start == old(session)@,
            assignments_run(start, addresses@, slot as nat) == (
                Ok::<Seq<(usize, u16)>, Stop<Access, Fault>>(assignments@),
                session@,
            ),
        decreases addresses@.len() - slot,
    {
        let address: u16 = addresses[slot];
        match address_responds(session, address) {
            Ok(true) => {},
            Ok(false) => {
                assignments.push((slot, address));
            },
            Err(stop) => {
                proof {
                    lemma_assignments_stop(
                        start,
                        addresses@,
                        (slot + 1) as nat,
                        addresses@.len(),
                    );
                }
                return Err(stop);
            },
        }
        slot = slot + 1;
    }
    Ok(assignments)
}

/// The byte that names a slot to the mapper.
pub open spec fn slot_byte(slot: usize) -> u8 {
    (slot % 256) as u8
}

/// The byte that names a 7-bit address to the mapper: the address in the upper
/// seven bits.
pub open spec fn address_byte(address: u16) -> u8 {
    ((address * 2) % 256) as u8
}

/// Writes a register of the mapper.
pub open spec fn mapper_write(register: u16, value: u8) -> Access {
    Access::WriteRegister { address: DRAM_MAPPER_ADDRESS, register, value }
}

/// Hands out the assignments from `index` on, as long as the mapper answers.
pub open spec fn assign_run(tape: Tape, assignments: Seq<(usize, u16)>, index: int) -> (
    Result<(), Stop<Access, Fault>>,
    Tape,
)
    decreases assignments.len() - index,
{
    if index >= assignments.len() {
        (Ok(()), tape)
    } else {
        let (slot, address) = assignments[index];
        match address_responds_run(tape, DRAM_MAPPER_ADDRESS) {
            (Ok(true), waiting) => match exchange(
                waiting,
                mapper_write(DRAM_MAPPER_SLOT_REGISTER, slot_byte(slot)),
            ) {
                (Ok(_), chosen) => match exchange(
                    chosen,
                    mapper_write(DRAM_MAPPER_ADDRESS_REGISTER, address_byte(address)),
                ) {
                    (Ok(_), mapped) => assign_run(mapped, assignments, index + 1),
                    (Err(stop), mapped) => (Err(stop), mapped),
                },
                (Err(stop), chosen) => (Err(stop), chosen),
            },
            (Ok(false), waiting) => (Ok(()), waiting),
            (Err(stop), waiting) => (Err(stop), waiting),
        }
    }
}

pub open spec fn remap_run(tape: Tape, profile: EneDramProfile) -> (
    Result<(), Stop<Access, Fault>>,
    Tape,
) {
    match probe_address_run(tape, DRAM_MAPPER_ADDRESS, profile) {
        (Ok(Some(_)), found) => match assignments_run(
            found,
            profile.addresses@,
            profile.addresses@.len(),
        ) {
            (Ok(assignments), listed) => assign_run(listed, assignments, 0),
            (Err(stop), listed) => (Err(stop), listed),
        },
        (Ok(None), found) => (Ok(()), found),
        (Err(stop), found) => (Err(stop), found),
    }
}

/// Gives the addresses of the profile to the controllers behind the mapper. The
/// mapper is written only if it identifies itself as a known controller.
pub fn remap_on_transport(session: &mut Session, profile: &EneDramProfile) -> (result: Result<
    (),
    Stop<Request, BusError>,
>)
    ensures
        (plain_view(result), final(session)@) == remap_run(old(session)@, *profile),
{
    if probe_address(session, DRAM_MAPPER_ADDRESS, profile)?.is_none() {
        return Ok(());
    }
    let assignments: Vec<(usize, u16)> = mapper_assignments(session, profile.addresses)?;
    let ghost expected = assign_run(session@, assignments@, 0);
    let mut i: usize = 0;
    while i < assignments.len()
        invariant
            i <= assignments@.len(),
            remap_run(old(session)@, *profile) == expected,
            assign_run(session@, assignments@, i as int) == expected,
        decreases assignments@.len() - i,
    {
        if !address_responds(session, DRAM_MAPPER_ADDRESS)? {
            return Ok(());
        }
        let (slot, address): (usize, u16) = assignments[i];
        session.exchange(
            Request::WriteRegister {
                address: DRAM_MAPPER_ADDRESS,
                register: DRAM_MAPPER_SLOT_REGISTER,
                value: (slot % 256) as u8,
            },
        )?;
        session.exchange(
            Request::WriteRegister {
                address: DRAM_MAPPER_ADDRESS,
                register: DRAM_MAPPER_ADDRESS_REGISTER,
                value: (address % 128) as u8 * 2,
            },
        )?;
        i = i + 1;
    }
    Ok(())
}

} // verus!
