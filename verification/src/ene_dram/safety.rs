//! What the procedures may ask of a bus, whatever the hardware answers.
//!
//! A procedure that stops to ask for an access has been given all answers
//! before it. A statement about the access that any list of answers leads to is
//! therefore a statement about every access of every run.
use super::adapter::bus_path;
use super::adapter::by_entry;
use super::adapter::entries;
use super::adapter::is_configured;
use super::adapter::AdapterInfo;
use super::diagnostics::diagnose_address_run;
use super::diagnostics::diagnose_addresses_run;
use super::diagnostics::diagnose_bus_run;
use super::diagnostics::diagnose_run;
use super::diagnostics::diagnosed_addresses;
use super::diagnostics::AddressFinding;
use super::discovery::examine_run;
use super::discovery::failure_lines;
use super::discovery::prepare_run;
use super::discovery::probe_bus_run;
use super::discovery::remap_bus_run;
use super::discovery::search_run;
use super::discovery::set_all_run;
use super::discovery::set_prepared_run;
use super::discovery::DramFault;
use super::discovery::Prepared;
use super::identity::address_responds_run;
use super::identity::device_turns;
use super::identity::identified_at;
use super::identity::is_configured_device;
use super::identity::probe_address_run;
use super::identity::probe_keeps_the_order_of_the_profile;
use super::identity::probe_reports_configured_devices;
use super::identity::probe_run;
use super::identity::read_bytes_run;
use super::identity::CONFIG_TABLE_LENGTH;
use super::identity::CONFIG_TABLE_REGISTER;
use super::identity::DEVICE_NAME_LENGTH;
use super::identity::DEVICE_NAME_REGISTER;
use super::identity::EneDramDevice;
use super::identity::Report;
use super::lighting::colors_device;
use super::lighting::colors_one_of;
use super::lighting::only_given_devices_are_written;
use super::lighting::write_access;
use super::lighting::WriteOutcome;
use super::mapper::address_byte;
use super::mapper::assign_run;
use super::mapper::assignments_run;
use super::mapper::mapper_write;
use super::mapper::remap_run;
use super::mapper::slot_byte;
use super::mapper::DRAM_MAPPER_ADDRESS_REGISTER;
use super::mapper::DRAM_MAPPER_SLOT_REGISTER;
use super::replay::examine_follows;
use crate::controller::direct_writes;
use crate::controller::direct_writes_cover_the_color_memory;
use crate::fault::Fault;
use crate::fault::FaultKind;
use crate::order::sorted_order;
use crate::order::sorted_order_exists;
use crate::profile::is_dram_address;
use crate::profile::profile_error;
use crate::profile::profile_is_valid_without_error;
use crate::profile::valid_controller;
use crate::profile::valid_profile;
use crate::profile::EneDramProfile;
use crate::profile::DRAM_MAPPER_ADDRESS;
use crate::report::all_conclusive;
use crate::report::is_conclusive;
use crate::request::Access;
use crate::request::BusAccess;
use crate::session::exchange;
use crate::session::Stop;
use crate::session::Tape;
use crate::smbus::is_possible;
use vstd::prelude::*;

verus! {

/// Whether an access reads from `address` and changes nothing.
pub open spec fn reads_from(access: Access, address: u16) -> bool {
    access.only_reads() && access.address() == address
}

proof fn lemma_read_bytes_reads(tape: Tape, address: u16, register: u16, count: nat)
    ensures
        read_bytes_run(tape, address, register, count).0 matches Err(Stop::Pending(access))
            ==> reads_from(access, address),
    decreases count,
{
    if count > 0 {
        lemma_read_bytes_reads(tape, address, register, (count - 1) as nat);
    }
}

/// Looking for a controller at an address only reads, and only there.
pub proof fn probing_an_address_reads_there(tape: Tape, address: u16, profile: EneDramProfile)
    ensures
        probe_address_run(tape, address, profile).0 matches Err(Stop::Pending(access))
            ==> reads_from(access, address),
{
    let (_, present) = address_responds_run(tape, address);
    lemma_read_bytes_reads(present, address, DEVICE_NAME_REGISTER, DEVICE_NAME_LENGTH as nat);
    let (_, named) = read_bytes_run(
        present,
        address,
        DEVICE_NAME_REGISTER,
        DEVICE_NAME_LENGTH as nat,
    );
    lemma_read_bytes_reads(named, address, CONFIG_TABLE_REGISTER, CONFIG_TABLE_LENGTH as nat);
}

/// Whether an access reads from an address of the profile and changes nothing.
pub open spec fn reads_configured(access: Access, profile: EneDramProfile) -> bool {
    access.only_reads() && profile.addresses@.contains(access.address())
}

/// Whether an access reads from an address of the profile or from the mapper
/// and changes nothing.
pub open spec fn reads_known(access: Access, profile: EneDramProfile) -> bool {
    reads_configured(access, profile) || reads_from(access, DRAM_MAPPER_ADDRESS)
}

/// A probe only reads, and only from the addresses of the profile.
pub proof fn probe_reads_configured_addresses(tape: Tape, profile: EneDramProfile, count: nat)
    requires
        count <= profile.addresses@.len(),
    ensures
        probe_run(tape, profile, count).0 matches Err(access) ==> reads_configured(
            access,
            profile,
        ),
    decreases count,
{
    if count > 0 {
        let before = (count - 1) as nat;
        probe_reads_configured_addresses(tape, profile, before);
        let (_, middle) = probe_run(tape, profile, before);
        probing_an_address_reads_there(middle, profile.addresses@[count - 1], profile);
    }
}

/// Diagnosing an address only reads, and only there.
pub proof fn diagnosing_an_address_reads_there(
    tape: Tape,
    address: u16,
    profile: EneDramProfile,
)
    ensures
        diagnose_address_run(tape, address, profile).0 matches Err(access) ==> reads_from(
            access,
            address,
        ),
{
    let (_, present) = address_responds_run(tape, address);
    lemma_read_bytes_reads(present, address, DEVICE_NAME_REGISTER, DEVICE_NAME_LENGTH as nat);
    let (_, named) = read_bytes_run(
        present,
        address,
        DEVICE_NAME_REGISTER,
        DEVICE_NAME_LENGTH as nat,
    );
    lemma_read_bytes_reads(named, address, CONFIG_TABLE_REGISTER, CONFIG_TABLE_LENGTH as nat);
}

proof fn lemma_diagnose_addresses_reads(tape: Tape, profile: EneDramProfile, count: nat)
    requires
        count <= diagnosed_addresses(profile).len(),
    ensures
        diagnose_addresses_run(tape, profile, count).0 matches Err(access) ==> reads_known(
            access,
            profile,
        ),
    decreases count,
{
    if count > 0 {
        let before = (count - 1) as nat;
        lemma_diagnose_addresses_reads(tape, profile, before);
        let (_, middle) = diagnose_addresses_run(tape, profile, before);
        let address = diagnosed_addresses(profile)[count - 1];
        diagnosing_an_address_reads_there(middle, address, profile);
        if before < profile.addresses@.len() {
            assert(profile.addresses@[before as int] == address);
        }
    }
}

/// Whether `bus` is the bus behind one of the adapters that the profile asks for.
pub open spec fn is_configured_bus(
    bus: Seq<char>,
    adapters: Seq<AdapterInfo>,
    profile: EneDramProfile,
) -> bool {
    exists|i: int|
        0 <= i < adapters.len() && bus == bus_path(adapters[i].entry) && is_configured(
            (#[trigger] adapters[i]).name,
            profile.adapter_name_patterns@,
        )
}

/// Whether an access opens the bus of a configured adapter, or reads from an
/// address of the profile or from the mapper.
pub open spec fn looks_around(
    access: BusAccess,
    adapters: Seq<AdapterInfo>,
    profile: EneDramProfile,
) -> bool {
    match access {
        BusAccess::Open { bus } => is_configured_bus(bus, adapters, profile),
        BusAccess::Access(access) => reads_known(access, profile),
    }
}

/// A diagnosis changes neither colors nor address mappings. It opens only the
/// buses of configured adapters, and there it only reads, from the addresses of
/// the profile and from the mapper.
pub proof fn diagnose_changes_nothing(
    tape: Tape,
    profile: EneDramProfile,
    adapters: Seq<AdapterInfo>,
    count: nat,
)
    requires
        count <= adapters.len(),
    ensures
        diagnose_run(tape, profile, adapters, count).0 matches Err(access) ==> looks_around(
            access,
            adapters,
            profile,
        ),
    decreases count,
{
    if count > 0 {
        let before = (count - 1) as nat;
        diagnose_changes_nothing(tape, profile, adapters, before);
        let (_, middle) = diagnose_run(tape, profile, adapters, before);
        let adapter = adapters[count - 1];
        let (_, opened) = exchange(middle, BusAccess::Open { bus: bus_path(adapter.entry) });
        lemma_diagnose_addresses_reads(opened, profile, diagnosed_addresses(profile).len());
    }
}

/// Sorting does not change which buses are configured.
pub proof fn sorting_keeps_configured_buses(
    bus: Seq<char>,
    adapters: Seq<AdapterInfo>,
    profile: EneDramProfile,
)
    requires
        adapters.len() <= usize::MAX,
        is_configured_bus(bus, by_entry(adapters), profile),
    ensures
        is_configured_bus(bus, adapters, profile),
{
    sorted_order_exists(entries(adapters));
    let order = sorted_order(entries(adapters));
    let sorted = by_entry(adapters);
    let i = choose|i: int|
        0 <= i < sorted.len() && bus == bus_path(sorted[i].entry) && is_configured(
            (#[trigger] sorted[i]).name,
            profile.adapter_name_patterns@,
        );
    assert(order[i] < entries(adapters).len());
    assert(adapters[order[i] as int] == sorted[i]);
}

/// Whether an access writes to the mapper's own registers.
pub open spec fn assigns_address(access: Access) -> bool {
    access matches Access::WriteRegister { address, register, .. } && address
        == DRAM_MAPPER_ADDRESS && (register == DRAM_MAPPER_SLOT_REGISTER || register
        == DRAM_MAPPER_ADDRESS_REGISTER)
}

proof fn lemma_assignments_read(tape: Tape, addresses: Seq<u16>, count: nat)
    requires
        count <= addresses.len(),
    ensures
        assignments_run(tape, addresses, count).0 matches Err(Stop::Pending(access))
            ==> access.only_reads() && addresses.contains(access.address()),
    decreases count,
{
    if count > 0 {
        lemma_assignments_read(tape, addresses, (count - 1) as nat);
        assert(addresses.contains(addresses[count - 1]));
    }
}

proof fn lemma_assign_writes_mapper(tape: Tape, assignments: Seq<(usize, u16)>, index: int)
    ensures
        assign_run(tape, assignments, index).0 matches Err(Stop::Pending(access)) ==> reads_from(
            access,
            DRAM_MAPPER_ADDRESS,
        ) || assigns_address(access),
    decreases assignments.len() - index,
{
    if index < assignments.len() {
        let (slot, address) = assignments[index];
        let (_, waiting) = address_responds_run(tape, DRAM_MAPPER_ADDRESS);
        let (_, chosen) = exchange(
            waiting,
            mapper_write(DRAM_MAPPER_SLOT_REGISTER, slot_byte(slot)),
        );
        let (_, mapped) = exchange(
            chosen,
            mapper_write(DRAM_MAPPER_ADDRESS_REGISTER, address_byte(address)),
        );
        lemma_assign_writes_mapper(mapped, assignments, index + 1);
    }
}

/// Mapping addresses writes nothing but the mapper's two registers, and those
/// only after the mapper has identified itself as a controller of the profile.
/// All else that it does is reading, from the addresses of the profile and from
/// the mapper.
pub proof fn unknown_mapper_is_never_written(tape: Tape, profile: EneDramProfile)
    ensures
        remap_run(tape, profile).0 matches Err(Stop::Pending(access)) ==> {
            ||| reads_known(access, profile)
            ||| {
                &&& assigns_address(access)
                &&& probe_address_run(tape, DRAM_MAPPER_ADDRESS, profile).0 matches Ok(Some(_))
            }
        },
{
    probing_an_address_reads_there(tape, DRAM_MAPPER_ADDRESS, profile);
    let (_, found) = probe_address_run(tape, DRAM_MAPPER_ADDRESS, profile);
    let addresses = profile.addresses@;
    lemma_assignments_read(found, addresses, addresses.len());
    let (listed, after) = assignments_run(found, addresses, addresses.len());
    if let Ok(assignments) = listed {
        lemma_assign_writes_mapper(after, assignments, 0);
    }
}

/// Whether nothing answered at the address that was asked for first.
pub open spec fn found_absent(tape: Tape, ahead: int) -> bool {
    tape.answers[tape.used + ahead] matches Err(fault) && fault.kind == FaultKind::Absent
}

/// The assignments are those slots, in order, at whose address nothing
/// answered, each with its own address.
pub proof fn assignments_are_the_unanswered_slots(tape: Tape, addresses: Seq<u16>, count: nat)
    requires
        count <= addresses.len() <= usize::MAX,
    ensures
        assignments_run(tape, addresses, count).0 matches Ok(assignments) ==> {
            &&& assignments_run(tape, addresses, count).1 == (Tape {
                answers: tape.answers,
                used: tape.used + count,
            })
            &&& forall|k: int|
                0 <= k < assignments.len() ==> {
                    let (slot, address) = #[trigger] assignments[k];
                    slot < count && address == addresses[slot as int] && found_absent(
                        tape,
                        slot as int,
                    )
                }
            &&& forall|j: int, k: int|
                0 <= j < k < assignments.len() ==> (#[trigger] assignments[j]).0 < (
                #[trigger] assignments[k]).0
            &&& forall|slot: int|
                0 <= slot < count && #[trigger] found_absent(tape, slot) ==> assignments.contains(
                    (slot as usize, addresses[slot]),
                )
        },
    decreases count,
{
    if count > 0 {
        let before = (count - 1) as nat;
        assignments_are_the_unanswered_slots(tape, addresses, before);
        if let Ok(shorter) = assignments_run(tape, addresses, before).0 {
            if let Ok(assignments) = assignments_run(tape, addresses, count).0 {
                assert forall|slot: int|
                    0 <= slot < count && #[trigger] found_absent(
                        tape,
                        slot,
                    ) implies assignments.contains((slot as usize, addresses[slot])) by {
                    if slot < before {
                        let entry = (slot as usize, addresses[slot]);
                        let k = choose|k: int| 0 <= k < shorter.len() && shorter[k] == entry;
                        assert(assignments[k] == entry);
                    } else {
                        assert(assignments.last() == (slot as usize, addresses[slot]));
                    }
                }
            }
        }
    }
}

/// In a valid profile every slot and every address reaches the mapper whole:
/// the slot's own number, and the address in the upper seven bits.
pub proof fn mapper_bytes_are_whole(profile: EneDramProfile, slot: usize)
    requires
        valid_profile(profile),
        slot < profile.addresses@.len(),
    ensures
        slot_byte(slot) == slot,
        address_byte(profile.addresses@[slot as int]) == profile.addresses@[slot as int] * 2,
{
}

/// Whether the device identified itself in its own turn of a probe that began
/// at `tape`: when its address was probed, something was present there and gave
/// the version and the number of LEDs that its controller has in the profile.
pub open spec fn identified_in_turn(
    device: EneDramDevice,
    tape: Tape,
    profile: EneDramProfile,
) -> bool {
    exists|turn: int|
        0 <= turn < profile.addresses@.len() && #[trigger] identified_at(
            device,
            tape,
            profile,
            turn,
        )
}

/// Every device that a probe reports identified itself in its own turn.
pub proof fn reported_devices_were_identified(tape: Tape, profile: EneDramProfile)
    ensures
        probe_run(tape, profile, profile.addresses@.len()).0 matches Ok(report) ==> forall|i: int|
            0 <= i < report.devices.len() ==> identified_in_turn(
                #[trigger] report.devices[i],
                tape,
                profile,
            ),
{
    let count = profile.addresses@.len();
    probe_keeps_the_order_of_the_profile(tape, profile, count);
    if let Ok(report) = probe_run(tape, profile, count).0 {
        assert forall|i: int| 0 <= i < report.devices.len() implies identified_in_turn(
            #[trigger] report.devices[i],
            tape,
            profile,
        ) by {
            let turn = device_turns(tape, profile, count)[i];
            assert(identified_at(report.devices[i], tape, profile, turn));
        }
    }
}

/// What a search for controllers may ask for: to open the bus of a configured
/// adapter, to read from an address of the profile or from the mapper, or to
/// write the mapper's two registers.
pub open spec fn searches(
    access: BusAccess,
    adapters: Seq<AdapterInfo>,
    profile: EneDramProfile,
) -> bool {
    match access {
        BusAccess::Open { bus } => is_configured_bus(bus, adapters, profile),
        BusAccess::Access(access) => reads_known(access, profile) || assigns_address(access),
    }
}

/// The adapter whose bus a search from `index` on examined last, and the tape
/// with which that examination began. There is none where the position is past
/// the last adapter.
pub open spec fn last_examined(
    tape: Tape,
    profile: EneDramProfile,
    adapters: Seq<AdapterInfo>,
    index: int,
) -> (int, Tape)
    decreases adapters.len() - index,
{
    if index >= adapters.len() {
        (index, tape)
    } else if !is_configured(adapters[index].name, profile.adapter_name_patterns@) {
        last_examined(tape, profile, adapters, index + 1)
    } else {
        let (result, after) = examine_run(tape, bus_path(adapters[index].entry), profile);
        if result matches Ok(report) && report.devices.len() == 0 {
            last_examined(after, profile, adapters, index + 1)
        } else {
            (index, tape)
        }
    }
}

/// The tape with which the probe begins where the examination of a bus began at
/// `start`: the addresses have been mapped and the bus has been opened again.
pub open spec fn probe_start(start: Tape, bus: Seq<char>, profile: EneDramProfile) -> Tape {
    exchange(remap_bus_run(start, bus, profile).1, BusAccess::Open { bus }).1
}

/// Whether an access of an examination that began at `start` leaves an unknown
/// mapper alone. One that writes to the mapper is asked for while addresses are
/// mapped, after the bus was opened, and after the first thing that was done on
/// the bus identified a controller of the profile at the mapper's address.
pub open spec fn spares_unknown_mapper(
    access: BusAccess,
    start: Tape,
    bus: Seq<char>,
    profile: EneDramProfile,
) -> bool {
    (access matches BusAccess::Access(write) && assigns_address(write)) ==> {
        let (opening, opened) = exchange(start, BusAccess::Open { bus });
        &&& remap_bus_run(start, bus, profile).0 == Err::<(), Stop<BusAccess, Fault>>(
            Stop::Pending(access),
        )
        &&& opening is Ok
        &&& probe_address_run(opened, DRAM_MAPPER_ADDRESS, profile).0 matches Ok(Some(_))
    }
}

proof fn lemma_examine_searches(
    tape: Tape,
    bus: Seq<char>,
    adapters: Seq<AdapterInfo>,
    profile: EneDramProfile,
)
    requires
        is_configured_bus(bus, adapters, profile),
    ensures
        examine_run(tape, bus, profile).0 matches Err(Stop::Pending(access)) ==> searches(
            access,
            adapters,
            profile,
        ) && spares_unknown_mapper(access, tape, bus, profile),
{
    let (_, opened) = exchange(tape, BusAccess::Open { bus });
    unknown_mapper_is_never_written(opened, profile);
    let reopened = probe_start(tape, bus, profile);
    probe_reads_configured_addresses(reopened, profile, profile.addresses@.len());
}

proof fn lemma_search_searches(
    tape: Tape,
    profile: EneDramProfile,
    adapters: Seq<AdapterInfo>,
    index: int,
    failures: Seq<Seq<char>>,
)
    requires
        0 <= index,
    ensures
        ({
            let result = search_run(tape, profile, adapters, index, failures).0;
            let (at, start) = last_examined(tape, profile, adapters, index);
            let bus = bus_path(adapters[at].entry);
            &&& start.answers == tape.answers
            &&& start.used >= tape.used
            &&& result matches Err(Stop::Pending(access)) ==> {
                &&& is_at_configured(at, adapters, profile)
                &&& examine_run(start, bus, profile).0 == Err::<Report, Stop<BusAccess, Fault>>(
                    Stop::Pending(access),
                )
                &&& searches(access, adapters, profile)
                &&& spares_unknown_mapper(access, start, bus, profile)
            }
            &&& result matches Ok(prepared) ==> {
                &&& is_at_configured(at, adapters, profile)
                &&& prepared.bus == bus
                &&& examine_run(start, bus, profile).0 == Ok::<Report, Stop<BusAccess, Fault>>(
                    Report { devices: prepared.devices, failures: prepared.probe_failures },
                )
                &&& is_prepared(prepared, probe_start(start, bus, profile), profile)
            }
        }),
    decreases adapters.len() - index,
{
    if index < adapters.len() {
        let bus = bus_path(adapters[index].entry);
        let (_, after) = examine_run(tape, bus, profile);
        if !is_configured(adapters[index].name, profile.adapter_name_patterns@) {
            lemma_search_searches(tape, profile, adapters, index + 1, failures);
        } else {
            assert(is_configured_bus(bus, adapters, profile));
            lemma_examine_searches(tape, bus, adapters, profile);
            if let Ok(report) = examine_run(tape, bus, profile).0 {
                let opened = probe_start(tape, bus, profile);
                probe_reports_configured_devices(opened, profile, profile.addresses@.len());
                reported_devices_were_identified(opened, profile);
                examine_follows(tape, bus, profile);
                lemma_search_searches(
                    after,
                    profile,
                    adapters,
                    index + 1,
                    failures + failure_lines(bus, report.failures),
                );
            }
        }
    }
}

/// Whether the adapter at this position exists and is one that the profile asks
/// for.
pub open spec fn is_at_configured(
    at: int,
    adapters: Seq<AdapterInfo>,
    profile: EneDramProfile,
) -> bool {
    0 <= at < adapters.len() && is_configured(
        adapters[at].name,
        profile.adapter_name_patterns@,
    )
}

/// Whether what was prepared holds at least one device, nothing but devices and
/// failures of the profile, and no device that did not identify itself in its
/// own turn of the probe that began at `probed`.
pub open spec fn is_prepared(prepared: Prepared, probed: Tape, profile: EneDramProfile) -> bool {
    &&& prepared.devices.len() > 0
    &&& prepared.devices.len() + prepared.probe_failures.len() <= profile.addresses@.len()
    &&& forall|i: int|
        0 <= i < prepared.devices.len() ==> is_configured_device(
            #[trigger] prepared.devices[i],
            profile,
        ) && identified_in_turn(prepared.devices[i], probed, profile)
    &&& forall|i: int|
        0 <= i < prepared.probe_failures.len() ==> profile.addresses@.contains(
            (#[trigger] prepared.probe_failures[i]).0,
        )
}

/// Discovery is conservative. It opens only the buses of configured adapters,
/// reads there only from the addresses of the profile and from the mapper, and
/// writes nothing but the mapper's two registers: no lighting changes. The
/// mapper is written only after it has identified itself as a controller of the
/// profile, as the first thing on the bus that was opened last. What is prepared
/// is on the bus of a configured adapter, the last one that was examined, and
/// each device identified itself there in its own turn.
pub proof fn prepare_changes_no_lighting(
    tape: Tape,
    profile: EneDramProfile,
    adapters: Seq<AdapterInfo>,
)
    requires
        adapters.len() <= usize::MAX,
    ensures
        ({
            let result = prepare_run(tape, profile, adapters).0;
            let sorted = by_entry(adapters);
            let (at, start) = last_examined(tape, profile, sorted, 0);
            let bus = bus_path(sorted[at].entry);
            &&& start.answers == tape.answers
            &&& start.used >= tape.used
            &&& result matches Err(Stop::Pending(access)) ==> {
                &&& is_at_configured(at, sorted, profile)
                &&& examine_run(start, bus, profile).0 == Err::<Report, Stop<BusAccess, Fault>>(
                    Stop::Pending(access),
                )
                &&& searches(access, adapters, profile)
                &&& spares_unknown_mapper(access, start, bus, profile)
            }
            &&& result matches Ok(prepared) ==> {
                &&& valid_profile(profile)
                &&& is_at_configured(at, sorted, profile)
                &&& prepared.bus == bus
                &&& examine_run(start, bus, profile).0 == Ok::<Report, Stop<BusAccess, Fault>>(
                    Report { devices: prepared.devices, failures: prepared.probe_failures },
                )
                &&& is_configured_bus(prepared.bus, adapters, profile)
                &&& is_prepared(prepared, probe_start(start, bus, profile), profile)
            }
        }),
{
    profile_is_valid_without_error(profile);
    let sorted = by_entry(adapters);
    lemma_search_searches(tape, profile, sorted, 0, seq![]);
    match prepare_run(tape, profile, adapters).0 {
        Err(Stop::Pending(BusAccess::Open { bus })) => {
            sorting_keeps_configured_buses(bus, adapters, profile);
        },
        Ok(prepared) => {
            assert(is_configured_bus(prepared.bus, sorted, profile));
            sorting_keeps_configured_buses(prepared.bus, adapters, profile);
        },
        _ => {},
    }
}

/// A profile that cannot be used is refused before anything is asked of a bus.
pub proof fn unusable_profile_is_refused(
    tape: Tape,
    profile: EneDramProfile,
    adapters: Seq<AdapterInfo>,
    bus: Seq<char>,
    rgb: Seq<u8>,
)
    requires
        !valid_profile(profile),
    ensures
        profile_error(profile) matches Some(error) && {
            &&& prepare_run(tape, profile, adapters) == (
                Err::<Prepared, Stop<BusAccess, DramFault>>(
                    Stop::Failed(DramFault::Profile(error)),
                ),
                tape,
            )
            &&& set_all_run(tape, bus, profile, rgb) == (
                Err::<Seq<WriteOutcome>, Stop<BusAccess, DramFault>>(
                    Stop::Failed(DramFault::Profile(error)),
                ),
                tape,
            )
        },
{
    profile_is_valid_without_error(profile);
}

/// Lighting what was prepared opens its bus and asks for nothing there but the
/// writes of the color, on the prepared devices.
pub proof fn only_prepared_devices_are_written(tape: Tape, prepared: Prepared, rgb: Seq<u8>)
    ensures
        set_prepared_run(tape, prepared, rgb).0 matches Err(Stop::Pending(access)) ==> {
            match access {
                BusAccess::Open { bus } => bus == prepared.bus,
                BusAccess::Access(access) => colors_one_of(access, prepared.devices, rgb),
            }
        },
{
    let (_, opened) = exchange(tape, BusAccess::Open { bus: prepared.bus });
    only_given_devices_are_written(opened, prepared.devices, rgb, prepared.devices.len());
}

/// Setting everything on a bus writes only after all addresses of the profile
/// were probed without a failure, and then only the color, to devices that
/// identified themselves in their turn as the profile describes. Until then it only reads,
/// from the addresses of the profile.
pub proof fn set_all_writes_only_what_it_identified(
    tape: Tape,
    bus: Seq<char>,
    profile: EneDramProfile,
    rgb: Seq<u8>,
)
    ensures
        set_all_run(tape, bus, profile, rgb).0 matches Err(Stop::Pending(access)) ==> {
            match access {
                BusAccess::Open { bus: opened } => opened == bus,
                BusAccess::Access(access) => {
                    ||| reads_configured(access, profile)
                    ||| {
                        &&& probe_bus_run(tape, bus, profile).0 matches Ok(report)
                        &&& report.failures.len() == 0
                        &&& colors_one_of(access, report.devices, rgb)
                        &&& forall|i: int|
                            0 <= i < report.devices.len() ==> is_configured_device(
                                #[trigger] report.devices[i],
                                profile,
                            ) && identified_in_turn(
                                report.devices[i],
                                exchange(tape, BusAccess::Open { bus }).1,
                                profile,
                            )
                    }
                },
            }
        },
{
    let (_, opened) = exchange(tape, BusAccess::Open { bus });
    probe_reads_configured_addresses(opened, profile, profile.addresses@.len());
    probe_reports_configured_devices(opened, profile, profile.addresses@.len());
    reported_devices_were_identified(opened, profile);
    let (probed, after) = probe_bus_run(tape, bus, profile);
    if let Ok(report) = probed {
        let prepared = Prepared {
            bus,
            devices: report.devices,
            probe_failures: report.failures,
        };
        only_prepared_devices_are_written(after, prepared, rgb);
    }
}

proof fn lemma_addresses_are_conclusive(tape: Tape, profile: EneDramProfile, count: nat)
    ensures
        diagnose_addresses_run(tape, profile, count).0 matches Ok(findings) ==> {
            &&& findings.len() == count
            &&& forall|k: int|
                0 <= k < count ==> is_conclusive(#[trigger] findings[k]) && findings[k].address
                    == diagnosed_addresses(profile)[k]
        },
    decreases count,
{
    if count > 0 {
        lemma_addresses_are_conclusive(tape, profile, (count - 1) as nat);
    }
}

/// A diagnosis tells about every bus that it could open every address of the
/// profile and the mapper's, in order, each with a result or an error.
pub proof fn diagnosis_is_conclusive(
    tape: Tape,
    profile: EneDramProfile,
    adapters: Seq<AdapterInfo>,
    count: nat,
)
    ensures
        diagnose_run(tape, profile, adapters, count).0 matches Ok(findings) ==> {
            &&& all_conclusive(findings)
            &&& forall|i: int|
                0 <= i < findings.len() ==> {
                    let finding = #[trigger] findings[i];
                    if finding.open_error is Some {
                        finding.addresses.len() == 0
                    } else {
                        finding.addresses.map_values(|address: AddressFinding| address.address)
                            == diagnosed_addresses(profile)
                    }
                }
        },
    decreases count,
{
    if count > 0 {
        let before = (count - 1) as nat;
        diagnosis_is_conclusive(tape, profile, adapters, before);
        let (_, middle) = diagnose_run(tape, profile, adapters, before);
        let adapter = adapters[count - 1];
        let (_, opened) = exchange(middle, BusAccess::Open { bus: bus_path(adapter.entry) });
        lemma_addresses_are_conclusive(opened, profile, diagnosed_addresses(profile).len());
        if let Ok(finding) = diagnose_bus_run(middle, profile, adapter).0 {
            if finding.open_error is None {
                assert(finding.addresses.map_values(|address: AddressFinding| address.address)
                    =~= diagnosed_addresses(profile));
            }
        }
    }
}

/// With a valid profile no access of a search is refused for its address.
pub proof fn searching_accesses_are_possible(access: Access, profile: EneDramProfile)
    requires
        valid_profile(profile),
        reads_known(access, profile) || assigns_address(access),
    ensures
        is_possible(access),
{
    if reads_configured(access, profile) {
        let i = profile.addresses@.index_of(access.address());
        assert(is_dram_address(profile.addresses@[i]));
    }
}

/// With a valid profile no write of a color is refused for its address or for
/// the size of its block.
pub proof fn color_writes_are_possible(
    access: Access,
    device: EneDramDevice,
    rgb: Seq<u8>,
    profile: EneDramProfile,
)
    requires
        valid_profile(profile),
        is_configured_device(device, profile),
        colors_device(access, device, rgb),
    ensures
        is_possible(access),
{
    let i = profile.addresses@.index_of(device.address);
    assert(is_dram_address(profile.addresses@[i]));
    let c = profile.controllers@.index_of(device.controller);
    assert(valid_controller(profile.controllers@[c]));
    let writes = direct_writes(device.controller, rgb);
    let k = choose|k: int|
        0 <= k < writes.len() && access == write_access(device.address, #[trigger] writes[k]);
    if k >= 2 {
        direct_writes_cover_the_color_memory(device.controller, rgb, k);
    }
}

} // verus!
