//! Why the procedures on controllers can be replayed.
use super::adapter::bus_path;
use super::adapter::by_entry;
use super::adapter::is_configured;
use super::adapter::AdapterInfo;
use super::diagnostics::diagnose_address_run;
use super::diagnostics::diagnose_addresses_run;
use super::diagnostics::diagnose_bus_run;
use super::diagnostics::diagnose_run;
use super::diagnostics::diagnosed_addresses;
use super::discovery::examine_run;
use super::discovery::failure_lines;
use super::discovery::prepare_run;
use super::discovery::probe_bus_run;
use super::discovery::remap_bus_run;
use super::discovery::search_run;
use super::discovery::set_all_run;
use super::discovery::set_prepared_run;
use super::discovery::Prepared;
use super::identity::address_responds_run;
use super::identity::probe_address_run;
use super::identity::probe_run;
use super::identity::read_bytes_run;
use super::identity::CONFIG_TABLE_LENGTH;
use super::identity::CONFIG_TABLE_REGISTER;
use super::identity::DEVICE_NAME_LENGTH;
use super::identity::DEVICE_NAME_REGISTER;
use super::identity::EneDramDevice;
use super::lighting::set_color_run;
use super::lighting::write_access;
use super::lighting::write_devices_run;
use super::lighting::writes_run;
use super::mapper::address_byte;
use super::mapper::assign_run;
use super::mapper::assignments_run;
use super::mapper::mapper_write;
use super::mapper::remap_run;
use super::mapper::slot_byte;
use super::mapper::DRAM_MAPPER_ADDRESS_REGISTER;
use super::mapper::DRAM_MAPPER_SLOT_REGISTER;
use crate::controller::direct_writes;
use crate::controller::Write;
use crate::profile::EneDramProfile;
use crate::profile::DRAM_MAPPER_ADDRESS;
use crate::replay::asks;
use crate::replay::exchange_resumes;
use crate::replay::extended;
use crate::replay::follows;
use crate::replay::is_tape;
use crate::replay::resumes;
use crate::request::Access;
use crate::request::BusAccess;
use crate::session::exchange;
use crate::session::Answer;
use crate::session::Tape;
use vstd::prelude::*;

verus! {

broadcast proof fn address_responds_follows(tape: Tape, address: u16)
    ensures
        follows(tape, (#[trigger] address_responds_run(tape, address)).1),
{
}

proof fn lemma_address_responds_resumes(tape: Tape, more: Seq<Answer>, address: u16)
    requires
        is_tape(tape),
    ensures
        resumes(
            tape,
            more,
            asks(address_responds_run(tape, address).0),
            address_responds_run(tape, address),
            address_responds_run(extended(tape, more), address),
        ),
{
    exchange_resumes(tape, more, Access::ReadAddressByte { address });
}

broadcast proof fn read_bytes_follows(tape: Tape, address: u16, register: u16, count: nat)
    ensures
        follows(tape, (#[trigger] read_bytes_run(tape, address, register, count)).1),
    decreases count,
{
    if count > 0 {
        read_bytes_follows(tape, address, register, (count - 1) as nat);
    }
}

proof fn lemma_read_bytes_resumes(
    tape: Tape,
    more: Seq<Answer>,
    address: u16,
    register: u16,
    count: nat,
)
    requires
        is_tape(tape),
    ensures
        resumes(
            tape,
            more,
            asks(read_bytes_run(tape, address, register, count).0),
            read_bytes_run(tape, address, register, count),
            read_bytes_run(extended(tape, more), address, register, count),
        ),
    decreases count,
{
    if count > 0 {
        let before = (count - 1) as nat;
        lemma_read_bytes_resumes(tape, more, address, register, before);
        read_bytes_follows(tape, address, register, before);
        let (_, middle) = read_bytes_run(tape, address, register, before);
        let last = (register + count - 1) as u16;
        exchange_resumes(middle, more, Access::ReadRegister { address, register: last });
    }
}

broadcast proof fn probe_address_follows(tape: Tape, address: u16, profile: EneDramProfile)
    ensures
        follows(tape, (#[trigger] probe_address_run(tape, address, profile)).1),
{
    broadcast use {address_responds_follows, read_bytes_follows};

}

proof fn lemma_identity_resumes(tape: Tape, more: Seq<Answer>, address: u16)
    requires
        is_tape(tape),
    ensures
        ({
            let present = address_responds_run(tape, address);
            let named = read_bytes_run(
                present.1,
                address,
                DEVICE_NAME_REGISTER,
                DEVICE_NAME_LENGTH as nat,
            );
            let read = read_bytes_run(
                named.1,
                address,
                CONFIG_TABLE_REGISTER,
                CONFIG_TABLE_LENGTH as nat,
            );
            &&& resumes(
                tape,
                more,
                asks(present.0),
                present,
                address_responds_run(extended(tape, more), address),
            )
            &&& resumes(
                present.1,
                more,
                asks(named.0),
                named,
                read_bytes_run(
                    extended(present.1, more),
                    address,
                    DEVICE_NAME_REGISTER,
                    DEVICE_NAME_LENGTH as nat,
                ),
            )
            &&& resumes(
                named.1,
                more,
                asks(read.0),
                read,
                read_bytes_run(
                    extended(named.1, more),
                    address,
                    CONFIG_TABLE_REGISTER,
                    CONFIG_TABLE_LENGTH as nat,
                ),
            )
        }),
{
    broadcast use {address_responds_follows, read_bytes_follows};

    lemma_address_responds_resumes(tape, more, address);
    let (_, present) = address_responds_run(tape, address);
    lemma_read_bytes_resumes(
        present,
        more,
        address,
        DEVICE_NAME_REGISTER,
        DEVICE_NAME_LENGTH as nat,
    );
    let (_, named) = read_bytes_run(
        present,
        address,
        DEVICE_NAME_REGISTER,
        DEVICE_NAME_LENGTH as nat,
    );
    lemma_read_bytes_resumes(
        named,
        more,
        address,
        CONFIG_TABLE_REGISTER,
        CONFIG_TABLE_LENGTH as nat,
    );
}

/// Looking for a controller at an address can be replayed.
pub proof fn probe_address_resumes(
    tape: Tape,
    more: Seq<Answer>,
    address: u16,
    profile: EneDramProfile,
)
    requires
        is_tape(tape),
    ensures
        resumes(
            tape,
            more,
            asks(probe_address_run(tape, address, profile).0),
            probe_address_run(tape, address, profile),
            probe_address_run(extended(tape, more), address, profile),
        ),
{
    broadcast use {address_responds_follows, read_bytes_follows};

    lemma_identity_resumes(tape, more, address);
}

/// Probing the addresses of the profile goes forward on the tape.
pub broadcast proof fn probe_follows(tape: Tape, profile: EneDramProfile, count: nat)
    ensures
        follows(tape, (#[trigger] probe_run(tape, profile, count)).1),
    decreases count,
{
    if count > 0 {
        probe_follows(tape, profile, (count - 1) as nat);
        let (_, middle) = probe_run(tape, profile, (count - 1) as nat);
        probe_address_follows(middle, profile.addresses@[count - 1], profile);
    }
}

/// Probing the addresses of the profile can be replayed.
pub proof fn probe_resumes(tape: Tape, more: Seq<Answer>, profile: EneDramProfile, count: nat)
    requires
        is_tape(tape),
    ensures
        resumes(
            tape,
            more,
            probe_run(tape, profile, count).0 is Err,
            probe_run(tape, profile, count),
            probe_run(extended(tape, more), profile, count),
        ),
    decreases count,
{
    if count > 0 {
        let before = (count - 1) as nat;
        let address = profile.addresses@[count - 1];
        probe_resumes(tape, more, profile, before);
        probe_follows(tape, profile, before);
        let (_, middle) = probe_run(tape, profile, before);
        probe_address_resumes(middle, more, address, profile);
        let (_, later) = probe_run(extended(tape, more), profile, before);
        probe_address_follows(later, address, profile);
    }
}

broadcast proof fn assignments_follows(tape: Tape, addresses: Seq<u16>, count: nat)
    ensures
        follows(tape, (#[trigger] assignments_run(tape, addresses, count)).1),
    decreases count,
{
    if count > 0 {
        assignments_follows(tape, addresses, (count - 1) as nat);
    }
}

proof fn lemma_assignments_resumes(
    tape: Tape,
    more: Seq<Answer>,
    addresses: Seq<u16>,
    count: nat,
)
    requires
        is_tape(tape),
    ensures
        resumes(
            tape,
            more,
            asks(assignments_run(tape, addresses, count).0),
            assignments_run(tape, addresses, count),
            assignments_run(extended(tape, more), addresses, count),
        ),
    decreases count,
{
    if count > 0 {
        let before = (count - 1) as nat;
        lemma_assignments_resumes(tape, more, addresses, before);
        assignments_follows(tape, addresses, before);
        let (_, middle) = assignments_run(tape, addresses, before);
        lemma_address_responds_resumes(middle, more, addresses[count - 1]);
    }
}

broadcast proof fn assign_follows(tape: Tape, assignments: Seq<(usize, u16)>, index: int)
    ensures
        follows(tape, (#[trigger] assign_run(tape, assignments, index)).1),
    decreases assignments.len() - index,
{
    if index < assignments.len() {
        let (slot, address) = assignments[index];
        let (_, waiting) = address_responds_run(tape, DRAM_MAPPER_ADDRESS);
        let (_, chosen) = exchange(
            waiting,
            mapper_write(DRAM_MAPPER_SLOT_REGISTER, slot_byte(slot)),
        );
        let (_, mapped) = exchange(
            chosen,
            mapper_write(DRAM_MAPPER_ADDRESS_REGISTER, address_byte(address)),
        );
        assign_follows(mapped, assignments, index + 1);
    }
}

proof fn lemma_assign_resumes(
    tape: Tape,
    more: Seq<Answer>,
    assignments: Seq<(usize, u16)>,
    index: int,
)
    requires
        is_tape(tape),
    ensures
        resumes(
            tape,
            more,
            asks(assign_run(tape, assignments, index).0),
            assign_run(tape, assignments, index),
            assign_run(extended(tape, more), assignments, index),
        ),
    decreases assignments.len() - index,
{
    if index < assignments.len() {
        let (slot, address) = assignments[index];
        let first_write = mapper_write(DRAM_MAPPER_SLOT_REGISTER, slot_byte(slot));
        let second_write = mapper_write(DRAM_MAPPER_ADDRESS_REGISTER, address_byte(address));
        lemma_address_responds_resumes(tape, more, DRAM_MAPPER_ADDRESS);
        let (_, waiting) = address_responds_run(tape, DRAM_MAPPER_ADDRESS);
        exchange_resumes(waiting, more, first_write);
        let (_, chosen) = exchange(waiting, first_write);
        exchange_resumes(chosen, more, second_write);
        let (_, mapped) = exchange(chosen, second_write);
        lemma_assign_resumes(mapped, more, assignments, index + 1);
        let (_, later_waiting) = address_responds_run(
            extended(tape, more),
            DRAM_MAPPER_ADDRESS,
        );
        let (_, later_chosen) = exchange(later_waiting, first_write);
        let (_, later_mapped) = exchange(later_chosen, second_write);
        assign_follows(later_mapped, assignments, index + 1);
    }
}

broadcast proof fn remap_follows(tape: Tape, profile: EneDramProfile)
    ensures
        follows(tape, (#[trigger] remap_run(tape, profile)).1),
{
    broadcast use {probe_address_follows, assignments_follows, assign_follows};

}

/// Mapping addresses can be replayed.
pub proof fn remap_resumes(tape: Tape, more: Seq<Answer>, profile: EneDramProfile)
    requires
        is_tape(tape),
    ensures
        resumes(
            tape,
            more,
            asks(remap_run(tape, profile).0),
            remap_run(tape, profile),
            remap_run(extended(tape, more), profile),
        ),
{
    broadcast use {probe_address_follows, assignments_follows, assign_follows};

    let addresses = profile.addresses@;
    probe_address_resumes(tape, more, DRAM_MAPPER_ADDRESS, profile);
    let (_, found) = probe_address_run(tape, DRAM_MAPPER_ADDRESS, profile);
    lemma_assignments_resumes(found, more, addresses, addresses.len());
    let (result, listed) = assignments_run(found, addresses, addresses.len());
    if let Ok(assignments) = result {
        lemma_assign_resumes(listed, more, assignments, 0);
    }
}

broadcast proof fn diagnose_address_follows(tape: Tape, address: u16, profile: EneDramProfile)
    ensures
        follows(tape, (#[trigger] diagnose_address_run(tape, address, profile)).1),
{
    broadcast use {address_responds_follows, read_bytes_follows};

}

/// Diagnosing an address can be replayed.
pub proof fn diagnose_address_resumes(
    tape: Tape,
    more: Seq<Answer>,
    address: u16,
    profile: EneDramProfile,
)
    requires
        is_tape(tape),
    ensures
        resumes(
            tape,
            more,
            diagnose_address_run(tape, address, profile).0 is Err,
            diagnose_address_run(tape, address, profile),
            diagnose_address_run(extended(tape, more), address, profile),
        ),
{
    broadcast use {address_responds_follows, read_bytes_follows};

    lemma_identity_resumes(tape, more, address);
}

broadcast proof fn diagnose_addresses_follows(tape: Tape, profile: EneDramProfile, count: nat)
    ensures
        follows(tape, (#[trigger] diagnose_addresses_run(tape, profile, count)).1),
    decreases count,
{
    if count > 0 {
        let before = (count - 1) as nat;
        diagnose_addresses_follows(tape, profile, before);
        let (_, middle) = diagnose_addresses_run(tape, profile, before);
        diagnose_address_follows(middle, diagnosed_addresses(profile)[count - 1], profile);
    }
}

proof fn lemma_diagnose_addresses_resumes(
    tape: Tape,
    more: Seq<Answer>,
    profile: EneDramProfile,
    count: nat,
)
    requires
        is_tape(tape),
    ensures
        resumes(
            tape,
            more,
            diagnose_addresses_run(tape, profile, count).0 is Err,
            diagnose_addresses_run(tape, profile, count),
            diagnose_addresses_run(extended(tape, more), profile, count),
        ),
    decreases count,
{
    if count > 0 {
        let before = (count - 1) as nat;
        let address = diagnosed_addresses(profile)[count - 1];
        lemma_diagnose_addresses_resumes(tape, more, profile, before);
        diagnose_addresses_follows(tape, profile, before);
        let (_, middle) = diagnose_addresses_run(tape, profile, before);
        diagnose_address_resumes(middle, more, address, profile);
        let (_, later) = diagnose_addresses_run(extended(tape, more), profile, before);
        diagnose_address_follows(later, address, profile);
    }
}

broadcast proof fn diagnose_bus_follows(tape: Tape, profile: EneDramProfile, adapter: AdapterInfo)
    ensures
        follows(tape, (#[trigger] diagnose_bus_run(tape, profile, adapter)).1),
{
    broadcast use diagnose_addresses_follows;

}

proof fn lemma_diagnose_bus_resumes(
    tape: Tape,
    more: Seq<Answer>,
    profile: EneDramProfile,
    adapter: AdapterInfo,
)
    requires
        is_tape(tape),
    ensures
        resumes(
            tape,
            more,
            diagnose_bus_run(tape, profile, adapter).0 is Err,
            diagnose_bus_run(tape, profile, adapter),
            diagnose_bus_run(extended(tape, more), profile, adapter),
        ),
{
    broadcast use diagnose_addresses_follows;

    let open = BusAccess::Open { bus: bus_path(adapter.entry) };
    exchange_resumes(tape, more, open);
    let (_, opened) = exchange(tape, open);
    lemma_diagnose_addresses_resumes(
        opened,
        more,
        profile,
        diagnosed_addresses(profile).len(),
    );
}

/// A diagnosis goes forward on the tape.
pub proof fn diagnose_follows(
    tape: Tape,
    profile: EneDramProfile,
    adapters: Seq<AdapterInfo>,
    count: nat,
)
    ensures
        follows(tape, diagnose_run(tape, profile, adapters, count).1),
    decreases count,
{
    if count > 0 {
        let before = (count - 1) as nat;
        diagnose_follows(tape, profile, adapters, before);
        let (_, middle) = diagnose_run(tape, profile, adapters, before);
        diagnose_bus_follows(middle, profile, adapters[count - 1]);
    }
}

/// A diagnosis can be replayed.
pub proof fn diagnose_resumes(
    tape: Tape,
    more: Seq<Answer>,
    profile: EneDramProfile,
    adapters: Seq<AdapterInfo>,
    count: nat,
)
    requires
        is_tape(tape),
    ensures
        resumes(
            tape,
            more,
            diagnose_run(tape, profile, adapters, count).0 is Err,
            diagnose_run(tape, profile, adapters, count),
            diagnose_run(extended(tape, more), profile, adapters, count),
        ),
    decreases count,
{
    if count > 0 {
        let before = (count - 1) as nat;
        diagnose_resumes(tape, more, profile, adapters, before);
        diagnose_follows(tape, profile, adapters, before);
        let (_, middle) = diagnose_run(tape, profile, adapters, before);
        lemma_diagnose_bus_resumes(middle, more, profile, adapters[count - 1]);
        let (_, later) = diagnose_run(extended(tape, more), profile, adapters, before);
        diagnose_bus_follows(later, profile, adapters[count - 1]);
    }
}

broadcast proof fn writes_follows(tape: Tape, address: u16, writes: Seq<Write>, index: int)
    ensures
        follows(tape, (#[trigger] writes_run(tape, address, writes, index)).1),
    decreases writes.len() - index,
{
    if index < writes.len() {
        let (_, after) = exchange(tape, write_access(address, writes[index]));
        writes_follows(after, address, writes, index + 1);
    }
}

proof fn lemma_writes_resumes(
    tape: Tape,
    more: Seq<Answer>,
    address: u16,
    writes: Seq<Write>,
    index: int,
)
    requires
        is_tape(tape),
    ensures
        resumes(
            tape,
            more,
            asks(writes_run(tape, address, writes, index).0),
            writes_run(tape, address, writes, index),
            writes_run(extended(tape, more), address, writes, index),
        ),
    decreases writes.len() - index,
{
    if index < writes.len() {
        let access = write_access(address, writes[index]);
        exchange_resumes(tape, more, access);
        let (_, after) = exchange(tape, access);
        lemma_writes_resumes(after, more, address, writes, index + 1);
        let (_, later) = exchange(extended(tape, more), access);
        writes_follows(later, address, writes, index + 1);
    }
}

broadcast proof fn set_color_follows(tape: Tape, device: EneDramDevice, rgb: Seq<u8>)
    ensures
        follows(tape, (#[trigger] set_color_run(tape, device, rgb)).1),
{
    broadcast use writes_follows;

}

/// Setting the color of a device can be replayed.
pub proof fn set_color_resumes(
    tape: Tape,
    more: Seq<Answer>,
    device: EneDramDevice,
    rgb: Seq<u8>,
)
    requires
        is_tape(tape),
    ensures
        resumes(
            tape,
            more,
            asks(set_color_run(tape, device, rgb).0),
            set_color_run(tape, device, rgb),
            set_color_run(extended(tape, more), device, rgb),
        ),
{
    lemma_writes_resumes(
        tape,
        more,
        device.address,
        direct_writes(device.controller, rgb),
        0,
    );
}

broadcast proof fn write_devices_follows(
    tape: Tape,
    devices: Seq<EneDramDevice>,
    rgb: Seq<u8>,
    count: nat,
)
    ensures
        follows(tape, (#[trigger] write_devices_run(tape, devices, rgb, count)).1),
    decreases count,
{
    if count > 0 {
        let before = (count - 1) as nat;
        write_devices_follows(tape, devices, rgb, before);
        let (_, middle) = write_devices_run(tape, devices, rgb, before);
        set_color_follows(middle, devices[count - 1], rgb);
    }
}

/// Setting the color of several devices can be replayed.
pub proof fn write_devices_resumes(
    tape: Tape,
    more: Seq<Answer>,
    devices: Seq<EneDramDevice>,
    rgb: Seq<u8>,
    count: nat,
)
    requires
        is_tape(tape),
    ensures
        resumes(
            tape,
            more,
            write_devices_run(tape, devices, rgb, count).0 is Err,
            write_devices_run(tape, devices, rgb, count),
            write_devices_run(extended(tape, more), devices, rgb, count),
        ),
    decreases count,
{
    if count > 0 {
        let before = (count - 1) as nat;
        write_devices_resumes(tape, more, devices, rgb, before);
        write_devices_follows(tape, devices, rgb, before);
        let (_, middle) = write_devices_run(tape, devices, rgb, before);
        set_color_resumes(middle, more, devices[count - 1], rgb);
        let (_, later) = write_devices_run(extended(tape, more), devices, rgb, before);
        set_color_follows(later, devices[count - 1], rgb);
    }
}

/// Mapping and probing a bus goes forward on the tape.
pub broadcast proof fn examine_follows(tape: Tape, bus: Seq<char>, profile: EneDramProfile)
    ensures
        follows(tape, (#[trigger] examine_run(tape, bus, profile)).1),
{
    broadcast use {remap_follows, probe_follows};

}

broadcast proof fn probe_bus_follows(tape: Tape, bus: Seq<char>, profile: EneDramProfile)
    ensures
        follows(tape, (#[trigger] probe_bus_run(tape, bus, profile)).1),
{
    broadcast use probe_follows;

}

/// Probing a bus can be replayed.
pub proof fn probe_bus_resumes(
    tape: Tape,
    more: Seq<Answer>,
    bus: Seq<char>,
    profile: EneDramProfile,
)
    requires
        is_tape(tape),
    ensures
        resumes(
            tape,
            more,
            asks(probe_bus_run(tape, bus, profile).0),
            probe_bus_run(tape, bus, profile),
            probe_bus_run(extended(tape, more), bus, profile),
        ),
{
    broadcast use probe_follows;

    let open = BusAccess::Open { bus };
    exchange_resumes(tape, more, open);
    let (_, opened) = exchange(tape, open);
    probe_resumes(opened, more, profile, profile.addresses@.len());
}

/// Mapping addresses on a bus goes forward on the tape.
pub proof fn remap_bus_follows(tape: Tape, bus: Seq<char>, profile: EneDramProfile)
    ensures
        follows(tape, remap_bus_run(tape, bus, profile).1),
{
    broadcast use remap_follows;

}

/// Mapping addresses on a bus can be replayed.
pub proof fn remap_bus_resumes(
    tape: Tape,
    more: Seq<Answer>,
    bus: Seq<char>,
    profile: EneDramProfile,
)
    requires
        is_tape(tape),
    ensures
        resumes(
            tape,
            more,
            asks(remap_bus_run(tape, bus, profile).0),
            remap_bus_run(tape, bus, profile),
            remap_bus_run(extended(tape, more), bus, profile),
        ),
{
    broadcast use remap_follows;

    let open = BusAccess::Open { bus };
    exchange_resumes(tape, more, open);
    let (_, opened) = exchange(tape, open);
    remap_resumes(opened, more, profile);
}

proof fn lemma_examine_resumes(
    tape: Tape,
    more: Seq<Answer>,
    bus: Seq<char>,
    profile: EneDramProfile,
)
    requires
        is_tape(tape),
    ensures
        resumes(
            tape,
            more,
            asks(examine_run(tape, bus, profile).0),
            examine_run(tape, bus, profile),
            examine_run(extended(tape, more), bus, profile),
        ),
{
    broadcast use {remap_follows, probe_bus_follows};

    remap_bus_resumes(tape, more, bus, profile);
    let (_, mapped) = remap_bus_run(tape, bus, profile);
    probe_bus_resumes(mapped, more, bus, profile);
}

broadcast proof fn search_follows(
    tape: Tape,
    profile: EneDramProfile,
    adapters: Seq<AdapterInfo>,
    index: int,
    failures: Seq<Seq<char>>,
)
    ensures
        follows(tape, (#[trigger] search_run(tape, profile, adapters, index, failures)).1),
    decreases adapters.len() - index,
{
    broadcast use examine_follows;

    if index < adapters.len() {
        let bus = bus_path(adapters[index].entry);
        let (result, after) = examine_run(tape, bus, profile);
        search_follows(tape, profile, adapters, index + 1, failures);
        if let Ok(report) = result {
            search_follows(
                after,
                profile,
                adapters,
                index + 1,
                failures + failure_lines(bus, report.failures),
            );
        }
    }
}

proof fn lemma_search_resumes(
    tape: Tape,
    more: Seq<Answer>,
    profile: EneDramProfile,
    adapters: Seq<AdapterInfo>,
    index: int,
    failures: Seq<Seq<char>>,
)
    requires
        is_tape(tape),
    ensures
        resumes(
            tape,
            more,
            asks(search_run(tape, profile, adapters, index, failures).0),
            search_run(tape, profile, adapters, index, failures),
            search_run(extended(tape, more), profile, adapters, index, failures),
        ),
    decreases adapters.len() - index,
{
    broadcast use examine_follows;

    if index < adapters.len() {
        if !is_configured(adapters[index].name, profile.adapter_name_patterns@) {
            lemma_search_resumes(tape, more, profile, adapters, index + 1, failures);
        } else {
            let bus = bus_path(adapters[index].entry);
            lemma_examine_resumes(tape, more, bus, profile);
            let (result, after) = examine_run(tape, bus, profile);
            if let Ok(report) = result {
                lemma_search_resumes(
                    after,
                    more,
                    profile,
                    adapters,
                    index + 1,
                    failures + failure_lines(bus, report.failures),
                );
            }
            let (later_result, later) = examine_run(extended(tape, more), bus, profile);
            if let Ok(report) = later_result {
                search_follows(
                    later,
                    profile,
                    adapters,
                    index + 1,
                    failures + failure_lines(bus, report.failures),
                );
            }
        }
    }
}

/// Preparing goes forward on the tape.
pub proof fn prepare_follows(tape: Tape, profile: EneDramProfile, adapters: Seq<AdapterInfo>)
    ensures
        follows(tape, prepare_run(tape, profile, adapters).1),
{
    broadcast use search_follows;

}

/// Preparing can be replayed.
pub proof fn prepare_resumes(
    tape: Tape,
    more: Seq<Answer>,
    profile: EneDramProfile,
    adapters: Seq<AdapterInfo>,
)
    requires
        is_tape(tape),
    ensures
        resumes(
            tape,
            more,
            asks(prepare_run(tape, profile, adapters).0),
            prepare_run(tape, profile, adapters),
            prepare_run(extended(tape, more), profile, adapters),
        ),
{
    lemma_search_resumes(tape, more, profile, by_entry(adapters), 0, seq![]);
}

broadcast proof fn set_prepared_follows(tape: Tape, prepared: Prepared, rgb: Seq<u8>)
    ensures
        follows(tape, (#[trigger] set_prepared_run(tape, prepared, rgb)).1),
{
    broadcast use write_devices_follows;

}

/// Lighting what was prepared can be replayed.
pub proof fn set_prepared_resumes(
    tape: Tape,
    more: Seq<Answer>,
    prepared: Prepared,
    rgb: Seq<u8>,
)
    requires
        is_tape(tape),
    ensures
        resumes(
            tape,
            more,
            asks(set_prepared_run(tape, prepared, rgb).0),
            set_prepared_run(tape, prepared, rgb),
            set_prepared_run(extended(tape, more), prepared, rgb),
        ),
{
    broadcast use write_devices_follows;

    let open = BusAccess::Open { bus: prepared.bus };
    exchange_resumes(tape, more, open);
    let (_, opened) = exchange(tape, open);
    write_devices_resumes(opened, more, prepared.devices, rgb, prepared.devices.len());
}

/// Setting everything on a bus can be replayed.
pub proof fn set_all_resumes(
    tape: Tape,
    more: Seq<Answer>,
    bus: Seq<char>,
    profile: EneDramProfile,
    rgb: Seq<u8>,
)
    requires
        is_tape(tape),
    ensures
        resumes(
            tape,
            more,
            asks(set_all_run(tape, bus, profile, rgb).0),
            set_all_run(tape, bus, profile, rgb),
            set_all_run(extended(tape, more), bus, profile, rgb),
        ),
{
    broadcast use {probe_bus_follows, set_prepared_follows};

    probe_bus_resumes(tape, more, bus, profile);
    let (result, probed) = probe_bus_run(tape, bus, profile);
    if let Ok(report) = result {
        let prepared = Prepared {
            bus,
            devices: report.devices,
            probe_failures: report.failures,
        };
        set_prepared_resumes(probed, more, prepared, rgb);
    }
}

} // verus!
