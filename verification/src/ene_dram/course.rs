//! The course of each procedure, answer by answer.
//!
//! What a procedure does is told here by the answers themselves: which answer
//! leads to which access, how many there are, and what comes of them. Where a
//! procedure goes through a list, the stations on its way are given, and the end
//! follows from them.
use super::adapter::bus_path;
use super::adapter::by_entry;
use super::adapter::is_configured;
use super::adapter::AdapterInfo;
use super::diagnostics::address_view;
use super::diagnostics::buses_view;
use super::diagnostics::diagnose_address_run;
use super::diagnostics::diagnose_addresses_run;
use super::diagnostics::diagnose_bus_run;
use super::diagnostics::diagnose_run;
use super::diagnostics::diagnose_view;
use super::diagnostics::AddressDiagnostic;
use super::diagnostics::AddressFinding;
use super::diagnostics::BusDiagnostic;
use super::diagnostics::BusFinding;
use super::discovery::colors_view;
use super::discovery::examine_run;
use super::discovery::failure_lines;
use super::discovery::prepare_run;
use super::discovery::probe_bus_run;
use super::discovery::remap_bus_run;
use super::discovery::search_run;
use super::discovery::set_all_run;
use super::discovery::set_prepared_run;
use super::discovery::DramFault;
use super::discovery::Prepared;
use super::identity::address_responds_run;
use super::identity::known_controller;
use super::identity::lossy_text;
use super::identity::probe_address_run;
use super::identity::probe_run;
use super::identity::read_bytes_run;
use super::identity::registers_are_read_in_order;
use super::identity::report_view;
use super::identity::version_text;
use super::identity::EneDramDevice;
use super::identity::ProbeReport;
use super::identity::Report;
use super::lighting::every_device_has_its_outcome;
use super::lighting::results_view;
use super::lighting::set_color_run;
use super::lighting::write_access;
use super::lighting::write_devices_run;
use super::lighting::write_devices_view;
use super::lighting::DeviceWriteResult;
use super::lighting::WriteOutcome;
use super::mapper::assign_run;
use super::mapper::assignments_run;
use super::mapper::remap_run;
use crate::controller::Write;
use crate::fault::Fault;
use crate::fault::FaultKind;
use crate::profile::profile_is_valid_without_error;
use crate::profile::valid_profile;
use crate::profile::EneControllerProfile;
use crate::profile::EneDramProfile;
use crate::request::Access;
use crate::request::BusAccess;
use crate::request::BusRequest;
use crate::request::Request;
use crate::session::exchange;
use crate::session::Stop;
use crate::session::Tape;
use crate::text::contains_text;
use crate::text::hex_padded;
use crate::text::without_trailing_nul;
use crate::text::without_trailing_space;
use vstd::prelude::*;

verus! {

/// Whether something answers at an address is told by one answer: any byte says
/// yes, a fault of the absent kind says no, and any other fault is handed on
/// with the address before its message.
pub proof fn one_answer_tells_of_presence(tape: Tape, address: u16)
    ensures
        ({
            let (result, after) = address_responds_run(tape, address);
            if tape.used >= tape.answers.len() {
                &&& result == Err::<bool, Stop<Access, Fault>>(
                    Stop::Pending(Access::ReadAddressByte { address }),
                )
                &&& after == tape
            } else {
                &&& after == Tape { answers: tape.answers, used: tape.used + 1 }
                &&& match tape.answers[tape.used as int] {
                    Ok(_) => result == Ok::<bool, Stop<Access, Fault>>(true),
                    Err(met) => if met.kind == FaultKind::Absent {
                        result == Ok::<bool, Stop<Access, Fault>>(false)
                    } else {
                        &&& result matches Err(Stop::Failed(fault))
                        &&& fault.kind == met.kind
                        &&& fault.message == "probe address 0x"@ + hex_padded(address as nat)
                            + ": "@ + met.message
                    },
                }
            }
        }),
{
}

/// The controller that is known by a version and a number of LEDs is the first
/// with both; where there is none, none is known.
pub proof fn the_first_fitting_controller_is_known(
    controllers: Seq<EneControllerProfile>,
    version: Seq<char>,
    led_count: u8,
)
    ensures
        known_controller(controllers, version, led_count) matches Some(controller) ==> exists|
            i: int,
        |
            {
                &&& 0 <= i < controllers.len()
                &&& #[trigger] controllers[i] == controller
                &&& controller.version@ == version
                &&& controller.led_count == led_count
                &&& forall|j: int|
                    0 <= j < i ==> (#[trigger] controllers[j]).version@ != version
                        || controllers[j].led_count != led_count
            },
        known_controller(controllers, version, led_count) is None ==> forall|j: int|
            0 <= j < controllers.len() ==> (#[trigger] controllers[j]).version@ != version
                || controllers[j].led_count != led_count,
    decreases controllers.len(),
{
    if controllers.len() > 0 {
        let rest = controllers.skip(1);
        the_first_fitting_controller_is_known(rest, version, led_count);
        let first = controllers[0];
        if first.version@ == version && first.led_count == led_count {
            assert(controllers[0] == first);
        } else {
            match known_controller(rest, version, led_count) {
                Some(controller) => {
                    let i = choose|i: int|
                        {
                            &&& 0 <= i < rest.len()
                            &&& #[trigger] rest[i] == controller
                            &&& controller.version@ == version
                            &&& controller.led_count == led_count
                            &&& forall|j: int|
                                0 <= j < i ==> (#[trigger] rest[j]).version@ != version
                                    || rest[j].led_count != led_count
                        };
                    assert(controllers[i + 1] == controller);
                    assert forall|j: int| 0 <= j < i + 1 implies (
                    #[trigger] controllers[j]).version@ != version || controllers[j].led_count
                        != led_count by {
                        if j > 0 {
                            assert(rest[j - 1] == controllers[j]);
                        }
                    }
                },
                None => {
                    assert forall|j: int| 0 <= j < controllers.len() implies (
                    #[trigger] controllers[j]).version@ != version || controllers[j].led_count
                        != led_count by {
                        if j > 0 {
                            assert(rest[j - 1] == controllers[j]);
                        }
                    }
                },
            }
        }
    }
}

/// A controller is looked for with 81 answers: one for its presence, sixteen for
/// its name and 64 for its configuration, of which the third is the number of
/// LEDs. It is the first of the profile with that number and with the version
/// that the name holds before its padding, and none where the profile has none
/// such or nothing is present. A fault that is met ends the search.
pub proof fn identity_takes_81_answers(tape: Tape, address: u16, profile: EneDramProfile)
    ensures
        ({
            let (result, after) = probe_address_run(tape, address, profile);
            let made = after.used - tape.used;
            let controllers = profile.controllers@;
            let name = Seq::new(16, |i: int| tape.answers[tape.used + 1 + i]->Ok_0);
            let version = without_trailing_nul(lossy_text(name));
            let led_count = tape.answers[tape.used as int + 19]->Ok_0;
            let succeeded = match result {
                Err(Stop::Failed(_)) => made - 1,
                Ok(None) if made == 1 => 0,
                _ => made,
            };
            &&& after.answers == tape.answers
            &&& forall|i: int|
                tape.used <= i < tape.used + succeeded ==> (#[trigger] tape.answers[i]) is Ok
            &&& match result {
                Ok(Some(device)) => {
                    &&& made == 81
                    &&& device.address == address
                    &&& exists|i: int|
                        {
                            &&& 0 <= i < controllers.len()
                            &&& #[trigger] controllers[i] == device.controller
                            &&& device.controller.version@ == version
                            &&& device.controller.led_count == led_count
                            &&& forall|j: int|
                                0 <= j < i ==> (#[trigger] controllers[j]).version@ != version
                                    || controllers[j].led_count != led_count
                        }
                },
                Ok(None) => if made == 1 {
                    tape.answers[tape.used as int] matches Err(met) && met.kind == FaultKind::Absent
                } else {
                    &&& made == 81
                    &&& forall|j: int|
                        0 <= j < controllers.len() ==> (#[trigger] controllers[j]).version@
                            != version || controllers[j].led_count != led_count
                },
                Err(Stop::Pending(access)) => {
                    &&& 0 <= made < 81
                    &&& after.used >= tape.answers.len()
                    &&& access == if made == 0 {
                        Access::ReadAddressByte { address }
                    } else if made < 17 {
                        Access::ReadRegister { address, register: (0x1000 + made - 1) as u16 }
                    } else {
                        Access::ReadRegister { address, register: (0x1c00 + made - 17) as u16 }
                    }
                },
                Err(Stop::Failed(fault)) => {
                    &&& 1 <= made <= 81
                    &&& tape.answers[after.used - 1] matches Err(met) && if made == 1 {
                        &&& met.kind != FaultKind::Absent
                        &&& fault.kind == met.kind
                        &&& fault.message == "probe address 0x"@ + hex_padded(address as nat)
                            + ": "@ + met.message
                    } else {
                        fault == met
                    }
                },
            }
        }),
{
    let (_, present) = address_responds_run(tape, address);
    registers_are_read_in_order(present, address, 0x1000, 16);
    let (name, named) = read_bytes_run(present, address, 0x1000, 16);
    registers_are_read_in_order(named, address, 0x1c00, 64);
    let (config, read) = read_bytes_run(named, address, 0x1c00, 64);
    if present.used == tape.used + 1 && name is Ok {
        let bytes = name->Ok_0;
        assert forall|i: int| present.used <= i < named.used implies (
        #[trigger] tape.answers[i]) is Ok by {
            assert(tape.answers[present.used + (i - present.used)] == Ok::<u8, Fault>(
                bytes[i - present.used],
            ));
        }
        if config is Ok {
            let table = config->Ok_0;
            assert forall|i: int| named.used <= i < read.used implies (
            #[trigger] tape.answers[i]) is Ok by {
                assert(tape.answers[named.used + (i - named.used)] == Ok::<u8, Fault>(
                    table[i - named.used],
                ));
            }
            assert forall|i: int| 0 <= i < 16 implies bytes[i] == (
            #[trigger] tape.answers[tape.used + 1 + i])->Ok_0 by {
                assert(tape.answers[present.used + i] == Ok::<u8, Fault>(bytes[i]));
            }
            assert(Seq::new(16, |i: int| tape.answers[tape.used + 1 + i]->Ok_0) =~= bytes);
            assert(tape.answers[named.used as int + 2] == Ok::<u8, Fault>(table[2]));
            the_first_fitting_controller_is_known(profile.controllers@, version_text(bytes), table[2]);
        }
    }
}

/// A probe goes from address to address. Each is looked at where the one before
/// ended; a controller that is found goes to the end of the devices, a fault to
/// the end of the failures with its address. The probe ends after the last
/// address, or where an answer is missing.
pub proof fn probe_takes_every_address(
    tape: Tape,
    profile: EneDramProfile,
    tapes: Seq<Tape>,
    reports: Seq<Report>,
    last: nat,
)
    requires
        last <= profile.addresses@.len(),
        tapes.len() == last + 1,
        reports.len() == last + 1,
        tapes[0] == tape,
        reports[0].devices.len() == 0,
        reports[0].failures.len() == 0,
        forall|k: int|
            #![trigger tapes[k]]
            0 <= k < last ==> {
                let address = profile.addresses@[k];
                let (result, after) = probe_address_run(tapes[k], address, profile);
                &&& tapes[k + 1] == after
                &&& match result {
                    Ok(Some(device)) => {
                        &&& reports[k + 1].devices == reports[k].devices.push(device)
                        &&& reports[k + 1].failures == reports[k].failures
                    },
                    Ok(None) => reports[k + 1] == reports[k],
                    Err(Stop::Failed(fault)) => {
                        &&& reports[k + 1].devices == reports[k].devices
                        &&& reports[k + 1].failures == reports[k].failures.push(
                            (address, fault.message),
                        )
                    },
                    Err(Stop::Pending(_)) => false,
                }
            },
    ensures
        last == profile.addresses@.len() ==> probe_run(tape, profile, profile.addresses@.len()) == (
            Ok::<Report, Access>(reports[last as int]),
            tapes[last as int],
        ),
        last < profile.addresses@.len() ==> {
            let (result, after) = probe_address_run(
                tapes[last as int],
                profile.addresses@[last as int],
                profile,
            );
            result matches Err(Stop::Pending(access)) ==> probe_run(
                tape,
                profile,
                profile.addresses@.len(),
            ) == (Err::<Report, Access>(access), after)
        },
{
    lemma_probe_stations(tape, profile, tapes, reports, last);
    if last < profile.addresses@.len() {
        let (result, _) = probe_address_run(
            tapes[last as int],
            profile.addresses@[last as int],
            profile,
        );
        if result matches Err(Stop::Pending(_)) {
            lemma_probe_stays(tape, profile, (last + 1) as nat, profile.addresses@.len());
        }
    }
}

proof fn lemma_probe_stays(tape: Tape, profile: EneDramProfile, shorter: nat, count: nat)
    requires
        shorter <= count,
        probe_run(tape, profile, shorter).0 is Err,
    ensures
        probe_run(tape, profile, count) == probe_run(tape, profile, shorter),
    decreases count,
{
    if shorter < count {
        lemma_probe_stays(tape, profile, shorter, (count - 1) as nat);
    }
}

proof fn lemma_probe_stations(
    tape: Tape,
    profile: EneDramProfile,
    tapes: Seq<Tape>,
    reports: Seq<Report>,
    at: nat,
)
    requires
        at < tapes.len(),
        at < reports.len(),
        tapes[0] == tape,
        reports[0].devices.len() == 0,
        reports[0].failures.len() == 0,
        forall|k: int|
            #![trigger tapes[k]]
            0 <= k < at ==> {
                let address = profile.addresses@[k];
                let (result, after) = probe_address_run(tapes[k], address, profile);
                &&& tapes[k + 1] == after
                &&& match result {
                    Ok(Some(device)) => {
                        &&& reports[k + 1].devices == reports[k].devices.push(device)
                        &&& reports[k + 1].failures == reports[k].failures
                    },
                    Ok(None) => reports[k + 1] == reports[k],
                    Err(Stop::Failed(fault)) => {
                        &&& reports[k + 1].devices == reports[k].devices
                        &&& reports[k + 1].failures == reports[k].failures.push(
                            (address, fault.message),
                        )
                    },
                    Err(Stop::Pending(_)) => false,
                }
            },
    ensures
        probe_run(tape, profile, at) == (Ok::<Report, Access>(reports[at as int]), tapes[at as int]),
    decreases at,
{
    if at == 0 {
        assert(reports[0].devices =~= seq![]);
        assert(reports[0].failures =~= seq![]);
    } else {
        let before = (at - 1) as nat;
        lemma_probe_stations(tape, profile, tapes, reports, before);
        assert(tapes[before as int] == probe_run(tape, profile, before).1);
    }
}

/// The slots are checked one by one, in order, with one answer for each. A slot
/// at whose address nothing answers is listed with that address; one at whose
/// address something answers is not. Any other fault ends the check.
pub proof fn slots_are_checked_in_order(tape: Tape, addresses: Seq<u16>, count: nat)
    requires
        count <= addresses.len() <= usize::MAX,
    ensures
        ({
            let (result, after) = assignments_run(tape, addresses, count);
            let made = after.used - tape.used;
            let settled = if result matches Err(Stop::Failed(_)) {
                made - 1
            } else {
                made
            };
            &&& after.answers == tape.answers
            &&& forall|i: int|
                0 <= i < settled ==> ((#[trigger] tape.answers[tape.used + i]) matches Err(met)
                    ==> met.kind == FaultKind::Absent)
            &&& match result {
                Ok(assignments) => {
                    &&& made == count
                    &&& forall|k: int|
                        0 <= k < assignments.len() ==> {
                            let (slot, address) = #[trigger] assignments[k];
                            &&& slot < count
                            &&& address == addresses[slot as int]
                            &&& tape.answers[tape.used + slot] is Err
                        }
                    &&& forall|j: int, k: int|
                        0 <= j < k < assignments.len() ==> (#[trigger] assignments[j]).0 < (
                        #[trigger] assignments[k]).0
                    &&& forall|slot: int|
                        0 <= slot < count && (#[trigger] tape.answers[tape.used + slot]) is Err
                            ==> assignments.contains((slot as usize, addresses[slot]))
                },
                Err(Stop::Pending(access)) => {
                    &&& 0 <= made < count
                    &&& after.used >= tape.answers.len()
                    &&& access == Access::ReadAddressByte { address: addresses[made] }
                },
                Err(Stop::Failed(fault)) => {
                    &&& 1 <= made <= count
                    &&& tape.answers[after.used - 1] matches Err(met) && {
                        &&& met.kind != FaultKind::Absent
                        &&& fault.kind == met.kind
                        &&& fault.message == "probe address 0x"@ + hex_padded(
                            addresses[made - 1] as nat,
                        ) + ": "@ + met.message
                    }
                },
            }
        }),
    decreases count,
{
    if count > 0 {
        let before = (count - 1) as nat;
        slots_are_checked_in_order(tape, addresses, before);
        let (shorter, middle) = assignments_run(tape, addresses, before);
        one_answer_tells_of_presence(middle, addresses[count - 1]);
        if let Ok(listed) = shorter {
            if let Ok(assignments) = assignments_run(tape, addresses, count).0 {
                assert forall|slot: int|
                    0 <= slot < count && (
                    #[trigger] tape.answers[tape.used + slot]) is Err implies assignments.contains(
                    (slot as usize, addresses[slot]),
                ) by {
                    let entry = (slot as usize, addresses[slot]);
                    if slot < before {
                        let k = listed.index_of(entry);
                        assert(assignments[k] == entry);
                    } else {
                        assert(assignments.last() == entry);
                    }
                }
            }
        }
    }
}

proof fn lemma_assign_course(tape: Tape, assignments: Seq<(usize, u16)>, index: int)
    requires
        0 <= index <= assignments.len(),
    ensures
        ({
            let (result, after) = assign_run(tape, assignments, index);
            let made = after.used - tape.used;
            let succeeded = match result {
                Err(Stop::Failed(_)) => made - 1,
                Ok(_) if made < 3 * (assignments.len() - index) => made - 1,
                _ => made,
            };
            &&& after.answers == tape.answers
            &&& forall|i: int|
                tape.used <= i < tape.used + succeeded ==> (#[trigger] tape.answers[i]) is Ok
            &&& match result {
                Ok(_) => {
                    ||| made == 3 * (assignments.len() - index)
                    ||| {
                        &&& 1 <= made < 3 * (assignments.len() - index)
                        &&& made % 3 == 1
                        &&& tape.answers[after.used - 1] matches Err(met) && met.kind
                            == FaultKind::Absent
                    }
                },
                Err(Stop::Pending(access)) => {
                    let (slot, address) = assignments[index + made / 3];
                    &&& 0 <= made < 3 * (assignments.len() - index)
                    &&& after.used >= tape.answers.len()
                    &&& access == if made % 3 == 0 {
                        Access::ReadAddressByte { address: 0x77 }
                    } else if made % 3 == 1 {
                        Access::WriteRegister {
                            address: 0x77,
                            register: 0x80f8,
                            value: (slot % 256) as u8,
                        }
                    } else {
                        Access::WriteRegister {
                            address: 0x77,
                            register: 0x80f9,
                            value: ((address * 2) % 256) as u8,
                        }
                    }
                },
                Err(Stop::Failed(fault)) => {
                    &&& 1 <= made <= 3 * (assignments.len() - index)
                    &&& tape.answers[after.used - 1] matches Err(met) && if made % 3 == 1 {
                        &&& met.kind != FaultKind::Absent
                        &&& fault.kind == met.kind
                        &&& fault.message == "probe address 0x77: "@ + met.message
                    } else {
                        fault == met
                    }
                },
            }
        }),
    decreases assignments.len() - index,
{
    if index < assignments.len() {
        let (slot, address) = assignments[index];
        one_answer_tells_of_presence(tape, 0x77);
        lemma_probing_the_mapper();
        let (waits, waiting) = address_responds_run(tape, 0x77);
        let (_, chosen) = exchange(
            waiting,
            Access::WriteRegister { address: 0x77, register: 0x80f8, value: (slot % 256) as u8 },
        );
        let (_, mapped) = exchange(
            chosen,
            Access::WriteRegister {
                address: 0x77,
                register: 0x80f9,
                value: ((address * 2) % 256) as u8,
            },
        );
        lemma_assign_course(mapped, assignments, index + 1);
        if waits matches Err(Stop::Failed(fault)) {
            let fault = waits->Err_0->Failed_0;
            let met = tape.answers[tape.used as int]->Err_0;
            assert(fault.message =~= "probe address 0x77: "@ + met.message);
        }
    }
}

proof fn lemma_probing_the_mapper()
    ensures
        "probe address 0x"@ + hex_padded(0x77) + ": "@ == "probe address 0x77: "@,
{
    reveal_strlit("probe address 0x");
    reveal_strlit("probe address 0x77: ");
    reveal_strlit(": ");
    reveal_with_fuel(crate::text::hex_numeral, 2);
    assert(hex_padded(0x77) =~= seq!['7', '7']);
    assert("probe address 0x"@ + hex_padded(0x77) + ": "@ =~= "probe address 0x77: "@);
}

/// Where the mapper has identified itself and the slots have been checked, every
/// slot without an address is handed its own, in order, as long as the mapper
/// answers: a check of the mapper, the slot's number to the one register, and
/// the address, moved up by one bit, to the other. Mapping ends well when all
/// are handed out, or when the mapper is found absent; it fails where a fault is
/// met; and nothing else ends it.
pub proof fn mapping_hands_out_every_address(tape: Tape, profile: EneDramProfile)
    ensures
        ({
            let (result, after) = remap_run(tape, profile);
            let (identity, found) = probe_address_run(tape, 0x77, profile);
            let (listing, listed) = assignments_run(
                found,
                profile.addresses@,
                profile.addresses@.len(),
            );
            match identity {
                Err(stop) => result == Err::<(), Stop<Access, Fault>>(stop) && after == found,
                Ok(None) => result is Ok && after == found,
                Ok(Some(_)) => match listing {
                    Err(stop) => result == Err::<(), Stop<Access, Fault>>(stop) && after == listed,
                    Ok(assignments) => {
                        let all = 3 * assignments.len();
                        let made = after.used - listed.used;
                        let succeeded = match result {
                            Err(Stop::Failed(_)) => made - 1,
                            Ok(_) if made < all => made - 1,
                            _ => made,
                        };
                        &&& after.answers == listed.answers
                        &&& forall|i: int|
                            listed.used <= i < listed.used + succeeded ==> (
                            #[trigger] listed.answers[i]) is Ok
                        &&& match result {
                            Ok(_) => {
                                ||| made == all
                                ||| {
                                    &&& 1 <= made < all
                                    &&& made % 3 == 1
                                    &&& listed.answers[after.used - 1] matches Err(met) && met.kind
                                        == FaultKind::Absent
                                }
                            },
                            Err(Stop::Pending(access)) => {
                                let (slot, address) = assignments[made / 3];
                                &&& 0 <= made < all
                                &&& after.used >= listed.answers.len()
                                &&& access == if made % 3 == 0 {
                                    Access::ReadAddressByte { address: 0x77 }
                                } else if made % 3 == 1 {
                                    Access::WriteRegister {
                                        address: 0x77,
                                        register: 0x80f8,
                                        value: (slot % 256) as u8,
                                    }
                                } else {
                                    Access::WriteRegister {
                                        address: 0x77,
                                        register: 0x80f9,
                                        value: ((address * 2) % 256) as u8,
                                    }
                                }
                            },
                            Err(Stop::Failed(fault)) => {
                                &&& 1 <= made <= all
                                &&& listed.answers[after.used - 1] matches Err(met) && if made % 3
                                    == 1 {
                                    &&& met.kind != FaultKind::Absent
                                    &&& fault.kind == met.kind
                                    &&& fault.message == "probe address 0x77: "@ + met.message
                                } else {
                                    fault == met
                                }
                            },
                        }
                    },
                },
            }
        }),
{
    let (_, found) = probe_address_run(tape, 0x77, profile);
    let (listing, listed) = assignments_run(found, profile.addresses@, profile.addresses@.len());
    if let Ok(assignments) = listing {
        lemma_assign_course(listed, assignments, 0);
    }
}

/// A write of a color becomes the access that performs it at the device.
pub proof fn writes_become_accesses(address: u16, write: Write)
    ensures
        match (write, write_access(address, write)) {
            (
                Write::Byte { register, value },
                Access::WriteRegister { address: a, register: r, value: v },
            ) => a == address && r == register && v == value,
            (
                Write::Block { register, data },
                Access::WriteRegisterBlock { address: a, register: r, data: d },
            ) => a == address && r == register && d == data,
            _ => false,
        },
{
}

/// Devices are written one after the other. Each is attempted where the one
/// before ended, and how that went is its outcome, whatever the others did. It
/// ends after the last device, or where an answer is missing.
pub proof fn every_device_is_attempted(
    tape: Tape,
    devices: Seq<EneDramDevice>,
    rgb: Seq<u8>,
    tapes: Seq<Tape>,
    last: nat,
)
    requires
        last <= devices.len(),
        tapes.len() == last + 1,
        tapes[0] == tape,
        forall|k: int|
            #![trigger tapes[k]]
            0 <= k < last ==> {
                let (result, after) = set_color_run(tapes[k], devices[k], rgb);
                tapes[k + 1] == after && !(result matches Err(Stop::Pending(_)))
            },
    ensures
        ({
            let (result, after) = write_devices_run(tape, devices, rgb, devices.len());
            &&& last == devices.len() ==> {
                &&& after == tapes[last as int]
                &&& result matches Ok(outcomes) && outcomes.len() == devices.len() && forall|i: int|
                    0 <= i < devices.len() ==> {
                        let outcome = #[trigger] outcomes[i];
                        &&& outcome.address == devices[i].address
                        &&& match set_color_run(tapes[i], devices[i], rgb).0 {
                            Ok(_) => outcome.result is Ok,
                            Err(Stop::Failed(fault)) => outcome.result == Err::<(), Seq<char>>(
                                fault.message,
                            ),
                            Err(Stop::Pending(_)) => false,
                        }
                    }
            }
            &&& last < devices.len() ==> {
                let (ended, at) = set_color_run(tapes[last as int], devices[last as int], rgb);
                ended matches Err(Stop::Pending(access)) ==> (result, after) == (
                    Err::<Seq<WriteOutcome>, Access>(access),
                    at,
                )
            }
        }),
{
    lemma_writing_stations(tape, devices, rgb, tapes, last);
    if last < devices.len() {
        let (ended, _) = set_color_run(tapes[last as int], devices[last as int], rgb);
        if ended matches Err(Stop::Pending(_)) {
            lemma_writing_stays(tape, devices, rgb, (last + 1) as nat, devices.len());
        }
    }
}

proof fn lemma_writing_stays(
    tape: Tape,
    devices: Seq<EneDramDevice>,
    rgb: Seq<u8>,
    shorter: nat,
    count: nat,
)
    requires
        shorter <= count,
        write_devices_run(tape, devices, rgb, shorter).0 is Err,
    ensures
        write_devices_run(tape, devices, rgb, count) == write_devices_run(
            tape,
            devices,
            rgb,
            shorter,
        ),
    decreases count,
{
    if shorter < count {
        lemma_writing_stays(tape, devices, rgb, shorter, (count - 1) as nat);
    }
}

proof fn lemma_writing_stations(
    tape: Tape,
    devices: Seq<EneDramDevice>,
    rgb: Seq<u8>,
    tapes: Seq<Tape>,
    at: nat,
)
    requires
        at < tapes.len(),
        tapes[0] == tape,
        forall|k: int|
            #![trigger tapes[k]]
            0 <= k < at ==> {
                let (result, after) = set_color_run(tapes[k], devices[k], rgb);
                tapes[k + 1] == after && !(result matches Err(Stop::Pending(_)))
            },
    ensures
        ({
            let (result, after) = write_devices_run(tape, devices, rgb, at);
            &&& after == tapes[at as int]
            &&& result matches Ok(outcomes) && outcomes.len() == at && forall|i: int|
                0 <= i < at ==> {
                    let outcome = #[trigger] outcomes[i];
                    &&& outcome.address == devices[i].address
                    &&& match set_color_run(tapes[i], devices[i], rgb).0 {
                        Ok(_) => outcome.result is Ok,
                        Err(Stop::Failed(fault)) => outcome.result == Err::<(), Seq<char>>(
                            fault.message,
                        ),
                        Err(Stop::Pending(_)) => false,
                    }
                }
        }),
    decreases at,
{
    if at > 0 {
        let before = (at - 1) as nat;
        lemma_writing_stations(tape, devices, rgb, tapes, before);
        assert(tapes[before as int] == write_devices_run(tape, devices, rgb, before).1);
    }
}

/// Lighting what was prepared opens its bus and attempts every prepared device.
/// Where it ends well, there is an outcome for each of them, with its address,
/// and it is how the writes of the color ended on that device.
pub proof fn every_prepared_device_is_attempted(
    tape: Tape,
    prepared: Prepared,
    rgb: Seq<u8>,
    tapes: Seq<Tape>,
    last: nat,
)
    requires
        exchange(tape, BusAccess::Open { bus: prepared.bus }).0 is Ok,
        last <= prepared.devices.len(),
        tapes.len() == last + 1,
        tapes[0] == exchange(tape, BusAccess::Open { bus: prepared.bus }).1,
        forall|k: int|
            #![trigger tapes[k]]
            0 <= k < last ==> {
                let (result, after) = set_color_run(tapes[k], prepared.devices[k], rgb);
                tapes[k + 1] == after && !(result matches Err(Stop::Pending(_)))
            },
    ensures
        ({
            let devices = prepared.devices;
            let (result, after) = set_prepared_run(tape, prepared, rgb);
            &&& last == devices.len() ==> {
                &&& after == tapes[last as int]
                &&& result matches Ok(outcomes) && outcomes.len() == devices.len() && forall|i: int|
                    0 <= i < devices.len() ==> {
                        let outcome = #[trigger] outcomes[i];
                        &&& outcome.address == devices[i].address
                        &&& match set_color_run(tapes[i], devices[i], rgb).0 {
                            Ok(_) => outcome.result is Ok,
                            Err(Stop::Failed(fault)) => outcome.result == Err::<(), Seq<char>>(
                                fault.message,
                            ),
                            Err(Stop::Pending(_)) => false,
                        }
                    }
            }
            &&& last < devices.len() ==> {
                let (ended, at) = set_color_run(tapes[last as int], devices[last as int], rgb);
                ended matches Err(Stop::Pending(access)) ==> (result, after) == (
                    Err::<Seq<WriteOutcome>, Stop<BusAccess, Fault>>(
                        Stop::Pending(BusAccess::Access(access)),
                    ),
                    at,
                )
            }
        }),
{
    every_device_is_attempted(tapes[0], prepared.devices, rgb, tapes, last);
}

/// Lighting what was prepared ends with as many outcomes as there are prepared
/// devices, the one for each device with that device's address; and it fails
/// only if its bus cannot be opened, before anything is written.
pub proof fn lighting_fails_only_without_its_bus(tape: Tape, prepared: Prepared, rgb: Seq<u8>)
    ensures
        ({
            let (opening, opened) = exchange(tape, BusAccess::Open { bus: prepared.bus });
            let (result, after) = set_prepared_run(tape, prepared, rgb);
            &&& opening matches Err(Stop::Pending(access)) ==> (result, after) == (
                Err::<Seq<WriteOutcome>, Stop<BusAccess, Fault>>(Stop::Pending(access)),
                tape,
            )
            &&& opening matches Err(Stop::Failed(met)) ==> {
                &&& after == opened
                &&& result matches Err(Stop::Failed(fault)) && fault.kind == met.kind
                    && fault.message == "open "@ + prepared.bus + ": "@ + met.message
            }
            &&& opening is Ok ==> !(result matches Err(Stop::Failed(_)))
            &&& result matches Ok(outcomes) ==> opening is Ok && outcomes.len()
                == prepared.devices.len() && forall|i: int|
                0 <= i < outcomes.len() ==> (#[trigger] outcomes[i]).address
                    == prepared.devices[i].address
        }),
{
    let (_, opened) = exchange(tape, BusAccess::Open { bus: prepared.bus });
    every_device_has_its_outcome(opened, prepared.devices, rgb, prepared.devices.len());
}

/// Setting everything on a bus is a probe of that bus and, if that reports
/// devices and no failure, lighting all the devices that it reported.
pub proof fn set_all_lights_all_that_was_reported(
    tape: Tape,
    bus: Seq<char>,
    profile: EneDramProfile,
    rgb: Seq<u8>,
)
    requires
        valid_profile(profile),
    ensures
        ({
            let (result, after) = set_all_run(tape, bus, profile, rgb);
            let (probed, at) = probe_bus_run(tape, bus, profile);
            match probed {
                Err(Stop::Pending(access)) => result == Err::<
                    Seq<WriteOutcome>,
                    Stop<BusAccess, DramFault>,
                >(Stop::Pending(access)) && after == at,
                Err(Stop::Failed(fault)) => result == Err::<
                    Seq<WriteOutcome>,
                    Stop<BusAccess, DramFault>,
                >(Stop::Failed(DramFault::Bus(fault))) && after == at,
                Ok(report) => if report.devices.len() == 0 {
                    &&& result == Err::<Seq<WriteOutcome>, Stop<BusAccess, DramFault>>(
                        Stop::Failed(DramFault::NoControllersOn { bus }),
                    )
                    &&& after == at
                } else if report.failures.len() > 0 {
                    &&& result == Err::<Seq<WriteOutcome>, Stop<BusAccess, DramFault>>(
                        Stop::Failed(DramFault::ProbeFailed { failures: report.failures }),
                    )
                    &&& after == at
                } else {
                    let prepared = Prepared {
                        bus,
                        devices: report.devices,
                        probe_failures: report.failures,
                    };
                    let (lit, ended) = set_prepared_run(at, prepared, rgb);
                    &&& after == ended
                    &&& match lit {
                        Ok(outcomes) => result == Ok::<
                            Seq<WriteOutcome>,
                            Stop<BusAccess, DramFault>,
                        >(outcomes) && outcomes.len() == report.devices.len() && forall|i: int|
                            0 <= i < outcomes.len() ==> (#[trigger] outcomes[i]).address
                                == report.devices[i].address,
                        Err(Stop::Pending(access)) => result == Err::<
                            Seq<WriteOutcome>,
                            Stop<BusAccess, DramFault>,
                        >(Stop::Pending(access)),
                        Err(Stop::Failed(fault)) => result == Err::<
                            Seq<WriteOutcome>,
                            Stop<BusAccess, DramFault>,
                        >(Stop::Failed(DramFault::Bus(fault))),
                    }
                },
            }
        }),
{
    profile_is_valid_without_error(profile);
    let (probed, at) = probe_bus_run(tape, bus, profile);
    if let Ok(report) = probed {
        let prepared = Prepared {
            bus,
            devices: report.devices,
            probe_failures: report.failures,
        };
        lighting_fails_only_without_its_bus(at, prepared, rgb);
    }
}

/// A bus is opened before it is mapped or probed, and mapping and probing go on
/// from there. A bus that cannot be opened is not touched.
pub proof fn a_bus_is_opened_first(tape: Tape, bus: Seq<char>, profile: EneDramProfile)
    ensures
        ({
            let (opening, opened) = exchange(tape, BusAccess::Open { bus });
            let (mapping, mapped) = remap_bus_run(tape, bus, profile);
            let (probing, probed) = probe_bus_run(tape, bus, profile);
            match opening {
                Ok(_) => {
                    let (done, mapped_to) = remap_run(opened, profile);
                    let (reported, probed_to) = probe_run(
                        opened,
                        profile,
                        profile.addresses@.len(),
                    );
                    &&& mapped == mapped_to
                    &&& probed == probed_to
                    &&& match done {
                        Ok(_) => mapping is Ok,
                        Err(Stop::Pending(access)) => mapping == Err::<(), Stop<BusAccess, Fault>>(
                            Stop::Pending(BusAccess::Access(access)),
                        ),
                        Err(Stop::Failed(fault)) => mapping == Err::<(), Stop<BusAccess, Fault>>(
                            Stop::Failed(fault),
                        ),
                    }
                    &&& match reported {
                        Ok(report) => probing == Ok::<Report, Stop<BusAccess, Fault>>(report),
                        Err(access) => probing == Err::<Report, Stop<BusAccess, Fault>>(
                            Stop::Pending(BusAccess::Access(access)),
                        ),
                    }
                },
                Err(Stop::Pending(access)) => {
                    &&& access == BusAccess::Open { bus }
                    &&& mapping == Err::<(), Stop<BusAccess, Fault>>(Stop::Pending(access))
                    &&& probing == Err::<Report, Stop<BusAccess, Fault>>(Stop::Pending(access))
                    &&& mapped == tape && probed == tape
                },
                Err(Stop::Failed(met)) => {
                    &&& mapping == Err::<(), Stop<BusAccess, Fault>>(Stop::Failed(met))
                    &&& mapped == opened && probed == opened
                    &&& probing matches Err(Stop::Failed(fault)) && {
                        &&& fault.kind == met.kind
                        &&& fault.message == "open "@ + bus
                            + " (SMBus reads require write access to select an ENE register)"@
                            + ": "@ + met.message
                    }
                },
            }
        }),
{
}

/// Examining a bus maps its addresses and then probes it, from where mapping
/// ended. A fault that mapping meets ends the examination.
pub proof fn a_bus_is_mapped_and_then_probed(tape: Tape, bus: Seq<char>, profile: EneDramProfile)
    ensures
        ({
            let (mapping, mapped) = remap_bus_run(tape, bus, profile);
            let (result, after) = examine_run(tape, bus, profile);
            match mapping {
                Ok(_) => (result, after) == probe_bus_run(mapped, bus, profile),
                Err(Stop::Pending(access)) => (result, after) == (
                    Err::<Report, Stop<BusAccess, Fault>>(Stop::Pending(access)),
                    mapped,
                ),
                Err(Stop::Failed(met)) => {
                    &&& after == mapped
                    &&& result matches Err(Stop::Failed(fault)) && fault.kind == met.kind
                        && fault.message == "check ENE mapping on "@ + bus + ": "@ + met.message
                },
            }
        }),
{
}

/// The search for controllers is complete. Adapters are gone through in the
/// order of their entries; one that the profile does not ask for is passed over,
/// and the bus of any other is examined where the examination before it ended.
/// As long as these report no device, their failures are noted and the search
/// goes on. If it comes to the end that way, and only then, there are no
/// controllers. Otherwise the first bus with another result decides: what it
/// reports is prepared, what it asks for is asked for, and its fault is the
/// fault of the search.
pub proof fn search_is_complete(
    tape: Tape,
    profile: EneDramProfile,
    adapters: Seq<AdapterInfo>,
    tapes: Seq<Tape>,
    notes: Seq<Seq<Seq<char>>>,
    last: nat,
)
    requires
        valid_profile(profile),
        last <= adapters.len(),
        adapters.len() <= usize::MAX,
        tapes.len() == last + 1,
        notes.len() == last + 1,
        tapes[0] == tape,
        notes[0].len() == 0,
        forall|k: int|
            #![trigger tapes[k]]
            0 <= k < last ==> {
                let adapter = by_entry(adapters)[k];
                let bus = "/dev/"@ + adapter.entry;
                let (result, after) = examine_run(tapes[k], bus, profile);
                if exists|i: int|
                    0 <= i < profile.adapter_name_patterns@.len() && contains_text(
                        adapter.name,
                        (#[trigger] profile.adapter_name_patterns@[i])@,
                    ) {
                    &&& tapes[k + 1] == after
                    &&& result matches Ok(report) && report.devices.len() == 0 && notes[k + 1]
                        == notes[k] + Seq::new(
                        report.failures.len(),
                        |f: int|
                            bus + " 0x"@ + hex_padded(report.failures[f].0 as nat) + ": "@
                                + report.failures[f].1,
                    )
                } else {
                    tapes[k + 1] == tapes[k] && notes[k + 1] == notes[k]
                }
            },
    ensures
        ({
            let (result, after) = prepare_run(tape, profile, adapters);
            let noted = notes[last as int];
            &&& last == adapters.len() ==> {
                &&& after == tapes[last as int]
                &&& result == Err::<Prepared, Stop<BusAccess, DramFault>>(
                    Stop::Failed(
                        if noted.len() == 0 {
                            DramFault::NoControllers
                        } else {
                            DramFault::NothingButFailures { reports: noted }
                        },
                    ),
                )
            }
            &&& last < adapters.len() ==> {
                let adapter = by_entry(adapters)[last as int];
                let bus = "/dev/"@ + adapter.entry;
                let (examined, at) = examine_run(tapes[last as int], bus, profile);
                (exists|i: int|
                    0 <= i < profile.adapter_name_patterns@.len() && contains_text(
                        adapter.name,
                        (#[trigger] profile.adapter_name_patterns@[i])@,
                    )) ==> match examined {
                    Ok(report) => report.devices.len() > 0 ==> (result, after) == (
                        Ok::<Prepared, Stop<BusAccess, DramFault>>(
                            Prepared {
                                bus,
                                devices: report.devices,
                                probe_failures: report.failures,
                            },
                        ),
                        at,
                    ),
                    Err(Stop::Pending(access)) => (result, after) == (
                        Err::<Prepared, Stop<BusAccess, DramFault>>(Stop::Pending(access)),
                        at,
                    ),
                    Err(Stop::Failed(fault)) => (result, after) == (
                        Err::<Prepared, Stop<BusAccess, DramFault>>(
                            Stop::Failed(DramFault::Bus(fault)),
                        ),
                        at,
                    ),
                }
            }
        }),
{
    profile_is_valid_without_error(profile);
    let sorted = by_entry(adapters);
    let patterns = profile.adapter_name_patterns@;
    assert(notes[0] =~= seq![]);
    assert forall|k: int|
        #![trigger tapes[k]]
        0 <= k < last implies {
        let bus = bus_path(sorted[k].entry);
        let (result, after) = examine_run(tapes[k], bus, profile);
        if is_configured(sorted[k].name, patterns) {
            &&& tapes[k + 1] == after
            &&& result matches Ok(report) && report.devices.len() == 0 && notes[k + 1] == notes[k]
                + failure_lines(bus, report.failures)
        } else {
            tapes[k + 1] == tapes[k] && notes[k + 1] == notes[k]
        }
    } by {
        let bus = bus_path(sorted[k].entry);
        if is_configured(sorted[k].name, patterns) {
            let report = examine_run(tapes[k], bus, profile).0->Ok_0;
            assert(failure_lines(bus, report.failures) =~= Seq::new(
                report.failures.len(),
                |f: int|
                    bus + " 0x"@ + hex_padded(report.failures[f].0 as nat) + ": "@
                        + report.failures[f].1,
            ));
        }
    }
    lemma_search_stations(tape, profile, sorted, tapes, notes, last);
    if last < adapters.len() {
        let adapter = sorted[last as int];
        if exists|i: int|
            0 <= i < patterns.len() && contains_text(
                adapter.name,
                (#[trigger] patterns[i])@,
            ) {
            assert(is_configured(adapter.name, patterns));
        }
    }
}

proof fn lemma_search_stations(
    tape: Tape,
    profile: EneDramProfile,
    sorted: Seq<AdapterInfo>,
    tapes: Seq<Tape>,
    notes: Seq<Seq<Seq<char>>>,
    at: nat,
)
    requires
        at < tapes.len(),
        at < notes.len(),
        at <= sorted.len(),
        tapes[0] == tape,
        notes[0] == Seq::<Seq<char>>::empty(),
        forall|k: int|
            #![trigger tapes[k]]
            0 <= k < at ==> {
                let bus = bus_path(sorted[k].entry);
                let (result, after) = examine_run(tapes[k], bus, profile);
                if is_configured(sorted[k].name, profile.adapter_name_patterns@) {
                    &&& tapes[k + 1] == after
                    &&& result matches Ok(report) && report.devices.len() == 0 && notes[k + 1]
                        == notes[k] + failure_lines(bus, report.failures)
                } else {
                    tapes[k + 1] == tapes[k] && notes[k + 1] == notes[k]
                }
            },
    ensures
        search_run(tape, profile, sorted, 0, seq![]) == search_run(
            tapes[at as int],
            profile,
            sorted,
            at as int,
            notes[at as int],
        ),
    decreases at,
{
    if at > 0 {
        let before = at - 1;
        lemma_search_stations(tape, profile, sorted, tapes, notes, before as nat);
        assert(search_run(tapes[before], profile, sorted, before, notes[before]) == search_run(
            tapes[before + 1],
            profile,
            sorted,
            before + 1,
            notes[before + 1],
        ));
    }
}

/// A diagnosis tells what was met at an address: nothing, a fault of the check,
/// a device whose name or configuration could not be read, or a device with the
/// version and the number of LEDs that it gave. It is supported exactly if the
/// profile has a controller with both.
pub proof fn a_diagnosis_tells_what_was_met(tape: Tape, address: u16, profile: EneDramProfile)
    ensures
        ({
            let (result, after) = diagnose_address_run(tape, address, profile);
            let made = after.used - tape.used;
            let name = Seq::new(16, |i: int| tape.answers[tape.used + 1 + i]->Ok_0);
            let version = without_trailing_nul(lossy_text(name));
            let led_count = tape.answers[tape.used as int + 19]->Ok_0;
            &&& after.answers == tape.answers
            &&& result matches Err(access) ==> 0 <= made < 81 && after.used >= tape.answers.len()
                && access == if made == 0 {
                Access::ReadAddressByte { address }
            } else if made < 17 {
                Access::ReadRegister { address, register: (0x1000 + made - 1) as u16 }
            } else {
                Access::ReadRegister { address, register: (0x1c00 + made - 17) as u16 }
            }
            &&& result matches Ok(finding) ==> {
                &&& 1 <= made <= 81
                &&& finding.address == address
                &&& match tape.answers[after.used - 1] {
                    Err(met) => {
                        &&& !finding.supported
                        &&& finding.led_count is None
                        &&& if made == 1 {
                            &&& !finding.present
                            &&& finding.version is None
                            &&& finding.error == if met.kind == FaultKind::Absent {
                                None
                            } else {
                                Some(
                                    "check address: "@ + ("probe address 0x"@ + hex_padded(
                                        address as nat,
                                    ) + ": "@ + met.message),
                                )
                            }
                        } else if made <= 17 {
                            &&& finding.present
                            &&& finding.version is None
                            &&& finding.error == Some("read device name: "@ + met.message)
                        } else {
                            &&& finding.present
                            &&& finding.version == Some(version)
                            &&& finding.error == Some("read configuration table: "@ + met.message)
                        }
                    },
                    Ok(_) => {
                        &&& made == 81
                        &&& finding.present
                        &&& finding.version == Some(version)
                        &&& finding.led_count == Some(led_count)
                        &&& finding.error is None
                        &&& finding.supported <==> exists|i: int|
                            0 <= i < profile.controllers@.len() && (
                            #[trigger] profile.controllers@[i]).version@ == version
                                && profile.controllers@[i].led_count == led_count
                    },
                }
            }
        }),
{
    let (_, present) = address_responds_run(tape, address);
    registers_are_read_in_order(present, address, 0x1000, 16);
    let (name, named) = read_bytes_run(present, address, 0x1000, 16);
    registers_are_read_in_order(named, address, 0x1c00, 64);
    let (config, read) = read_bytes_run(named, address, 0x1c00, 64);
    if present.used == tape.used + 1 && name is Ok {
        let bytes = name->Ok_0;
        assert forall|i: int| 0 <= i < 16 implies bytes[i] == (
        #[trigger] tape.answers[tape.used + 1 + i])->Ok_0 by {
            assert(tape.answers[present.used + i] == Ok::<u8, Fault>(bytes[i]));
        }
        assert(Seq::new(16, |i: int| tape.answers[tape.used + 1 + i]->Ok_0) =~= bytes);
        if config is Ok {
            let table = config->Ok_0;
            assert(tape.answers[named.used as int + 2] == Ok::<u8, Fault>(table[2]));
            assert(tape.answers[named.used as int + 63] == Ok::<u8, Fault>(table[63]));
            the_first_fitting_controller_is_known(profile.controllers@, version_text(bytes), table[2]);
        }
    }
}

/// A diagnosis of a bus goes from address to address: those of the profile in
/// order, and the mapper's last. Each is looked at where the one before ended,
/// and each has its finding.
pub proof fn a_diagnosis_takes_every_address(
    tape: Tape,
    profile: EneDramProfile,
    tapes: Seq<Tape>,
    findings: Seq<AddressFinding>,
    last: nat,
)
    requires
        last <= profile.addresses@.len() + 1,
        tapes.len() == last + 1,
        findings.len() == last,
        tapes[0] == tape,
        forall|k: int|
            #![trigger tapes[k]]
            0 <= k < last ==> diagnose_address_run(
                tapes[k],
                if k < profile.addresses@.len() {
                    profile.addresses@[k]
                } else {
                    0x77
                },
                profile,
            ) == (Ok::<AddressFinding, Access>(findings[k]), tapes[k + 1]),
    ensures
        ({
            let count = profile.addresses@.len() + 1;
            let (result, after) = diagnose_addresses_run(tape, profile, count);
            &&& last == count ==> (result, after) == (
                Ok::<Seq<AddressFinding>, Access>(findings),
                tapes[last as int],
            )
            &&& last < count ==> {
                let (ended, at) = diagnose_address_run(
                    tapes[last as int],
                    if last < profile.addresses@.len() {
                        profile.addresses@[last as int]
                    } else {
                        0x77
                    },
                    profile,
                );
                ended matches Err(access) ==> (result, after) == (
                    Err::<Seq<AddressFinding>, Access>(access),
                    at,
                )
            }
        }),
{
    let count = profile.addresses@.len() + 1;
    lemma_diagnosis_stations(tape, profile, tapes, findings, last);
    assert(findings.take(last as int) =~= findings);
    if last < count {
        if diagnose_addresses_run(tape, profile, (last + 1) as nat).0 is Err {
            lemma_diagnosis_stays(tape, profile, (last + 1) as nat, count);
        }
    }
}

proof fn lemma_diagnosis_stays(tape: Tape, profile: EneDramProfile, shorter: nat, count: nat)
    requires
        shorter <= count,
        diagnose_addresses_run(tape, profile, shorter).0 is Err,
    ensures
        diagnose_addresses_run(tape, profile, count) == diagnose_addresses_run(
            tape,
            profile,
            shorter,
        ),
    decreases count,
{
    if shorter < count {
        lemma_diagnosis_stays(tape, profile, shorter, (count - 1) as nat);
    }
}

proof fn lemma_diagnosis_stations(
    tape: Tape,
    profile: EneDramProfile,
    tapes: Seq<Tape>,
    findings: Seq<AddressFinding>,
    at: nat,
)
    requires
        at < tapes.len(),
        at <= findings.len(),
        at <= profile.addresses@.len() + 1,
        tapes[0] == tape,
        forall|k: int|
            #![trigger tapes[k]]
            0 <= k < at ==> diagnose_address_run(
                tapes[k],
                if k < profile.addresses@.len() {
                    profile.addresses@[k]
                } else {
                    0x77
                },
                profile,
            ) == (Ok::<AddressFinding, Access>(findings[k]), tapes[k + 1]),
    ensures
        diagnose_addresses_run(tape, profile, at) == (
            Ok::<Seq<AddressFinding>, Access>(findings.take(at as int)),
            tapes[at as int],
        ),
    decreases at,
{
    if at == 0 {
        assert(findings.take(0) =~= seq![]);
    } else {
        let before = (at - 1) as nat;
        lemma_diagnosis_stations(tape, profile, tapes, findings, before);
        assert(tapes[before as int] == diagnose_addresses_run(tape, profile, before).1);
        assert(findings.take(at as int) =~= findings.take(before as int).push(
            findings[before as int],
        ));
    }
}

/// A bus that can be opened is told with the findings at its addresses, one that
/// cannot with the reason; both with their path and the name of the adapter
/// without the white space at its end.
pub proof fn a_bus_is_told_with_its_findings(
    tape: Tape,
    profile: EneDramProfile,
    adapter: AdapterInfo,
)
    ensures
        ({
            let bus = "/dev/"@ + adapter.entry;
            let (opening, opened) = exchange(tape, BusAccess::Open { bus });
            let (result, after) = diagnose_bus_run(tape, profile, adapter);
            &&& result matches Ok(finding) ==> finding.bus == bus && finding.adapter_name
                == without_trailing_space(adapter.name)
            &&& match opening {
                Ok(_) => {
                    let (found, at) = diagnose_addresses_run(
                        opened,
                        profile,
                        profile.addresses@.len() + 1,
                    );
                    &&& after == at
                    &&& match found {
                        Ok(addresses) => result matches Ok(finding) && finding.open_error is None
                            && finding.addresses == addresses,
                        Err(access) => result == Err::<BusFinding, BusAccess>(
                            BusAccess::Access(access),
                        ),
                    }
                },
                Err(Stop::Failed(met)) => {
                    &&& after == opened
                    &&& result matches Ok(finding) && finding.open_error == Some(met.message)
                        && finding.addresses.len() == 0
                },
                Err(Stop::Pending(access)) => {
                    &&& after == tape
                    &&& access == BusAccess::Open { bus }
                    &&& result == Err::<BusFinding, BusAccess>(access)
                },
            }
        }),
{
}

/// A diagnosis goes from adapter to adapter. One that the profile does not ask
/// for is passed over; the bus of any other is told about, from where the one
/// before ended, and all of them are told about in order.
pub proof fn every_configured_bus_is_diagnosed(
    tape: Tape,
    profile: EneDramProfile,
    adapters: Seq<AdapterInfo>,
    tapes: Seq<Tape>,
    told: Seq<Seq<BusFinding>>,
    last: nat,
)
    requires
        last <= adapters.len(),
        tapes.len() == last + 1,
        told.len() == last + 1,
        tapes[0] == tape,
        told[0].len() == 0,
        forall|k: int|
            #![trigger tapes[k]]
            0 <= k < last ==> {
                let (result, after) = diagnose_bus_run(tapes[k], profile, adapters[k]);
                if exists|i: int|
                    0 <= i < profile.adapter_name_patterns@.len() && contains_text(
                        adapters[k].name,
                        (#[trigger] profile.adapter_name_patterns@[i])@,
                    ) {
                    &&& tapes[k + 1] == after
                    &&& result matches Ok(finding) && told[k + 1] == told[k].push(finding)
                } else {
                    tapes[k + 1] == tapes[k] && told[k + 1] == told[k]
                }
            },
    ensures
        ({
            let (result, after) = diagnose_run(tape, profile, adapters, adapters.len());
            &&& last == adapters.len() ==> (result, after) == (
                Ok::<Seq<BusFinding>, BusAccess>(told[last as int]),
                tapes[last as int],
            )
            &&& last < adapters.len() && (exists|i: int|
                0 <= i < profile.adapter_name_patterns@.len() && contains_text(
                    adapters[last as int].name,
                    (#[trigger] profile.adapter_name_patterns@[i])@,
                )) ==> {
                let (ended, at) = diagnose_bus_run(
                    tapes[last as int],
                    profile,
                    adapters[last as int],
                );
                ended matches Err(access) ==> (result, after) == (
                    Err::<Seq<BusFinding>, BusAccess>(access),
                    at,
                )
            }
        }),
{
    lemma_bus_stations(tape, profile, adapters, tapes, told, last);
    if last < adapters.len() {
        let patterns = profile.adapter_name_patterns@;
        if exists|i: int|
            0 <= i < patterns.len() && contains_text(
                adapters[last as int].name,
                (#[trigger] patterns[i])@,
            ) {
            assert(is_configured(adapters[last as int].name, patterns));
            if diagnose_run(tape, profile, adapters, (last + 1) as nat).0 is Err {
                lemma_buses_stay(tape, profile, adapters, (last + 1) as nat, adapters.len());
            }
        }
    }
}

proof fn lemma_buses_stay(
    tape: Tape,
    profile: EneDramProfile,
    adapters: Seq<AdapterInfo>,
    shorter: nat,
    count: nat,
)
    requires
        shorter <= count,
        diagnose_run(tape, profile, adapters, shorter).0 is Err,
    ensures
        diagnose_run(tape, profile, adapters, count) == diagnose_run(
            tape,
            profile,
            adapters,
            shorter,
        ),
    decreases count,
{
    if shorter < count {
        lemma_buses_stay(tape, profile, adapters, shorter, (count - 1) as nat);
    }
}

proof fn lemma_bus_stations(
    tape: Tape,
    profile: EneDramProfile,
    adapters: Seq<AdapterInfo>,
    tapes: Seq<Tape>,
    told: Seq<Seq<BusFinding>>,
    at: nat,
)
    requires
        at < tapes.len(),
        at < told.len(),
        tapes[0] == tape,
        told[0].len() == 0,
        forall|k: int|
            #![trigger tapes[k]]
            0 <= k < at ==> {
                let (result, after) = diagnose_bus_run(tapes[k], profile, adapters[k]);
                if exists|i: int|
                    0 <= i < profile.adapter_name_patterns@.len() && contains_text(
                        adapters[k].name,
                        (#[trigger] profile.adapter_name_patterns@[i])@,
                    ) {
                    &&& tapes[k + 1] == after
                    &&& result matches Ok(finding) && told[k + 1] == told[k].push(finding)
                } else {
                    tapes[k + 1] == tapes[k] && told[k + 1] == told[k]
                }
            },
    ensures
        diagnose_run(tape, profile, adapters, at) == (
            Ok::<Seq<BusFinding>, BusAccess>(told[at as int]),
            tapes[at as int],
        ),
    decreases at,
{
    if at == 0 {
        assert(told[0] =~= seq![]);
    } else {
        let before = (at - 1) as nat;
        lemma_bus_stations(tape, profile, adapters, tapes, told, before);
        assert(tapes[before as int] == diagnose_run(tape, profile, adapters, before).1);
        assert(is_configured(
            adapters[before as int].name,
            profile.adapter_name_patterns@,
        ) == (exists|i: int|
            0 <= i < profile.adapter_name_patterns@.len() && contains_text(
                adapters[before as int].name,
                (#[trigger] profile.adapter_name_patterns@[i])@,
            )));
    }
}

/// The results of procedures that cannot fail are taken for what they are.
pub proof fn unfailing_results_are_taken_as_they_are(
    probed: Result<ProbeReport, Request>,
    written: Result<Vec<DeviceWriteResult>, Request>,
    address: Result<AddressDiagnostic, Request>,
    buses: Result<Vec<BusDiagnostic>, BusRequest>,
)
    ensures
        match (probed, report_view(probed)) {
            (Ok(report), Ok(taken)) => taken == report@,
            (Err(request), Err(taken)) => taken == request@,
            _ => false,
        },
        match (written, write_devices_view(written)) {
            (Ok(results), Ok(taken)) => taken == results_view(results@),
            (Err(request), Err(taken)) => taken == request@,
            _ => false,
        },
        match (address, address_view(address)) {
            (Ok(diagnostic), Ok(taken)) => taken == diagnostic@,
            (Err(request), Err(taken)) => taken == request@,
            _ => false,
        },
        match (buses, diagnose_view(buses)) {
            (Ok(diagnostics), Ok(taken)) => taken == buses_view(diagnostics@),
            (Err(request), Err(taken)) => taken == request@,
            _ => false,
        },
{
}

/// The results of lighting are taken for what they are.
pub proof fn lighting_results_are_taken_as_they_are<E: View>(
    result: Result<Vec<DeviceWriteResult>, Stop<BusRequest, E>>,
)
    ensures
        match (result, colors_view(result)) {
            (Ok(results), Ok(taken)) => taken == results_view(results@),
            (Err(Stop::Pending(request)), Err(Stop::Pending(taken))) => taken == request@,
            (Err(Stop::Failed(error)), Err(Stop::Failed(taken))) => taken == error@,
            _ => false,
        },
{
}

} // verus!
