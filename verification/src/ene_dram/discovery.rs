//! Finding the bus with the controllers, and lighting what was found.
use super::adapter::adapter_entries;
use super::adapter::adapter_is_configured;
use super::adapter::adapters_view;
use super::adapter::bus_of;
use super::adapter::bus_path;
use super::adapter::by_entry;
use super::adapter::is_configured;
use super::adapter::Adapter;
use super::adapter::AdapterInfo;
use super::identity::failures_view;
use super::identity::probe_on_transport;
use super::identity::probe_reports_configured_devices;
use super::identity::probe_run;
use super::identity::EneDramDevice;
use super::identity::ProbeReport;
use super::identity::Report;
use super::lighting::results_view;
use super::lighting::write_devices;
use super::lighting::write_devices_run;
use super::lighting::DeviceWriteResult;
use super::lighting::WriteOutcome;
use super::mapper::remap_on_transport;
use super::mapper::remap_run;
use crate::controller::valid_controller_is_writable;
use crate::controller::writable_controller;
use crate::fault::in_context;
use crate::fault::BusError;
use crate::fault::Fault;
use crate::profile::profile_error;
use crate::profile::profile_is_valid_without_error;
use crate::profile::valid_controller;
use crate::profile::valid_profile;
use crate::profile::validate_profile;
use crate::profile::EneDramProfile;
use crate::profile::ProfileError;
use crate::request::BusAccess;
use crate::request::BusRequest;
use crate::session::exchange;
use crate::session::outcome_view;
use crate::session::plain_view;
use crate::session::Session;
use crate::session::Stop;
use crate::session::Tape;
use crate::text::decimal_numeral;
use crate::text::hex_padded;
use crate::text::joined;
use crate::text::joining_separates_the_parts;
use crate::text::push_decimal;
use crate::text::push_hex_padded;
use crate::text::push_joined;
use crate::text::quote;
use crate::text::quoted;
use crate::text::texts;
use vstd::prelude::*;

verus! {

/// Why no color could be written.
#[derive(Debug)]
pub enum DramError {
    /// The profile cannot be used.
    Profile(ProfileError),
    /// A bus could not be used.
    Bus(BusError),
    /// No controller of the profile was found on this bus.
    NoControllersOn { bus: String },
    /// These addresses of a bus with controllers could not be probed.
    ProbeFailed { failures: Vec<(u16, String)> },
    /// No configured adapter has a controller of the profile.
    NoControllers,
    /// The same, and these probes failed.
    NothingButFailures { reports: Vec<String> },
}

/// What a `DramError` says.
pub enum DramFault {
    Profile(ProfileError),
    Bus(Fault),
    NoControllersOn { bus: Seq<char> },
    ProbeFailed { failures: Seq<(u16, Seq<char>)> },
    NoControllers,
    NothingButFailures { reports: Seq<Seq<char>> },
}

impl View for DramError {
    type V = DramFault;

    open spec fn view(&self) -> DramFault {
        match self {
            DramError::Profile(error) => DramFault::Profile(*error),
            DramError::Bus(error) => DramFault::Bus(error@),
            DramError::NoControllersOn { bus } => DramFault::NoControllersOn { bus: bus@ },
            DramError::ProbeFailed { failures } => DramFault::ProbeFailed {
                failures: failures_view(failures@),
            },
            DramError::NoControllers => DramFault::NoControllers,
            DramError::NothingButFailures { reports } => DramFault::NothingButFailures {
                reports: texts(reports@),
            },
        }
    }
}

/// Whether every device has a valid controller description.
pub open spec fn all_valid(devices: Seq<EneDramDevice>) -> bool {
    forall|i: int| 0 <= i < devices.len() ==> valid_controller(#[trigger] devices[i].controller)
}

/// ENE devices validated on a single SMBus and ready for a color write.
#[derive(Debug)]
pub struct PreparedDram {
    bus: String,
    devices: Vec<EneDramDevice>,
    probe_failures: Vec<(u16, String)>,
}

/// What a `PreparedDram` holds.
pub struct Prepared {
    pub bus: Seq<char>,
    pub devices: Seq<EneDramDevice>,
    pub probe_failures: Seq<(u16, Seq<char>)>,
}

impl View for PreparedDram {
    type V = Prepared;

    closed spec fn view(&self) -> Prepared {
        Prepared {
            bus: self.bus@,
            devices: self.devices@,
            probe_failures: failures_view(self.probe_failures@),
        }
    }
}

impl PreparedDram {
    #[verifier::type_invariant]
    spec fn devices_are_valid(&self) -> bool {
        all_valid(self.devices@)
    }

    /// The path of the bus.
    pub fn bus(&self) -> (bus: &str)
        ensures
            bus@ == self@.bus,
    {
        self.bus.as_str()
    }

    /// The validated devices.
    pub fn devices(&self) -> (devices: &[EneDramDevice])
        ensures
            devices@ == self@.devices,
            all_valid(devices@),
    {
        proof {
            use_type_invariant(self);
        }
        self.devices.as_slice()
    }

    /// The addresses that could not be probed, with the reason.
    pub fn probe_failures(&self) -> (failures: &[(u16, String)])
        ensures
            failures_view(failures@) == self@.probe_failures,
    {
        self.probe_failures.as_slice()
    }
}

/// The same stop, for a procedure that also opens buses.
pub open spec fn on_bus<E>(stop: Stop<crate::request::Access, E>) -> Stop<BusAccess, E> {
    match stop {
        Stop::Pending(access) => Stop::Pending(BusAccess::Access(access)),
        Stop::Failed(error) => Stop::Failed(error),
    }
}

/// Opens a bus and gives the controllers behind its mapper their addresses.
pub open spec fn remap_bus_run(tape: Tape, bus: Seq<char>, profile: EneDramProfile) -> (
    Result<(), Stop<BusAccess, Fault>>,
    Tape,
) {
    match exchange(tape, BusAccess::Open { bus }) {
        (Ok(_), opened) => match remap_run(opened, profile) {
            (Ok(done), after) => (Ok(done), after),
            (Err(stop), after) => (Err(on_bus(stop)), after),
        },
        (Err(stop), opened) => (Err(stop), opened),
    }
}

/// Opens a bus and gives the controllers behind its mapper their addresses.
pub fn remap_dram_devices(session: &mut Session, bus: &str, profile: &EneDramProfile) -> (result:
    Result<(), Stop<BusRequest, BusError>>)
    ensures
        (plain_view(result), final(session)@) == remap_bus_run(old(session)@, bus@, *profile),
{
    session.exchange(BusRequest::Open { bus: bus.to_owned() })?;
    match remap_on_transport(session, profile) {
        Ok(done) => Ok(done),
        Err(Stop::Pending(request)) => Err(Stop::Pending(BusRequest::Access(request))),
        Err(Stop::Failed(error)) => Err(Stop::Failed(error)),
    }
}

/// The context of a bus that cannot be opened for a probe.
pub open spec fn opening_to_probe(bus: Seq<char>) -> Seq<char> {
    "open "@ + bus + " (SMBus reads require write access to select an ENE register)"@
}

/// Opens a bus and probes the addresses of the profile.
pub open spec fn probe_bus_run(tape: Tape, bus: Seq<char>, profile: EneDramProfile) -> (
    Result<Report, Stop<BusAccess, Fault>>,
    Tape,
) {
    match exchange(tape, BusAccess::Open { bus }) {
        (Ok(_), opened) => match probe_run(opened, profile, profile.addresses@.len()) {
            (Ok(report), after) => (Ok(report), after),
            (Err(access), after) => (Err(Stop::Pending(BusAccess::Access(access))), after),
        },
        (Err(Stop::Failed(fault)), opened) => (
            Err(Stop::Failed(in_context(opening_to_probe(bus), fault))),
            opened,
        ),
        (Err(stop), opened) => (Err(stop), opened),
    }
}

/// Opens a bus and probes the addresses of the profile.
pub fn probe(session: &mut Session, bus: &str, profile: &EneDramProfile) -> (result: Result<
    ProbeReport,
    Stop<BusRequest, BusError>,
>)
    ensures
        (outcome_view(result), final(session)@) == probe_bus_run(old(session)@, bus@, *profile),
{
    match session.exchange(BusRequest::Open { bus: bus.to_owned() }) {
        Ok(_) => {},
        Err(Stop::Failed(error)) => {
            let mut context: String = "open ".to_owned();
            context.append(bus);
            context.append(" (SMBus reads require write access to select an ENE register)");
            return Err(Stop::Failed(error.in_context(context.as_str())));
        },
        Err(stop) => {
            return Err(stop);
        },
    }
    match probe_on_transport(session, profile) {
        Ok(report) => Ok(report),
        Err(request) => Err(Stop::Pending(BusRequest::Access(request))),
    }
}

/// A failed probe, with its bus.
pub open spec fn failure_line(bus: Seq<char>, failure: (u16, Seq<char>)) -> Seq<char> {
    bus + " 0x"@ + hex_padded(failure.0 as nat) + ": "@ + failure.1
}

/// The failed probes of a bus.
pub open spec fn failure_lines(bus: Seq<char>, failures: Seq<(u16, Seq<char>)>) -> Seq<Seq<char>> {
    failures.map_values(|failure: (u16, Seq<char>)| failure_line(bus, failure))
}

/// The context of a fault met while mapping addresses on a bus.
pub open spec fn mapping_on(bus: Seq<char>) -> Seq<char> {
    "check ENE mapping on "@ + bus
}

/// Maps and probes the bus behind one adapter.
pub open spec fn examine_run(tape: Tape, bus: Seq<char>, profile: EneDramProfile) -> (
    Result<Report, Stop<BusAccess, Fault>>,
    Tape,
) {
    match remap_bus_run(tape, bus, profile) {
        (Ok(_), mapped) => probe_bus_run(mapped, bus, profile),
        (Err(Stop::Failed(fault)), mapped) => (
            Err(Stop::Failed(in_context(mapping_on(bus), fault))),
            mapped,
        ),
        (Err(stop), mapped) => (Err(stop), mapped),
    }
}

fn examine(session: &mut Session, bus: &str, profile: &EneDramProfile) -> (result: Result<
    ProbeReport,
    Stop<BusRequest, BusError>,
>)
    ensures
        (outcome_view(result), final(session)@) == examine_run(old(session)@, bus@, *profile),
{
    match remap_dram_devices(session, bus, profile) {
        Ok(_) => {},
        Err(Stop::Failed(error)) => {
            let mut context: String = "check ENE mapping on ".to_owned();
            context.append(bus);
            return Err(Stop::Failed(error.in_context(context.as_str())));
        },
        Err(stop) => {
            return Err(stop);
        },
    }
    probe(session, bus, profile)
}

/// Searches the adapters from `index` on for a bus with controllers. `failures`
/// are the failed probes of the adapters before.
pub open spec fn search_run(
    tape: Tape,
    profile: EneDramProfile,
    adapters: Seq<AdapterInfo>,
    index: int,
    failures: Seq<Seq<char>>,
) -> (Result<Prepared, Stop<BusAccess, DramFault>>, Tape)
    decreases adapters.len() - index,
{
    if index >= adapters.len() {
        if failures.len() == 0 {
            (Err(Stop::Failed(DramFault::NoControllers)), tape)
        } else {
            (Err(Stop::Failed(DramFault::NothingButFailures { reports: failures })), tape)
        }
    } else if !is_configured(adapters[index].name, profile.adapter_name_patterns@) {
        search_run(tape, profile, adapters, index + 1, failures)
    } else {
        let bus = bus_path(adapters[index].entry);
        match examine_run(tape, bus, profile) {
            (Ok(report), after) => {
                if report.devices.len() > 0 {
                    (
                        Ok(
                            Prepared {
                                bus,
                                devices: report.devices,
                                probe_failures: report.failures,
                            },
                        ),
                        after,
                    )
                } else {
                    search_run(
                        after,
                        profile,
                        adapters,
                        index + 1,
                        failures + failure_lines(bus, report.failures),
                    )
                }
            },
            (Err(Stop::Failed(fault)), after) => (Err(Stop::Failed(DramFault::Bus(fault))), after),
            (Err(Stop::Pending(access)), after) => (Err(Stop::Pending(access)), after),
        }
    }
}

pub open spec fn prepare_run(tape: Tape, profile: EneDramProfile, adapters: Seq<AdapterInfo>) -> (
    Result<Prepared, Stop<BusAccess, DramFault>>,
    Tape,
) {
    match profile_error(profile) {
        Some(error) => (Err(Stop::Failed(DramFault::Profile(error))), tape),
        None => search_run(tape, profile, by_entry(adapters), 0, seq![]),
    }
}

fn push_failure_lines(lines: &mut Vec<String>, bus: &str, failures: &Vec<(u16, String)>)
    ensures
        texts(final(lines)@) == texts(old(lines)@) + failure_lines(
            bus@,
            failures_view(failures@),
        ),
{
    let ghost known = texts(lines@);
    let ghost added = failure_lines(bus@, failures_view(failures@));
    let mut i: usize = 0;
    assert(known + added.take(0) =~= known);
    while i < failures.len()
        invariant
            i <= failures@.len(),
            added == failure_lines(bus@, failures_view(failures@)),
            texts(lines@) == known + added.take(i as int),
        decreases failures@.len() - i,
    {
        let mut line: String = bus.to_owned();
        line.append(" 0x");
        push_hex_padded(&mut line, failures[i].0);
        line.append(": ");
        line.append(failures[i].1.as_str());
        assert(line@ == added[i as int]);
        let ghost longer = texts(lines@).push(line@);
        lines.push(line);
        assert(texts(lines@) =~= longer);
        i = i + 1;
        assert(longer =~= known + added.take(i as int));
    }
    assert(added.take(i as int) =~= added);
}

proof fn lemma_examined_devices_are_valid(tape: Tape, bus: Seq<char>, profile: EneDramProfile)
    requires
        valid_profile(profile),
    ensures
        probe_bus_run(tape, bus, profile).0 matches Ok(report) ==> all_valid(report.devices),
{
    let (_, opened) = exchange(tape, BusAccess::Open { bus });
    probe_reports_configured_devices(opened, profile, profile.addresses@.len());
    if let Ok(report) = probe_bus_run(tape, bus, profile).0 {
        assert forall|i: int| 0 <= i < report.devices.len() implies valid_controller(
            #[trigger] report.devices[i].controller,
        ) by {
            let device = report.devices[i];
            let k = choose|k: int|
                0 <= k < profile.controllers@.len() && profile.controllers@[k]
                    == device.controller;
            assert(valid_controller(profile.controllers@[k]));
        }
    }
}

/// Prepares all validated ENE DRAM devices before any lighting is changed.
/// Discovery is conservative: only configured adapters and addresses are
/// probed.
pub fn prepare(session: &mut Session, profile: &EneDramProfile, adapters: &[Adapter]) -> (result:
    Result<PreparedDram, Stop<BusRequest, DramError>>)
    ensures
        (outcome_view(result), final(session)@) == prepare_run(
            old(session)@,
            *profile,
            adapters_view(adapters@),
        ),
{
    proof {
        profile_is_valid_without_error(*profile);
    }
    if let Err(error) = validate_profile(profile) {
        return Err(Stop::Failed(DramError::Profile(error)));
    }
    let sorted: Vec<Adapter> = adapter_entries(adapters);
    let ghost infos = by_entry(adapters_view(adapters@));
    let mut failures: Vec<String> = Vec::new();
    assert(texts(failures@) =~= seq![]);
    let ghost expected = prepare_run(old(session)@, *profile, adapters_view(adapters@));
    let mut i: usize = 0;
    while i < sorted.len()
        invariant
            i <= sorted@.len(),
            infos == adapters_view(sorted@),
            valid_profile(*profile),
            expected == prepare_run(old(session)@, *profile, adapters_view(adapters@)),
            search_run(session@, *profile, infos, i as int, texts(failures@)) == expected,
        decreases sorted@.len() - i,
    {
        assert(infos[i as int] == sorted@[i as int]@);
        if adapter_is_configured(sorted[i].name.as_str(), profile.adapter_name_patterns) {
            let bus: String = bus_of(sorted[i].entry.as_str());
            let ghost before = session@;
            match examine(session, bus.as_str(), profile) {
                Ok(report) => {
                    proof {
                        lemma_examined_devices_are_valid(
                            remap_bus_run(before, bus@, *profile).1,
                            bus@,
                            *profile,
                        );
                    }
                    if report.devices.len() > 0 {
                        return Ok(
                            PreparedDram {
                                bus,
                                devices: report.devices,
                                probe_failures: report.failures,
                            },
                        );
                    }
                    push_failure_lines(&mut failures, bus.as_str(), &report.failures);
                },
                Err(Stop::Failed(error)) => {
                    return Err(Stop::Failed(DramError::Bus(error)));
                },
                Err(Stop::Pending(request)) => {
                    return Err(Stop::Pending(request));
                },
            }
        }
        i = i + 1;
    }
    if failures.len() == 0 {
        Err(Stop::Failed(DramError::NoControllers))
    } else {
        Err(Stop::Failed(DramError::NothingButFailures { reports: failures }))
    }
}

/// Finds the bus with the controllers without keeping the validated devices.
pub fn discover_bus(session: &mut Session, profile: &EneDramProfile, adapters: &[Adapter]) -> (
    result: Result<String, Stop<BusRequest, DramError>>)
    ensures
        (outcome_view(result), final(session)@) == (
            match prepare_run(old(session)@, *profile, adapters_view(adapters@)) {
                (Ok(prepared), after) => (
                    Ok::<Seq<char>, Stop<BusAccess, DramFault>>(prepared.bus),
                    after,
                ),
                (Err(stop), after) => (Err(stop), after),
            }),
{
    match prepare(session, profile, adapters) {
        Ok(prepared) => Ok(prepared.bus),
        Err(stop) => Err(stop),
    }
}

/// Opens a bus and sets the color of the devices on it.
pub open spec fn set_prepared_run(tape: Tape, prepared: Prepared, rgb: Seq<u8>) -> (
    Result<Seq<WriteOutcome>, Stop<BusAccess, Fault>>,
    Tape,
) {
    match exchange(tape, BusAccess::Open { bus: prepared.bus }) {
        (Ok(_), opened) => match write_devices_run(
            opened,
            prepared.devices,
            rgb,
            prepared.devices.len(),
        ) {
            (Ok(outcomes), after) => (Ok(outcomes), after),
            (Err(access), after) => (Err(Stop::Pending(BusAccess::Access(access))), after),
        },
        (Err(Stop::Failed(fault)), opened) => (
            Err(Stop::Failed(in_context("open "@ + prepared.bus, fault))),
            opened,
        ),
        (Err(stop), opened) => (Err(stop), opened),
    }
}

/// What the result of writing a color says.
pub open spec fn colors_view<E: View>(
    result: Result<Vec<DeviceWriteResult>, Stop<BusRequest, E>>,
) -> Result<Seq<WriteOutcome>, Stop<BusAccess, E::V>> {
    match result {
        Ok(results) => Ok(results_view(results@)),
        Err(stop) => Err(stop@),
    }
}

/// Attempts every prepared controller; one DIMM failing does not stop the rest.
pub fn set_prepared_colors(session: &mut Session, prepared: &PreparedDram, rgb: [u8; 3]) -> (
    result: Result<Vec<DeviceWriteResult>, Stop<BusRequest, BusError>>)
    ensures
        (colors_view(result), final(session)@) == set_prepared_run(
            old(session)@,
            prepared@,
            rgb@,
        ),
{
    match session.exchange(BusRequest::Open { bus: prepared.bus.clone() }) {
        Ok(_) => {},
        Err(Stop::Failed(error)) => {
            let mut context: String = "open ".to_owned();
            context.append(prepared.bus.as_str());
            return Err(Stop::Failed(error.in_context(context.as_str())));
        },
        Err(stop) => {
            return Err(stop);
        },
    }
    proof {
        use_type_invariant(prepared);
        assert forall|i: int| 0 <= i < prepared.devices@.len() implies writable_controller(
            #[trigger] prepared.devices@[i].controller,
        ) by {
            valid_controller_is_writable(prepared.devices@[i].controller);
        }
    }
    match write_devices(session, prepared.devices.as_slice(), rgb) {
        Ok(results) => Ok(results),
        Err(request) => Err(Stop::Pending(BusRequest::Access(request))),
    }
}

/// The same stop, with a fault of the bus among the errors.
pub open spec fn as_dram_stop(stop: Stop<BusAccess, Fault>) -> Stop<BusAccess, DramFault> {
    match stop {
        Stop::Pending(access) => Stop::Pending(access),
        Stop::Failed(fault) => Stop::Failed(DramFault::Bus(fault)),
    }
}

/// Probes one bus and sets the color of everything on it, if all of its
/// addresses could be probed.
pub open spec fn set_all_run(
    tape: Tape,
    bus: Seq<char>,
    profile: EneDramProfile,
    rgb: Seq<u8>,
) -> (Result<Seq<WriteOutcome>, Stop<BusAccess, DramFault>>, Tape) {
    match profile_error(profile) {
        Some(error) => (Err(Stop::Failed(DramFault::Profile(error))), tape),
        None => match probe_bus_run(tape, bus, profile) {
            (Ok(report), probed) => {
                if report.devices.len() == 0 {
                    (Err(Stop::Failed(DramFault::NoControllersOn { bus })), probed)
                } else if report.failures.len() > 0 {
                    (
                        Err(
                            Stop::Failed(DramFault::ProbeFailed { failures: report.failures }),
                        ),
                        probed,
                    )
                } else {
                    let prepared = Prepared {
                        bus,
                        devices: report.devices,
                        probe_failures: report.failures,
                    };
                    match set_prepared_run(probed, prepared, rgb) {
                        (Ok(outcomes), after) => (Ok(outcomes), after),
                        (Err(stop), after) => (Err(as_dram_stop(stop)), after),
                    }
                }
            },
            (Err(stop), probed) => (Err(as_dram_stop(stop)), probed),
        },
    }
}

/// Discovers devices on one bus and writes them. Prefer `prepare` followed by
/// `set_prepared_colors` when the visible write should happen without a second
/// discovery pass.
pub fn set_all_colors(session: &mut Session, bus: &str, profile: &EneDramProfile, rgb: [u8; 3]) -> (
    result: Result<Vec<DeviceWriteResult>, Stop<BusRequest, DramError>>)
    ensures
        (colors_view(result), final(session)@) == set_all_run(
            old(session)@,
            bus@,
            *profile,
            rgb@,
        ),
{
    proof {
        profile_is_valid_without_error(*profile);
    }
    if let Err(error) = validate_profile(profile) {
        return Err(Stop::Failed(DramError::Profile(error)));
    }
    let report: ProbeReport = match probe(session, bus, profile) {
        Ok(report) => report,
        Err(Stop::Pending(request)) => {
            return Err(Stop::Pending(request));
        },
        Err(Stop::Failed(error)) => {
            return Err(Stop::Failed(DramError::Bus(error)));
        },
    };
    if report.devices.len() == 0 {
        return Err(Stop::Failed(DramError::NoControllersOn { bus: bus.to_owned() }));
    }
    if report.failures.len() > 0 {
        return Err(Stop::Failed(DramError::ProbeFailed { failures: report.failures }));
    }
    proof {
        lemma_examined_devices_are_valid(old(session)@, bus@, *profile);
    }
    let prepared: PreparedDram = PreparedDram {
        bus: bus.to_owned(),
        devices: report.devices,
        probe_failures: report.failures,
    };
    match set_prepared_colors(session, &prepared, rgb) {
        Ok(results) => Ok(results),
        Err(Stop::Pending(request)) => Err(Stop::Pending(request)),
        Err(Stop::Failed(error)) => Err(Stop::Failed(DramError::Bus(error))),
    }
}

/// An address and a quoted text as part of a list.
pub open spec fn list_entry_text(address: u16, form: Seq<char>) -> Seq<char> {
    "("@ + decimal_numeral(address as nat) + ", "@ + form + ")"@
}

/// Writes an address and a text, which is already in quotes, as part of a list.
pub fn list_entry(address: u16, form: &str) -> (entry: String)
    ensures
        entry@ == list_entry_text(address, form@),
{
    let mut entry: String = "(".to_owned();
    push_decimal(&mut entry, address as usize);
    entry.append(", ");
    entry.append(form);
    entry.append(")");
    entry
}

/// A failed probe as part of a list.
pub open spec fn listed_failure(failure: (u16, Seq<char>)) -> Seq<char> {
    list_entry_text(failure.0, quoted(failure.1))
}

/// The failed probes as a list in brackets.
pub open spec fn failure_list(failures: Seq<(u16, Seq<char>)>) -> Seq<char> {
    joined(failures.map_values(|failure: (u16, Seq<char>)| listed_failure(failure)), ", "@)
}

impl DramFault {
    /// The text that `message` gives.
    pub open spec fn text(self) -> Seq<char> {
        match self {
            DramFault::Profile(error) => error.text(),
            DramFault::Bus(fault) => fault.message,
            DramFault::NoControllersOn { bus } => "no supported ENE DRAM controllers found on "@
                + bus,
            DramFault::ProbeFailed { failures } => "failed to probe ENE addresses: ["@
                + failure_list(failures) + "]"@,
            DramFault::NoControllers =>
            "no supported ENE DRAM controllers found on a configured SMBus adapter"@,
            DramFault::NothingButFailures { reports } =>
            "no supported ENE DRAM controllers found; probe failures: "@ + joined(
                reports,
                "; "@,
            ),
        }
    }
}

impl DramError {
    /// Describes the error.
    pub fn message(&self) -> (message: String)
        ensures
            message@ == self@.text(),
    {
        match self {
            DramError::Profile(error) => error.message(),
            DramError::Bus(error) => error.message.clone(),
            DramError::NoControllersOn { bus } => {
                let mut message: String = "no supported ENE DRAM controllers found on ".to_owned();
                message.append(bus.as_str());
                message
            },
            DramError::ProbeFailed { failures } => {
                let mut message: String = "failed to probe ENE addresses: [".to_owned();
                let parts: Vec<String> = list_failures(failures);
                push_joined(&mut message, &parts, ", ");
                message.append("]");
                message
            },
            DramError::NoControllers => {
                "no supported ENE DRAM controllers found on a configured SMBus adapter".to_owned()
            },
            DramError::NothingButFailures { reports } => {
                let mut message: String =
                    "no supported ENE DRAM controllers found; probe failures: ".to_owned();
                push_joined(&mut message, reports, "; ");
                message
            },
        }
    }
}

fn list_failures(failures: &Vec<(u16, String)>) -> (parts: Vec<String>)
    ensures
        texts(parts@) == failures_view(failures@).map_values(
            |failure: (u16, Seq<char>)| listed_failure(failure),
        ),
{
    let mut parts: Vec<String> = Vec::new();
    let mut i: usize = 0;
    while i < failures.len()
        invariant
            i <= failures@.len(),
            parts@.len() == i,
            forall|k: int|
                0 <= k < i ==> (#[trigger] parts@[k])@ == listed_failure(
                    failures_view(failures@)[k],
                ),
        decreases failures@.len() - i,
    {
        let form: String = quote(failures[i].1.as_str());
        parts.push(list_entry(failures[i].0, form.as_str()));
        i = i + 1;
    }
    assert(texts(parts@) =~= failures_view(failures@).map_values(
        |failure: (u16, Seq<char>)| listed_failure(failure),
    ));
    parts
}

/// What was prepared is told by its parts, and errors by what they hold: a list
/// of failed probes in brackets, each with its address and its quoted message;
/// or the noted failures, with semicolons between them.
pub proof fn errors_tell_what_they_hold(
    bus: Seq<char>,
    fault: Fault,
    error: ProfileError,
    failures: Seq<(u16, Seq<char>)>,
    failure: (u16, Seq<char>),
    reports: Seq<Seq<char>>,
)
    ensures
        DramFault::Bus(fault).text() == fault.message,
        DramFault::Profile(error).text() == error.text(),
        (DramFault::NoControllersOn { bus }).text() == "no supported ENE DRAM controllers found on "@
            + bus,
        (DramFault::NothingButFailures { reports }).text()
            == "no supported ENE DRAM controllers found; probe failures: "@ + joined(
            reports,
            "; "@,
        ),
        (DramFault::ProbeFailed { failures }).text() == "failed to probe ENE addresses: ["@
            + failure_list(failures) + "]"@,
        failure_list(seq![failure]) == "("@ + decimal_numeral(failure.0 as nat) + ", "@ + quoted(
            failure.1,
        ) + ")"@,
        failures.len() > 0 ==> failure_list(failures.push(failure)) == failure_list(failures)
            + ", "@ + ("("@ + decimal_numeral(failure.0 as nat) + ", "@ + quoted(failure.1) + ")"@),
{
    let entry = |failure: (u16, Seq<char>)| listed_failure(failure);
    assert(seq![failure].map_values(entry) =~= seq![listed_failure(failure)]);
    assert(failures.push(failure).map_values(entry) =~= failures.map_values(entry).push(
        listed_failure(failure),
    ));
    joining_separates_the_parts(failures.map_values(entry), listed_failure(failure), ", "@);
}

/// Errors are taken for what they are.
pub proof fn dram_errors_say_what_they_hold(error: DramError)
    ensures
        match (error, error@) {
            (DramError::Profile(held), DramFault::Profile(told)) => told == held,
            (DramError::Bus(held), DramFault::Bus(told)) => told.kind == held.kind && told.message
                == held.message@,
            (DramError::NoControllersOn { bus }, DramFault::NoControllersOn { bus: told }) => told
                == bus@,
            (DramError::ProbeFailed { failures }, DramFault::ProbeFailed { failures: told }) => {
                &&& told.len() == failures@.len()
                &&& forall|i: int|
                    0 <= i < told.len() ==> (#[trigger] told[i]).0 == failures@[i].0 && told[i].1
                        == failures@[i].1@
            },
            (DramError::NoControllers, DramFault::NoControllers) => true,
            (
                DramError::NothingButFailures { reports },
                DramFault::NothingButFailures { reports: told },
            ) => {
                &&& told.len() == reports@.len()
                &&& forall|i: int| 0 <= i < told.len() ==> #[trigger] told[i] == reports@[i]@
            },
            _ => false,
        },
{
}

} // verus!
