//! Reporting what every configured address answers, without changing anything.
use super::adapter::adapter_entries;
use super::adapter::adapter_is_configured;
use super::adapter::adapters_view;
use super::adapter::bus_of;
use super::adapter::bus_path;
use super::adapter::by_entry;
use super::adapter::is_configured;
use super::adapter::Adapter;
use super::adapter::AdapterInfo;
use super::identity::address_responds;
use super::identity::address_responds_run;
use super::identity::find_controller;
use super::identity::known_controller;
use super::identity::lemma_known_controller;
use super::identity::probe_address_run;
use super::identity::read_bytes;
use super::identity::read_bytes_run;
use super::identity::version_of;
use super::identity::version_text;
use super::identity::CONFIG_LED_COUNT;
use super::identity::CONFIG_TABLE_LENGTH;
use super::identity::CONFIG_TABLE_REGISTER;
use super::identity::DEVICE_NAME_LENGTH;
use super::identity::DEVICE_NAME_REGISTER;
use crate::fault::BusError;
use crate::profile::EneDramProfile;
use crate::profile::DRAM_MAPPER_ADDRESS;
use crate::request::Access;
use crate::request::BusAccess;
use crate::request::BusRequest;
use crate::request::Request;
use crate::session::exchange;
use crate::session::Session;
use crate::session::Stop;
use crate::session::Tape;
use crate::text::trim_end;
use crate::text::without_trailing_space;
use vstd::prelude::*;

verus! {

/// What one address answered.
#[derive(Debug)]
pub struct AddressDiagnostic {
    pub address: u16,
    pub present: bool,
    pub version: Option<String>,
    pub led_count: Option<u8>,
    pub error: Option<String>,
    pub supported: bool,
}

/// What an `AddressDiagnostic` says.
pub struct AddressFinding {
    pub address: u16,
    pub present: bool,
    pub version: Option<Seq<char>>,
    pub led_count: Option<u8>,
    pub error: Option<Seq<char>>,
    pub supported: bool,
}

/// What an optional text says.
pub open spec fn text_view(text: Option<String>) -> Option<Seq<char>> {
    match text {
        Some(text) => Some(text@),
        None => None,
    }
}

impl View for AddressDiagnostic {
    type V = AddressFinding;

    open spec fn view(&self) -> AddressFinding {
        AddressFinding {
            address: self.address,
            present: self.present,
            version: text_view(self.version),
            led_count: self.led_count,
            error: text_view(self.error),
            supported: self.supported,
        }
    }
}

/// An address where the check failed, or where nothing answers.
pub open spec fn not_found(address: u16, error: Option<Seq<char>>) -> AddressFinding {
    AddressFinding {
        address,
        present: false,
        version: None,
        led_count: None,
        error,
        supported: false,
    }
}

/// A device whose identity could not be read to the end.
pub open spec fn unreadable(
    address: u16,
    version: Option<Seq<char>>,
    error: Seq<char>,
) -> AddressFinding {
    AddressFinding {
        address,
        present: true,
        version,
        led_count: None,
        error: Some(error),
        supported: false,
    }
}

/// A device with its identity.
pub open spec fn identified(
    address: u16,
    version: Seq<char>,
    led_count: u8,
    supported: bool,
) -> AddressFinding {
    AddressFinding {
        address,
        present: true,
        version: Some(version),
        led_count: Some(led_count),
        error: None,
        supported,
    }
}

pub open spec fn diagnose_address_run(tape: Tape, address: u16, profile: EneDramProfile) -> (
    Result<AddressFinding, Access>,
    Tape,
) {
    match address_responds_run(tape, address) {
        (Ok(true), present) => match read_bytes_run(
            present,
            address,
            DEVICE_NAME_REGISTER,
            DEVICE_NAME_LENGTH as nat,
        ) {
            (Ok(name), named) => match read_bytes_run(
                named,
                address,
                CONFIG_TABLE_REGISTER,
                CONFIG_TABLE_LENGTH as nat,
            ) {
                (Ok(config), read) => {
                    let version = version_text(name);
                    let led_count = config[CONFIG_LED_COUNT as int];
                    let supported = known_controller(
                        profile.controllers@,
                        version,
                        led_count,
                    ) is Some;
                    (Ok(identified(address, version, led_count, supported)), read)
                },
                (Err(Stop::Failed(fault)), read) => (
                    Ok(
                        unreadable(
                            address,
                            Some(version_text(name)),
                            "read configuration table: "@ + fault.message,
                        ),
                    ),
                    read,
                ),
                (Err(Stop::Pending(access)), read) => (Err(access), read),
            },
            (Err(Stop::Failed(fault)), named) => (
                Ok(unreadable(address, None, "read device name: "@ + fault.message)),
                named,
            ),
            (Err(Stop::Pending(access)), named) => (Err(access), named),
        },
        (Ok(false), present) => (Ok(not_found(address, None)), present),
        (Err(Stop::Failed(fault)), present) => (
            Ok(not_found(address, Some("check address: "@ + fault.message))),
            present,
        ),
        (Err(Stop::Pending(access)), present) => (Err(access), present),
    }
}

/// What the result of diagnosing an address says.
pub open spec fn address_view(result: Result<AddressDiagnostic, Request>) -> Result<
    AddressFinding,
    Access,
> {
    match result {
        Ok(diagnostic) => Ok(diagnostic@),
        Err(request) => Err(request@),
    }
}

fn prefixed(prefix: &str, error: &BusError) -> (message: String)
    ensures
        message@ == prefix@ + error@.message,
{
    let mut message: String = prefix.to_owned();
    message.append(error.message.as_str());
    message
}

/// Tells what stands at an address. An address where nothing answers is no
/// failure.
pub fn diagnose_address(session: &mut Session, address: u16, profile: &EneDramProfile) -> (result:
    Result<AddressDiagnostic, Request>)
    ensures
        (address_view(result), final(session)@) == diagnose_address_run(
            old(session)@,
            address,
            *profile,
        ),
{
    match address_responds(session, address) {
        Ok(true) => {},
        Ok(false) => {
            return Ok(
                AddressDiagnostic {
                    address,
                    present: false,
                    version: None,
                    led_count: None,
                    error: None,
                    supported: false,
                },
            );
        },
        Err(Stop::Failed(error)) => {
            return Ok(
                AddressDiagnostic {
                    address,
                    present: false,
                    version: None,
                    led_count: None,
                    error: Some(prefixed("check address: ", &error)),
                    supported: false,
                },
            );
        },
        Err(Stop::Pending(request)) => {
            return Err(request);
        },
    }
    let name: String = match read_bytes(
        session,
        address,
        DEVICE_NAME_REGISTER,
        DEVICE_NAME_LENGTH,
    ) {
        Ok(name) => version_of(name.as_slice()),
        Err(Stop::Failed(error)) => {
            return Ok(
                AddressDiagnostic {
                    address,
                    present: true,
                    version: None,
                    led_count: None,
                    error: Some(prefixed("read device name: ", &error)),
                    supported: false,
                },
            );
        },
        Err(Stop::Pending(request)) => {
            return Err(request);
        },
    };
    let config: Vec<u8> = match read_bytes(
        session,
        address,
        CONFIG_TABLE_REGISTER,
        CONFIG_TABLE_LENGTH,
    ) {
        Ok(config) => config,
        Err(Stop::Failed(error)) => {
            return Ok(
                AddressDiagnostic {
                    address,
                    present: true,
                    version: Some(name),
                    led_count: None,
                    error: Some(prefixed("read configuration table: ", &error)),
                    supported: false,
                },
            );
        },
        Err(Stop::Pending(request)) => {
            return Err(request);
        },
    };
    let led_count: u8 = config[CONFIG_LED_COUNT];
    let supported: bool = find_controller(
        profile.controllers,
        name.as_str(),
        led_count,
    ).is_some();
    Ok(
        AddressDiagnostic {
            address,
            present: true,
            version: Some(name),
            led_count: Some(led_count),
            error: None,
            supported,
        },
    )
}

/// A non-mutating report of what each configured ENE address returned.
#[derive(Debug)]
pub struct BusDiagnostic {
    pub bus: String,
    pub adapter_name: String,
    pub open_error: Option<String>,
    pub addresses: Vec<AddressDiagnostic>,
}

/// What a `BusDiagnostic` says.
pub struct BusFinding {
    pub bus: Seq<char>,
    pub adapter_name: Seq<char>,
    pub open_error: Option<Seq<char>>,
    pub addresses: Seq<AddressFinding>,
}

/// What the diagnostics say.
pub open spec fn addresses_view(addresses: Seq<AddressDiagnostic>) -> Seq<AddressFinding> {
    addresses.map_values(|diagnostic: AddressDiagnostic| diagnostic@)
}

impl View for BusDiagnostic {
    type V = BusFinding;

    open spec fn view(&self) -> BusFinding {
        BusFinding {
            bus: self.bus@,
            adapter_name: self.adapter_name@,
            open_error: text_view(self.open_error),
            addresses: addresses_view(self.addresses@),
        }
    }
}

/// What the diagnostics say.
pub open spec fn buses_view(buses: Seq<BusDiagnostic>) -> Seq<BusFinding> {
    buses.map_values(|diagnostic: BusDiagnostic| diagnostic@)
}

/// The addresses that are diagnosed: those of the profile, then the mapper's.
pub open spec fn diagnosed_addresses(profile: EneDramProfile) -> Seq<u16> {
    profile.addresses@.push(DRAM_MAPPER_ADDRESS)
}

/// Diagnoses the first `count` of the addresses.
pub open spec fn diagnose_addresses_run(tape: Tape, profile: EneDramProfile, count: nat) -> (
    Result<Seq<AddressFinding>, Access>,
    Tape,
)
    decreases count,
{
    if count == 0 {
        (Ok(seq![]), tape)
    } else {
        match diagnose_addresses_run(tape, profile, (count - 1) as nat) {
            (Ok(findings), before) => match diagnose_address_run(
                before,
                diagnosed_addresses(profile)[count - 1],
                profile,
            ) {
                (Ok(finding), after) => (Ok(findings.push(finding)), after),
                (Err(access), after) => (Err(access), after),
            },
            (Err(access), before) => (Err(access), before),
        }
    }
}

proof fn lemma_diagnose_addresses_stops(
    tape: Tape,
    profile: EneDramProfile,
    shorter: nat,
    count: nat,
)
    requires
        shorter <= count,
        diagnose_addresses_run(tape, profile, shorter).0 is Err,
    ensures
        diagnose_addresses_run(tape, profile, count) == diagnose_addresses_run(
            tape,
            profile,
            shorter,
        ),
    decreases count,
{
    if shorter < count {
        lemma_diagnose_addresses_stops(tape, profile, shorter, (count - 1) as nat);
    }
}

fn diagnose_addresses(session: &mut Session, profile: &EneDramProfile) -> (result: Result<
    Vec<AddressDiagnostic>,
    Request,
>)
    ensures
        (
            (match result {
                Ok(addresses) => Ok::<Seq<AddressFinding>, Access>(addresses_view(addresses@)),
                Err(request) => Err::<Seq<AddressFinding>, Access>(request@),
            }),
            final(session)@,
        ) == diagnose_addresses_run(
            old(session)@,
            *profile,
            diagnosed_addresses(*profile).len(),
        ),
{
    let ghost start = session@;
    let mut addresses: Vec<AddressDiagnostic> = Vec::new();
    let mut i: usize = 0;
    assert(addresses_view(addresses@) =~= seq![]);
    while i < profile.addresses.len()
        invariant
            i <= profile.addresses@.len(),
            start == old(session)@,
            diagnose_addresses_run(start, *profile, i as nat) == (
                Ok::<Seq<AddressFinding>, Access>(addresses_view(addresses@)),
                session@,
            ),
        decreases profile.addresses@.len() - i,
    {
        match diagnose_address(session, profile.addresses[i], profile) {
            Ok(diagnostic) => {
                let ghost longer = addresses_view(addresses@).push(diagnostic@);
                addresses.push(diagnostic);
                assert(addresses_view(addresses@) =~= longer);
            },
            Err(request) => {
                proof {
                    lemma_diagnose_addresses_stops(
                        start,
                        *profile,
                        (i + 1) as nat,
                        diagnosed_addresses(*profile).len(),
                    );
                }
                return Err(request);
            },
        }
        i = i + 1;
    }
    match diagnose_address(session, DRAM_MAPPER_ADDRESS, profile) {
        Ok(diagnostic) => {
            let ghost longer = addresses_view(addresses@).push(diagnostic@);
            addresses.push(diagnostic);
            assert(addresses_view(addresses@) =~= longer);
            Ok(addresses)
        },
        Err(request) => Err(request),
    }
}

/// Diagnoses the bus behind an adapter. A bus that cannot be opened is
/// reported as such.
pub open spec fn diagnose_bus_run(tape: Tape, profile: EneDramProfile, adapter: AdapterInfo) -> (
    Result<BusFinding, BusAccess>,
    Tape,
) {
    let bus = bus_path(adapter.entry);
    let adapter_name = without_trailing_space(adapter.name);
    match exchange(tape, BusAccess::Open { bus }) {
        (Ok(_), opened) => match diagnose_addresses_run(
            opened,
            profile,
            diagnosed_addresses(profile).len(),
        ) {
            (Ok(addresses), after) => (
                Ok(BusFinding { bus, adapter_name, open_error: None, addresses }),
                after,
            ),
            (Err(access), after) => (Err(BusAccess::Access(access)), after),
        },
        (Err(Stop::Failed(fault)), opened) => (
            Ok(
                BusFinding {
                    bus,
                    adapter_name,
                    open_error: Some(fault.message),
                    addresses: seq![],
                },
            ),
            opened,
        ),
        (Err(Stop::Pending(access)), opened) => (Err(access), opened),
    }
}

fn diagnose_bus(session: &mut Session, profile: &EneDramProfile, adapter: &Adapter) -> (result:
    Result<BusDiagnostic, BusRequest>)
    ensures
        (
            (match result {
                Ok(diagnostic) => Ok::<BusFinding, BusAccess>(diagnostic@),
                Err(request) => Err::<BusFinding, BusAccess>(request@),
            }),
            final(session)@,
        ) == diagnose_bus_run(old(session)@, *profile, adapter@),
{
    let bus: String = bus_of(adapter.entry.as_str());
    let adapter_name: String = trim_end(adapter.name.as_str());
    match session.exchange(BusRequest::Open { bus: bus.clone() }) {
        Ok(_) => {},
        Err(Stop::Failed(error)) => {
            let addresses: Vec<AddressDiagnostic> = Vec::new();
            assert(addresses_view(addresses@) =~= seq![]);
            return Ok(
                BusDiagnostic { bus, adapter_name, open_error: Some(error.message), addresses },
            );
        },
        Err(Stop::Pending(request)) => {
            return Err(request);
        },
    }
    match diagnose_addresses(session, profile) {
        Ok(addresses) => Ok(BusDiagnostic { bus, adapter_name, open_error: None, addresses }),
        Err(request) => Err(BusRequest::Access(request)),
    }
}

/// Diagnoses the configured ones among the first `count` adapters.
pub open spec fn diagnose_run(
    tape: Tape,
    profile: EneDramProfile,
    adapters: Seq<AdapterInfo>,
    count: nat,
) -> (Result<Seq<BusFinding>, BusAccess>, Tape)
    decreases count,
{
    if count == 0 {
        (Ok(seq![]), tape)
    } else {
        match diagnose_run(tape, profile, adapters, (count - 1) as nat) {
            (Ok(findings), before) => {
                let adapter = adapters[count - 1];
                if is_configured(adapter.name, profile.adapter_name_patterns@) {
                    match diagnose_bus_run(before, profile, adapter) {
                        (Ok(finding), after) => (Ok(findings.push(finding)), after),
                        (Err(access), after) => (Err(access), after),
                    }
                } else {
                    (Ok(findings), before)
                }
            },
            (Err(access), before) => (Err(access), before),
        }
    }
}

proof fn lemma_diagnose_stops(
    tape: Tape,
    profile: EneDramProfile,
    adapters: Seq<AdapterInfo>,
    shorter: nat,
    count: nat,
)
    requires
        shorter <= count,
        diagnose_run(tape, profile, adapters, shorter).0 is Err,
    ensures
        diagnose_run(tape, profile, adapters, count) == diagnose_run(
            tape,
            profile,
            adapters,
            shorter,
        ),
    decreases count,
{
    if shorter < count {
        lemma_diagnose_stops(tape, profile, adapters, shorter, (count - 1) as nat);
    }
}

/// What the result of `diagnose` says.
pub open spec fn diagnose_view(result: Result<Vec<BusDiagnostic>, BusRequest>) -> Result<
    Seq<BusFinding>,
    BusAccess,
> {
    match result {
        Ok(buses) => Ok(buses_view(buses@)),
        Err(request) => Err(request@),
    }
}

/// Reads controller identities on every configured adapter without changing
/// colors or address mappings. Register selection still requires I²C write
/// access.
pub fn diagnose(session: &mut Session, profile: &EneDramProfile, adapters: &[Adapter]) -> (result:
    Result<Vec<BusDiagnostic>, BusRequest>)
    ensures
        (diagnose_view(result), final(session)@) == diagnose_run(
            old(session)@,
            *profile,
            by_entry(adapters_view(adapters@)),
            adapters@.len(),
        ),
{
    let sorted: Vec<Adapter> = adapter_entries(adapters);
    let ghost infos = adapters_view(sorted@);
    assert(infos.len() == adapters@.len());
    let ghost start = session@;
    let mut buses: Vec<BusDiagnostic> = Vec::new();
    let mut i: usize = 0;
    assert(buses_view(buses@) =~= seq![]);
    while i < sorted.len()
        invariant
            i <= sorted@.len(),
            infos == adapters_view(sorted@),
            infos == by_entry(adapters_view(adapters@)),
            infos.len() == adapters@.len(),
            start == old(session)@,
            diagnose_run(start, *profile, infos, i as nat) == (
                Ok::<Seq<BusFinding>, BusAccess>(buses_view(buses@)),
                session@,
            ),
        decreases sorted@.len() - i,
    {
        if adapter_is_configured(sorted[i].name.as_str(), profile.adapter_name_patterns) {
            match diagnose_bus(session, profile, &sorted[i]) {
                Ok(diagnostic) => {
                    let ghost longer = buses_view(buses@).push(diagnostic@);
                    buses.push(diagnostic);
                    assert(buses_view(buses@) =~= longer);
                },
                Err(request) => {
                    proof {
                        lemma_diagnose_stops(
                            start,
                            *profile,
                            infos,
                            (i + 1) as nat,
                            infos.len(),
                        );
                    }
                    return Err(request);
                },
            }
        }
        i = i + 1;
    }
    Ok(buses)
}

/// A diagnosis and a probe agree on an address. They ask for the same accesses;
/// the diagnosis calls an address supported where the probe finds a device, and
/// tells of its version and LEDs; it has an error where the probe fails; and it
/// has neither where the probe finds nothing.
pub proof fn diagnosis_agrees_with_probe(tape: Tape, address: u16, profile: EneDramProfile)
    ensures
        ({
            let (probed, probed_to) = probe_address_run(tape, address, profile);
            let (diagnosed, diagnosed_to) = diagnose_address_run(tape, address, profile);
            &&& diagnosed_to == probed_to
            &&& match (probed, diagnosed) {
                (Err(Stop::Pending(access)), Err(other)) => other == access,
                (Ok(Some(device)), Ok(finding)) => {
                    &&& finding.supported
                    &&& finding.present
                    &&& finding.error is None
                    &&& finding.version == Some(device.controller.version@)
                    &&& finding.led_count == Some(device.controller.led_count)
                },
                (Ok(None), Ok(finding)) => !finding.supported && finding.error is None,
                (Err(Stop::Failed(_)), Ok(finding)) => !finding.supported && finding.error is Some,
                _ => false,
            }
        }),
{
    let (_, present) = address_responds_run(tape, address);
    let (name, named) = read_bytes_run(
        present,
        address,
        DEVICE_NAME_REGISTER,
        DEVICE_NAME_LENGTH as nat,
    );
    let (config, _) = read_bytes_run(
        named,
        address,
        CONFIG_TABLE_REGISTER,
        CONFIG_TABLE_LENGTH as nat,
    );
    if name is Ok && config is Ok {
        lemma_known_controller(
            profile.controllers@,
            version_text(name->Ok_0),
            config->Ok_0[CONFIG_LED_COUNT as int],
        );
    }
}

/// Diagnostics are taken for what they are, one for one.
pub proof fn diagnostics_say_what_they_hold(buses: Seq<BusDiagnostic>, i: int, k: int)
    requires
        0 <= i < buses.len(),
    ensures
        buses_view(buses).len() == buses.len(),
        buses_view(buses)[i].bus == buses[i].bus@,
        buses_view(buses)[i].adapter_name == buses[i].adapter_name@,
        buses_view(buses)[i].open_error is Some <==> buses[i].open_error is Some,
        buses[i].open_error matches Some(error) ==> buses_view(buses)[i].open_error == Some(error@),
        buses_view(buses)[i].addresses.len() == buses[i].addresses@.len(),
        0 <= k < buses[i].addresses@.len() ==> {
            let held = buses[i].addresses@[k];
            let finding = buses_view(buses)[i].addresses[k];
            &&& finding.address == held.address
            &&& finding.present == held.present
            &&& finding.version is Some <==> held.version is Some
            &&& held.version matches Some(version) ==> finding.version == Some(version@)
            &&& finding.led_count == held.led_count
            &&& finding.error is Some <==> held.error is Some
            &&& held.error matches Some(error) ==> finding.error == Some(error@)
            &&& finding.supported == held.supported
        },
{
}

} // verus!
