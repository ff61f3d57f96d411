//! Reading the identity of the controllers behind a bus.
use crate::fault::in_context;
use crate::fault::is_absent;
use crate::fault::BusError;
use crate::fault::Fault;
use crate::fault::FaultKind;
use crate::profile::valid_profile;
use crate::profile::EneControllerProfile;
use crate::profile::EneDramProfile;
use crate::request::Access;
use crate::request::Request;
use crate::session::exchange;
use crate::session::outcome_view;
use crate::session::plain_view;
use crate::session::Session;
use crate::session::Stop;
use crate::session::Tape;
use crate::text::hex_padded;
use crate::text::push_hex_padded;
use crate::text::trim_end_nul;
use crate::text::without_trailing_nul;
use vstd::prelude::*;

verus! {

pub const DEVICE_NAME_REGISTER: u16 = 0x1000;

pub const DEVICE_NAME_LENGTH: usize = 16;

pub const CONFIG_TABLE_REGISTER: u16 = 0x1c00;

pub const CONFIG_TABLE_LENGTH: usize = 64;

pub const CONFIG_LED_COUNT: usize = 0x02;

/// A controller that a profile knows, at the address where it answers.
#[derive(Debug, Clone, Copy, PartialEq, Eq)]
pub struct EneDramDevice {
    pub address: u16,
    pub controller: EneControllerProfile,
}

/// The context of a fault met while looking for a device.
pub open spec fn probing(address: u16) -> Seq<char> {
    "probe address 0x"@ + hex_padded(address as nat)
}

pub open spec fn address_responds_run(tape: Tape, address: u16) -> (
    Result<bool, Stop<Access, Fault>>,
    Tape,
) {
    match exchange(tape, Access::ReadAddressByte { address }) {
        (Ok(_), after) => (Ok(true), after),
        (Err(Stop::Failed(fault)), after) => {
            if fault.kind == FaultKind::Absent {
                (Ok(false), after)
            } else {
                (Err(Stop::Failed(in_context(probing(address), fault))), after)
            }
        },
        (Err(stop), after) => (Err(stop), after),
    }
}

/// Whether a device answers at `address`.
pub fn address_responds(session: &mut Session, address: u16) -> (result: Result<
    bool,
    Stop<Request, BusError>,
>)
    ensures
        (plain_view(result), final(session)@) == address_responds_run(old(session)@, address),
{
    match session.exchange(Request::ReadAddressByte { address }) {
        Ok(_) => Ok(true),
        Err(Stop::Failed(error)) => {
            if is_absent(&error) {
                Ok(false)
            } else {
                let mut context: String = "probe address 0x".to_owned();
                push_hex_padded(&mut context, address);
                Err(Stop::Failed(error.in_context(context.as_str())))
            }
        },
        Err(stop) => Err(stop),
    }
}

/// Reads `count` registers, starting with `register`.
pub open spec fn read_bytes_run(tape: Tape, address: u16, register: u16, count: nat) -> (
    Result<Seq<u8>, Stop<Access, Fault>>,
    Tape,
)
    decreases count,
{
    if count == 0 {
        (Ok(seq![]), tape)
    } else {
        match read_bytes_run(tape, address, register, (count - 1) as nat) {
            (Ok(bytes), before) => {
                let last = (register + count - 1) as u16;
                match exchange(before, Access::ReadRegister { address, register: last }) {
                    (Ok(byte), after) => (Ok(bytes.push(byte)), after),
                    (Err(stop), after) => (Err(stop), after),
                }
            },
            (Err(stop), before) => (Err(stop), before),
        }
    }
}

proof fn lemma_read_bytes_stops(
    tape: Tape,
    address: u16,
    register: u16,
    shorter: nat,
    count: nat,
)
    requires
        shorter <= count,
        read_bytes_run(tape, address, register, shorter).0 is Err,
    ensures
        read_bytes_run(tape, address, register, count) == read_bytes_run(
            tape,
            address,
            register,
            shorter,
        ),
    decreases count,
{
    if shorter < count {
        lemma_read_bytes_stops(tape, address, register, shorter, (count - 1) as nat);
    }
}

/// Reads `count` registers, starting with `register`, one by one.
pub fn read_bytes(session: &mut Session, address: u16, register: u16, count: usize) -> (result:
    Result<Vec<u8>, Stop<Request, BusError>>)
    requires
        register + count <= 0x10000,
    ensures
        (outcome_view(result), final(session)@) == read_bytes_run(
            old(session)@,
            address,
            register,
            count as nat,
        ),
        result matches Ok(bytes) ==> bytes@.len() == count,
{
    let ghost start = session@;
    let mut bytes: Vec<u8> = Vec::new();
    let mut offset: usize = 0;
    while offset < count
        invariant
            offset <= count,
            register + count <= 0x10000,
            start == old(session)@,
            bytes@.len() == offset,
            read_bytes_run(start, address, register, offset as nat) == (
                Ok::<Seq<u8>, Stop<Access, Fault>>(bytes@),
                session@,
            ),
        decreases count - offset,
    {
        match session.exchange(
            Request::ReadRegister { address, register: register + offset as u16 },
        ) {
            Ok(byte) => {
                bytes.push(byte);
            },
            Err(stop) => {
                proof {
                    lemma_read_bytes_stops(
                        start,
                        address,
                        register,
                        (offset + 1) as nat,
                        count as nat,
                    );
                }
                return Err(stop);
            },
        }
        offset = offset + 1;
    }
    Ok(bytes)
}

/// The text of `bytes`, with U+FFFD for what is not UTF-8.
pub uninterp spec fn lossy_text(bytes: Seq<u8>) -> Seq<char>;

/// `String::from_utf8_lossy`, whose result depends on the bytes alone. Bytes
/// that are UTF-8 give the text they encode. The text of other bytes, in which
/// U+FFFD stands for each invalid sequence, is not described further.
#[verifier::external_body]
fn text_of_bytes(bytes: &[u8]) -> (text: String)
    ensures
        text@ == lossy_text(bytes@),
        vstd::utf8::valid_utf8(bytes@) ==> text@ == vstd::utf8::decode_utf8(bytes@),
{
    String::from_utf8_lossy(bytes).into_owned()
}

/// The version that a device name holds: its text up to the padding.
pub open spec fn version_text(name: Seq<u8>) -> Seq<char> {
    without_trailing_nul(lossy_text(name))
}

/// The version that a device name holds.
pub fn version_of(name: &[u8]) -> (version: String)
    ensures
        version@ == version_text(name@),
        vstd::utf8::valid_utf8(name@) ==> version@ == without_trailing_nul(
            vstd::utf8::decode_utf8(name@),
        ),
{
    let text: String = text_of_bytes(name);
    trim_end_nul(text.as_str())
}

/// Whether a description is that of a controller with this version and number
/// of LEDs.
pub open spec fn describes(
    controller: EneControllerProfile,
    version: Seq<char>,
    led_count: u8,
) -> bool {
    controller.version@ == version && controller.led_count == led_count
}

/// The first description of a controller with this version and number of LEDs.
pub open spec fn known_controller(
    controllers: Seq<EneControllerProfile>,
    version: Seq<char>,
    led_count: u8,
) -> Option<EneControllerProfile>
    decreases controllers.len(),
{
    if controllers.len() == 0 {
        None
    } else if describes(controllers[0], version, led_count) {
        Some(controllers[0])
    } else {
        known_controller(controllers.skip(1), version, led_count)
    }
}

/// A controller that is found stands in the list and fits.
pub proof fn lemma_known_controller(
    controllers: Seq<EneControllerProfile>,
    version: Seq<char>,
    led_count: u8,
)
    ensures
        known_controller(controllers, version, led_count) matches Some(controller) ==> {
            &&& controllers.contains(controller)
            &&& describes(controller, version, led_count)
        },
        known_controller(controllers, version, led_count) is None <==> (forall|i: int|
            0 <= i < controllers.len() ==> !describes(
                #[trigger] controllers[i],
                version,
                led_count,
            )),
    decreases controllers.len(),
{
    if controllers.len() > 0 {
        let rest = controllers.skip(1);
        lemma_known_controller(rest, version, led_count);
        if describes(controllers[0], version, led_count) {
            assert(controllers.contains(controllers[0]));
        } else {
            if let Some(controller) = known_controller(rest, version, led_count) {
                let i = choose|i: int| 0 <= i < rest.len() && rest[i] == controller;
                assert(controllers[i + 1] == controller);
            } else {
                assert forall|i: int| 0 <= i < controllers.len() implies !describes(
                    #[trigger] controllers[i],
                    version,
                    led_count,
                ) by {
                    if i > 0 {
                        assert(rest[i - 1] == controllers[i]);
                    }
                }
            }
        }
    }
}

/// Finds the description of a controller.
pub fn find_controller(
    controllers: &[EneControllerProfile],
    version: &str,
    led_count: u8,
) -> (found: Option<EneControllerProfile>)
    ensures
        found == known_controller(controllers@, version@, led_count),
{
    let wanted: String = version.to_owned();
    let mut i: usize = 0;
    assert(controllers@.skip(0) =~= controllers@);
    while i < controllers.len()
        invariant
            i <= controllers@.len(),
            wanted@ == version@,
            known_controller(controllers@.skip(i as int), version@, led_count) == known_controller(
                controllers@,
                version@,
                led_count,
            ),
        decreases controllers@.len() - i,
    {
        if controllers[i].version.to_owned() == wanted && controllers[i].led_count == led_count {
            return Some(controllers[i]);
        }
        assert(controllers@.skip(i as int).skip(1) =~= controllers@.skip(i + 1));
        i = i + 1;
    }
    None
}

pub open spec fn probe_address_run(tape: Tape, address: u16, profile: EneDramProfile) -> (
    Result<Option<EneDramDevice>, Stop<Access, Fault>>,
    Tape,
) {
    match address_responds_run(tape, address) {
        (Ok(true), present) => match read_bytes_run(
            present,
            address,
            DEVICE_NAME_REGISTER,
            DEVICE_NAME_LENGTH as nat,
        ) {
            (Ok(name), named) => match read_bytes_run(
                named,
                address,
                CONFIG_TABLE_REGISTER,
                CONFIG_TABLE_LENGTH as nat,
            ) {
                (Ok(config), read) => match known_controller(
                    profile.controllers@,
                    version_text(name),
                    config[CONFIG_LED_COUNT as int],
                ) {
                    Some(controller) => (Ok(Some(EneDramDevice { address, controller })), read),
                    None => (Ok(None), read),
                },
                (Err(stop), read) => (Err(stop), read),
            },
            (Err(stop), named) => (Err(stop), named),
        },
        (Ok(false), present) => (Ok(None), present),
        (Err(stop), present) => (Err(stop), present),
    }
}

/// Looks for a controller that the profile knows. An address where nothing
/// answers, or something unknown, holds none.
pub fn probe_address(session: &mut Session, address: u16, profile: &EneDramProfile) -> (result:
    Result<Option<EneDramDevice>, Stop<Request, BusError>>)
    ensures
        (plain_view(result), final(session)@) == probe_address_run(
            old(session)@,
            address,
            *profile,
        ),
{
    if !address_responds(session, address)? {
        return Ok(None);
    }
    let name: Vec<u8> = read_bytes(session, address, DEVICE_NAME_REGISTER, DEVICE_NAME_LENGTH)?;
    let version: String = version_of(name.as_slice());
    let config: Vec<u8> = read_bytes(
        session,
        address,
        CONFIG_TABLE_REGISTER,
        CONFIG_TABLE_LENGTH,
    )?;
    let led_count: u8 = config[CONFIG_LED_COUNT];
    match find_controller(profile.controllers, version.as_str(), led_count) {
        Some(controller) => Ok(Some(EneDramDevice { address, controller })),
        None => Ok(None),
    }
}

/// What the probe of a bus found.
#[derive(Debug)]
pub struct ProbeReport {
    /// The controllers that the profile knows.
    pub devices: Vec<EneDramDevice>,
    /// The addresses whose identity could not be read, with the reason.
    pub failures: Vec<(u16, String)>,
}

/// What a `ProbeReport` says.
pub struct Report {
    pub devices: Seq<EneDramDevice>,
    pub failures: Seq<(u16, Seq<char>)>,
}

/// What the failures say.
pub open spec fn failures_view(failures: Seq<(u16, String)>) -> Seq<(u16, Seq<char>)> {
    failures.map_values(|failure: (u16, String)| (failure.0, failure.1@))
}

impl View for ProbeReport {
    type V = Report;

    open spec fn view(&self) -> Report {
        Report { devices: self.devices@, failures: failures_view(self.failures@) }
    }
}

/// What the result of a procedure that cannot fail says.
pub open spec fn report_view(result: Result<ProbeReport, Request>) -> Result<Report, Access> {
    match result {
        Ok(report) => Ok(report@),
        Err(request) => Err(request@),
    }
}

/// Probes the first `count` addresses of the profile, in order. What cannot be
/// read at one address is noted, and the others are probed all the same.
pub open spec fn probe_run(tape: Tape, profile: EneDramProfile, count: nat) -> (
    Result<Report, Access>,
    Tape,
)
    decreases count,
{
    if count == 0 {
        (Ok(Report { devices: seq![], failures: seq![] }), tape)
    } else {
        match probe_run(tape, profile, (count - 1) as nat) {
            (Ok(report), before) => {
                let address = profile.addresses@[count - 1];
                match probe_address_run(before, address, profile) {
                    (Ok(Some(device)), after) => (
                        Ok(
                            Report {
                                devices: report.devices.push(device),
                                failures: report.failures,
                            },
                        ),
                        after,
                    ),
                    (Ok(None), after) => (Ok(report), after),
                    (Err(Stop::Failed(fault)), after) => (
                        Ok(
                            Report {
                                devices: report.devices,
                                failures: report.failures.push((address, fault.message)),
                            },
                        ),
                        after,
                    ),
                    (Err(Stop::Pending(access)), after) => (Err(access), after),
                }
            },
            (Err(access), before) => (Err(access), before),
        }
    }
}

proof fn lemma_probe_stops(tape: Tape, profile: EneDramProfile, shorter: nat, count: nat)
    requires
        shorter <= count,
        probe_run(tape, profile, shorter).0 is Err,
    ensures
        probe_run(tape, profile, count) == probe_run(tape, profile, shorter),
    decreases count,
{
    if shorter < count {
        lemma_probe_stops(tape, profile, shorter, (count - 1) as nat);
    }
}

/// Probes every address of the profile.
pub fn probe_on_transport(session: &mut Session, profile: &EneDramProfile) -> (result: Result<
    ProbeReport,
    Request,
>)
    ensures
        (report_view(result), final(session)@) == probe_run(
            old(session)@,
            *profile,
            profile.addresses@.len(),
        ),
{
    let ghost start = session@;
    let mut devices: Vec<EneDramDevice> = Vec::new();
    let mut failures: Vec<(u16, String)> = Vec::new();
    let mut i: usize = 0;
    assert(failures_view(failures@) =~= seq![]);
    while i < profile.addresses.len()
        invariant
            i <= profile.addresses@.len(),
            start == old(session)@,
            probe_run(start, *profile, i as nat) == (
                Ok::<Report, Access>(
                    Report { devices: devices@, failures: failures_view(failures@) },
                ),
                session@,
            ),
        decreases profile.addresses@.len() - i,
    {
        let address: u16 = profile.addresses[i];
        match probe_address(session, address, profile) {
            Ok(Some(device)) => {
                devices.push(device);
            },
            Ok(None) => {},
            Err(Stop::Failed(error)) => {
                let ghost noted = failures_view(failures@).push((address, error@.message));
                failures.push((address, error.message));
                assert(failures_view(failures@) =~= noted);
            },
            Err(Stop::Pending(request)) => {
                proof {
                    lemma_probe_stops(
                        start,
                        *profile,
                        (i + 1) as nat,
                        profile.addresses@.len(),
                    );
                }
                return Err(request);
            },
        }
        i = i + 1;
    }
    Ok(ProbeReport { devices, failures })
}

/// Whether a device has an address of the profile and a controller that the
/// profile describes.
pub open spec fn is_configured_device(device: EneDramDevice, profile: EneDramProfile) -> bool {
    &&& profile.addresses@.contains(device.address)
    &&& profile.controllers@.contains(device.controller)
}

/// Every device that a probe reports has an address and a controller of the
/// profile, every failure has an address of the profile, and there are no more
/// of them than addresses were probed.
pub proof fn probe_reports_configured_devices(tape: Tape, profile: EneDramProfile, count: nat)
    requires
        count <= profile.addresses@.len(),
    ensures
        probe_run(tape, profile, count).0 matches Ok(report) ==> {
            &&& report.devices.len() + report.failures.len() <= count
            &&& forall|i: int|
                0 <= i < report.devices.len() ==> is_configured_device(
                    #[trigger] report.devices[i],
                    profile,
                )
            &&& forall|i: int|
                0 <= i < report.failures.len() ==> profile.addresses@.contains(
                    (#[trigger] report.failures[i]).0,
                )
        },
    decreases count,
{
    if count > 0 {
        let before = (count - 1) as nat;
        probe_reports_configured_devices(tape, profile, before);
        let address = profile.addresses@[count - 1];
        let (_, middle) = probe_run(tape, profile, before);
        assert(profile.addresses@.contains(address));
        found_device_is_configured(middle, address, profile);
    }
}

/// A device that is found has the address it was looked for at and a controller
/// of the profile.
pub proof fn found_device_is_configured(tape: Tape, address: u16, profile: EneDramProfile)
    ensures
        probe_address_run(tape, address, profile).0 matches Ok(Some(device)) ==> device.address
            == address && profile.controllers@.contains(device.controller),
{
    let (_, present) = address_responds_run(tape, address);
    let (name, named) = read_bytes_run(
        present,
        address,
        DEVICE_NAME_REGISTER,
        DEVICE_NAME_LENGTH as nat,
    );
    let (config, _) = read_bytes_run(
        named,
        address,
        CONFIG_TABLE_REGISTER,
        CONFIG_TABLE_LENGTH as nat,
    );
    if name is Ok && config is Ok {
        lemma_known_controller(
            profile.controllers@,
            version_text(name->Ok_0),
            config->Ok_0[CONFIG_LED_COUNT as int],
        );
    }
}

/// What the address at `index` of the profile gave in a probe.
pub open spec fn probed_at(tape: Tape, profile: EneDramProfile, index: int) -> Result<
    Option<EneDramDevice>,
    Stop<Access, Fault>,
> {
    probe_address_run(
        probe_run(tape, profile, index as nat).1,
        profile.addresses@[index],
        profile,
    ).0
}

/// Whether a report lists what the address at `index` gave.
pub open spec fn reports_what_was_probed(
    report: Report,
    tape: Tape,
    profile: EneDramProfile,
    index: int,
) -> bool {
    match probed_at(tape, profile, index) {
        Ok(Some(device)) => report.devices.contains(device),
        Ok(None) => true,
        Err(Stop::Failed(fault)) => report.failures.contains(
            (profile.addresses@[index], fault.message),
        ),
        Err(Stop::Pending(_)) => false,
    }
}

/// Whether a device is one that identified itself at one of the first `count`
/// addresses.
pub open spec fn identified_itself(
    device: EneDramDevice,
    tape: Tape,
    profile: EneDramProfile,
    count: nat,
) -> bool {
    exists|k: int|
        0 <= k < count && #[trigger] probed_at(tape, profile, k)
            == Ok::<Option<EneDramDevice>, Stop<Access, Fault>>(Some(device))
}

/// Whether a failure is that of one of the first `count` addresses.
pub open spec fn failed_itself(
    failure: (u16, Seq<char>),
    tape: Tape,
    profile: EneDramProfile,
    count: nat,
) -> bool {
    exists|k: int|
        0 <= k < count && failure.0 == profile.addresses@[k] && (#[trigger] probed_at(
            tape,
            profile,
            k,
        ) matches Err(Stop::Failed(fault)) && failure.1 == fault.message)
}

/// A probe reports every controller that identified itself and every address
/// that failed, whatever the other addresses gave, and it reports nothing else.
pub proof fn probe_reports_what_answered(tape: Tape, profile: EneDramProfile, count: nat)
    ensures
        probe_run(tape, profile, count).0 matches Ok(report) ==> {
            &&& forall|k: int|
                0 <= k < count ==> #[trigger] reports_what_was_probed(report, tape, profile, k)
            &&& forall|i: int|
                0 <= i < report.devices.len() ==> identified_itself(
                    #[trigger] report.devices[i],
                    tape,
                    profile,
                    count,
                )
            &&& forall|i: int|
                0 <= i < report.failures.len() ==> failed_itself(
                    #[trigger] report.failures[i],
                    tape,
                    profile,
                    count,
                )
        },
    decreases count,
{
    if count > 0 {
        let before = (count - 1) as nat;
        probe_reports_what_answered(tape, profile, before);
        if let Ok(report) = probe_run(tape, profile, count).0 {
            let shorter = probe_run(tape, profile, before).0->Ok_0;
            let newest = probed_at(tape, profile, count - 1);
            if let Ok(Some(device)) = newest {
                assert(report.devices.last() == device);
            }
            if newest is Err {
                assert(report.failures.last().0 == profile.addresses@[count - 1]);
            }
            assert forall|k: int| 0 <= k < count implies #[trigger] reports_what_was_probed(
                report,
                tape,
                profile,
                k,
            ) by {
                if k < before {
                    assert(reports_what_was_probed(shorter, tape, profile, k));
                    match probed_at(tape, profile, k) {
                        Ok(Some(device)) => {
                            let i = shorter.devices.index_of(device);
                            assert(report.devices[i] == device);
                        },
                        Err(Stop::Failed(fault)) => {
                            let failure = (profile.addresses@[k], fault.message);
                            let i = shorter.failures.index_of(failure);
                            assert(report.failures[i] == failure);
                        },
                        _ => {},
                    }
                }
            }
            assert forall|i: int| 0 <= i < report.devices.len() implies identified_itself(
                #[trigger] report.devices[i],
                tape,
                profile,
                count,
            ) by {
                if i < shorter.devices.len() {
                    assert(identified_itself(shorter.devices[i], tape, profile, before));
                }
            }
            assert forall|i: int| 0 <= i < report.failures.len() implies failed_itself(
                #[trigger] report.failures[i],
                tape,
                profile,
                count,
            ) by {
                if i < shorter.failures.len() {
                    assert(failed_itself(shorter.failures[i], tape, profile, before));
                }
            }
        }
    }
}

/// With a valid profile no address is reported twice, neither as a device nor
/// as a failure nor as both.
pub proof fn probe_reports_an_address_once(tape: Tape, profile: EneDramProfile, count: nat)
    requires
        valid_profile(profile),
        count <= profile.addresses@.len(),
    ensures
        probe_run(tape, profile, count).0 matches Ok(report) ==> {
            &&& forall|i: int, j: int|
                0 <= i < j < report.devices.len() ==> (#[trigger] report.devices[i]).address != (
                #[trigger] report.devices[j]).address
            &&& forall|i: int, j: int|
                0 <= i < j < report.failures.len() ==> (#[trigger] report.failures[i]).0 != (
                #[trigger] report.failures[j]).0
            &&& forall|i: int, j: int|
                0 <= i < report.devices.len() && 0 <= j < report.failures.len() ==> (
                #[trigger] report.devices[i]).address != (#[trigger] report.failures[j]).0
        },
    decreases count,
{
    if count > 0 {
        let before = (count - 1) as nat;
        probe_reports_an_address_once(tape, profile, before);
        probe_reports_what_answered(tape, profile, before);
        let (earlier, middle) = probe_run(tape, profile, before);
        let address = profile.addresses@[count - 1];
        found_device_is_configured(middle, address, profile);
        if let Ok(report) = earlier {
            assert forall|i: int| 0 <= i < report.devices.len() implies (
            #[trigger] report.devices[i]).address != address by {
                assert(identified_itself(report.devices[i], tape, profile, before));
                let k = choose|k: int|
                    0 <= k < before && #[trigger] probed_at(tape, profile, k) == Ok::<
                        Option<EneDramDevice>,
                        Stop<Access, Fault>,
                    >(Some(report.devices[i]));
                found_device_is_configured(
                    probe_run(tape, profile, k as nat).1,
                    profile.addresses@[k],
                    profile,
                );
            }
            assert forall|i: int| 0 <= i < report.failures.len() implies (
            #[trigger] report.failures[i]).0 != address by {
                assert(failed_itself(report.failures[i], tape, profile, before));
            }
        }
    }
}

/// An empty address is normal: it holds no device, and that is no failure.
pub proof fn empty_address_is_normal(tape: Tape, address: u16, profile: EneDramProfile)
    requires
        tape.used < tape.answers.len(),
        tape.answers[tape.used as int] matches Err(fault) && fault.kind == FaultKind::Absent,
    ensures
        probe_address_run(tape, address, profile) == (
            Ok::<Option<EneDramDevice>, Stop<Access, Fault>>(None),
            (Tape { answers: tape.answers, used: tape.used + 1 }),
        ),
{
}

/// Registers are read one after the other, each once, until one of them fails.
pub proof fn registers_are_read_in_order(tape: Tape, address: u16, register: u16, count: nat)
    requires
        register + count <= 0x10000,
    ensures
        ({
            let (result, after) = read_bytes_run(tape, address, register, count);
            let read = after.used - tape.used;
            &&& after.answers == tape.answers
            &&& match result {
                Ok(bytes) => {
                    &&& read == count
                    &&& bytes.len() == count
                    &&& forall|i: int|
                        0 <= i < count ==> tape.answers[tape.used + i] == Ok::<u8, Fault>(
                            #[trigger] bytes[i],
                        )
                },
                Err(Stop::Pending(access)) => {
                    &&& 0 <= read < count
                    &&& after.used >= tape.answers.len()
                    &&& access == Access::ReadRegister {
                        address,
                        register: (register + read) as u16,
                    }
                    &&& forall|i: int|
                        tape.used <= i < after.used ==> (#[trigger] tape.answers[i]) is Ok
                },
                Err(Stop::Failed(fault)) => {
                    &&& 1 <= read <= count
                    &&& tape.answers[after.used - 1] == Err::<u8, Fault>(fault)
                    &&& forall|i: int|
                        tape.used <= i < after.used - 1 ==> (#[trigger] tape.answers[i]) is Ok
                },
            }
        }),
    decreases count,
{
    if count > 0 {
        registers_are_read_in_order(tape, address, register, (count - 1) as nat);
        let (earlier, before) = read_bytes_run(tape, address, register, (count - 1) as nat);
        if let Ok(bytes) = earlier {
            assert forall|i: int| tape.used <= i < before.used implies (
            #[trigger] tape.answers[i]) is Ok by {
                assert(tape.answers[tape.used + (i - tape.used)] == Ok::<u8, Fault>(
                    bytes[i - tape.used],
                ));
            }
        }
    }
}

/// The positions in the profile of the first `count` addresses at which a
/// device identified itself.
pub open spec fn device_turns(tape: Tape, profile: EneDramProfile, count: nat) -> Seq<int>
    decreases count,
{
    if count == 0 {
        seq![]
    } else {
        let earlier = device_turns(tape, profile, (count - 1) as nat);
        if probed_at(tape, profile, count - 1) matches Ok(Some(_)) {
            earlier.push(count - 1)
        } else {
            earlier
        }
    }
}

/// The positions in the profile of the first `count` addresses that failed.
pub open spec fn failure_turns(tape: Tape, profile: EneDramProfile, count: nat) -> Seq<int>
    decreases count,
{
    if count == 0 {
        seq![]
    } else {
        let earlier = failure_turns(tape, profile, (count - 1) as nat);
        if probed_at(tape, profile, count - 1) is Err {
            earlier.push(count - 1)
        } else {
            earlier
        }
    }
}

/// Whether positions go up and stay below `count`.
pub open spec fn are_rising(turns: Seq<int>, count: nat) -> bool {
    &&& forall|i: int| 0 <= i < turns.len() ==> 0 <= #[trigger] turns[i] < count
    &&& forall|i: int, j: int|
        0 <= i < j < turns.len() ==> #[trigger] turns[i] < #[trigger] turns[j]
}

/// Whether a device identified itself at this position of the profile.
pub open spec fn identified_at(
    device: EneDramDevice,
    tape: Tape,
    profile: EneDramProfile,
    turn: int,
) -> bool {
    &&& device.address == profile.addresses@[turn]
    &&& probed_at(tape, profile, turn) == Ok::<Option<EneDramDevice>, Stop<Access, Fault>>(
        Some(device),
    )
}

/// Whether a failure is that of the address at this position of the profile.
pub open spec fn failed_at(
    failure: (u16, Seq<char>),
    tape: Tape,
    profile: EneDramProfile,
    turn: int,
) -> bool {
    &&& failure.0 == profile.addresses@[turn]
    &&& probed_at(tape, profile, turn) matches Err(Stop::Failed(fault)) && failure.1
        == fault.message
}

/// Both lists of a probe keep the order of the profile: each device and each
/// failure belongs to a position of the profile, and the positions go up.
pub proof fn probe_keeps_the_order_of_the_profile(tape: Tape, profile: EneDramProfile, count: nat)
    ensures
        probe_run(tape, profile, count).0 matches Ok(report) ==> {
            let devices = device_turns(tape, profile, count);
            let failures = failure_turns(tape, profile, count);
            &&& are_rising(devices, count)
            &&& are_rising(failures, count)
            &&& devices.len() == report.devices.len()
            &&& failures.len() == report.failures.len()
            &&& forall|i: int|
                0 <= i < devices.len() ==> identified_at(
                    #[trigger] report.devices[i],
                    tape,
                    profile,
                    devices[i],
                )
            &&& forall|i: int|
                0 <= i < failures.len() ==> failed_at(
                    #[trigger] report.failures[i],
                    tape,
                    profile,
                    failures[i],
                )
        },
    decreases count,
{
    if count > 0 {
        let before = (count - 1) as nat;
        probe_keeps_the_order_of_the_profile(tape, profile, before);
        let (_, middle) = probe_run(tape, profile, before);
        found_device_is_configured(middle, profile.addresses@[count - 1], profile);
        if let Ok(report) = probe_run(tape, profile, count).0 {
            let shorter = probe_run(tape, profile, before).0->Ok_0;
            let devices = device_turns(tape, profile, count);
            let failures = failure_turns(tape, profile, count);
            let earlier_devices = device_turns(tape, profile, before);
            let earlier_failures = failure_turns(tape, profile, before);
            assert forall|i: int| 0 <= i < devices.len() implies identified_at(
                #[trigger] report.devices[i],
                tape,
                profile,
                devices[i],
            ) by {
                if i < earlier_devices.len() {
                    assert(report.devices[i] == shorter.devices[i]);
                    assert(devices[i] == earlier_devices[i]);
                }
            }
            assert forall|i: int| 0 <= i < failures.len() implies failed_at(
                #[trigger] report.failures[i],
                tape,
                profile,
                failures[i],
            ) by {
                if i < earlier_failures.len() {
                    assert(report.failures[i] == shorter.failures[i]);
                    assert(failures[i] == earlier_failures[i]);
                }
            }
        }
    }
}

/// Reports are taken for what they are.
pub proof fn reports_say_what_they_hold(report: ProbeReport, i: int)
    ensures
        report@.devices == report.devices@,
        report@.failures.len() == report.failures@.len(),
        0 <= i < report.failures@.len() ==> report@.failures[i].0 == report.failures@[i].0
            && report@.failures[i].1 == report.failures@[i].1@,
{
}

/// The version is the text of the name, up to its padding with NUL.
pub proof fn versions_are_names_without_padding(name: Seq<u8>)
    ensures
        version_text(name) == without_trailing_nul(lossy_text(name)),
{
}

} // verus!
