use std::cell::RefCell;
use std::collections::BTreeMap;

use lightset::controller::decode_direct_colors;
use lightset::ene_dram::discovery::list_entry;
use lightset::ene_dram::identity::{find_controller, version_of};
use lightset::ene_dram::{
    adapter_entries, diagnose, discover_bus, prepare, probe, read_bytes, remap_dram_devices,
    set_all_colors, set_color, set_prepared_colors, Adapter, DeviceWriteResult, DramError,
    EneDramDevice, PreparedDram,
};
use lightset::fault::BusError;
use lightset::profile::{default_hardware, EneDramProfile, ProfileError};
use lightset::report::{
    diagnostic_lines, dram_set_all, ene_dram_line, identity_line, lamp_array_line, set_all,
    set_all_step, Progress, Step,
};
use lightset::request::{BusRequest, Request};
use lightset::session::{Session, Stop};

const NAME: &str = "SMBus PIIX4 adapter port 0 at 0b00\n";

/// A controller with its registers.
struct Dimm {
    registers: BTreeMap<u16, u8>,
    broken_reads: bool,
    broken_writes: bool,
}

fn dimm(version: &[u8], led_count: u8) -> Dimm {
    let mut registers = BTreeMap::new();
    for (offset, byte) in version.iter().enumerate() {
        registers.insert(0x1000 + offset as u16, *byte);
    }
    registers.insert(0x1c02, led_count);
    Dimm { registers, broken_reads: false, broken_writes: false }
}

fn known_dimm() -> Dimm {
    dimm(b"AUDA0-E6K5-0101\0", 8)
}

/// Buses with controllers, and a record of what was asked of them.
struct Machine {
    buses: RefCell<BTreeMap<String, BTreeMap<u16, Dimm>>>,
    open: RefCell<String>,
    log: RefCell<Vec<BusRequest>>,
}

fn machine(buses: Vec<(&str, Vec<(u16, Dimm)>)>) -> Machine {
    let buses = buses
        .into_iter()
        .map(|(bus, dimms)| (bus.to_owned(), dimms.into_iter().collect()))
        .collect();
    Machine {
        buses: RefCell::new(buses),
        open: RefCell::new(String::new()),
        log: RefCell::new(Vec::new()),
    }
}

fn io_error() -> BusError {
    BusError::from_this_os(libc::EIO, "Input/output error (os error 5)")
}

impl Machine {
    fn perform(&self, request: &BusRequest) -> Result<u8, BusError> {
        self.log.borrow_mut().push(request.clone());
        match request {
            BusRequest::Open { bus } => {
                if self.buses.borrow().contains_key(bus) {
                    *self.open.borrow_mut() = bus.clone();
                    Ok(0)
                } else {
                    Err(BusError::from_this_os(libc::EACCES, "Permission denied (os error 13)"))
                }
            }
            BusRequest::Access(request) => {
                let mut buses = self.buses.borrow_mut();
                let dimms = buses.get_mut(&*self.open.borrow()).unwrap();
                access(dimms, request)
            }
        }
    }

    fn run<T, E>(
        &self,
        procedure: impl Fn(&mut Session) -> Result<T, Stop<BusRequest, E>>,
    ) -> Result<T, E> {
        let mut answers = Vec::new();
        loop {
            match procedure(&mut Session::new(&answers)) {
                Ok(value) => return Ok(value),
                Err(Stop::Failed(error)) => return Err(error),
                Err(Stop::Pending(request)) => answers.push(self.perform(&request)),
            }
        }
    }

    fn prepare(&self, adapters: &[Adapter]) -> Result<PreparedDram, DramError> {
        self.run(|session| prepare(session, &profile(), adapters))
    }

    fn set_all(&self, bus: &str) -> Result<Vec<DeviceWriteResult>, DramError> {
        self.run(|session| set_all_colors(session, bus, &profile(), [1, 2, 3]))
    }

    fn opened(&self) -> Vec<String> {
        let log = self.log.borrow();
        log.iter()
            .filter_map(|request| match request {
                BusRequest::Open { bus } => Some(bus.clone()),
                BusRequest::Access(_) => None,
            })
            .collect()
    }

    fn written(&self) -> Vec<(u16, u16)> {
        let log = self.log.borrow();
        log.iter()
            .filter_map(|request| match request {
                BusRequest::Access(Request::WriteRegister { address, register, .. })
                | BusRequest::Access(Request::WriteRegisterBlock { address, register, .. }) => {
                    Some((*address, *register))
                }
                _ => None,
            })
            .collect()
    }

    fn color_memory(&self, bus: &str, address: u16) -> Vec<u8> {
        let buses = self.buses.borrow();
        let registers = &buses[bus][&address].registers;
        (0x8100..0x8118).map(|register| registers.get(&register).copied().unwrap_or(0)).collect()
    }
}

/// Controllers behind the mapper share its address until they have their own.
fn access(dimms: &mut BTreeMap<u16, Dimm>, request: &Request) -> Result<u8, BusError> {
    let address = match request {
        Request::ReadAddressByte { address }
        | Request::ReadRegister { address, .. }
        | Request::WriteRegister { address, .. }
        | Request::WriteRegisterBlock { address, .. } => *address,
    };
    let Some(dimm) = dimms.get_mut(&address) else {
        return Err(BusError::from_this_os(libc::ENXIO, "No such device or address (os error 6)"));
    };
    match request {
        Request::ReadAddressByte { .. } => Ok(0),
        Request::ReadRegister { register, .. } => {
            if dimm.broken_reads {
                return Err(io_error());
            }
            Ok(dimm.registers.get(register).copied().unwrap_or(0))
        }
        Request::WriteRegister { register, value, .. } => {
            if dimm.broken_writes {
                return Err(io_error());
            }
            dimm.registers.insert(*register, *value);
            if address == 0x77 && *register == 0x80f9 {
                let moved = dimms.remove(&0x77).unwrap();
                dimms.insert(u16::from(*value >> 1), moved);
            }
            Ok(0)
        }
        Request::WriteRegisterBlock { register, data, .. } => {
            if dimm.broken_writes {
                return Err(io_error());
            }
            for (offset, byte) in data.iter().enumerate() {
                dimm.registers.insert(register + offset as u16, *byte);
            }
            Ok(0)
        }
    }
}

fn profile() -> EneDramProfile {
    default_hardware().ene_dram
}

fn adapter(entry: &str, name: &str) -> Adapter {
    Adapter { entry: entry.to_owned(), name: name.to_owned() }
}

#[test]
fn adapters_are_examined_in_the_order_of_their_entries() {
    let sorted = adapter_entries(&[
        adapter("i2c-2", "c"),
        adapter("i2c-10", "b"),
        adapter("i2c-1", "a"),
    ]);
    let names: Vec<&str> = sorted.iter().map(|adapter| adapter.name.as_str()).collect();
    assert_eq!(names, ["a", "b", "c"]);
}

#[test]
fn the_first_configured_bus_with_controllers_is_prepared() {
    let machine = machine(vec![
        ("/dev/i2c-1", vec![]),
        ("/dev/i2c-2", vec![(0x70, known_dimm()), (0x72, known_dimm())]),
        ("/dev/i2c-3", vec![(0x70, known_dimm())]),
        ("/dev/i2c-0", vec![(0x70, known_dimm())]),
    ]);
    let adapters = [
        adapter("i2c-3", NAME),
        adapter("i2c-2", NAME),
        adapter("i2c-1", NAME),
        adapter("i2c-0", "SMBus I801 adapter at f000\n"),
    ];
    let prepared = machine.prepare(&adapters).unwrap();
    assert_eq!(prepared.bus(), "/dev/i2c-2");
    let addresses: Vec<u16> = prepared.devices().iter().map(|device| device.address).collect();
    assert_eq!(addresses, [0x70, 0x72]);
    assert_eq!(prepared.devices()[0].controller, profile().controllers[0]);
    assert!(prepared.probe_failures().is_empty());
    assert_eq!(machine.opened(), ["/dev/i2c-1", "/dev/i2c-1", "/dev/i2c-2", "/dev/i2c-2"]);
    assert!(machine.written().is_empty());
    let bus = machine.run(|session| discover_bus(session, &profile(), &adapters)).unwrap();
    assert_eq!(bus, "/dev/i2c-2");
}

#[test]
fn prepared_devices_show_the_color() {
    let machine =
        machine(vec![("/dev/i2c-2", vec![(0x70, known_dimm()), (0x73, known_dimm())])]);
    let prepared = machine.prepare(&[adapter("i2c-2", NAME)]).unwrap();
    let results =
        machine.run(|session| set_prepared_colors(session, &prepared, [9, 8, 7])).unwrap();
    assert_eq!(results.len(), 2);
    for (result, address) in results.iter().zip([0x70, 0x73]) {
        assert_eq!(result.address, address);
        assert_eq!(result.result, Ok(()));
        let memory = machine.color_memory("/dev/i2c-2", address);
        assert_eq!(
            decode_direct_colors(&memory, profile().controllers[0]),
            Ok(vec![[9, 8, 7]; 8])
        );
    }
    let registers: Vec<u16> =
        machine.written().iter().filter(|write| write.0 == 0x73).map(|write| write.1).collect();
    assert_eq!(
        registers,
        [0x8020, 0x80a0, 0x8100, 0x8103, 0x8106, 0x8109, 0x810c, 0x810f, 0x8112, 0x8115]
    );
}

#[test]
fn a_mapped_module_is_found_at_its_new_address() {
    let machine = machine(vec![("/dev/i2c-2", vec![(0x70, known_dimm()), (0x77, known_dimm())])]);
    let prepared = machine.prepare(&[adapter("i2c-2", NAME)]).unwrap();
    let addresses: Vec<u16> = prepared.devices().iter().map(|device| device.address).collect();
    assert_eq!(addresses, [0x70, 0x71]);
    assert_eq!(machine.written(), [(0x77, 0x80f8), (0x77, 0x80f9)]);
}

#[test]
fn an_unknown_mapper_is_left_alone() {
    let machine =
        machine(vec![("/dev/i2c-2", vec![(0x70, known_dimm()), (0x77, dimm(b"OTHER", 8))])]);
    machine.run(|session| remap_dram_devices(session, "/dev/i2c-2", &profile())).unwrap();
    assert!(machine.written().is_empty());
}

#[test]
fn nothing_but_configured_addresses_is_accessed() {
    let machine = machine(vec![(
        "/dev/i2c-2",
        vec![(0x50, known_dimm()), (0x70, known_dimm()), (0x77, known_dimm())],
    )]);
    let prepared = machine.prepare(&[adapter("i2c-2", NAME)]).unwrap();
    machine.run(|session| set_prepared_colors(session, &prepared, [1, 2, 3])).unwrap();
    for request in machine.log.borrow().iter() {
        if let BusRequest::Access(request) = request {
            let address = match request {
                Request::ReadAddressByte { address }
                | Request::ReadRegister { address, .. }
                | Request::WriteRegister { address, .. }
                | Request::WriteRegisterBlock { address, .. } => *address,
            };
            assert!([0x70, 0x71, 0x72, 0x73, 0x77].contains(&address));
        }
    }
}

#[test]
fn without_controllers_there_is_nothing_to_prepare() {
    let machine = machine(vec![("/dev/i2c-2", vec![(0x70, dimm(b"OTHER", 8))])]);
    let error = machine.prepare(&[adapter("i2c-2", NAME)]).unwrap_err();
    assert!(matches!(error, DramError::NoControllers));
    assert_eq!(
        error.message(),
        "no supported ENE DRAM controllers found on a configured SMBus adapter"
    );
    let error = machine.prepare(&[]).unwrap_err();
    assert!(matches!(error, DramError::NoControllers));
}

#[test]
fn the_number_of_leds_is_part_of_the_identity() {
    let machine =
        machine(vec![("/dev/i2c-2", vec![(0x70, dimm(b"AUDA0-E6K5-0101\0", 9))])]);
    let error = machine.prepare(&[adapter("i2c-2", NAME)]).unwrap_err();
    assert!(matches!(error, DramError::NoControllers));
}

#[test]
fn failed_probes_are_listed_where_nothing_was_found() {
    let broken = || Dimm { broken_reads: true, ..known_dimm() };
    let machine = machine(vec![
        ("/dev/i2c-1", vec![(0x71, broken())]),
        ("/dev/i2c-2", vec![(0x70, broken())]),
    ]);
    let error =
        machine.prepare(&[adapter("i2c-2", NAME), adapter("i2c-1", NAME)]).unwrap_err();
    assert!(matches!(error, DramError::NothingButFailures { .. }));
    assert_eq!(
        error.message(),
        "no supported ENE DRAM controllers found; probe failures: /dev/i2c-1 0x71: Input/output \
         error (os error 5); /dev/i2c-2 0x70: Input/output error (os error 5)"
    );
}

#[test]
fn a_bus_that_cannot_be_opened_ends_the_search() {
    let machine = machine(vec![]);
    let error = machine.prepare(&[adapter("i2c-2", NAME)]).unwrap_err();
    assert!(matches!(error, DramError::Bus(_)));
    assert_eq!(
        error.message(),
        "check ENE mapping on /dev/i2c-2: Permission denied (os error 13)"
    );
    let error = machine.run(|session| probe(session, "/dev/i2c-2", &profile())).unwrap_err();
    assert_eq!(
        error.message,
        "open /dev/i2c-2 (SMBus reads require write access to select an ENE register): \
         Permission denied (os error 13)"
    );
}

#[test]
fn the_bus_of_prepared_devices_can_go_away() {
    let machine = machine(vec![("/dev/i2c-2", vec![(0x70, known_dimm())])]);
    let prepared = machine.prepare(&[adapter("i2c-2", NAME)]).unwrap();
    machine.buses.borrow_mut().clear();
    let error =
        machine.run(|session| set_prepared_colors(session, &prepared, [1, 2, 3])).unwrap_err();
    assert_eq!(error.message, "open /dev/i2c-2: Permission denied (os error 13)");
}

#[test]
fn an_unusable_profile_asks_for_nothing() {
    let unusable = EneDramProfile { addresses: &[], ..profile() };
    let machine = machine(vec![("/dev/i2c-2", vec![(0x70, known_dimm())])]);
    let adapters = [adapter("i2c-2", NAME)];
    let error = machine.run(|session| prepare(session, &unusable, &adapters)).unwrap_err();
    assert!(matches!(error, DramError::Profile(ProfileError::AddressListEmpty)));
    assert_eq!(error.message(), "ENE address list is empty");
    let error = machine
        .run(|session| set_all_colors(session, "/dev/i2c-2", &unusable, [1, 2, 3]))
        .unwrap_err();
    assert!(matches!(error, DramError::Profile(ProfileError::AddressListEmpty)));
    assert!(machine.log.borrow().is_empty());
}

#[test]
fn everything_on_a_bus_is_set_if_it_can_be_identified() {
    let good = machine(vec![("/dev/i2c-2", vec![(0x70, known_dimm()), (0x71, known_dimm())])]);
    let results = good.set_all("/dev/i2c-2").unwrap();
    assert_eq!(results.len(), 2);
    assert_eq!(good.color_memory("/dev/i2c-2", 0x71), [1, 3, 2].repeat(8));

    let empty = machine(vec![("/dev/i2c-2", vec![])]);
    let error = empty.set_all("/dev/i2c-2").unwrap_err();
    assert!(matches!(error, DramError::NoControllersOn { .. }));
    assert_eq!(error.message(), "no supported ENE DRAM controllers found on /dev/i2c-2");

    let broken = machine(vec![(
        "/dev/i2c-2",
        vec![(0x70, known_dimm()), (0x71, Dimm { broken_reads: true, ..known_dimm() })],
    )]);
    let error = broken.set_all("/dev/i2c-2").unwrap_err();
    assert!(matches!(error, DramError::ProbeFailed { .. }));
    assert_eq!(
        error.message(),
        "failed to probe ENE addresses: [(113, \"Input/output error (os error 5)\")]"
    );
    assert!(broken.written().is_empty());

    let error = machine(vec![]).set_all("/dev/i2c-9").unwrap_err();
    assert!(matches!(error, DramError::Bus(_)));
}

#[test]
fn quotes_in_failures_are_escaped() {
    let error = DramError::ProbeFailed {
        failures: vec![(0x70, "a \"b\"\n".to_owned()), (0x71, String::new())],
    };
    assert_eq!(
        error.message(),
        "failed to probe ENE addresses: [(112, \"a \\\"b\\\"\\n\"), (113, \"\")]"
    );
    assert_eq!(list_entry(0x70, "\"x\""), "(112, \"x\")");
}

#[test]
fn versions_end_before_the_padding() {
    assert_eq!(version_of(b"AUDA0-E6K5-0101\0"), "AUDA0-E6K5-0101");
    assert_eq!(version_of(b"A\0B\0\0"), "A\0B");
    assert_eq!(version_of(&[b'A', 0xff, b'B', 0]), "A\u{fffd}B");
    assert_eq!(version_of(&[]), "");
    let controllers = profile().controllers;
    assert_eq!(find_controller(controllers, "AUDA0-E6K5-0101", 8), Some(controllers[0]));
    assert_eq!(find_controller(controllers, "AUDA0-E6K5-0101", 7), None);
    assert_eq!(find_controller(controllers, "AUDA0-E6K5-010", 8), None);
}

#[test]
fn a_device_that_fails_half_way_is_not_written_further() {
    let device = EneDramDevice { address: 0x70, controller: profile().controllers[0] };
    let answers = [Ok(0), Ok(0), Err(io_error()), Ok(0)];
    match set_color(&mut Session::new(&answers), &device, [1, 2, 3]) {
        Err(Stop::Failed(error)) => assert_eq!(error, io_error()),
        _ => unreachable!(),
    }
    match set_color(&mut Session::new(&answers[..2]), &device, [1, 2, 3]) {
        Err(Stop::Pending(request)) => assert_eq!(
            request,
            Request::WriteRegisterBlock { address: 0x70, register: 0x8100, data: vec![1, 3, 2] }
        ),
        _ => unreachable!(),
    }
}

#[test]
fn registers_are_read_one_after_the_other() {
    let answers = [Ok(1), Ok(2), Ok(3)];
    assert!(matches!(
        read_bytes(&mut Session::new(&answers), 0x70, 0xfffd, 3),
        Ok(bytes) if bytes == [1, 2, 3]
    ));
    match read_bytes(&mut Session::new(&answers[..2]), 0x70, 0x1000, 3) {
        Err(Stop::Pending(request)) => {
            assert_eq!(request, Request::ReadRegister { address: 0x70, register: 0x1002 });
        }
        _ => unreachable!(),
    }
}

#[test]
fn a_diagnosis_changes_nothing_and_tells_everything() {
    let machine = machine(vec![
        (
            "/dev/i2c-1",
            vec![
                (0x70, known_dimm()),
                (0x71, Dimm { broken_reads: true, ..known_dimm() }),
                (0x73, dimm(b"OTHER", 3)),
                (0x77, known_dimm()),
            ],
        ),
    ]);
    let adapters = [
        adapter("i2c-2", NAME),
        adapter("i2c-1", NAME),
        adapter("i2c-0", "SMBus I801 adapter at f000\n"),
    ];
    let buses = machine
        .run(|session| diagnose(session, &profile(), &adapters).map_err(Stop::<_, ()>::Pending))
        .unwrap();
    assert!(machine.written().is_empty());
    assert_eq!(machine.opened(), ["/dev/i2c-1", "/dev/i2c-2"]);
    assert_eq!(
        diagnostic_lines(&buses),
        [
            "/dev/i2c-1 (SMBus PIIX4 adapter port 0 at 0b00)",
            "  0x70: version=\"AUDA0-E6K5-0101\", leds=8, supported=true",
            "  0x71: FAILED: read device name: Input/output error (os error 5)",
            "  0x72: absent",
            "  0x73: version=\"OTHER\", leds=3, supported=false",
            "  0x77: version=\"AUDA0-E6K5-0101\", leds=8, supported=true",
            "/dev/i2c-2 (SMBus PIIX4 adapter port 0 at 0b00)",
            "  open: FAILED: Permission denied (os error 13)",
        ]
    );
    assert_eq!(
        identity_line(0x70, "\"A\"", 12, false),
        "  0x70: version=\"A\", leds=12, supported=false"
    );
}

#[test]
fn a_failed_check_and_a_half_read_identity_are_told_apart() {
    let session_answers = [Err(io_error())];
    let failed = lightset::ene_dram::diagnose_address(
        &mut Session::new(&session_answers),
        0x70,
        &profile(),
    )
    .unwrap();
    assert!(!failed.present);
    assert_eq!(
        failed.error.unwrap(),
        "check address: probe address 0x70: Input/output error (os error 5)"
    );
    let mut half: Vec<Result<u8, BusError>> = vec![Ok(0)];
    half.extend(b"AUDA0-E6K5-0101\0".iter().map(|byte| Ok(*byte)));
    half.push(Err(io_error()));
    let unread =
        lightset::ene_dram::diagnose_address(&mut Session::new(&half), 0x70, &profile()).unwrap();
    assert!(unread.present && !unread.supported);
    assert_eq!(unread.version.unwrap(), "AUDA0-E6K5-0101");
    assert_eq!(unread.led_count, None);
    assert_eq!(
        unread.error.unwrap(),
        "read configuration table: Input/output error (os error 5)"
    );
}

#[test]
fn the_controllers_are_summed_up() {
    let failed_probe = [(0x71, "no identity".to_owned())];
    let results = [
        DeviceWriteResult { address: 0x70, result: Ok(()) },
        DeviceWriteResult { address: 0x72, result: Err("no answer".to_owned()) },
    ];
    let summary = dram_set_all(&failed_probe, &results);
    assert_eq!(
        summary.lines,
        [
            "ENE DRAM 0x71: PROBE FAILED: no identity",
            "ENE DRAM 0x70: OK",
            "ENE DRAM 0x72: FAILED: no answer",
            "ENE DRAM: 1/2 supported controller(s) updated",
        ]
    );
    assert_eq!(summary.outcome, Err("2 ENE DRAM controller(s) failed".to_owned()));

    let summary = dram_set_all(&[], &results[..1]);
    assert_eq!(
        summary.lines,
        ["ENE DRAM 0x70: OK", "ENE DRAM: 1/1 supported controller(s) updated"]
    );
    assert_eq!(summary.outcome, Ok(()));

    let summary = dram_set_all(&failed_probe, &results[..1]);
    assert_eq!(summary.outcome, Err("1 ENE DRAM controller(s) failed".to_owned()));
}

#[test]
fn failed_backends_are_counted_and_named() {
    assert_eq!(set_all(false, false), Ok(()));
    assert_eq!(set_all(true, false), Err("1 backend(s) failed: LampArray".to_owned()));
    assert_eq!(set_all(false, true), Err("1 backend(s) failed: ENE DRAM".to_owned()));
    assert_eq!(set_all(true, true), Err("2 backend(s) failed: LampArray, ENE DRAM".to_owned()));
    assert_eq!(lamp_array_line(&Ok(())), "LampArray: OK");
    assert_eq!(lamp_array_line(&Err("gone".to_owned())), "LampArray: FAILED: gone");
    assert_eq!(ene_dram_line(&Ok(())), None);
    assert_eq!(ene_dram_line(&Err("gone".to_owned())), Some("ENE DRAM: FAILED: gone".to_owned()));
}

#[test]
fn a_finished_search_ignores_later_answers() {
    let machine = machine(vec![("/dev/i2c-2", vec![(0x70, known_dimm())])]);
    let adapters = [adapter("i2c-2", NAME)];
    let mut answers = Vec::new();
    let mut asked = 0;
    while let Err(Stop::Pending(request)) =
        prepare(&mut Session::new(&answers), &profile(), &adapters)
    {
        answers.push(machine.perform(&request));
        asked += 1;
        assert_eq!(answers.len(), asked);
    }
    let finished = prepare(&mut Session::new(&answers), &profile(), &adapters).unwrap();
    answers.push(Err(io_error()));
    let longer = prepare(&mut Session::new(&answers), &profile(), &adapters).unwrap();
    assert_eq!(finished.bus(), longer.bus());
    assert_eq!(finished.devices(), longer.devices());
}

#[test]
fn a_module_that_cannot_be_written_is_reported() {
    let machine = machine(vec![(
        "/dev/i2c-2",
        vec![
            (0x70, Dimm { broken_writes: true, ..known_dimm() }),
            (0x71, Dimm { broken_reads: true, ..known_dimm() }),
            (0x72, known_dimm()),
        ],
    )]);
    let prepared = machine.prepare(&[adapter("i2c-2", NAME)]).unwrap();
    assert_eq!(
        prepared.probe_failures(),
        [(0x71, "Input/output error (os error 5)".to_owned())]
    );
    let results =
        machine.run(|session| set_prepared_colors(session, &prepared, [4, 5, 6])).unwrap();
    assert_eq!(results[0].address, 0x70);
    assert_eq!(results[0].result, Err("Input/output error (os error 5)".to_owned()));
    assert_eq!(results[1].address, 0x72);
    assert_eq!(results[1].result, Ok(()));
    assert_eq!(machine.color_memory("/dev/i2c-2", 0x72), [4, 6, 5].repeat(8));
}

#[test]
fn both_backends_are_tried_and_dram_is_prepared_first() {
    let flags = [false, true];
    for prepared in flags {
        for lamp_array in flags {
            for ene_dram in flags {
                let mut progress = Progress::start();
                assert_eq!(set_all_step(&progress), Step::PrepareDram);
                progress.advance(prepared);
                assert_eq!(set_all_step(&progress), Step::LightLampArray);
                progress.advance(lamp_array);
                if prepared {
                    assert_eq!(set_all_step(&progress), Step::LightDram);
                    progress.advance(ene_dram);
                }
                let finish = Step::Finish {
                    lamp_array_failed: !lamp_array,
                    ene_dram_failed: !(prepared && ene_dram),
                };
                assert_eq!(set_all_step(&progress), finish);
                progress.advance(true);
                assert_eq!(set_all_step(&progress), finish);
            }
        }
    }
}

#[test]
fn a_diagnosis_agrees_with_a_probe() {
    let machine = machine(vec![(
        "/dev/i2c-1",
        vec![
            (0x70, known_dimm()),
            (0x71, Dimm { broken_reads: true, ..known_dimm() }),
            (0x73, dimm(b"OTHER", 3)),
        ],
    )]);
    let report = machine.run(|session| probe(session, "/dev/i2c-1", &profile())).unwrap();
    let buses = machine
        .run(|session| {
            diagnose(session, &profile(), &[adapter("i2c-1", NAME)]).map_err(Stop::<_, ()>::Pending)
        })
        .unwrap();
    for finding in &buses[0].addresses[..4] {
        let found = report.devices.iter().any(|device| device.address == finding.address);
        let failed = report.failures.iter().any(|failure| failure.0 == finding.address);
        assert_eq!(finding.supported, found);
        assert_eq!(finding.error.is_some(), failed);
    }
}

#[test]
fn a_probe_keeps_the_order_of_the_profile() {
    let backwards = EneDramProfile { addresses: &[0x73, 0x72, 0x71, 0x70], ..profile() };
    let broken = || Dimm { broken_reads: true, ..known_dimm() };
    let machine = machine(vec![(
        "/dev/i2c-1",
        vec![(0x70, known_dimm()), (0x71, broken()), (0x72, known_dimm()), (0x73, broken())],
    )]);
    let report = machine.run(|session| probe(session, "/dev/i2c-1", &backwards)).unwrap();
    let devices: Vec<u16> = report.devices.iter().map(|device| device.address).collect();
    let failures: Vec<u16> = report.failures.iter().map(|failure| failure.0).collect();
    assert_eq!(devices, [0x72, 0x70]);
    assert_eq!(failures, [0x73, 0x71]);
}

#[test]
fn the_mapper_is_identified_on_the_bus_where_it_is_written() {
    let machine = machine(vec![
        ("/dev/i2c-1", vec![(0x77, dimm(b"OTHER", 8))]),
        ("/dev/i2c-2", vec![(0x77, known_dimm())]),
    ]);
    machine.prepare(&[adapter("i2c-1", NAME), adapter("i2c-2", NAME)]).unwrap();
    let log = machine.log.borrow();
    let opened = |at: usize| {
        log[..at]
            .iter()
            .rposition(|request| matches!(request, BusRequest::Open { .. }))
            .unwrap()
    };
    for (at, request) in log.iter().enumerate() {
        if let BusRequest::Access(Request::WriteRegister { address: 0x77, .. }) = request {
            assert_eq!(log[opened(at)], BusRequest::Open { bus: "/dev/i2c-2".to_owned() });
            assert_eq!(
                log[opened(at) + 1],
                BusRequest::Access(Request::ReadAddressByte { address: 0x77 })
            );
        }
    }
    assert_eq!(machine.written().len(), 2);
}
