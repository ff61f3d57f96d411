use std::cell::{Cell, RefCell};

use lightset::controller::{decode_direct_colors, direct_color_writes, RegisterWrite};
use lightset::ene_dram::identity::{
    CONFIG_LED_COUNT, CONFIG_TABLE_REGISTER, DEVICE_NAME_REGISTER,
};
use lightset::ene_dram::mapper::DRAM_MAPPER_ADDRESS_REGISTER;
use lightset::ene_dram::{
    diagnose_address, mapper_assignments, probe_on_transport, remap_on_transport, write_devices,
};
use lightset::fault::{is_block_unsupported, BusError};
use lightset::profile::{default_hardware, validate_profile, DRAM_MAPPER_ADDRESS};
use lightset::request::Request;
use lightset::session::{Session, Stop};
use lightset::smbus::{swap_bytes, write_block_with_fallback, Ioctl, SmbusData};

struct FakeTransport {
    supported: Vec<u16>,
    mapper_remaining: Cell<usize>,
    mapper_supported: bool,
    bad_identity: Option<u16>,
    failed_write: Option<u16>,
    writes: RefCell<Vec<(u16, u16, u8)>>,
}

impl FakeTransport {
    fn new(supported: Vec<u16>) -> Self {
        Self {
            supported,
            mapper_remaining: Cell::new(0),
            mapper_supported: false,
            bad_identity: None,
            failed_write: None,
            writes: RefCell::new(Vec::new()),
        }
    }

    fn present(&self, address: u16) -> bool {
        self.supported.contains(&address)
            || (address == DRAM_MAPPER_ADDRESS && self.mapper_remaining.get() > 0)
    }

    fn read_address_byte(&self, address: u16) -> Result<u8, BusError> {
        if self.present(address) {
            Ok(0)
        } else {
            Err(BusError::from_this_os(libc::ENXIO, "No such device or address"))
        }
    }

    fn read_register(&self, address: u16, register: u16) -> Result<u8, BusError> {
        if self.bad_identity == Some(address) {
            return Err(BusError::from_this_os(libc::EIO, "Input/output error"));
        }
        let version = if address == DRAM_MAPPER_ADDRESS && !self.mapper_supported {
            b"UNKNOWN\0\0\0\0\0\0\0\0\0"
        } else {
            b"AUDA0-E6K5-0101\0"
        };
        if (DEVICE_NAME_REGISTER..DEVICE_NAME_REGISTER + 16).contains(&register) {
            return Ok(version[usize::from(register - DEVICE_NAME_REGISTER)]);
        }
        if register == CONFIG_TABLE_REGISTER + CONFIG_LED_COUNT as u16 {
            return Ok(8);
        }
        Ok(0)
    }

    fn write_register(&self, address: u16, register: u16, value: u8) -> Result<u8, BusError> {
        self.writes.borrow_mut().push((address, register, value));
        if self.failed_write == Some(address) {
            return Err(BusError::from_this_os(libc::EIO, "Input/output error"));
        }
        if address == DRAM_MAPPER_ADDRESS && register == DRAM_MAPPER_ADDRESS_REGISTER {
            self.mapper_remaining.set(self.mapper_remaining.get() - 1);
        }
        Ok(0)
    }

    fn write_register_block(&self, address: u16) -> Result<u8, BusError> {
        if self.failed_write == Some(address) {
            return Err(BusError::from_this_os(libc::EIO, "Input/output error"));
        }
        Ok(0)
    }

    fn perform(&self, request: &Request) -> Result<u8, BusError> {
        match request {
            Request::ReadAddressByte { address } => self.read_address_byte(*address),
            Request::ReadRegister { address, register } => self.read_register(*address, *register),
            Request::WriteRegister { address, register, value } => {
                self.write_register(*address, *register, *value)
            }
            Request::WriteRegisterBlock { address, .. } => self.write_register_block(*address),
        }
    }
}

/// Runs a procedure against whatever answers its actions.
fn drive<A, E, T>(
    answer: impl Fn(&A) -> Result<u8, BusError>,
    procedure: impl Fn(&mut Session) -> Result<T, Stop<A, E>>,
) -> Result<T, E> {
    let mut answers = Vec::new();
    loop {
        let stop = match procedure(&mut Session::new(&answers)) {
            Ok(value) => return Ok(value),
            Err(stop) => stop,
        };
        match stop {
            Stop::Pending(action) => answers.push(answer(&action)),
            Stop::Failed(error) => return Err(error),
        }
    }
}

/// The same for a procedure that cannot fail.
fn drive_to_end<A, T>(
    answer: impl Fn(&A) -> Result<u8, BusError>,
    procedure: impl Fn(&mut Session) -> Result<T, A>,
) -> T {
    let result: Result<T, ()> =
        drive(answer, |session: &mut Session| procedure(session).map_err(Stop::Pending));
    result.unwrap()
}

fn remap(transport: &FakeTransport) -> Result<(), BusError> {
    drive(
        |request: &Request| transport.perform(request),
        |session| remap_on_transport(session, &default_hardware().ene_dram),
    )
}

#[test]
fn ene_register_word_is_byte_swapped_for_linux_smbus() {
    assert_eq!(0x8100_u16.swap_bytes(), 0x0081);
    assert_eq!(swap_bytes(0x8100), 0x0081);
}

#[test]
fn known_controller_id_is_exact() {
    assert_eq!(default_hardware().ene_dram.controllers[0].version, "AUDA0-E6K5-0101");
}

#[test]
fn mapper_assigns_each_unmapped_dimm_its_configured_address() {
    let addresses = default_hardware().ene_dram.addresses;
    let assignments = |mapped: fn(u16) -> bool| {
        drive(
            |request: &Request| match request {
                Request::ReadAddressByte { address } if mapped(*address) => Ok(0),
                Request::ReadAddressByte { .. } => {
                    Err(BusError::from_this_os(libc::ENXIO, "No such device or address"))
                }
                _ => panic!("nothing but the addresses is asked for"),
            },
            |session| mapper_assignments(session, addresses),
        )
    };
    assert_eq!(
        assignments(|_| false).unwrap(),
        vec![(0, 0x70), (1, 0x71), (2, 0x72), (3, 0x73)]
    );
    assert_eq!(
        assignments(|address| address == 0x71).unwrap(),
        vec![(0, 0x70), (2, 0x72), (3, 0x73)]
    );
}

#[test]
fn unknown_mapper_is_never_written() {
    let transport = FakeTransport {
        mapper_remaining: Cell::new(2),
        ..FakeTransport::new(vec![])
    };
    remap(&transport).unwrap();
    assert!(transport.writes.borrow().is_empty());
}

#[test]
fn mapper_stops_when_no_more_modules_respond() {
    let transport = FakeTransport {
        mapper_remaining: Cell::new(2),
        mapper_supported: true,
        ..FakeTransport::new(vec![])
    };
    remap(&transport).unwrap();
    assert_eq!(
        *transport.writes.borrow(),
        vec![
            (0x77, 0x80f8, 0),
            (0x77, 0x80f9, 0xe0),
            (0x77, 0x80f8, 1),
            (0x77, 0x80f9, 0xe2),
        ]
    );
}

#[test]
fn empty_addresses_are_normal_but_identity_errors_are_reported() {
    let transport = FakeTransport {
        bad_identity: Some(0x71),
        ..FakeTransport::new(vec![0x70, 0x71])
    };
    let report = drive_to_end(
        |request: &Request| transport.perform(request),
        |session| probe_on_transport(session, &default_hardware().ene_dram),
    );
    assert_eq!(report.devices.len(), 1);
    assert_eq!(report.devices[0].address, 0x70);
    assert_eq!(report.failures.len(), 1);
    assert_eq!(report.failures[0].0, 0x71);
}

#[test]
fn diagnostics_distinguish_absent_addresses_from_failures() {
    let transport = FakeTransport {
        bad_identity: Some(0x71),
        ..FakeTransport::new(vec![0x70, 0x71])
    };
    let diagnose = |address: u16| {
        drive_to_end(
            |request: &Request| transport.perform(request),
            |session| diagnose_address(session, address, &default_hardware().ene_dram),
        )
    };
    let known = diagnose(0x70);
    assert!(known.present && known.supported);
    let broken = diagnose(0x71);
    assert!(broken.present && broken.error.is_some());
    let empty = diagnose(0x72);
    assert!(!empty.present && empty.error.is_none());
}

#[test]
fn a_failed_dimm_does_not_stop_other_writes() {
    let transport = FakeTransport {
        failed_write: Some(0x70),
        ..FakeTransport::new(vec![0x70, 0x71])
    };
    let report = drive_to_end(
        |request: &Request| transport.perform(request),
        |session| probe_on_transport(session, &default_hardware().ene_dram),
    );
    let results = drive_to_end(
        |request: &Request| transport.perform(request),
        |session| write_devices(session, &report.devices, [1, 2, 3]),
    );
    assert!(results[0].result.is_err());
    assert!(results[1].result.is_ok());
    assert!(transport.writes.borrow().iter().any(|write| write.0 == 0x71));
}

#[test]
fn invalid_profiles_are_rejected_before_io() {
    let mut profile = default_hardware().ene_dram;
    let mut controller = profile.controllers[0];
    controller.block_size = 0;
    profile.controllers = Box::leak(vec![controller].into_boxed_slice());
    assert!(validate_profile(&profile).is_err());
}

#[test]
fn block_fallback_only_accepts_unsupported_operations() {
    assert!(is_block_unsupported(&BusError::from_this_os(libc::EOPNOTSUPP, "not supported")));
    assert!(!is_block_unsupported(&BusError::from_this_os(libc::EIO, "Input/output error")));
}

#[test]
fn unsupported_block_write_reselects_register_before_bytes() {
    let calls = RefCell::new(Vec::new());
    drive(
        |ioctl: &Ioctl| match ioctl {
            Ioctl::Transfer { data: SmbusData::Block(_), .. } => {
                calls.borrow_mut().push("block".to_owned());
                Err(BusError::from_this_os(libc::EOPNOTSUPP, "not supported"))
            }
            Ioctl::Transfer { data: SmbusData::Word(word), .. } => {
                let register = word.swap_bytes();
                calls.borrow_mut().push(format!("select {register:04x}"));
                Ok(0)
            }
            Ioctl::Transfer { data: SmbusData::Byte(byte), .. } => {
                calls.borrow_mut().push(format!("byte {byte}"));
                Ok(0)
            }
            Ioctl::Slave { .. } => panic!("the device is already addressed"),
        },
        |session| write_block_with_fallback(session, 0x8100, &[1, 2]),
    )
    .unwrap();
    assert_eq!(*calls.borrow(), ["block", "select 8100", "byte 1", "byte 2"]);
}

#[test]
fn io_failure_does_not_retry_as_bytes() {
    let calls = RefCell::new(Vec::new());
    let result = drive(
        |ioctl: &Ioctl| match ioctl {
            Ioctl::Transfer { data: SmbusData::Block(_), .. } => {
                Err(BusError::from_this_os(libc::EIO, "Input/output error"))
            }
            Ioctl::Transfer { data: SmbusData::Word(_), .. } => {
                calls.borrow_mut().push("select");
                Ok(0)
            }
            _ => {
                calls.borrow_mut().push("byte");
                Ok(0)
            }
        },
        |session| write_block_with_fallback(session, 0x8100, &[1]),
    );
    assert!(result.is_err());
    assert!(calls.borrow().is_empty());
}

#[test]
fn direct_color_bytes_decode_from_rbg() {
    assert_eq!(
        decode_direct_colors(
            &[0xff, 0x00, 0x00, 0x00, 0xff, 0x00],
            default_hardware().ene_dram.controllers[0],
        )
        .unwrap(),
        vec![[0xff, 0x00, 0x00], [0x00, 0x00, 0xff]]
    );
}

#[test]
fn direct_writes_match_openrgb_gui_sequence() {
    let writes = direct_color_writes(default_hardware().ene_dram.controllers[0], [0xff, 0, 0]);
    assert_eq!(writes.len(), 10);
    assert_eq!(
        writes[0],
        RegisterWrite::Byte {
            register: 0x8020,
            value: 1
        }
    );
    assert_eq!(
        writes[1],
        RegisterWrite::Byte {
            register: 0x80a0,
            value: 1
        }
    );
    assert_eq!(
        writes[2],
        RegisterWrite::Block {
            register: 0x8100,
            data: vec![0xff, 0, 0]
        }
    );
    assert_eq!(
        writes[9],
        RegisterWrite::Block {
            register: 0x8115,
            data: vec![0xff, 0, 0]
        }
    );
}
