use lightset::fault::{classify, is_absent, is_block_unsupported, BusError, FaultKind, OsCodes};
use lightset::request::Request;
use lightset::session::{Session, Stop};
use lightset::smbus::{perform, Ioctl, SmbusData};

/// Performs an access and gives the calls it took and its outcome.
fn calls(
    request: &Request,
    answer: impl Fn(&Ioctl) -> Result<u8, BusError>,
) -> (Vec<Ioctl>, Result<u8, BusError>) {
    let mut made = Vec::new();
    let mut answers = Vec::new();
    loop {
        match perform(&mut Session::new(&answers), request) {
            Ok(byte) => return (made, Ok(byte)),
            Err(Stop::Failed(error)) => return (made, Err(error)),
            Err(Stop::Pending(call)) => {
                answers.push(answer(&call));
                made.push(call);
            }
        }
    }
}

fn write_word(value: u16) -> Ioctl {
    Ioctl::Transfer { read_write: 0, command: 0x00, size: 3, data: SmbusData::Word(value) }
}

fn write_byte(value: u8) -> Ioctl {
    Ioctl::Transfer { read_write: 0, command: 0x01, size: 2, data: SmbusData::Byte(value) }
}

fn write_block(values: &[u8]) -> Ioctl {
    let mut block = [0; 34];
    block[0] = values.len() as u8;
    block[1..=values.len()].copy_from_slice(values);
    Ioctl::Transfer { read_write: 0, command: 0x03, size: 5, data: SmbusData::Block(block) }
}

fn io_error() -> BusError {
    BusError::from_this_os(libc::EIO, "Input/output error")
}

#[test]
fn each_access_is_a_fixed_sequence_of_calls() {
    let (made, result) = calls(&Request::ReadAddressByte { address: 0x70 }, |_| Ok(7));
    assert_eq!(
        made,
        vec![
            Ioctl::Slave { address: 0x70 },
            Ioctl::Transfer { read_write: 1, command: 0, size: 1, data: SmbusData::Byte(0) },
        ]
    );
    assert_eq!(result, Ok(7));

    let (made, result) =
        calls(&Request::ReadRegister { address: 0x70, register: 0x1c02 }, |_| Ok(8));
    assert_eq!(
        made,
        vec![
            Ioctl::Slave { address: 0x70 },
            write_word(0x021c),
            Ioctl::Transfer { read_write: 1, command: 0x81, size: 2, data: SmbusData::Byte(0) },
        ]
    );
    assert_eq!(result, Ok(8));

    let (made, result) = calls(
        &Request::WriteRegister { address: 0x71, register: 0x8020, value: 1 },
        |_| Ok(0),
    );
    assert_eq!(made, vec![Ioctl::Slave { address: 0x71 }, write_word(0x2080), write_byte(1)]);
    assert!(result.is_ok());

    let (made, result) = calls(
        &Request::WriteRegisterBlock { address: 0x71, register: 0x8103, data: vec![1, 2, 3] },
        |_| Ok(0),
    );
    assert_eq!(
        made,
        vec![Ioctl::Slave { address: 0x71 }, write_word(0x0381), write_block(&[1, 2, 3])]
    );
    assert!(result.is_ok());
}

#[test]
fn a_refused_block_goes_out_byte_by_byte() {
    for code in [libc::EOPNOTSUPP, libc::ENOTTY] {
        let (made, result) = calls(
            &Request::WriteRegisterBlock { address: 0x70, register: 0x8100, data: vec![9, 8] },
            |call| match call {
                Ioctl::Transfer { command: 0x03, .. } => Err(BusError::from_this_os(code, "refused")),
                _ => Ok(0),
            },
        );
        assert_eq!(
            made,
            vec![
                Ioctl::Slave { address: 0x70 },
                write_word(0x0081),
                write_block(&[9, 8]),
                write_word(0x0081),
                write_byte(9),
                write_byte(8),
            ]
        );
        assert!(result.is_ok());
    }
}

#[test]
fn other_block_failures_end_the_access() {
    let (made, result) = calls(
        &Request::WriteRegisterBlock { address: 0x70, register: 0x8100, data: vec![9, 8] },
        |call| match call {
            Ioctl::Transfer { command: 0x03, .. } => Err(io_error()),
            _ => Ok(0),
        },
    );
    assert_eq!(made.len(), 3);
    assert_eq!(result.unwrap_err().message, "SMBus transfer: Input/output error");
}

#[test]
fn the_failed_step_is_named() {
    let (made, result) = calls(&Request::ReadAddressByte { address: 0x70 }, |_| Err(io_error()));
    assert_eq!(made.len(), 1);
    assert_eq!(result.unwrap_err().message, "select I²C slave: Input/output error");
    let absent = |call: &Ioctl| match call {
        Ioctl::Slave { .. } => Ok(0),
        _ => Err(BusError::from_this_os(libc::ENXIO, "No such device or address")),
    };
    let (_, result) = calls(&Request::ReadAddressByte { address: 0x70 }, absent);
    let error = result.unwrap_err();
    assert!(is_absent(&error));
    assert_eq!(error.message, "SMBus transfer: No such device or address");
}

#[test]
fn impossible_accesses_make_no_call() {
    for address in [0, 0x02, 0x78, 0xffff] {
        let (made, result) = calls(&Request::ReadAddressByte { address }, |_| Ok(0));
        assert!(made.is_empty());
        assert_eq!(
            result.unwrap_err().message,
            format!("invalid 7-bit I²C address 0x{address:02x}")
        );
    }
    for address in [0x03, 0x77] {
        let (made, _) = calls(&Request::ReadAddressByte { address }, |_| Ok(0));
        assert_eq!(made[0], Ioctl::Slave { address });
    }
    for length in [0, 33] {
        let request =
            Request::WriteRegisterBlock { address: 0x70, register: 0x8100, data: vec![1; length] };
        let (made, result) = calls(&request, |_| Ok(0));
        assert!(made.is_empty());
        assert_eq!(result.unwrap_err().message, "ENE block must contain 1..=32 bytes");
    }
}

#[test]
fn a_block_of_any_size_is_carried_whole() {
    for length in [1, 31, 32] {
        let data: Vec<u8> = (1..=length).collect();
        let request =
            Request::WriteRegisterBlock { address: 0x70, register: 0x8100, data: data.clone() };
        let (made, _) = calls(&request, |_| Ok(0));
        assert_eq!(made[2], write_block(&data));
    }
    let mut session = Session::new(&[]);
    match lightset::smbus::write_block(&mut session, 0x03, &[0; 33]) {
        Err(Stop::Failed(error)) => assert_eq!(error.message, "SMBus block exceeds 32 bytes"),
        _ => unreachable!(),
    }
}

#[test]
fn system_codes_have_their_meaning() {
    let kind = |code: i32| BusError::from_this_os(code, "message").kind;
    for code in [libc::ENXIO, libc::EREMOTEIO, libc::ENODEV] {
        assert_eq!(kind(code), FaultKind::Absent);
        assert!(is_absent(&BusError::from_this_os(code, "")));
        assert!(!is_block_unsupported(&BusError::from_this_os(code, "")));
    }
    for code in [libc::EOPNOTSUPP, libc::ENOTTY] {
        assert_eq!(kind(code), FaultKind::Unsupported);
        assert!(is_block_unsupported(&BusError::from_this_os(code, "")));
        assert!(!is_absent(&BusError::from_this_os(code, "")));
    }
    for code in [0, libc::EIO, libc::EACCES, libc::ENOENT] {
        assert_eq!(kind(code), FaultKind::Other);
    }
    let codes = OsCodes::of_this_system();
    assert_eq!(codes.enxio, libc::ENXIO);
    assert_eq!(codes.eremoteio, libc::EREMOTEIO);
    assert_eq!(codes.enodev, libc::ENODEV);
    assert_eq!(codes.eopnotsupp, libc::EOPNOTSUPP);
    assert_eq!(codes.enotty, libc::ENOTTY);
    assert_eq!(classify(codes.enotty, &codes), FaultKind::Unsupported);
    let mips = OsCodes { eremoteio: 140, eopnotsupp: 122, ..codes };
    assert_eq!(BusError::from_os(140, "gone", &mips).kind, FaultKind::Absent);
    assert_eq!(BusError::from_os(122, "gone", &mips).kind, FaultKind::Unsupported);
    assert_eq!(BusError::from_os(121, "gone", &mips).kind, FaultKind::Other);
    assert_eq!(BusError::from_os(121, "gone", &mips).message, "gone");
}

#[test]
fn context_goes_before_the_message() {
    let error = BusError::from_this_os(libc::ENODEV, "No such device").in_context("probe");
    assert_eq!(error.message, "probe: No such device");
    assert_eq!(error.kind, FaultKind::Absent);
    assert_eq!(error.copy(), error);
    assert_eq!(BusError::other("plain".to_owned()).kind, FaultKind::Other);
}

#[test]
fn a_finished_access_ignores_later_answers() {
    let request = Request::ReadRegister { address: 0x70, register: 0x1000 };
    let answers = [Ok(0), Ok(0), Ok(42), Err(io_error()), Ok(1)];
    for length in 0..3 {
        let result = perform(&mut Session::new(&answers[..length]), &request);
        assert!(matches!(result, Err(Stop::Pending(_))));
    }
    for length in 3..=5 {
        let result = perform(&mut Session::new(&answers[..length]), &request);
        assert!(matches!(result, Ok(42)));
    }
}

#[test]
fn every_processor_numbers_the_codes_consistently() {
    let system = OsCodes::of_this_system();
    assert!([(121, 95), (121, 45), (140, 122)].contains(&(system.eremoteio, system.eopnotsupp)));
    let mips = OsCodes { eremoteio: 140, eopnotsupp: 122, ..system };
    let sparc = OsCodes { eremoteio: 121, eopnotsupp: 45, ..system };
    let common = OsCodes { eremoteio: 121, eopnotsupp: 95, ..system };
    for code in (0..200).filter(|code| ![45, 95, 121, 122, 140].contains(code)) {
        assert_eq!(classify(code, &mips), classify(code, &common));
        assert_eq!(classify(code, &sparc), classify(code, &common));
    }
    for codes in [mips, sparc, common] {
        assert_eq!(classify(codes.eremoteio, &codes), FaultKind::Absent);
        assert_eq!(classify(codes.eopnotsupp, &codes), FaultKind::Unsupported);
    }
}
