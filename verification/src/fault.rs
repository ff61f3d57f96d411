//! Faults of a bus transfer, and what the operating system's error codes say
//! about them.
use vstd::prelude::*;

verus! {

/// What a fault means to the protocol.
#[derive(Debug, Clone, Copy, PartialEq, Eq)]
pub enum FaultKind {
    /// Nothing answers at the address.
    Absent,
    /// The adapter does not offer the operation.
    Unsupported,
    /// Anything else.
    Other,
}

/// The error codes with a meaning for the protocol, as the operating system
/// numbers them.
#[derive(Debug, Clone, Copy)]
pub struct OsCodes {
    pub enxio: i32,
    pub eremoteio: i32,
    pub enodev: i32,
    pub eopnotsupp: i32,
    pub enotty: i32,
}

/// Whether `EREMOTEIO` and `EOPNOTSUPP` have these numbers on some processor
/// that Linux runs on: 140 and 122 on MIPS, 121 and 45 on SPARC, and 121 and 95
/// on the others.
pub open spec fn are_numbered_together(eremoteio: i32, eopnotsupp: i32) -> bool {
    ||| eremoteio == 121 && (eopnotsupp == 95 || eopnotsupp == 45)
    ||| eremoteio == 140 && eopnotsupp == 122
}

/// Whether the numbers are those of a Linux system. Three of them are the same
/// on every processor; MIPS and SPARC number the other two in their own way.
pub open spec fn linux_codes(codes: OsCodes) -> bool {
    &&& codes.enxio == 6
    &&& codes.enodev == 19
    &&& codes.enotty == 25
    &&& are_numbered_together(codes.eremoteio, codes.eopnotsupp)
}

/// `libc::ENXIO`, which is 6 on every Linux target.
#[verifier::external_body]
fn enxio() -> (code: i32)
    ensures
        code == 6,
{
    libc::ENXIO
}

/// `libc::ENODEV`, which is 19 on every Linux target.
#[verifier::external_body]
fn enodev() -> (code: i32)
    ensures
        code == 19,
{
    libc::ENODEV
}

/// `libc::ENOTTY`, which is 25 on every Linux target.
#[verifier::external_body]
fn enotty() -> (code: i32)
    ensures
        code == 25,
{
    libc::ENOTTY
}

/// `libc::EREMOTEIO` and `libc::EOPNOTSUPP`, which are 140 and 122 on the MIPS
/// targets of Linux, 121 and 45 on the SPARC targets, and 121 and 95 on the
/// others. Which of these holds depends on the processor that the library is
/// built for, and is left open.
#[verifier::external_body]
fn eremoteio_and_eopnotsupp() -> (codes: (i32, i32))
    ensures
        are_numbered_together(codes.0, codes.1),
{
    (libc::EREMOTEIO, libc::EOPNOTSUPP)
}

impl OsCodes {
    /// The numbers of the system that the library is built for.
    pub fn of_this_system() -> (codes: OsCodes)
        ensures
            linux_codes(codes),
    {
        let (eremoteio, eopnotsupp): (i32, i32) = eremoteio_and_eopnotsupp();
        OsCodes { enxio: enxio(), eremoteio, enodev: enodev(), eopnotsupp, enotty: enotty() }
    }
}

/// What the error code `code` means.
pub open spec fn kind_of_code(code: i32, codes: OsCodes) -> FaultKind {
    if code == codes.enxio || code == codes.eremoteio || code == codes.enodev {
        FaultKind::Absent
    } else if code == codes.eopnotsupp || code == codes.enotty {
        FaultKind::Unsupported
    } else {
        FaultKind::Other
    }
}

/// No Linux system has one number for both meanings: a code says that nothing
/// answers exactly if it is one of the three for that, and that the operation is
/// not offered exactly if it is one of the other two.
pub proof fn meanings_are_distinct(code: i32, codes: OsCodes)
    requires
        linux_codes(codes),
    ensures
        kind_of_code(code, codes) == FaultKind::Absent <==> code == codes.enxio || code
            == codes.eremoteio || code == codes.enodev,
        kind_of_code(code, codes) == FaultKind::Unsupported <==> code == codes.eopnotsupp || code
            == codes.enotty,
{
}

/// All Linux systems agree on what a code means, but for the numbers that
/// `EREMOTEIO` and `EOPNOTSUPP` have on one processor or another.
pub proof fn most_codes_mean_the_same_everywhere(code: i32, codes: OsCodes, others: OsCodes)
    requires
        linux_codes(codes),
        linux_codes(others),
        code != 121 && code != 140,
        code != 95 && code != 45 && code != 122,
    ensures
        kind_of_code(code, codes) == kind_of_code(code, others),
{
}

/// Tells what the error code `code` means on a system with the given codes.
pub fn classify(code: i32, codes: &OsCodes) -> (kind: FaultKind)
    ensures
        kind == kind_of_code(code, *codes),
{
    if code == codes.enxio || code == codes.eremoteio || code == codes.enodev {
        FaultKind::Absent
    } else if code == codes.eopnotsupp || code == codes.enotty {
        FaultKind::Unsupported
    } else {
        FaultKind::Other
    }
}

/// A transfer that failed, with a text for the user.
#[derive(Debug, Clone, PartialEq, Eq)]
pub struct BusError {
    pub kind: FaultKind,
    pub message: String,
}

/// What a `BusError` says.
pub struct Fault {
    pub kind: FaultKind,
    pub message: Seq<char>,
}

impl View for BusError {
    type V = Fault;

    open spec fn view(&self) -> Fault {
        Fault { kind: self.kind, message: self.message@ }
    }
}

/// The fault as seen from a step that `context` describes.
pub open spec fn in_context(context: Seq<char>, fault: Fault) -> Fault {
    Fault { kind: fault.kind, message: context + ": "@ + fault.message }
}

impl BusError {
    /// An error that an operating system with the given codes reported.
    pub fn from_os(code: i32, message: &str, codes: &OsCodes) -> (error: BusError)
        ensures
            error@ == (Fault { kind: kind_of_code(code, *codes), message: message@ }),
    {
        BusError { kind: classify(code, codes), message: message.to_owned() }
    }

    /// An error that this operating system reported. The two codes that Linux
    /// numbers differently from processor to processor have the numbers of the
    /// one that the library is built for, whichever that is.
    pub fn from_this_os(code: i32, message: &str) -> (error: BusError)
        ensures
            error.message@ == message@,
            exists|codes: OsCodes|
                linux_codes(codes) && error.kind == #[trigger] kind_of_code(code, codes),
    {
        BusError::from_os(code, message, &OsCodes::of_this_system())
    }

    /// An error without a meaning for the protocol.
    pub fn other(message: String) -> (error: BusError)
        ensures
            error@ == (Fault { kind: FaultKind::Other, message: message@ }),
    {
        BusError { kind: FaultKind::Other, message }
    }

    /// Puts a description of the failed step before the message.
    pub fn in_context(&self, context: &str) -> (error: BusError)
        ensures
            error@ == in_context(context@, self@),
    {
        let mut message: String = context.to_owned();
        message.append(": ");
        message.append(self.message.as_str());
        BusError { kind: self.kind, message }
    }

    /// A copy.
    pub fn copy(&self) -> (error: BusError)
        ensures
            error@ == self@,
    {
        BusError { kind: self.kind, message: self.message.clone() }
    }
}

/// Whether nothing answers at the address.
pub fn is_absent(error: &BusError) -> (absent: bool)
    ensures
        absent == (error@.kind == FaultKind::Absent),
{
    matches!(error.kind, FaultKind::Absent)
}

/// Whether the adapter does not offer block transfers.
pub fn is_block_unsupported(error: &BusError) -> (unsupported: bool)
    ensures
        unsupported == (error@.kind == FaultKind::Unsupported),
{
    matches!(error.kind, FaultKind::Unsupported)
}

/// A step that is named leaves the kind of a fault as it is and puts its name,
/// a colon and a space before the message.
pub proof fn context_only_goes_before_the_message(context: Seq<char>, fault: Fault)
    ensures
        in_context(context, fault).kind == fault.kind,
        in_context(context, fault).message == context + seq![':', ' '] + fault.message,
{
    reveal_strlit(": ");
    assert(": "@ =~= seq![':', ' ']);
}

/// A code means that nothing answers if it is one of the three for that; if not,
/// that the operation is not offered if it is one of the two for that; and
/// nothing otherwise.
pub proof fn every_code_has_its_meaning(code: i32, codes: OsCodes)
    ensures
        ({
            let absent = code == codes.enxio || code == codes.eremoteio || code == codes.enodev;
            let unsupported = code == codes.eopnotsupp || code == codes.enotty;
            &&& kind_of_code(code, codes) == FaultKind::Absent <==> absent
            &&& kind_of_code(code, codes) == FaultKind::Unsupported <==> unsupported && !absent
            &&& kind_of_code(code, codes) == FaultKind::Other <==> !absent && !unsupported
        }),
{
}

} // verus!
