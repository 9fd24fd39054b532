use vstd::prelude::*;

verus! {

/// The kinds of I/O failure that the byte-stream layers report.
#[derive(Clone, Copy, Debug, PartialEq, Eq, Structural)]
pub enum IoErrorKind {
    NotFound,
    PermissionDenied,
    ConnectionRefused,
    ConnectionReset,
    NotConnected,
    AddrInUse,
    AddrNotAvailable,
    BrokenPipe,
    AlreadyExists,
    WouldBlock,
    InvalidInput,
    InvalidData,
    TimedOut,
    WriteZero,
    Interrupted,
    Other,
    UnexpectedEof,
    ConnectionAborted,
    Unsupported,
}

pub const SUCCESS: u32 = 0;

pub const NX_FATDRIVE_ERR_MODULE: u32 = 0xFA;

pub const NX_FATDRIVE_ERR_NOT_IMPLEMENTED: u32 = 0x1FA;

pub const NX_FATDRIVE_ERR_NOT_INITIALIZED: u32 = 0x2FA;

pub const NX_FATDRIVE_ERR_DRIVE_NOT_FOUND: u32 = 0x3FA;

pub const NX_FATDRIVE_ERR_POISSENED_MUTEX: u32 = 0x4FA;

pub const NX_FATDRIVE_ERR_DRIVE_DISCONNECTED: u32 = 0x6FA;

pub const NX_FATDRIVE_ERR_STDIO_PREFIX: u32 = 0x2_0000;

pub const NX_FATDRIVE_ERR_FS_PREFIX: u32 = 0x4_0000;

pub const NX_FATDRIVE_ERR_FILE_NOT_FOUND: u32 = (NX_FATDRIVE_ERR_FS_PREFIX + 1) * 256
    + NX_FATDRIVE_ERR_MODULE;

pub const NX_FATDRIVE_ERR_SCSI_PREFIX: u32 = 0x5_0000;

pub const NX_FATDRIVE_ERR_MBR_PREFIX: u32 = 0x6_0000;

pub const NX_FATDRIVE_ERR_UNKNOWN: u32 = 0xFFFFFE00 + NX_FATDRIVE_ERR_MODULE;

/// The code of a failure in category `prefix` with detail `desc`: the module
/// tag in the low byte, the category and detail above it.
pub open spec fn namespaced(prefix: u32, desc: u32) -> u32 {
    ((prefix + desc) * 256 + NX_FATDRIVE_ERR_MODULE) as u32
}

/// The detail number of each kind of I/O failure.
pub open spec fn io_kind_offset(kind: IoErrorKind) -> u32 {
    match kind {
        IoErrorKind::NotFound => 1,
        IoErrorKind::PermissionDenied => 2,
        IoErrorKind::ConnectionRefused => 3,
        IoErrorKind::ConnectionReset => 4,
        IoErrorKind::NotConnected => 5,
        IoErrorKind::AddrInUse => 6,
        IoErrorKind::AddrNotAvailable => 7,
        IoErrorKind::BrokenPipe => 8,
        IoErrorKind::AlreadyExists => 9,
        IoErrorKind::WouldBlock => 10,
        IoErrorKind::InvalidInput => 11,
        IoErrorKind::InvalidData => 12,
        IoErrorKind::TimedOut => 13,
        IoErrorKind::WriteZero => 14,
        IoErrorKind::Interrupted => 15,
        IoErrorKind::Other => 16,
        IoErrorKind::UnexpectedEof => 17,
        IoErrorKind::ConnectionAborted => 18,
        IoErrorKind::Unsupported => 0xFFFF,
    }
}

/// A failure that has a status code in this driver's error namespace.
pub trait LibnxErrMapper: Sized {
    spec fn spec_code(err: Self) -> u32;

    fn map(err: Self) -> (r: u32)
        ensures
            r == Self::spec_code(err),
    ;
}

impl LibnxErrMapper for u32 {
    open spec fn spec_code(err: u32) -> u32 {
        err
    }

    fn map(err: u32) -> (r: u32) {
        err
    }
}

impl LibnxErrMapper for IoErrorKind {
    open spec fn spec_code(err: IoErrorKind) -> u32 {
        namespaced(NX_FATDRIVE_ERR_STDIO_PREFIX, io_kind_offset(err))
    }

    fn map(err: IoErrorKind) -> (r: u32) {
        let offset: u32 = match err {
            IoErrorKind::NotFound => 1,
            IoErrorKind::PermissionDenied => 2,
            IoErrorKind::ConnectionRefused => 3,
            IoErrorKind::ConnectionReset => 4,
            IoErrorKind::NotConnected => 5,
            IoErrorKind::AddrInUse => 6,
            IoErrorKind::AddrNotAvailable => 7,
            IoErrorKind::BrokenPipe => 8,
            IoErrorKind::AlreadyExists => 9,
            IoErrorKind::WouldBlock => 10,
            IoErrorKind::InvalidInput => 11,
            IoErrorKind::InvalidData => 12,
            IoErrorKind::TimedOut => 13,
            IoErrorKind::WriteZero => 14,
            IoErrorKind::Interrupted => 15,
            IoErrorKind::Other => 16,
            IoErrorKind::UnexpectedEof => 17,
            IoErrorKind::ConnectionAborted => 18,
            IoErrorKind::Unsupported => 0xFFFF,
        };
        (NX_FATDRIVE_ERR_STDIO_PREFIX + offset) * 256 + NX_FATDRIVE_ERR_MODULE
    }
}

/// The status code of a failed file system operation: a missing path is
/// `NX_FATDRIVE_ERR_FILE_NOT_FOUND`, any other failure its stdio code.
pub fn fs_error_code(kind: IoErrorKind) -> (r: u32)
    ensures
        kind == IoErrorKind::NotFound ==> r == NX_FATDRIVE_ERR_FILE_NOT_FOUND,
        kind != IoErrorKind::NotFound ==> r == <IoErrorKind as LibnxErrMapper>::spec_code(kind),
{
    match kind {
        IoErrorKind::NotFound => NX_FATDRIVE_ERR_FILE_NOT_FOUND,
        _ => LibnxErrMapper::map(kind),
    }
}

/// Direction of a failed USB bulk transfer.
#[derive(Clone, Copy, Debug, PartialEq, Eq, Structural)]
pub enum UsbTransferDirection {
    In,
    Out,
}

/// Why a SCSI command failed.
#[derive(Clone, Copy, Debug, PartialEq, Eq, Structural)]
pub enum ScsiErrorCause {
    ParseError,
    NonBlocksizeMultipleLengthError { actual: usize, block_size: usize },
    UsbTransferError { direction: UsbTransferDirection },
    FlagError { flags: u32 },
    BufferTooSmallError { expected: usize, actual: usize },
    UnsupportedOperationError,
    InvalidDeviceError,
}

pub open spec fn scsi_detail(cause: ScsiErrorCause) -> u32 {
    match cause {
        ScsiErrorCause::ParseError => 0x1000,
        ScsiErrorCause::NonBlocksizeMultipleLengthError { .. } => 0x2000,
        ScsiErrorCause::UsbTransferError { direction } => match direction {
            UsbTransferDirection::In => 0x3001,
            UsbTransferDirection::Out => 0x3002,
        },
        ScsiErrorCause::FlagError { .. } => 0x4000,
        ScsiErrorCause::BufferTooSmallError { .. } => 0x5000,
        ScsiErrorCause::UnsupportedOperationError => 0x6000,
        ScsiErrorCause::InvalidDeviceError => 0x7000,
    }
}

impl LibnxErrMapper for ScsiErrorCause {
    open spec fn spec_code(err: ScsiErrorCause) -> u32 {
        namespaced(NX_FATDRIVE_ERR_SCSI_PREFIX, scsi_detail(err))
    }

    fn map(err: ScsiErrorCause) -> (r: u32) {
        let desc: u32 = match err {
            ScsiErrorCause::ParseError => 0x1000,
            ScsiErrorCause::NonBlocksizeMultipleLengthError { .. } => 0x2000,
            ScsiErrorCause::UsbTransferError { direction } => match direction {
                UsbTransferDirection::In => 0x3001,
                UsbTransferDirection::Out => 0x3002,
            },
            ScsiErrorCause::FlagError { .. } => 0x4000,
            ScsiErrorCause::BufferTooSmallError { .. } => 0x5000,
            ScsiErrorCause::UnsupportedOperationError => 0x6000,
            ScsiErrorCause::InvalidDeviceError => 0x7000,
        };
        (desc + NX_FATDRIVE_ERR_SCSI_PREFIX) * 256 + NX_FATDRIVE_ERR_MODULE
    }
}

} // verus!
