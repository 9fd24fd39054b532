use vstd::prelude::*;

use crate::error::NX_FATDRIVE_ERR_DRIVE_NOT_FOUND;

verus! {

/// USB class of mass storage devices.
pub const MSC_CLASS: u8 = 8;

/// Mass storage subclass of the SCSI transparent command set.
pub const MSC_SUBCLASS_SCSI: u8 = 6;

/// Mass storage protocol of bulk-only transport.
pub const MSC_PROTOCOL_BULK_ONLY: u8 = 80;

/// Alignment every bulk transfer buffer must have.
pub const TRANSFER_ALIGNMENT: usize = 0x1000;

/// Why a transfer buffer is refused.
#[derive(Clone, Copy, Debug, PartialEq, Eq, Structural)]
pub enum TransferError {
    /// The buffer holds no bytes.
    EmptyBuffer,
    /// The buffer is not aligned to `TRANSFER_ALIGNMENT`.
    AlignmentError { alignment: usize },
}

/// Checks a buffer about to be handed to a bulk transfer: it must hold at
/// least one byte and be aligned to a page.
pub fn check_transfer_buffer(size: usize, alignment: usize) -> (r: Result<(), TransferError>)
    ensures
        size == 0 ==> r == Err::<(), TransferError>(TransferError::EmptyBuffer),
        size > 0 && alignment != TRANSFER_ALIGNMENT ==> r == Err::<(), TransferError>(
            TransferError::AlignmentError { alignment },
        ),
        size > 0 && alignment == TRANSFER_ALIGNMENT ==> r is Ok,
{
    if size == 0 {
        return Err(TransferError::EmptyBuffer);
    }
    if alignment != TRANSFER_ALIGNMENT {
        return Err(TransferError::AlignmentError { alignment });
    }
    Ok(())
}

/// Class, subclass and protocol codes of a USB descriptor.
#[derive(Clone, Copy, Debug, PartialEq, Eq, Structural)]
pub struct ClassCodes {
    pub class: u8,
    pub subclass: u8,
    pub protocol: u8,
}

/// The address and direction of a USB endpoint.
#[derive(Clone, Copy, Debug, PartialEq, Eq, Structural)]
pub struct EndpointInfo {
    pub address: u8,
    pub direction_in: bool,
}

/// The endpoint data flows in through, from the device.
#[derive(Clone, Copy, Debug, PartialEq, Eq, Structural)]
pub struct ReadEndpoint(pub EndpointInfo);

/// The endpoint data flows out through, to the device.
#[derive(Clone, Copy, Debug, PartialEq, Eq, Structural)]
pub struct WriteEndpoint(pub EndpointInfo);

/// Why an interface cannot serve as a bulk-only mass storage channel.
#[derive(Clone, Copy, Debug, PartialEq, Eq, Structural)]
pub enum InterfaceError {
    NotMassStorage,
    NoOutputEndpoint,
    NoInputEndpoint,
    BadReadEndpoint,
    BadWriteEndpoint,
}

/// Whether the device or the interface descriptor announces mass storage,
/// SCSI transparent command set, bulk-only transport (each code may come
/// from either descriptor).
pub open spec fn spec_is_mass_storage(device: ClassCodes, iface: ClassCodes) -> bool {
    &&& (device.class == MSC_CLASS || iface.class == MSC_CLASS)
    &&& (device.subclass == MSC_SUBCLASS_SCSI || iface.subclass == MSC_SUBCLASS_SCSI)
    &&& (device.protocol == MSC_PROTOCOL_BULK_ONLY || iface.protocol == MSC_PROTOCOL_BULK_ONLY)
}

/// An endpoint fit for reading: its address has the direction bit (0x80)
/// set and it points in.
pub open spec fn spec_valid_read_endpoint(ep: EndpointInfo) -> bool {
    ep.address >= 0x80 && ep.direction_in
}

/// An endpoint fit for writing: its address has the direction bit clear and
/// it points out.
pub open spec fn spec_valid_write_endpoint(ep: EndpointInfo) -> bool {
    ep.address < 0x80 && !ep.direction_in
}

/// Picks the endpoints of a mass storage interface: the first IN endpoint
/// for reading and the first OUT endpoint for writing, each checked for its
/// direction.
pub fn retrieve_iface_endpoints(
    device: ClassCodes,
    iface: ClassCodes,
    in_endpoints: &Vec<EndpointInfo>,
    out_endpoints: &Vec<EndpointInfo>,
) -> (r: Result<(ReadEndpoint, WriteEndpoint), InterfaceError>)
    ensures
        !spec_is_mass_storage(device, iface) ==> r == Err::<(ReadEndpoint, WriteEndpoint), InterfaceError>(
            InterfaceError::NotMassStorage,
        ),
        spec_is_mass_storage(device, iface) && out_endpoints@.len() == 0 ==> r == Err::<
            (ReadEndpoint, WriteEndpoint),
            InterfaceError,
        >(InterfaceError::NoOutputEndpoint),
        spec_is_mass_storage(device, iface) && out_endpoints@.len() > 0 && in_endpoints@.len() == 0
            ==> r == Err::<(ReadEndpoint, WriteEndpoint), InterfaceError>(
            InterfaceError::NoInputEndpoint,
        ),
        spec_is_mass_storage(device, iface) && out_endpoints@.len() > 0 && in_endpoints@.len() > 0
            ==> r == if !spec_valid_read_endpoint(in_endpoints@[0]) {
            Err::<(ReadEndpoint, WriteEndpoint), InterfaceError>(InterfaceError::BadReadEndpoint)
        } else if !spec_valid_write_endpoint(out_endpoints@[0]) {
            Err::<(ReadEndpoint, WriteEndpoint), InterfaceError>(InterfaceError::BadWriteEndpoint)
        } else {
            Ok::<(ReadEndpoint, WriteEndpoint), InterfaceError>(
                (ReadEndpoint(in_endpoints@[0]), WriteEndpoint(out_endpoints@[0])),
            )
        },
{
    let has_valid_class = device.class == MSC_CLASS || iface.class == MSC_CLASS;
    let has_valid_subclass = device.subclass == MSC_SUBCLASS_SCSI || iface.subclass
        == MSC_SUBCLASS_SCSI;
    let has_valid_protocol = device.protocol == MSC_PROTOCOL_BULK_ONLY || iface.protocol
        == MSC_PROTOCOL_BULK_ONLY;
    if !(has_valid_class && has_valid_subclass && has_valid_protocol) {
        return Err(InterfaceError::NotMassStorage);
    }
    if out_endpoints.len() == 0 {
        return Err(InterfaceError::NoOutputEndpoint);
    }
    let write_ep = out_endpoints[0];
    if in_endpoints.len() == 0 {
        return Err(InterfaceError::NoInputEndpoint);
    }
    let read_ep = in_endpoints[0];
    if !(read_ep.address >= 0x80 && read_ep.direction_in) {
        return Err(InterfaceError::BadReadEndpoint);
    }
    if !(write_ep.address < 0x80 && !write_ep.direction_in) {
        return Err(InterfaceError::BadWriteEndpoint);
    }
    Ok((ReadEndpoint(read_ep), WriteEndpoint(write_ep)))
}

/// Of the interfaces a query found, the one to acquire: the last.
pub fn pick_drive<T>(interfaces: Vec<T>) -> (r: Result<T, u32>)
    ensures
        interfaces@.len() == 0 ==> r == Err::<T, u32>(NX_FATDRIVE_ERR_DRIVE_NOT_FOUND),
        interfaces@.len() > 0 ==> r == Ok::<T, u32>(interfaces@.last()),
{
    let mut interfaces = interfaces;
    match interfaces.pop() {
        Some(i) => Ok(i),
        None => Err(NX_FATDRIVE_ERR_DRIVE_NOT_FOUND),
    }
}

} // verus!
