//! Re-identification of known devices after reconnecting.

use vstd::prelude::*;

use crate::operation::{DeviceIdentity, IdentityView};
use crate::service::event::ExchangeError;
use crate::service::priority::Priority;
use crate::wire::Address;

verus! {

/// Device whose state should be recovered after reconnecting.
#[derive(Debug, Clone, PartialEq, Eq)]
pub struct KnownDevice {
    /// Last known working address.
    pub address: Address,
    /// Identity before the connection was lost.
    pub identity: DeviceIdentity,
}

/// Result of repeated identification.
#[derive(Debug, PartialEq, Eq)]
pub enum RecoveryStatus {
    /// The same device returned.
    Restored(DeviceIdentity),
    /// A different device responds at the address.
    Replaced(DeviceIdentity),
    /// No device confirmed its presence.
    Unavailable(ExchangeError),
}

/// Complete link-recovery report.
#[derive(Debug)]
pub struct RecoveryReport {
    /// Status of every known address.
    pub devices: Vec<(Address, RecoveryStatus)>,
}

impl Default for RecoveryReport {
    fn default() -> (report: Self)
        ensures
            report.devices@ == Seq::<(Address, RecoveryStatus)>::empty(),
    {
        RecoveryReport { devices: Vec::new() }
    }
}

/// Whether two identifications are those of one device: manufacturer, type
/// and number agree, whatever revisions and settings say.
pub open spec fn one_device(left: IdentityView, right: IdentityView) -> bool {
    &&& left.manufacturer_id == right.manufacturer_id
    &&& left.address_type() == right.address_type()
    &&& left.device_id == right.device_id
}

fn same_device(left: &DeviceIdentity, right: &DeviceIdentity) -> (same: bool)
    ensures
        same == one_device(left@, right@),
{
    left.manufacturer_id == right.manufacturer_id && left.address_device_type()
        == right.address_device_type() && left.device_id == right.device_id
}

/// What a repeated identification means.
pub open spec fn recovered(
    previous: IdentityView,
    result: Result<DeviceIdentity, ExchangeError>,
) -> RecoveryStatus {
    match result {
        Ok(identity) => if one_device(identity@, previous) {
            RecoveryStatus::Restored(identity)
        } else {
            RecoveryStatus::Replaced(identity)
        },
        Err(error) => RecoveryStatus::Unavailable(error),
    }
}

impl RecoveryReport {
    /// Takes over the repeated identification of the next known device.
    pub fn record(&mut self, previous: &KnownDevice, result: Result<DeviceIdentity, ExchangeError>)
        ensures
            final(self).devices@ == old(self).devices@.push(
                (previous.address, recovered(previous.identity@, result)),
            ),
    {
        let status = match result {
            Ok(identity) => if same_device(&identity, &previous.identity) {
                RecoveryStatus::Restored(identity)
            } else {
                RecoveryStatus::Replaced(identity)
            },
            Err(error) => RecoveryStatus::Unavailable(error),
        };
        self.devices.push((previous.address, status));
    }
}

/// The address that comes next when known devices are identified again, in
/// their order, and whom the request serves.
pub fn reconcile_devices(known: &Vec<KnownDevice>, report: &RecoveryReport) -> (next: Option<
    (Address, Priority),
>)
    ensures
        next == if report.devices@.len() < known@.len() {
            Some((known@[report.devices@.len() as int].address, Priority::Service))
        } else {
            None::<(Address, Priority)>
        },
{
    let done: usize = report.devices.len();
    if done < known.len() {
        Some((known[done].address, Priority::Service))
    } else {
        None
    }
}

/// A device that changed its revisions, flags or configuration is still the
/// same device.
pub proof fn lemma_revision_does_not_replace(
    identity: IdentityView,
    device_revision: u8,
    software_revision: u8,
    hardware_revision: u8,
    flags: u8,
    configuration_change_counter: Option<u16>,
)
    ensures
        one_device(
            IdentityView {
                device_revision,
                software_revision,
                hardware_revision,
                flags,
                configuration_change_counter,
                ..identity
            },
            identity,
        ),
{
}

/// A known device is restored exactly when what answers has the same number,
/// the same manufacturer and the same type as far as its long address carries
/// it; any other answer is a replacement, and none an outage.
pub proof fn lemma_recovery(previous: IdentityView, result: Result<DeviceIdentity, ExchangeError>)
    ensures
        match result {
            Ok(identity) => recovered(previous, result) == if identity@.device_id
                == previous.device_id && identity@.manufacturer_id == previous.manufacturer_id
                && identity@.address_type() == previous.address_type() {
                RecoveryStatus::Restored(identity)
            } else {
                RecoveryStatus::Replaced(identity)
            },
            Err(error) => recovered(previous, result) == RecoveryStatus::Unavailable(error),
        },
        one_device(previous, previous),
{
}

/// Whether two answers come from one device does not depend on which came
/// first.
pub proof fn lemma_one_device_is_mutual(
    first: IdentityView,
    second: IdentityView,
    third: IdentityView,
)
    ensures
        one_device(first, second) <==> one_device(second, first),
        one_device(first, second) && one_device(second, third) ==> one_device(first, third),
        first.device_id != second.device_id ==> !one_device(first, second),
        first.manufacturer_id != second.manufacturer_id ==> !one_device(first, second),
{
}

/// Known devices are asked again in their order, each once, ahead of ordinary
/// requests.
pub proof fn lemma_devices_are_asked_in_order(
    known: Vec<KnownDevice>,
    report: RecoveryReport,
    next: Option<(Address, Priority)>,
)
    requires
        call_ensures(reconcile_devices, (&known, &report), next),
    ensures
        next is Some <==> report.devices@.len() < known@.len(),
        next matches Some((address, priority)) ==> address
            == known@[report.devices@.len() as int].address && priority is Service,
{
}

} // verus!
