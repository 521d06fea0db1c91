//! The fingerprint by which a physical device is recognised.

use vstd::prelude::*;

verus! {

/// Position of a device on the PCI bus.
#[derive(Clone, Copy, Debug, PartialEq, Eq, Structural)]
pub struct PciAddress {
    pub domain: u32,
    pub bus: u8,
    pub device: u8,
    pub function: u8,
}

/// Bus position plus the vendor, device and subsystem numbers of a card.
///
/// Two identifiers name the same card exactly when every field agrees.
#[derive(Clone, Copy, Debug, PartialEq, Eq, Structural)]
pub struct GpuIdentifier {
    pub address: PciAddress,
    pub vendor_id: u16,
    pub device_id: u16,
    pub subsystem_vendor_id: u16,
    pub subsystem_device_id: u16,
}

impl GpuIdentifier {
    /// Field-wise comparison.
    pub fn matches(&self, other: &GpuIdentifier) -> (r: bool)
        ensures
            r == (*self == *other),
    {
        *self == *other
    }
}

} // verus!
