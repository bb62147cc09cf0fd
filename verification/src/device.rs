use vstd::prelude::*;

verus! {

/// Identifies the physical display device on the HID bus. The enumeration
/// collaborator (outside this crate) walks the bus and compares each
/// discovered device's vendor id, product id and interface number against
/// these values; the decision itself is made here.
pub struct DeviceSelector {
    pub vendor_id: u16,
    pub product_id: u16,
    pub interface_number: i32,
}

impl DeviceSelector {
    /// The keyboard this driver targets by default.
    pub fn keyboard_default() -> (s: DeviceSelector)
        ensures
            s.vendor_id == 0xFC32,
            s.product_id == 0x0287,
            s.interface_number == 1,
    {
        DeviceSelector { vendor_id: 0xFC32, product_id: 0x0287, interface_number: 1 }
    }

    /// Decides whether an enumerated device is the one to open.
    pub fn matches(&self, vendor_id: u16, product_id: u16, interface_number: i32) -> (r: bool)
        ensures
            r == (vendor_id == self.vendor_id && product_id == self.product_id
                && interface_number == self.interface_number),
    {
        vendor_id == self.vendor_id && product_id == self.product_id
            && interface_number == self.interface_number
    }
}

} // verus!
