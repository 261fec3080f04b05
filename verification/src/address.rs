//! Virtual addresses, as the `x86_64` crate represents them.

use vstd::prelude::*;
use x86_64::VirtAddr;

verus! {

/// The `x86_64` crate's canonical virtual address. Its representation is hidden
/// from the verifier; contracts speak of it through [`virt_addr_value`].
#[verifier::external_type_specification]
#[verifier::external_body]
pub struct ExVirtAddr(x86_64::VirtAddr);

/// The 64-bit number that an address holds, which is what `VirtAddr::as_u64`
/// returns for it.
pub uninterp spec fn virt_addr_value(addr: VirtAddr) -> u64;

/// Whether `VirtAddr::new` accepts `raw`: bits 47 to 63 are all clear, all set,
/// or only bit 47 is set.
pub open spec fn is_valid_raw(raw: u64) -> bool {
    raw < 0x0001_0000_0000_0000 || raw >= 0xffff_8000_0000_0000
}

/// The canonical form of an accepted `raw`: bit 47 copied into bits 48 to 63.
pub open spec fn canonical(raw: u64) -> u64 {
    if 0x8000_0000_0000 <= raw < 0x0001_0000_0000_0000 {
        (raw + 0xffff_0000_0000_0000) as u64
    } else {
        raw
    }
}

/// Calls `VirtAddr::new`. That function panics when bits 48 to 63 hold anything
/// but zeros or a sign extension of bit 47, which the precondition rules out;
/// otherwise it returns the address that holds `raw` with bit 47 extended
/// through the upper bits.
#[verifier::external_body]
pub(crate) fn new_virt_addr(raw: u64) -> (addr: VirtAddr)
    requires
        is_valid_raw(raw),
    ensures
        virt_addr_value(addr) == canonical(raw),
{
    VirtAddr::new(raw)
}

} // verus!
