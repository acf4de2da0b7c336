//! The bit layouts that the `x86_64` crate defines for the flags register and
//! for page-table entries, as plain `u64` values.

use vstd::prelude::*;
use x86_64::registers::rflags::RFlags;
use x86_64::structures::paging::PageTableFlags;

verus! {

/// Bit 9 of the flags register: maskable interrupts are enabled.
pub open spec fn interrupt_enable_bit() -> u64 {
    0x200
}

/// Bit 0 of a page-table entry: the page is present.
pub open spec fn present_bit() -> u64 {
    0x1
}

/// Bit 1 of a page-table entry: writes are allowed.
pub open spec fn writable_bit() -> u64 {
    0x2
}

/// Bit 2 of a page-table entry: user mode may access the page.
pub open spec fn user_accessible_bit() -> u64 {
    0x4
}

/// Bit 63 of a page-table entry: instruction fetches are forbidden.
pub open spec fn no_execute_bit() -> u64 {
    0x8000_0000_0000_0000
}

/// Reads `RFlags::INTERRUPT_FLAG`, which the `x86_64` crate declares as
/// `1 << 9`. Trusted: the value is taken from that declaration.
#[verifier::external_body]
pub(crate) fn interrupt_flag() -> (bits: u64)
    ensures
        bits == interrupt_enable_bit(),
{
    RFlags::INTERRUPT_FLAG.bits()
}

/// Reads `PageTableFlags::PRESENT`, which the `x86_64` crate declares as `1`.
/// Trusted: the value is taken from that declaration.
#[verifier::external_body]
pub(crate) fn page_present() -> (bits: u64)
    ensures
        bits == present_bit(),
{
    PageTableFlags::PRESENT.bits()
}

/// Reads `PageTableFlags::WRITABLE`, which the `x86_64` crate declares as
/// `1 << 1`. Trusted: the value is taken from that declaration.
#[verifier::external_body]
pub(crate) fn page_writable() -> (bits: u64)
    ensures
        bits == writable_bit(),
{
    PageTableFlags::WRITABLE.bits()
}

/// Reads `PageTableFlags::USER_ACCESSIBLE`, which the `x86_64` crate declares
/// as `1 << 2`. Trusted: the value is taken from that declaration.
#[verifier::external_body]
pub(crate) fn page_user_accessible() -> (bits: u64)
    ensures
        bits == user_accessible_bit(),
{
    PageTableFlags::USER_ACCESSIBLE.bits()
}

/// Reads `PageTableFlags::NO_EXECUTE`, which the `x86_64` crate declares as
/// `1 << 63`. Trusted: the value is taken from that declaration.
#[verifier::external_body]
pub(crate) fn page_no_execute() -> (bits: u64)
    ensures
        bits == no_execute_bit(),
{
    PageTableFlags::NO_EXECUTE.bits()
}

/// Calls `PageTableFlags::set` on the flags value with the raw bits `bits`.
/// Trusted: `set` inserts `flag` (bitwise or) when `value` is true and
/// removes it (bitwise and with the complement) when it is false; the raw
/// bits are carried in and out unchanged by `from_bits_retain` and `bits`.
#[verifier::external_body]
pub(crate) fn page_flags_set(bits: u64, flag: u64, value: bool) -> (r: u64)
    ensures
        r == if value { bits | flag } else { bits & !flag },
{
    let mut flags = PageTableFlags::from_bits_retain(bits);
    flags.set(PageTableFlags::from_bits_retain(flag), value);
    flags.bits()
}

} // verus!
