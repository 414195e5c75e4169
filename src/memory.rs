//! The memory map: the RAM window, the monitor's own stack inside it, and the
//! predicates that decide which addresses a command may touch.
use vstd::prelude::*;

verus! {

pub const RAM_BASE: usize = 0x8000_0000;

/// 128 MiB, the default RAM of the virtual machine.
pub const RAM_SIZE: usize = 0x0800_0000;

pub const RAM_END_INCLUSIVE: usize = RAM_BASE + RAM_SIZE - 1;

/// Top of the monitor's stack (exclusive).
pub const STACK_TOP: usize = 0x8010_0000;

/// 16 KiB reserved for the monitor's stack.
pub const STACK_SIZE: usize = 0x4000;

pub const STACK_BOTTOM: usize = STACK_TOP - STACK_SIZE;

pub const BYTES_PER_LINE: usize = 16;

pub open spec fn in_ram(addr: int) -> bool {
    RAM_BASE <= addr <= RAM_END_INCLUSIVE
}

pub open spec fn in_stack(addr: int) -> bool {
    STACK_BOTTOM <= addr < STACK_TOP
}

/// Whether the inclusive ranges `[a_start, a_end]` and `[b_start, b_end]` share an address.
pub open spec fn overlap(a_start: int, a_end: int, b_start: int, b_end: int) -> bool {
    a_start <= b_end && b_start <= a_end
}

/// Whether `addr` lies within the RAM window.
pub fn is_in_ram(addr: usize) -> (r: bool)
    ensures
        r == in_ram(addr as int),
{
    RAM_BASE <= addr && addr <= RAM_END_INCLUSIVE
}

/// Whether `addr` lies within the monitor's own stack reservation.
pub fn is_in_stack(addr: usize) -> (r: bool)
    ensures
        r == in_stack(addr as int),
{
    STACK_BOTTOM <= addr && addr < STACK_TOP
}

/// Whether `addr` may become the current address: in RAM and not on the stack.
pub fn is_valid_monitor_address(addr: usize) -> (r: bool)
    ensures
        r == (in_ram(addr as int) && !in_stack(addr as int)),
{
    is_in_ram(addr) && !is_in_stack(addr)
}

/// Whether two inclusive address ranges overlap.
pub fn ranges_overlap(a_start: usize, a_end: usize, b_start: usize, b_end: usize) -> (r: bool)
    ensures
        r == overlap(a_start as int, a_end as int, b_start as int, b_end as int),
{
    a_start <= b_end && b_start <= a_end
}

} // verus!
