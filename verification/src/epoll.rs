//! Interest descriptors for `epoll_ctl` and readiness flags.

use vstd::prelude::*;

verus! {

/// The value of an `epoll_event` as passed to `epoll_ctl`: the events asked
/// for and the 64-bit word returned with each notification.
#[derive(Copy, Clone, Debug)]
pub struct EpollEvent {
    pub events: u32,
    pub data: u64,
}

/// `flag` (reinterpreted as unsigned) shares a bit with `flags`.
pub open spec fn flag_set(flags: u32, flag: i32) -> bool {
    flags & (flag as u32) != 0
}

/// The unsigned 32-bit value with the same bits as `x`.
pub open spec fn bits_u32(x: i32) -> int {
    if x >= 0 {
        x as int
    } else {
        x + 0x1_0000_0000
    }
}

/// The unsigned 64-bit value of `x` sign-extended to 64 bits.
pub open spec fn bits_u64(x: i32) -> int {
    if x >= 0 {
        x as int
    } else {
        x + 0x1_0000_0000_0000_0000
    }
}

/// `libc::EPOLLIN` (readiness for reading); 0x1 in libc's Linux definitions.
#[verifier::external_body]
pub(crate) fn epoll_in() -> (flag: i32)
    ensures
        flag == 0x1,
{
    libc::EPOLLIN
}

/// `libc::EPOLLOUT` (readiness for writing); 0x4 in libc's Linux definitions.
#[verifier::external_body]
pub(crate) fn epoll_out() -> (flag: i32)
    ensures
        flag == 0x4,
{
    libc::EPOLLOUT
}

/// An interest descriptor asking for `events_interested_in`, tagged with
/// `identifier` (usually the descriptor itself).
pub fn new_epoll_event(events_interested_in: i32, identifier: i32) -> (event: EpollEvent)
    ensures
        event.events == bits_u32(events_interested_in),
        event.data == bits_u64(identifier),
{
    let events = events_interested_in as u32;
    let data = identifier as u64;
    assert(events == bits_u32(events_interested_in)) by (bit_vector)
        requires
            events == events_interested_in as u32,
    ;
    assert(data == bits_u64(identifier)) by (bit_vector)
        requires
            data == identifier as u64,
    ;
    EpollEvent { events, data }
}

/// Whether `flag_to_check` is among the bits of `flags_bitmask`.
pub fn has_flag(flags_bitmask: u32, flag_to_check: i32) -> (set: bool)
    ensures
        set == flag_set(flags_bitmask, flag_to_check),
{
    flags_bitmask & flag_to_check as u32 != 0
}

} // verus!
