use crate::executor::EpollWaker;
use vstd::prelude::*;

verus! {

/// `EPOLLIN`: the descriptor can be read.
pub const EPOLLIN: u32 = 0x1;

/// `EPOLLOUT`: the descriptor can be written.
pub const EPOLLOUT: u32 = 0x4;

/// `EPOLLET`: edge-triggered notification.
pub const EPOLLET: u32 = 0x8000_0000;

/// The bits of nix's `EpollFlags::EPOLLIN`. Claimed: they are `EPOLLIN`, 0x1,
/// as libc defines it for every target nix offers epoll on (Linux, Android).
#[verifier::external_body]
fn epollin_bits() -> (r: u32)
    ensures
        r == EPOLLIN,
{
    nix::sys::epoll::EpollFlags::EPOLLIN.bits() as u32
}

/// The bits of nix's `EpollFlags::EPOLLOUT`. Claimed: they are `EPOLLOUT`,
/// 0x4, as libc defines it for every target nix offers epoll on.
#[verifier::external_body]
fn epollout_bits() -> (r: u32)
    ensures
        r == EPOLLOUT,
{
    nix::sys::epoll::EpollFlags::EPOLLOUT.bits() as u32
}

/// The bits of nix's `EpollFlags::EPOLLET`, as an unsigned value. Claimed: they
/// are `EPOLLET`, bit 31, as libc defines it for every target nix offers epoll
/// on.
#[verifier::external_body]
fn epollet_bits() -> (r: u32)
    ensures
        r == EPOLLET,
{
    nix::sys::epoll::EpollFlags::EPOLLET.bits() as u32
}

/// How a file descriptor is registered with epoll.
#[derive(Clone, Copy, Debug, PartialEq, Eq, Structural)]
pub struct Registration {
    /// The descriptor's waker state, assumed ready for the read and write
    /// events asked for: with `EPOLLET`, epoll reports them only once an
    /// operation has returned `EAGAIN`.
    pub waker: EpollWaker,
    /// The events to register: those asked for, edge triggered, since tasks
    /// usually register several descriptors but wait on one at a time.
    pub epoll_events: u32,
}

/// The registration of a descriptor that is of interest for `events`.
pub fn register(events: u32) -> (r: Registration)
    ensures
        r.waker == (EpollWaker { waker: None, events: events & (EPOLLIN | EPOLLOUT), burst: 0 }),
        r.epoll_events == events | EPOLLET,
{
    let waker_events = events & (epollin_bits() | epollout_bits());
    Registration { waker: EpollWaker::new(waker_events), epoll_events: events | epollet_bits() }
}

/// The bits of `O_NONBLOCK` among a descriptor's status flags, read from nix's
/// `OFlag::O_NONBLOCK`. Claimed: the value is one bit, above the two bits of
/// the access mode, as libc defines it on every target (2048 on x86-64 Linux,
/// 128 on MIPS, 0x4000 on SPARC, 4 on the BSDs; every definition is a single
/// bit from 4 to 0x40000). Which bit it is, is the platform's and is not
/// stated.
#[verifier::external_body]
fn o_nonblock_bits() -> (r: i32)
    ensures
        is_status_flag_bit(r),
{
    nix::fcntl::OFlag::O_NONBLOCK.bits()
}

/// `b` is a single status flag bit outside the access mode (the low two
/// bits, `O_RDONLY`, `O_WRONLY`, `O_RDWR`).
pub open spec fn is_status_flag_bit(b: i32) -> bool {
    &&& 4 <= b
    &&& b & ((b - 1) as i32) == 0
}

/// The status flags `flags` with the bits `nonblock` added.
pub fn add_nonblock(flags: i32, nonblock: i32) -> (r: i32)
    ensures
        r == flags | nonblock,
        r & flags == flags,
{
    assert((flags | nonblock) & flags == flags) by (bit_vector);
    flags | nonblock
}

/// The status flags `flags` of a descriptor with the platform's `O_NONBLOCK`
/// added, as read from nix: every registered descriptor must not block, as
/// events are edge triggered. The result is `flags` with the platform's
/// nonzero `O_NONBLOCK` bits set (see `add_nonblock`); their value is the
/// platform's.
pub fn nonblocking_flags(flags: i32) -> (r: i32)
    ensures
        exists|nonblock: i32| is_status_flag_bit(nonblock) && r == flags | nonblock,
        r & flags == flags,
        r & 3 == flags & 3,
{
    let nonblock = o_nonblock_bits();
    assert((flags | nonblock) & 3 == flags & 3) by (bit_vector)
        requires
            4 <= nonblock,
            nonblock & ((nonblock - 1) as i32) == 0,
    ;
    add_nonblock(flags, nonblock)
}

} // verus!
