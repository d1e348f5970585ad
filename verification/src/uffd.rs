//! Userfault descriptors: the memory regions of a guest, the kernel's request
//! numbers and structures, and the events it delivers.
use vstd::endian::{endianness, Endian};
use vstd::prelude::*;

use crate::text::{hex, hex_string};

verus! {

/// One contiguous piece of guest memory, as mapped by the guest's process.
#[derive(Debug, Clone, Copy, PartialEq, Eq, Structural)]
pub struct GuestRegionUffdMapping {
    /// Where the piece is mapped.
    pub base_host_virt_addr: u64,
    /// Its length in bytes.
    pub size: usize,
    /// Where it starts in the memory file.
    pub offset: u64,
    pub page_size_kib: usize,
}

impl GuestRegionUffdMapping {
    pub open spec fn holds(self, host_va: u64) -> bool {
        self.base_host_virt_addr <= host_va < self.base_host_virt_addr + self.size
    }

    /// Whether the address lies in this region.
    pub fn contains(&self, host_va: u64) -> (r: bool)
        ensures
            r == self.holds(host_va),
    {
        host_va >= self.base_host_virt_addr && host_va - self.base_host_virt_addr
            < self.size as u64
    }

    /// Where in the memory file an address of this region is backed.
    pub open spec fn file_offset(self, host_va: u64) -> int {
        self.offset + (host_va - self.base_host_virt_addr)
    }

    /// The offset in the memory file of an address of this region.
    pub fn offset_for(&self, host_va: u64) -> (r: Option<u64>)
        requires
            self.holds(host_va) ==> self.file_offset(host_va) <= u64::MAX,
        ensures
            match r {
                Some(at) => self.holds(host_va) && at == self.file_offset(host_va),
                None => !self.holds(host_va),
            },
    {
        if !self.contains(host_va) {
            return None;
        }
        Some(self.offset + (host_va - self.base_host_virt_addr))
    }
}

/// An address is backed inside its region's part of the memory file, and two
/// addresses share an offset only if they are the same address of one region,
/// as long as no two regions overlap in the file.
pub proof fn law_offsets_tell_addresses_apart(
    r: GuestRegionUffdMapping,
    s: GuestRegionUffdMapping,
    a: u64,
    b: u64,
)
    requires
        r.holds(a),
        s.holds(b),
        r == s || r.offset + r.size <= s.offset || s.offset + s.size <= r.offset,
    ensures
        r.offset <= r.file_offset(a) < r.offset + r.size,
        r.file_offset(a) == s.file_offset(b) ==> r == s && a == b,
{
}

/// Why a handshake is not one.
#[derive(Debug, Clone, Copy, PartialEq, Eq, Structural)]
pub enum HandshakeError {
    ControlTruncated,
    DataTruncated,
    NoDescriptor,
}

impl HandshakeError {
    pub open spec fn text(self) -> Seq<char> {
        match self {
            HandshakeError::ControlTruncated => "recvmsg returned MSG_CTRUNC — ancillary buffer too small"@,
            HandshakeError::DataTruncated => "recvmsg returned MSG_TRUNC — data buffer too small for the JSON payload"@,
            HandshakeError::NoDescriptor => "no SCM_RIGHTS fd received from firecracker"@,
        }
    }

    pub fn message(&self) -> (r: String)
        ensures
            r@ == self.text(),
    {
        match self {
            HandshakeError::ControlTruncated => "recvmsg returned MSG_CTRUNC — ancillary buffer too small".to_string(),
            HandshakeError::DataTruncated => "recvmsg returned MSG_TRUNC — data buffer too small for the JSON payload".to_string(),
            HandshakeError::NoDescriptor => "no SCM_RIGHTS fd received from firecracker".to_string(),
        }
    }
}

/// Judges what one `recvmsg` brought: nothing may be cut off, and a
/// descriptor has to come along.
pub fn check_handshake(control_truncated: bool, data_truncated: bool, fd: Option<i32>) -> (r: Result<
    i32,
    HandshakeError,
>)
    ensures
        r == (if control_truncated {
            Err::<i32, HandshakeError>(HandshakeError::ControlTruncated)
        } else if data_truncated {
            Err(HandshakeError::DataTruncated)
        } else {
            match fd {
                Some(n) => Ok(n),
                None => Err(HandshakeError::NoDescriptor),
            }
        }),
{
    if control_truncated {
        return Err(HandshakeError::ControlTruncated);
    }
    if data_truncated {
        return Err(HandshakeError::DataTruncated);
    }
    match fd {
        Some(n) => Ok(n),
        None => Err(HandshakeError::NoDescriptor),
    }
}

// ---------------------------------------------------------------------
// Request numbers
// ---------------------------------------------------------------------

/// The fields of a request number, side by side: direction, size of the
/// argument, type and number.
pub open spec fn request_number(dir: u32, ty: u32, nr: u32, size: u32) -> int {
    dir * 1073741824 + size * 65536 + ty * 256 + nr
}

/// Packs a request number.
pub fn ioc(dir: u32, ty: u32, nr: u32, size: u32) -> (r: u64)
    requires
        dir < 4,
        ty < 256,
        nr < 256,
        size < 16384,
    ensures
        r == request_number(dir, ty, nr, size),
{
    let n: u32 = (dir << 30) | (ty << 8) | nr | (size << 16);
    assert(n == dir * 1073741824 + size * 65536 + ty * 256 + nr) by (bit_vector)
        requires
            n == (dir << 30) | (ty << 8) | nr | (size << 16),
            dir < 4,
            ty < 256,
            nr < 256,
            size < 16384,
    ;
    n as u64
}

/// Packs the number of a request that the kernel reads and writes the
/// argument of.
pub fn iowr(ty: u32, nr: u32, size: u32) -> (r: u64)
    requires
        ty < 256,
        nr < 256,
        size < 16384,
    ensures
        r == request_number(3, ty, nr, size),
{
    ioc(3, ty, nr, size)
}

pub const UFFDIO: u32 = 0xAA;

pub const UFFDIO_API_NR: u32 = 0x3F;

pub const UFFDIO_REGISTER_NR: u32 = 0x00;

pub const UFFDIO_WRITEPROTECT_NR: u32 = 0x06;

/// Negotiates the interface.
pub fn uffdio_api_request() -> (r: u64)
    ensures
        r == 0xC018AA3F,
{
    iowr(UFFDIO, UFFDIO_API_NR, 24)
}

/// Registers a range.
pub fn uffdio_register_request() -> (r: u64)
    ensures
        r == 0xC020AA00,
{
    iowr(UFFDIO, UFFDIO_REGISTER_NR, 32)
}

/// Sets or clears write protection.
pub fn uffdio_writeprotect_request() -> (r: u64)
    ensures
        r == 0xC018AA06,
{
    iowr(UFFDIO, UFFDIO_WRITEPROTECT_NR, 24)
}

// ---------------------------------------------------------------------
// Structures
// ---------------------------------------------------------------------

#[derive(Debug, Clone, Copy, PartialEq, Eq, Structural)]
pub struct UffdioApi {
    pub api: u64,
    pub features: u64,
    pub ioctls: u64,
}

#[derive(Debug, Clone, Copy, PartialEq, Eq, Structural)]
pub struct UffdioRange {
    pub start: u64,
    pub len: u64,
}

#[derive(Debug, Clone, Copy, PartialEq, Eq, Structural)]
pub struct UffdioRegister {
    pub range: UffdioRange,
    pub mode: u64,
    pub ioctls: u64,
}

#[derive(Debug, Clone, Copy, PartialEq, Eq, Structural)]
pub struct UffdioWriteprotect {
    pub range: UffdioRange,
    pub mode: u64,
}

impl Default for UffdioApi {
    fn default() -> (r: Self)
        ensures
            r == (UffdioApi { api: 0, features: 0, ioctls: 0 }),
    {
        UffdioApi { api: 0, features: 0, ioctls: 0 }
    }
}

impl Default for UffdioRange {
    fn default() -> (r: Self)
        ensures
            r == (UffdioRange { start: 0, len: 0 }),
    {
        UffdioRange { start: 0, len: 0 }
    }
}

impl Default for UffdioRegister {
    fn default() -> (r: Self)
        ensures
            r == (UffdioRegister { range: UffdioRange { start: 0, len: 0 }, mode: 0, ioctls: 0 }),
    {
        UffdioRegister { range: UffdioRange { start: 0, len: 0 }, mode: 0, ioctls: 0 }
    }
}

impl Default for UffdioWriteprotect {
    fn default() -> (r: Self)
        ensures
            r == (UffdioWriteprotect { range: UffdioRange { start: 0, len: 0 }, mode: 0 }),
    {
        UffdioWriteprotect { range: UffdioRange { start: 0, len: 0 }, mode: 0 }
    }
}

pub const UFFD_API: u64 = 0xAA;

/// Faults tell whether they hit write protection.
pub const UFFD_FEATURE_PAGEFAULT_FLAG_WP: u64 = 0x200;

pub const UFFDIO_REGISTER_MODE_MISSING: u64 = 1;

pub const UFFDIO_REGISTER_MODE_WP: u64 = 2;

pub const UFFDIO_WRITEPROTECT_MODE_WP: u64 = 1;

pub const UFFDIO_WRITEPROTECT_MODE_DONTWAKE: u64 = 2;

pub const UFFD_EVENT_PAGEFAULT: u8 = 0x12;

pub const UFFD_PAGEFAULT_FLAG_WRITE: u64 = 1;

pub const UFFD_PAGEFAULT_FLAG_WP: u64 = 2;

pub open spec fn negotiation() -> UffdioApi {
    UffdioApi { api: 0xAA, features: 0x200, ioctls: 0 }
}

/// Whether the features of a kernel hold those for write-protection faults.
pub open spec fn grants_write_protect(features: u64) -> bool {
    features / 512 % 2 == 1
}

/// A kernel grants write-protection faults exactly where it answers with the
/// feature that it was asked for.
pub proof fn law_granted_is_what_was_asked_for(features: u64)
    ensures
        grants_write_protect(features) <==> features & negotiation().features != 0,
        grants_write_protect(negotiation().features),
        negotiation().api == UFFDIO as u64,
{
    assert((features & 0x200 != 0) == (features / 512 % 2 == 1)) by (bit_vector);
}

/// The negotiation that asks for write-protection faults.
pub fn api_argument() -> (r: UffdioApi)
    ensures
        r == negotiation(),
{
    UffdioApi { api: UFFD_API, features: UFFD_FEATURE_PAGEFAULT_FLAG_WP, ioctls: 0 }
}

/// Whether the kernel granted write-protection faults.
pub fn supports_write_protect(features: u64) -> (r: bool)
    ensures
        r == grants_write_protect(features),
{
    assert((features & 0x200 != 0) == (features / 512 % 2 == 1)) by (bit_vector);
    features & UFFD_FEATURE_PAGEFAULT_FLAG_WP != 0
}

/// The message for a kernel that did not.
pub fn missing_feature_message(features: u64) -> (r: String)
    ensures
        r@ == "kernel does not advertise UFFD_FEATURE_PAGEFAULT_FLAG_WP (negotiated features: 0x"@
            + hex(features as nat) + "). Need kernel >= 5.7."@,
{
    let h = hex_string(features);
    "kernel does not advertise UFFD_FEATURE_PAGEFAULT_FLAG_WP (negotiated features: 0x".to_string().concat(
        h.as_str(),
    ).concat("). Need kernel >= 5.7.")
}

pub open spec fn registration(addr: u64, len: u64) -> UffdioRegister {
    UffdioRegister { range: UffdioRange { start: addr, len }, mode: 2, ioctls: 0 }
}

pub open spec fn protection(addr: u64, len: u64, wp: bool) -> UffdioWriteprotect {
    UffdioWriteprotect {
        range: UffdioRange { start: addr, len },
        mode: if wp {
            1
        } else {
            0
        },
    }
}

impl UffdioRange {
    /// Whether the byte at `a` is in the range.
    pub open spec fn covers(self, a: int) -> bool {
        self.start <= a < self.start + self.len
    }
}

/// What is protected is the range that was named, byte for byte, and it is the
/// range that was registered; protecting and letting go differ in the one flag
/// that says so, and a fault wakes its thread either way.
pub proof fn law_protection_covers_the_range(addr: u64, len: u64, wp: bool, a: int)
    ensures
        protection(addr, len, wp).range.covers(a) <==> addr <= a < addr + len,
        registration(addr, len).range.covers(a) <==> addr <= a < addr + len,
        registration(addr, len).mode == UFFDIO_REGISTER_MODE_WP,
        protection(addr, len, wp).mode & UFFDIO_WRITEPROTECT_MODE_WP != 0 <==> wp,
        protection(addr, len, wp).mode & UFFDIO_WRITEPROTECT_MODE_DONTWAKE == 0,
{
    assert(1u64 & 1 == 1 && 0u64 & 1 == 0 && 1u64 & 2 == 0 && 0u64 & 2 == 0) by (bit_vector);
}

/// Registers a range for write-protection faults.
pub fn register_wp(addr: u64, len: usize) -> (r: UffdioRegister)
    ensures
        r == registration(addr, len as u64),
{
    UffdioRegister {
        range: UffdioRange { start: addr, len: len as u64 },
        mode: UFFDIO_REGISTER_MODE_WP,
        ioctls: 0,
    }
}

/// Protects a range from writes, or lets writes through again.
pub fn writeprotect(addr: u64, len: usize, wp: bool) -> (r: UffdioWriteprotect)
    ensures
        r == protection(addr, len as u64, wp),
{
    UffdioWriteprotect {
        range: UffdioRange { start: addr, len: len as u64 },
        mode: if wp {
            UFFDIO_WRITEPROTECT_MODE_WP
        } else {
            0
        },
    }
}

/// The number that eight bytes from `at` on hold, least significant first.
pub open spec fn le_number(s: Seq<u8>, at: int) -> int {
    s[at] + s[at + 1] * 0x100 + s[at + 2] * 0x1_0000 + s[at + 3] * 0x100_0000 + s[at + 4]
        * 0x1_0000_0000 + s[at + 5] * 0x100_0000_0000 + s[at + 6] * 0x1_0000_0000_0000 + s[at + 7]
        * 0x100_0000_0000_0000
}

/// The number that eight bytes from `at` on hold, most significant first.
pub open spec fn be_number(s: Seq<u8>, at: int) -> int {
    s[at + 7] + s[at + 6] * 0x100 + s[at + 5] * 0x1_0000 + s[at + 4] * 0x100_0000 + s[at + 3]
        * 0x1_0000_0000 + s[at + 2] * 0x100_0000_0000 + s[at + 1] * 0x1_0000_0000_0000 + s[at]
        * 0x100_0000_0000_0000
}

/// The number that eight bytes from `at` on hold, in the machine's byte order.
pub open spec fn native_number(s: Seq<u8>, at: int) -> int {
    match endianness() {
        Endian::Little => le_number(s, at),
        Endian::Big => be_number(s, at),
    }
}

/// `u64::from_ne_bytes`: the number that eight bytes hold in the byte order of
/// the machine that runs the code.
#[verifier::external_body]
fn number_of_bytes(bytes: [u8; 8]) -> (r: u64)
    ensures
        r == native_number(bytes@, 0),
{
    u64::from_ne_bytes(bytes)
}

fn read_native(a: &[u8; 24], at: usize) -> (r: u64)
    requires
        at + 8 <= 24,
    ensures
        r == native_number(a@, at as int),
{
    number_of_bytes(
        [a[at], a[at + 1], a[at + 2], a[at + 3], a[at + 4], a[at + 5], a[at + 6], a[at + 7]],
    )
}

/// One event. `arg` is a union; a page fault puts its flags and its address
/// there, each in eight bytes in the machine's byte order.
#[derive(Debug, Clone, Copy)]
pub struct UffdMsg {
    pub event: u8,
    pub reserved1: u8,
    pub reserved2: u16,
    pub reserved3: u32,
    pub arg: [u8; 24],
}

impl UffdMsg {
    pub open spec fn flags(self) -> int {
        native_number(self.arg@, 0)
    }

    pub open spec fn address(self) -> int {
        native_number(self.arg@, 8)
    }

    /// The flags and the address of a page fault.
    pub fn as_pagefault(&self) -> (r: (u64, u64))
        ensures
            r.0 == self.flags(),
            r.1 == self.address(),
    {
        (read_native(&self.arg, 0), read_native(&self.arg, 8))
    }
}

/// What polling and reading the descriptor brought.
#[derive(Debug, Clone, Copy, PartialEq, Eq, Structural)]
pub enum PollOutcome {
    /// Nothing to do yet.
    Nothing,
    /// A whole event was read.
    Event,
    /// The poll failed.
    PollFailed,
    /// The read failed.
    ReadFailed,
    /// An event of another length.
    ShortRead,
}

/// Judges a poll (its result, and whether the descriptor was readable) and the
/// read that follows it (its result, and whether it would have blocked).
pub fn poll_event(poll: i32, readable: bool, read: i64, would_block: bool) -> (r: PollOutcome)
    ensures
        r == (if poll < 0 {
            PollOutcome::PollFailed
        } else if poll == 0 || !readable {
            PollOutcome::Nothing
        } else if read < 0 && would_block {
            PollOutcome::Nothing
        } else if read < 0 {
            PollOutcome::ReadFailed
        } else if read != 32 {
            PollOutcome::ShortRead
        } else {
            PollOutcome::Event
        }),
{
    if poll < 0 {
        PollOutcome::PollFailed
    } else if poll == 0 || !readable {
        PollOutcome::Nothing
    } else if read < 0 && would_block {
        PollOutcome::Nothing
    } else if read < 0 {
        PollOutcome::ReadFailed
    } else if read != 32 {
        PollOutcome::ShortRead
    } else {
        PollOutcome::Event
    }
}

} // verus!
