//! Linux ABI constants used by the emulated system calls: address families,
//! socket types, per-call flags and option names, with their kernel values.

use vstd::prelude::*;

verus! {

pub const AF_UNIX: i32 = 1;
pub const AF_INET: i32 = 2;

pub const SOCK_STREAM: i32 = 1;
pub const SOCK_DGRAM: i32 = 2;
pub const SOCK_SEQPACKET: i32 = 5;

/// `SOCK_NONBLOCK`, equal to `O_NONBLOCK`.
pub const SOCK_NONBLOCK: i32 = 0x800;
/// `SOCK_CLOEXEC`, equal to `O_CLOEXEC`.
pub const SOCK_CLOEXEC: i32 = 0x80000;

pub const IPPROTO_TCP: i32 = 6;

pub const O_NONBLOCK: i32 = 0x800;
pub const O_DIRECT: i32 = 0x4000;
pub const O_CLOEXEC: i32 = 0x80000;

pub const MSG_OOB: i32 = 0x1;
pub const MSG_PEEK: i32 = 0x2;
pub const MSG_DONTWAIT: i32 = 0x40;
pub const MSG_NOSIGNAL: i32 = 0x4000;

/// The union of every `MSG_*` flag bit defined on Linux: `MSG_OOB`,
/// `MSG_PEEK`, `MSG_CTRUNC`, `MSG_TRUNC`, `MSG_DONTWAIT`, `MSG_EOR`,
/// `MSG_WAITALL`, `MSG_ERRQUEUE`, `MSG_NOSIGNAL`, `MSG_NOTIFICATION`,
/// `MSG_WAITFORONE` and `MSG_CMSG_CLOEXEC`. Bits outside this mask are
/// not message flags at all and are silently dropped, matching kernel
/// leniency for unknown bits.
pub const MSG_DEFINED_MASK: i32 = 0x4001E1EB;

pub const SHUT_RD: i32 = 0;
pub const SHUT_WR: i32 = 1;
pub const SHUT_RDWR: i32 = 2;

pub const SOL_SOCKET: i32 = 1;
pub const SO_TYPE: i32 = 3;
pub const SO_ERROR: i32 = 4;
pub const SO_SNDBUF: i32 = 7;
pub const SO_RCVBUF: i32 = 8;
pub const SO_DOMAIN: i32 = 39;

/// The flags `sendto` and `recvfrom` accept: `MSG_DONTWAIT`, and
/// `MSG_NOSIGNAL` which is accepted as a no-op (suppressing `SIGPIPE`
/// is outside the simulation's scope).
pub const MSG_SUPPORTED: i32 = 0x4040;

/// Message flags with undefined bits dropped, as the kernel does before
/// any validity check.
pub open spec fn spec_truncate_msg_flags(flags: i32) -> i32 {
    flags & MSG_DEFINED_MASK
}

/// Whether the defined bits of `flags` are all supported ones.
pub open spec fn spec_msg_flags_supported(flags: i32) -> bool {
    spec_truncate_msg_flags(flags) & !MSG_SUPPORTED == 0
}

/// Whether `flags` carries the per-call don't-wait bit (after truncation).
pub open spec fn spec_msg_dontwait(flags: i32) -> bool {
    spec_truncate_msg_flags(flags) & MSG_DONTWAIT != 0
}

} // verus!
