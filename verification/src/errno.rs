//! POSIX errno values that the emulated system calls can produce.

use vstd::prelude::*;

verus! {

/// The error taxonomy of the emulation layer, mapped to Linux errno numbers.
#[derive(Clone, Copy, Debug, PartialEq, Eq, Structural)]
pub enum Errno {
    /// Operation not permitted restart marker: interrupted system call.
    EINTR,
    /// Bad file descriptor.
    EBADF,
    /// Operation would block (same number as EAGAIN on Linux).
    EWOULDBLOCK,
    /// Bad address in guest memory.
    EFAULT,
    /// Invalid argument.
    EINVAL,
    /// File table overflow.
    ENFILE,
    /// Illegal seek (on objects without a file position).
    ESPIPE,
    /// Broken pipe: write with no reader.
    EPIPE,
    /// Socket operation on a non-socket.
    ENOTSOCK,
    /// Protocol not available.
    ENOPROTOOPT,
    /// Protocol not supported.
    EPROTONOSUPPORT,
    /// Operation not supported.
    EOPNOTSUPP,
    /// Address family not supported.
    EAFNOSUPPORT,
    /// Address already in use.
    EADDRINUSE,
    /// The socket is already connected.
    EISCONN,
    /// The socket is not connected.
    ENOTCONN,
    /// Connection refused.
    ECONNREFUSED,
}

impl Errno {
    /// The Linux errno number of this error.
    pub fn to_raw(self) -> (r: i32)
        ensures
            r == self.spec_raw(),
    {
        match self {
            Errno::EINTR => 4,
            Errno::EBADF => 9,
            Errno::EWOULDBLOCK => 11,
            Errno::EFAULT => 14,
            Errno::EINVAL => 22,
            Errno::ENFILE => 23,
            Errno::ESPIPE => 29,
            Errno::EPIPE => 32,
            Errno::ENOTSOCK => 88,
            Errno::ENOPROTOOPT => 92,
            Errno::EPROTONOSUPPORT => 93,
            Errno::EOPNOTSUPP => 95,
            Errno::EAFNOSUPPORT => 97,
            Errno::EADDRINUSE => 98,
            Errno::EISCONN => 106,
            Errno::ENOTCONN => 107,
            Errno::ECONNREFUSED => 111,
        }
    }

    /// The Linux errno number, at the specification level.
    pub open spec fn spec_raw(self) -> int {
        match self {
            Errno::EINTR => 4,
            Errno::EBADF => 9,
            Errno::EWOULDBLOCK => 11,
            Errno::EFAULT => 14,
            Errno::EINVAL => 22,
            Errno::ENFILE => 23,
            Errno::ESPIPE => 29,
            Errno::EPIPE => 32,
            Errno::ENOTSOCK => 88,
            Errno::ENOPROTOOPT => 92,
            Errno::EPROTONOSUPPORT => 93,
            Errno::EOPNOTSUPP => 95,
            Errno::EAFNOSUPPORT => 97,
            Errno::EADDRINUSE => 98,
            Errno::EISCONN => 106,
            Errno::ENOTCONN => 107,
            Errno::ECONNREFUSED => 111,
        }
    }
}

} // verus!
