//! Plain value types shared across the emulation layer: per-open-file and
//! per-descriptor flags, readiness states, socket kinds, addresses, and the
//! result protocol of the system-call handlers.

use vstd::prelude::*;
use crate::errno::Errno;

verus! {

/// Per-open-file status flags (distinct from descriptor flags).
#[derive(Clone, Copy, Debug, PartialEq, Eq, Structural)]
pub struct FileStatus {
    pub nonblock: bool,
    pub direct: bool,
}

impl FileStatus {
    pub fn empty() -> (r: FileStatus)
        ensures
            r == (FileStatus { nonblock: false, direct: false }),
    {
        FileStatus { nonblock: false, direct: false }
    }
}

/// Per-descriptor flags: only close-on-exec.
#[derive(Clone, Copy, Debug, PartialEq, Eq, Structural)]
pub struct DescriptorFlags {
    pub cloexec: bool,
}

impl DescriptorFlags {
    pub fn empty() -> (r: DescriptorFlags)
        ensures
            r == (DescriptorFlags { cloexec: false }),
    {
        DescriptorFlags { cloexec: false }
    }
}

/// Which end of a pipe a file object is.
#[derive(Clone, Copy, Debug, PartialEq, Eq, Structural)]
pub enum FileMode {
    Read,
    Write,
}

/// Current readiness of a file, used to decide and trigger blocking.
#[derive(Clone, Copy, Debug, PartialEq, Eq, Structural)]
pub struct FileState {
    pub readable: bool,
    pub writable: bool,
    pub closed: bool,
}

impl FileState {
    /// Whether any bit of `mask` is set in `self`.
    pub open spec fn spec_intersects(self, mask: FileState) -> bool {
        (self.readable && mask.readable) || (self.writable && mask.writable)
            || (self.closed && mask.closed)
    }

    pub fn intersects(self, mask: FileState) -> (r: bool)
        ensures
            r == self.spec_intersects(mask),
    {
        (self.readable && mask.readable) || (self.writable && mask.writable)
            || (self.closed && mask.closed)
    }

    pub fn readable_mask() -> (r: FileState)
        ensures
            r == (FileState { readable: true, writable: false, closed: false }),
    {
        FileState { readable: true, writable: false, closed: false }
    }

    pub fn writable_mask() -> (r: FileState)
        ensures
            r == (FileState { readable: false, writable: true, closed: false }),
    {
        FileState { readable: false, writable: true, closed: false }
    }
}

/// Unix-domain socket kinds handled natively.
#[derive(Clone, Copy, Debug, PartialEq, Eq, Structural)]
pub enum UnixSocketType {
    Stream,
    Dgram,
    SeqPacket,
}

impl UnixSocketType {
    /// Maps a `SOCK_*` type value to a unix socket kind, as the kernel
    /// accepts them for `AF_UNIX`.
    pub fn try_from_raw(raw: i32) -> (r: Option<UnixSocketType>)
        ensures
            r == UnixSocketType::spec_from_raw(raw),
    {
        if raw == crate::abi::SOCK_STREAM {
            Some(UnixSocketType::Stream)
        } else if raw == crate::abi::SOCK_DGRAM {
            Some(UnixSocketType::Dgram)
        } else if raw == crate::abi::SOCK_SEQPACKET {
            Some(UnixSocketType::SeqPacket)
        } else {
            None
        }
    }

    pub open spec fn spec_from_raw(raw: i32) -> Option<UnixSocketType> {
        if raw == crate::abi::SOCK_STREAM {
            Some(UnixSocketType::Stream)
        } else if raw == crate::abi::SOCK_DGRAM {
            Some(UnixSocketType::Dgram)
        } else if raw == crate::abi::SOCK_SEQPACKET {
            Some(UnixSocketType::SeqPacket)
        } else {
            None
        }
    }

    /// The `SOCK_*` value of this kind.
    pub fn to_raw(self) -> (r: i32)
        ensures
            UnixSocketType::spec_from_raw(r) == Some(self),
    {
        match self {
            UnixSocketType::Stream => crate::abi::SOCK_STREAM,
            UnixSocketType::Dgram => crate::abi::SOCK_DGRAM,
            UnixSocketType::SeqPacket => crate::abi::SOCK_SEQPACKET,
        }
    }
}

/// A socket address, as the marshaling collaborator hands it over.
#[derive(Clone, Debug, PartialEq, Eq)]
pub enum Sockaddr {
    /// A unix-domain address: the (abstract) path, possibly empty (unnamed).
    Unix { path: Vec<u8> },
    /// An internet address; carried through but only the legacy path uses it.
    Inet { ip: u32, port: u16 },
}

/// The mathematical form of a socket address.
pub enum AddrView {
    Unix { path: Seq<u8> },
    Inet { ip: u32, port: u16 },
}

impl View for Sockaddr {
    type V = AddrView;

    open spec fn view(&self) -> AddrView {
        match self {
            Sockaddr::Unix { path } => AddrView::Unix { path: path@ },
            Sockaddr::Inet { ip, port } => AddrView::Inet { ip: *ip, port: *port },
        }
    }
}

/// The direction argument of `shutdown`.
#[derive(Clone, Copy, Debug, PartialEq, Eq, Structural)]
pub enum ShutdownHow {
    Read,
    Write,
    Both,
}

/// A pointer into the guest's address space; 0 is the null pointer.
#[derive(Clone, Copy, Debug, PartialEq, Eq, Structural)]
pub struct PluginPtr {
    pub val: usize,
}

impl PluginPtr {
    pub fn new(val: usize) -> (r: PluginPtr)
        ensures
            r.val == val,
    {
        PluginPtr { val }
    }

    pub fn null() -> (r: PluginPtr)
        ensures
            r.val == 0,
    {
        PluginPtr { val: 0 }
    }

    pub fn is_null(self) -> (r: bool)
        ensures
            r == (self.val == 0),
    {
        self.val == 0
    }
}

/// The system calls that can be redirected wholesale to the legacy
/// (non-native) fallback implementation.
#[derive(Clone, Copy, Debug, PartialEq, Eq, Structural)]
pub enum LegacySyscall {
    Socket,
    Bind,
    Sendto,
    Recvfrom,
    Getsockname,
    Getpeername,
    Listen,
    Accept,
    Accept4,
    Connect,
    Shutdown,
    Getsockopt,
    Setsockopt,
    Read,
    Pread64,
    Write,
    Pwrite64,
}

/// What the external scheduler must watch: a file and the readiness bits
/// that make a blocked call runnable again.
#[derive(Clone, Copy, Debug, PartialEq, Eq, Structural)]
pub struct Trigger {
    /// Handle of the watched file in the file table.
    pub file: usize,
    /// The readiness bits awaited; any one of them suffices.
    pub state: FileState,
}

/// The suspended-syscall token handed to the external scheduler.
#[derive(Clone, Copy, Debug, PartialEq, Eq, Structural)]
pub struct Blocked {
    pub trigger: Trigger,
    /// Whether the call auto-restarts after a signal (`SA_RESTART`); when
    /// false the scheduler must surface `EINTR` instead of resuming.
    pub restartable: bool,
}

/// How an emulated system call ends, besides plain success.
#[derive(Clone, Copy, Debug, PartialEq, Eq, Structural)]
pub enum SyscallError {
    /// A POSIX error returned to the guest.
    Failed(Errno),
    /// The call must appear to block; the scheduler re-invokes it once the
    /// trigger fires. The condition holding the active file stays with the
    /// calling thread.
    Blocked(Blocked),
    /// The whole call is redirected to the legacy fallback entry point.
    Legacy(LegacySyscall),
}

/// Result protocol of every emulated system call.
pub type SyscallResult = Result<i64, SyscallError>;

/// A deferred notification: a file reached a new readiness state while a
/// call was mutating shared objects. Collected in a queue and published
/// only after the mutating operation has fully returned.
#[derive(Clone, Copy, Debug, PartialEq, Eq, Structural)]
pub struct StateEvent {
    pub file: usize,
    pub state: FileState,
}

} // verus!
