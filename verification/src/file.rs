//! The file object model: the tagged variants standing for kernel objects
//! (sockets, pipes), the arena that owns them, and the reference-counted
//! `OpenFile` handle shared by descriptors and blocked conditions.

use vstd::prelude::*;
use crate::types::{FileMode, FileState, FileStatus, UnixSocketType};

verus! {

/// Number of slots in the file table; a handle is an index below this.
pub const FILE_TABLE_SIZE: usize = 1024;

/// Default capacity of a pipe or socket buffer, in bytes.
pub const DEFAULT_BUFFER_SIZE: usize = 65536;

/// A bounded byte conduit between two file objects.
#[derive(Clone, Debug, PartialEq, Eq)]
pub struct ByteBuffer {
    /// Pending bytes; the front is the next byte to be read.
    pub data: Vec<u8>,
    /// Upper bound on `data.len()`.
    pub capacity: usize,
}

impl ByteBuffer {
    pub open spec fn wf(self) -> bool {
        self.data@.len() <= self.capacity && 1 <= self.capacity <= 0x7fffffff
    }

    pub fn new(capacity: usize) -> (r: ByteBuffer)
        requires
            1 <= capacity <= 0x7fffffff,
        ensures
            r.wf(),
            r.data@ == Seq::<u8>::empty(),
            r.capacity == capacity,
    {
        ByteBuffer { data: Vec::new(), capacity }
    }
}

/// One end of a pipe. The byte buffer lives in the read end; the write end
/// reaches it through its peer link.
#[derive(Clone, Debug, PartialEq, Eq)]
pub struct Pipe {
    pub mode: FileMode,
    pub status: FileStatus,
    /// Handle of the opposite end, while it is open.
    pub peer: Option<usize>,
    /// True once the opposite end has been torn down.
    pub peer_closed: bool,
    /// The pipe's buffer; meaningful in the read end only.
    pub buf: ByteBuffer,
}

/// Acceptance state of a listening unix socket.
#[derive(Clone, Debug, PartialEq, Eq)]
pub struct ListenState {
    /// Clamped backlog; the accept queue never grows beyond it.
    pub backlog: usize,
    /// Handles of fully created, not yet accepted peer sockets. Each entry
    /// owns one reference to its file.
    pub queue: Vec<usize>,
}

/// A unix-domain socket.
#[derive(Clone, Debug, PartialEq, Eq)]
pub struct UnixSocket {
    pub status: FileStatus,
    pub stype: UnixSocketType,
    /// The name this socket is bound to in the abstract namespace.
    pub bound: Option<Vec<u8>>,
    /// Handle of the connected peer socket, while it is open.
    pub peer: Option<usize>,
    /// The peer's bound name, recorded when the connection was made.
    pub peer_addr: Option<Vec<u8>>,
    /// Default destination name of a datagram socket, set by `connect`.
    pub default_dest: Option<Vec<u8>>,
    /// Bytes queued for this socket to read.
    pub recv_buf: ByteBuffer,
    /// True once a connected peer has been torn down or has shut down its
    /// sending side.
    pub peer_closed: bool,
    /// Reading side shut down.
    pub shut_recv: bool,
    /// Writing side shut down.
    pub shut_send: bool,
    /// Present while the socket is in listening acceptance mode.
    pub listen: Option<ListenState>,
}

impl UnixSocket {
    pub fn new(status: FileStatus, stype: UnixSocketType) -> (r: UnixSocket)
        ensures
            r == (UnixSocket {
                status,
                stype,
                bound: None::<Vec<u8>>,
                peer: None::<usize>,
                peer_addr: None::<Vec<u8>>,
                default_dest: None::<Vec<u8>>,
                recv_buf: r.recv_buf,
                peer_closed: false,
                shut_recv: false,
                shut_send: false,
                listen: None::<ListenState>,
            }),
            r.recv_buf.wf(),
            r.recv_buf.data@ == Seq::<u8>::empty(),
            r.recv_buf.capacity == DEFAULT_BUFFER_SIZE,
    {
        UnixSocket {
            status,
            stype,
            bound: None,
            peer: None,
            peer_addr: None,
            default_dest: None,
            recv_buf: ByteBuffer::new(DEFAULT_BUFFER_SIZE),
            peer_closed: false,
            shut_recv: false,
            shut_send: false,
            listen: None,
        }
    }
}

/// An internet socket handled by the legacy TCP implementation: opaque to
/// the native layer, which defers every operation on it.
#[derive(Clone, Debug, PartialEq, Eq)]
pub struct InetSocket {
    pub status: FileStatus,
}

/// The socket family layer over `File`.
#[derive(Clone, Debug, PartialEq, Eq)]
pub enum Socket {
    Unix(UnixSocket),
    Inet(InetSocket),
}

/// A kernel object: the closed set of kinds handled natively.
#[derive(Clone, Debug, PartialEq, Eq)]
pub enum File {
    Pipe(Pipe),
    Socket(Socket),
}

impl File {
    /// The per-open-file status flags of this object.
    pub open spec fn spec_status(self) -> FileStatus {
        match self {
            File::Pipe(p) => p.status,
            File::Socket(Socket::Unix(s)) => s.status,
            File::Socket(Socket::Inet(s)) => s.status,
        }
    }

    pub fn get_status(&self) -> (r: FileStatus)
        ensures
            r == self.spec_status(),
    {
        match self {
            File::Pipe(p) => p.status,
            File::Socket(Socket::Unix(s)) => s.status,
            File::Socket(Socket::Inet(s)) => s.status,
        }
    }

    /// Whether a call blocked on this file auto-restarts after a signal.
    pub open spec fn spec_supports_sa_restart(self) -> bool {
        match self {
            File::Pipe(_) => true,
            File::Socket(Socket::Unix(_)) => true,
            File::Socket(Socket::Inet(_)) => false,
        }
    }

    pub fn supports_sa_restart(&self) -> (r: bool)
        ensures
            r == self.spec_supports_sa_restart(),
    {
        match self {
            File::Pipe(_) => true,
            File::Socket(Socket::Unix(_)) => true,
            File::Socket(Socket::Inet(_)) => false,
        }
    }

    /// The peer link of this object, if its kind has one.
    pub open spec fn spec_peer(self) -> Option<usize> {
        match self {
            File::Pipe(p) => p.peer,
            File::Socket(Socket::Unix(s)) => s.peer,
            File::Socket(Socket::Inet(_)) => None,
        }
    }

    /// The accept queue of this object; empty unless it is a listening
    /// unix socket.
    pub open spec fn spec_queue(self) -> Seq<usize> {
        match self {
            File::Socket(Socket::Unix(s)) => match s.listen {
                Some(l) => l.queue@,
                None => Seq::empty(),
            },
            _ => Seq::empty(),
        }
    }

    /// The namespace name this object is bound to, if any.
    pub open spec fn spec_bound(self) -> Option<Seq<u8>> {
        match self {
            File::Socket(Socket::Unix(s)) => match s.bound {
                Some(n) => Some(n@),
                None => None,
            },
            _ => None,
        }
    }

    /// Structural facts local to one file object.
    pub open spec fn local_wf(self) -> bool {
        match self {
            File::Pipe(p) => {
                &&& p.buf.wf()
                &&& (p.mode is Write ==> p.buf.data@.len() == 0)
                &&& (p.peer_closed ==> p.peer is None)
            },
            File::Socket(Socket::Unix(s)) => {
                &&& s.recv_buf.wf()
                &&& (s.listen is Some ==> s.peer is None)
            },
            File::Socket(Socket::Inet(_)) => true,
        }
    }
}

/// The same file with its peer link severed and the peer marked closed.
pub open spec fn spec_clear_peer(f: File) -> File {
    match f {
        File::Pipe(p) => File::Pipe(Pipe { peer: None, peer_closed: true, ..p }),
        File::Socket(Socket::Unix(u)) => File::Socket(
            Socket::Unix(UnixSocket { peer: None, peer_closed: true, ..u }),
        ),
        File::Socket(Socket::Inet(_)) => f,
    }
}

/// Severs the peer link of a file object, marking the peer closed.
pub fn clear_peer(f: File) -> (r: File)
    ensures
        r == spec_clear_peer(f),
{
    match f {
        File::Pipe(p) => File::Pipe(Pipe { peer: None, peer_closed: true, ..p }),
        File::Socket(Socket::Unix(u)) => File::Socket(
            Socket::Unix(UnixSocket { peer: None, peer_closed: true, ..u }),
        ),
        File::Socket(Socket::Inet(s)) => File::Socket(Socket::Inet(s)),
    }
}

/// One occupied slot of the file table: the object and the number of live
/// references to it (descriptors, blocked conditions, accept-queue entries
/// and in-flight `OpenFile` values).
#[derive(Clone, Debug, PartialEq, Eq)]
pub struct FileSlot {
    pub refcount: usize,
    pub file: File,
}

/// A reference-counted handle to a file in the table. Each value stands for
/// exactly one unit of its file's reference count; it is duplicated and
/// released only through the context, which adjusts the count.
#[derive(Debug, PartialEq, Eq, Structural)]
pub struct OpenFile {
    pub handle: usize,
}

/// The arena of kernel objects: `OpenFile` handles index into it.
#[derive(Clone, Debug, PartialEq, Eq)]
pub struct FileTable {
    pub slots: Vec<Option<FileSlot>>,
}

impl FileTable {
    pub fn new() -> (r: FileTable)
        ensures
            r.slots@.len() == FILE_TABLE_SIZE,
            forall|i: int| 0 <= i < FILE_TABLE_SIZE ==> r.slots@[i] is None,
    {
        let mut slots: Vec<Option<FileSlot>> = Vec::new();
        let mut i: usize = 0;
        while i < FILE_TABLE_SIZE
            invariant
                i <= FILE_TABLE_SIZE,
                slots@.len() == i,
                forall|j: int| 0 <= j < i ==> slots@[j] is None,
            decreases FILE_TABLE_SIZE - i,
        {
            slots.push(None);
            i = i + 1;
        }
        FileTable { slots }
    }
}

/// The readiness state of the file at handle `h`, derived from the file
/// objects. Writability of a connected socket depends on its peer's buffer,
/// so the whole table is consulted.
pub open spec fn spec_file_state(files: Seq<Option<FileSlot>>, h: int) -> FileState {
    match files[h] {
        Some(slot) => match slot.file {
            File::Pipe(p) => match p.mode {
                FileMode::Read => FileState {
                    readable: p.buf.data@.len() > 0 || p.peer_closed,
                    writable: false,
                    closed: false,
                },
                FileMode::Write => FileState {
                    readable: false,
                    writable: p.peer_closed || match p.peer {
                        Some(q) => 0 <= q < files.len() && match files[q as int] {
                            Some(ps) => match ps.file {
                                File::Pipe(rp) => rp.buf.data@.len() < rp.buf.capacity,
                                _ => false,
                            },
                            None => false,
                        },
                        None => false,
                    },
                    closed: false,
                },
            },
            File::Socket(Socket::Unix(s)) => match s.listen {
                Some(l) => FileState {
                    readable: l.queue@.len() > 0,
                    writable: l.queue@.len() < l.backlog,
                    closed: false,
                },
                None => FileState {
                    readable: s.recv_buf.data@.len() > 0 || s.peer_closed || s.shut_recv
                        || match s.peer {
                        Some(q) => 0 <= q < files.len() && match files[q as int] {
                            Some(ps) => match ps.file {
                                File::Socket(Socket::Unix(rs)) => rs.shut_send,
                                _ => false,
                            },
                            None => false,
                        },
                        None => false,
                    },
                    writable: s.shut_send || s.peer_closed || match s.peer {
                        Some(q) => 0 <= q < files.len() && match files[q as int] {
                            Some(ps) => match ps.file {
                                File::Socket(Socket::Unix(rs)) => rs.shut_recv
                                    || rs.recv_buf.data@.len() < rs.recv_buf.capacity,
                                _ => false,
                            },
                            None => false,
                        },
                        None => s.stype is Dgram,
                    },
                    closed: false,
                },
            },
            File::Socket(Socket::Inet(_)) => FileState {
                readable: false,
                writable: false,
                closed: false,
            },
        },
        None => FileState { readable: false, writable: false, closed: true },
    }
}

/// Computes the readiness state of the file at `h`.
pub fn file_state(files: &Vec<Option<FileSlot>>, h: usize) -> (r: FileState)
    requires
        h < files@.len(),
    ensures
        r == spec_file_state(files@, h as int),
{
    match &files[h] {
        Some(slot) => match &slot.file {
            File::Pipe(p) => match p.mode {
                FileMode::Read => FileState {
                    readable: p.buf.data.len() > 0 || p.peer_closed,
                    writable: false,
                    closed: false,
                },
                FileMode::Write => {
                    let writable = p.peer_closed || match p.peer {
                        Some(q) => q < files.len() && match &files[q] {
                            Some(ps) => match &ps.file {
                                File::Pipe(rp) => rp.buf.data.len() < rp.buf.capacity,
                                _ => false,
                            },
                            None => false,
                        },
                        None => false,
                    };
                    FileState { readable: false, writable, closed: false }
                },
            },
            File::Socket(Socket::Unix(s)) => match &s.listen {
                Some(l) => FileState {
                    readable: l.queue.len() > 0,
                    writable: l.queue.len() < l.backlog,
                    closed: false,
                },
                None => {
                    let readable = s.recv_buf.data.len() > 0 || s.peer_closed || s.shut_recv
                        || match s.peer {
                        Some(q) => q < files.len() && match &files[q] {
                            Some(ps) => match &ps.file {
                                File::Socket(Socket::Unix(rs)) => rs.shut_send,
                                _ => false,
                            },
                            None => false,
                        },
                        None => false,
                    };
                    let writable = s.shut_send || s.peer_closed || match s.peer {
                        Some(q) => q < files.len() && match &files[q] {
                            Some(ps) => match &ps.file {
                                File::Socket(Socket::Unix(rs)) => rs.shut_recv
                                    || rs.recv_buf.data.len() < rs.recv_buf.capacity,
                                _ => false,
                            },
                            None => false,
                        },
                        None => matches!(s.stype, UnixSocketType::Dgram),
                    };
                    FileState { readable, writable, closed: false }
                },
            },
            File::Socket(Socket::Inet(_)) => FileState {
                readable: false,
                writable: false,
                closed: false,
            },
        },
        None => FileState { readable: false, writable: false, closed: true },
    }
}

} // verus!
