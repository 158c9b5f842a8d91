//! The socket capability layer: the operations a system call invokes on a
//! resolved file object — data transfer, binding, listening, connecting,
//! accepting, shutdown and options — each specified by a plan computed
//! from the current table state.

use vstd::prelude::*;
use crate::callback::CallbackQueue;
use crate::context::{
    is_listening, lemma_inv_pair_update, lemma_inv_payload_update, lemma_inv_same_views,
    lemma_queue_refs_update, slot_queue, SyscallContext,
};
use crate::errno::Errno;
use crate::file::{
    file_state, spec_file_state, File, FileSlot, Pipe, Socket, UnixSocket, FILE_TABLE_SIZE,
};
use crate::types::{FileMode, StateEvent, UnixSocketType};

verus! {

/// What a receive attempt on the socket at `h` must do, given the table.
pub enum RecvPlan {
    /// Fail immediately with this error (`EWOULDBLOCK` means the caller
    /// decides between blocking and surfacing the error).
    Fail(Errno),
    /// End-of-stream: zero bytes, no state change.
    Eof,
    /// Deliver the first `count` pending bytes and the peer's address.
    Data { count: int },
}

/// The receive plan of the unix socket at `h`.
pub open spec fn spec_recv_plan(files: Seq<Option<FileSlot>>, h: int, n: int) -> RecvPlan {
    match files[h] {
        Some(slot) => match slot.file {
            File::Socket(Socket::Unix(s)) => {
                if s.listen is Some {
                    RecvPlan::Fail(Errno::ENOTCONN)
                } else if s.shut_recv {
                    RecvPlan::Eof
                } else if s.recv_buf.data@.len() > 0 {
                    RecvPlan::Data {
                        count: if n <= s.recv_buf.data@.len() {
                            n
                        } else {
                            s.recv_buf.data@.len() as int
                        },
                    }
                } else if s.peer_closed {
                    RecvPlan::Eof
                } else {
                    match s.peer {
                        Some(p) => match files[p as int] {
                            Some(ps) => match ps.file {
                                File::Socket(Socket::Unix(pu)) => if pu.shut_send {
                                    RecvPlan::Eof
                                } else {
                                    RecvPlan::Fail(Errno::EWOULDBLOCK)
                                },
                                _ => RecvPlan::Fail(Errno::EWOULDBLOCK),
                            },
                            None => RecvPlan::Fail(Errno::EWOULDBLOCK),
                        },
                        None => if s.stype is Stream || s.stype is SeqPacket {
                            RecvPlan::Fail(Errno::ENOTCONN)
                        } else {
                            RecvPlan::Fail(Errno::EWOULDBLOCK)
                        },
                    }
                }
            },
            _ => RecvPlan::Fail(Errno::ENOTSOCK),
        },
        None => RecvPlan::Fail(Errno::EBADF),
    }
}

/// What a send attempt on the socket at `h` must do.
pub enum SendPlan {
    Fail(Errno),
    /// Append the first `count` bytes to the receive buffer of the file
    /// at `to`.
    Deliver { to: int, count: int },
}

/// Resolves a bound name to its socket handle, searching from `i` on.
pub open spec fn spec_ns_find_from(
    ns: Seq<crate::context::NsEntry>,
    name: Seq<u8>,
    i: int,
) -> Option<usize>
    decreases ns.len() - i,
{
    if i < 0 || i >= ns.len() {
        None
    } else if ns[i].name@ == name {
        Some(ns[i].handle)
    } else {
        spec_ns_find_from(ns, name, i + 1)
    }
}

/// Resolves a bound name to its socket handle.
pub open spec fn spec_ns_find(ns: Seq<crate::context::NsEntry>, name: Seq<u8>) -> Option<usize> {
    spec_ns_find_from(ns, name, 0)
}

/// The send plan of the unix socket at `h` for `len` bytes towards
/// `dest` (an explicit address, if one was given).
pub open spec fn spec_send_plan(
    files: Seq<Option<FileSlot>>,
    ns: Seq<crate::context::NsEntry>,
    h: int,
    len: int,
    dest: Option<Seq<u8>>,
) -> SendPlan {
    match files[h] {
        Some(slot) => match slot.file {
            File::Socket(Socket::Unix(s)) => {
                if s.listen is Some {
                    SendPlan::Fail(Errno::ENOTCONN)
                } else if s.shut_send {
                    SendPlan::Fail(Errno::EPIPE)
                } else if s.stype is Stream || s.stype is SeqPacket {
                    if dest is Some {
                        if s.peer is Some {
                            SendPlan::Fail(Errno::EISCONN)
                        } else {
                            SendPlan::Fail(Errno::ENOTCONN)
                        }
                    } else {
                        match s.peer {
                            Some(p) => spec_deliver_plan(files, p as int, len, false),
                            None => if s.peer_closed {
                                SendPlan::Fail(Errno::EPIPE)
                            } else {
                                SendPlan::Fail(Errno::ENOTCONN)
                            },
                        }
                    }
                } else {
                    // datagram: resolve an explicit or default destination
                    match dest {
                        Some(name) => match spec_ns_find(ns, name) {
                            Some(t) => spec_deliver_plan(files, t as int, len, true),
                            None => SendPlan::Fail(Errno::ECONNREFUSED),
                        },
                        None => match s.peer {
                            Some(p) => spec_deliver_plan(files, p as int, len, true),
                            None => match s.default_dest {
                                Some(name) => match spec_ns_find(ns, name@) {
                                    Some(t) => spec_deliver_plan(files, t as int, len, true),
                                    None => SendPlan::Fail(Errno::ECONNREFUSED),
                                },
                                None => SendPlan::Fail(Errno::ENOTCONN),
                            },
                        },
                    }
                }
            },
            _ => SendPlan::Fail(Errno::ENOTSOCK),
        },
        None => SendPlan::Fail(Errno::EBADF),
    }
}

/// Delivery into the receive buffer of the socket at `to`: how many bytes
/// fit. A datagram is delivered whole or not at all.
pub open spec fn spec_deliver_plan(
    files: Seq<Option<FileSlot>>,
    to: int,
    len: int,
    atomic: bool,
) -> SendPlan {
    match files[to] {
        Some(ts) => match ts.file {
            File::Socket(Socket::Unix(t)) => {
                if t.shut_recv {
                    SendPlan::Fail(Errno::EPIPE)
                } else {
                    let space = t.recv_buf.capacity - t.recv_buf.data@.len();
                    if len == 0 {
                        SendPlan::Deliver { to, count: 0 }
                    } else if space <= 0 {
                        SendPlan::Fail(Errno::EWOULDBLOCK)
                    } else if atomic && space < len {
                        SendPlan::Fail(Errno::EWOULDBLOCK)
                    } else {
                        SendPlan::Deliver { to, count: if len <= space { len } else { space } }
                    }
                }
            },
            _ => SendPlan::Fail(Errno::ECONNREFUSED),
        },
        None => SendPlan::Fail(Errno::ECONNREFUSED),
    }
}

/// Splits off the first `k` bytes.
pub fn split_front(v: &Vec<u8>, k: usize) -> (r: (Vec<u8>, Vec<u8>))
    requires
        k <= v@.len(),
    ensures
        r.0@ == v@.subrange(0, k as int),
        r.1@ == v@.subrange(k as int, v@.len() as int),
{
    let mut front: Vec<u8> = Vec::new();
    let mut back: Vec<u8> = Vec::new();
    let mut i: usize = 0;
    while i < k
        invariant
            i <= k <= v@.len(),
            front@.len() == i,
            forall|j: int| 0 <= j < i ==> front@[j] == v@[j],
        decreases k - i,
    {
        front.push(v[i]);
        i = i + 1;
    }
    let mut j: usize = k;
    while j < v.len()
        invariant
            k <= j <= v@.len(),
            back@.len() == j - k,
            forall|t: int| 0 <= t < j - k ==> back@[t] == v@[k + t],
        decreases v@.len() - j,
    {
        back.push(v[j]);
        j = j + 1;
    }
    proof {
        assert(front@ =~= v@.subrange(0, k as int));
        assert(back@ =~= v@.subrange(k as int, v@.len() as int));
    }
    (front, back)
}

/// Appends the first `k` bytes of `src` to `dst`.
pub fn append_front(dst: &Vec<u8>, src: &Vec<u8>, k: usize) -> (r: Vec<u8>)
    requires
        k <= src@.len(),
    ensures
        r@ == dst@ + src@.subrange(0, k as int),
{
    let mut out: Vec<u8> = Vec::new();
    let mut i: usize = 0;
    while i < dst.len()
        invariant
            i <= dst@.len(),
            out@.len() == i,
            forall|j: int| 0 <= j < i ==> out@[j] == dst@[j],
        decreases dst@.len() - i,
    {
        out.push(dst[i]);
        i = i + 1;
    }
    let mut j: usize = 0;
    while j < k
        invariant
            j <= k <= src@.len(),
            out@.len() == dst@.len() + j,
            forall|t: int| 0 <= t < dst@.len() ==> out@[t] == dst@[t],
            forall|t: int| 0 <= t < j ==> out@[dst@.len() + t] == src@[t],
        decreases k - j,
    {
        out.push(src[j]);
        j = j + 1;
    }
    proof {
        assert(out@ =~= dst@ + src@.subrange(0, k as int));
    }
    out
}

impl SyscallContext {
    /// Resolves a bound name in the abstract namespace.
    pub fn ns_find(&self, name: &Vec<u8>) -> (r: Option<usize>)
        ensures
            r == spec_ns_find(self.ns@, name@),
    {
        let n = self.ns.len();
        let mut i: usize = 0;
        while i < n
            invariant
                i <= n,
                n == self.ns@.len(),
                spec_ns_find(self.ns@, name@) == spec_ns_find_from(self.ns@, name@, i as int),
            decreases n - i,
        {
            if crate::sockops::bytes_eq(&self.ns[i].name, name) {
                return Some(self.ns[i].handle);
            }
            i = i + 1;
        }
        None
    }
}

/// Byte-for-byte equality of two byte vectors.
pub fn bytes_eq(a: &Vec<u8>, b: &Vec<u8>) -> (r: bool)
    ensures
        r == (a@ == b@),
{
    if a.len() != b.len() {
        proof {
            assert(a@.len() != b@.len());
        }
        return false;
    }
    let n = a.len();
    let mut i: usize = 0;
    while i < n
        invariant
            i <= n,
            n == a@.len() && n == b@.len(),
            forall|j: int| 0 <= j < i ==> a@[j] == b@[j],
        decreases n - i,
    {
        if a[i] != b[i] {
            return false;
        }
        i = i + 1;
    }
    proof {
        assert(a@ =~= b@);
    }
    true
}

/// The unix socket stored at `h`; meaningful only when one is there.
pub open spec fn spec_unix_at(files: Seq<Option<FileSlot>>, h: int) -> UnixSocket {
    match files[h] {
        Some(s) => match s.file {
            File::Socket(Socket::Unix(u)) => u,
            _ => arbitrary(),
        },
        None => arbitrary(),
    }
}

/// The reference count stored at `h`.
pub open spec fn spec_rc_at(files: Seq<Option<FileSlot>>, h: int) -> usize {
    match files[h] {
        Some(s) => s.refcount,
        None => arbitrary(),
    }
}

/// The recorded peer address of the socket at `h`, as a byte sequence.
pub open spec fn spec_peer_addr(files: Seq<Option<FileSlot>>, h: int) -> Option<Seq<u8>> {
    match spec_unix_at(files, h).peer_addr {
        Some(a) => Some(a@),
        None => None,
    }
}

/// Whether an optional byte vector carries exactly the given sequence.
pub open spec fn addr_opt_matches(a: Option<Vec<u8>>, b: Option<Seq<u8>>) -> bool {
    match (a, b) {
        (Some(x), Some(y)) => x@ == y,
        (None, None) => true,
        _ => false,
    }
}

/// The view of an optional byte vector.
pub open spec fn opt_bytes_view(a: Option<Vec<u8>>) -> Option<Seq<u8>> {
    match a {
        Some(x) => Some(x@),
        None => None,
    }
}

impl SyscallContext {
    /// Receives up to `n` bytes from the unix socket at `h`, as its plan
    /// prescribes: pending bytes are drained from the front of its
    /// receive buffer, end-of-stream yields zero bytes, and an empty
    /// buffer with a live peer reports `EWOULDBLOCK` for the caller to
    /// turn into blocking or an error. Draining space queues a readiness
    /// notification for the peer.
    pub fn sock_recvfrom(&mut self, h: usize, n: usize, q: &mut CallbackQueue) -> (r: Result<
        (Vec<u8>, Option<Vec<u8>>),
        Errno,
    >)
        requires
            old(self).inv(),
            h < FILE_TABLE_SIZE,
            old(self).files.slots@[h as int] is Some,
        ensures
            final(self).inv(),
            final(self).descriptors == old(self).descriptors,
            final(self).condition == old(self).condition,
            final(self).ns == old(self).ns,
            final(self).events == old(self).events,
            final(self).mem == old(self).mem,
            forall|k: int| #[trigger] final(self).total_refs(k) == old(self).total_refs(k),
            match spec_recv_plan(old(self).files.slots@, h as int, n as int) {
                RecvPlan::Fail(e) => r == Err::<(Vec<u8>, Option<Vec<u8>>), Errno>(e) && final(self).files.slots@ == old(self).files.slots@ && final(q).queue@ == old(q).queue@,
                RecvPlan::Eof => (match r {
                    Ok(rr) => rr.0@.len() == 0 && addr_opt_matches(
                        rr.1,
                        spec_peer_addr(old(self).files.slots@, h as int),
                    ),
                    Err(_) => false,
                }) && final(self).files.slots@ == old(self).files.slots@ && final(q).queue@ == old(q).queue@,
                RecvPlan::Data { count } => match r {
                    Ok(rr) => {
                        let s = spec_unix_at(old(self).files.slots@, h as int);
                        let s2 = spec_unix_at(final(self).files.slots@, h as int);
                        &&& rr.0@ == s.recv_buf.data@.subrange(0, count)
                        &&& count <= 0x7fffffff
                        &&& addr_opt_matches(
                            rr.1,
                            spec_peer_addr(old(self).files.slots@, h as int),
                        )
                        &&& final(self).files.slots@[h as int] is Some
                        &&& spec_rc_at(final(self).files.slots@, h as int) == spec_rc_at(
                            old(self).files.slots@,
                            h as int,
                        )
                        &&& s2 == (UnixSocket { recv_buf: s2.recv_buf, ..s })
                        &&& s2.recv_buf.capacity == s.recv_buf.capacity
                        &&& s2.recv_buf.data@ == s.recv_buf.data@.subrange(
                            count,
                            s.recv_buf.data@.len() as int,
                        )
                        &&& forall|k: int|
                            0 <= k < FILE_TABLE_SIZE && k != h ==> final(self).files.slots@[k]
                                == old(self).files.slots@[k]
                        &&& match s.peer {
                            Some(p) => count > 0 ==> final(q).queue@ == old(q).queue@.push(
                                StateEvent {
                                    file: p,
                                    state: spec_file_state(final(self).files.slots@, p as int),
                                },
                            ),
                            None => final(q).queue@ == old(q).queue@,
                        }
                        &&& (count == 0 ==> final(q).queue@ == old(q).queue@)
                    },
                    Err(_) => false,
                },
            },
    {
        let ghost pre = *self;
        let mut tmp: Option<FileSlot> = None;
        core::mem::swap(&mut tmp, &mut self.files.slots[h]);
        let slot = match tmp {
            Some(s) => s,
            None => {
                proof {
                    assert(false);
                }
                vstd::pervasive::unreached()
            },
        };
        let rc = slot.refcount;
        match slot.file {
            File::Socket(Socket::Unix(u)) => {
                if u.listen.is_some() {
                    self.files.slots.set(
                        h,
                        Some(FileSlot { refcount: rc, file: File::Socket(Socket::Unix(u)) }),
                    );
                    proof {
                        assert(self.files.slots@ =~= pre.files.slots@);
                        lemma_inv_same_views(pre, *self);
                    }
                    Err(Errno::ENOTCONN)
                } else if u.shut_recv {
                    let addr = match &u.peer_addr {
                        Some(a) => Some(crate::context::clone_bytes(a)),
                        None => None,
                    };
                    self.files.slots.set(
                        h,
                        Some(FileSlot { refcount: rc, file: File::Socket(Socket::Unix(u)) }),
                    );
                    proof {
                        assert(self.files.slots@ =~= pre.files.slots@);
                        lemma_inv_same_views(pre, *self);
                    }
                    Ok((Vec::new(), addr))
                } else if u.recv_buf.data.len() > 0 {
                    let have = u.recv_buf.data.len();
                    let k: usize = if n <= have {
                        n
                    } else {
                        have
                    };
                    let (front, back) = split_front(&u.recv_buf.data, k);
                    let addr = match &u.peer_addr {
                        Some(a) => Some(crate::context::clone_bytes(a)),
                        None => None,
                    };
                    let peer = u.peer;
                    let cap = u.recv_buf.capacity;
                    let newu = UnixSocket {
                        recv_buf: crate::file::ByteBuffer { data: back, capacity: cap },
                        ..u
                    };
                    self.files.slots.set(
                        h,
                        Some(FileSlot { refcount: rc, file: File::Socket(Socket::Unix(newu)) }),
                    );
                    proof {
                        assert(pre.slot_inv(h as int));
                        let oldslot = pre.files.slots@[h as int]->0;
                        let newslot = self.files.slots@[h as int]->0;
                        assert(self.files.slots@ =~= pre.files.slots@.update(
                            h as int,
                            Some(newslot),
                        ));
                        lemma_inv_payload_update(pre, *self, h as int, oldslot, newslot);
                    }
                    match peer {
                        Some(p) => {
                            if k > 0 {
                                let st = file_state(&self.files.slots, p);
                                q.push(StateEvent { file: p, state: st });
                            }
                        },
                        None => {},
                    }
                    Ok((front, addr))
                } else if u.peer_closed {
                    let addr = match &u.peer_addr {
                        Some(a) => Some(crate::context::clone_bytes(a)),
                        None => None,
                    };
                    self.files.slots.set(
                        h,
                        Some(FileSlot { refcount: rc, file: File::Socket(Socket::Unix(u)) }),
                    );
                    proof {
                        assert(self.files.slots@ =~= pre.files.slots@);
                        lemma_inv_same_views(pre, *self);
                    }
                    Ok((Vec::new(), addr))
                } else {
                    let peer = u.peer;
                    let stype = u.stype;
                    let addr = match &u.peer_addr {
                        Some(a) => Some(crate::context::clone_bytes(a)),
                        None => None,
                    };
                    self.files.slots.set(
                        h,
                        Some(FileSlot { refcount: rc, file: File::Socket(Socket::Unix(u)) }),
                    );
                    proof {
                        assert(self.files.slots@ =~= pre.files.slots@);
                        lemma_inv_same_views(pre, *self);
                        assert(pre.slot_inv(h as int));
                        assert(pre.peer_clause(h as int));
                    }
                    match peer {
                        Some(p) => {
                            let eof = match &self.files.slots[p] {
                                Some(ps) => match &ps.file {
                                    File::Socket(Socket::Unix(pu)) => pu.shut_send,
                                    _ => false,
                                },
                                None => false,
                            };
                            if eof {
                                Ok((Vec::new(), addr))
                            } else {
                                Err(Errno::EWOULDBLOCK)
                            }
                        },
                        None => match stype {
                            UnixSocketType::Dgram => Err(Errno::EWOULDBLOCK),
                            _ => Err(Errno::ENOTCONN),
                        },
                    }
                }
            },
            other => {
                self.files.slots.set(h, Some(FileSlot { refcount: rc, file: other }));
                proof {
                    assert(self.files.slots@ =~= pre.files.slots@);
                    lemma_inv_same_views(pre, *self);
                }
                Err(Errno::ENOTSOCK)
            },
        }
    }
}

/// A successful namespace lookup names an actual entry.
pub proof fn lemma_ns_find_found(ns: Seq<crate::context::NsEntry>, name: Seq<u8>, i: int)
    ensures
        match spec_ns_find_from(ns, name, i) {
            Some(t) => exists|j: int|
                i <= j < ns.len() && (#[trigger] ns[j]).handle == t && ns[j].name@ == name,
            None => true,
        },
    decreases ns.len() - i,
{
    if 0 <= i < ns.len() {
        if ns[i].name@ == name {
        } else {
            lemma_ns_find_found(ns, name, i + 1);
        }
    }
}

impl SyscallContext {
    /// Sends the bytes of `data` from the unix socket at `h`, towards an
    /// explicit destination name, the connected peer, or the datagram
    /// default destination — whichever its plan prescribes. Delivered
    /// bytes are appended to the target's receive buffer and a readiness
    /// notification for the target is queued.
    #[verifier::rlimit(60)]
    pub fn sock_sendto(
        &mut self,
        h: usize,
        data: &Vec<u8>,
        dest: &Option<Vec<u8>>,
        q: &mut CallbackQueue,
    ) -> (r: Result<usize, Errno>)
        requires
            old(self).inv(),
            h < FILE_TABLE_SIZE,
            old(self).files.slots@[h as int] is Some,
        ensures
            final(self).inv(),
            final(self).descriptors == old(self).descriptors,
            final(self).condition == old(self).condition,
            final(self).ns == old(self).ns,
            final(self).events == old(self).events,
            final(self).mem == old(self).mem,
            forall|k: int| #[trigger] final(self).total_refs(k) == old(self).total_refs(k),
            match spec_send_plan(
                old(self).files.slots@,
                old(self).ns@,
                h as int,
                data@.len() as int,
                opt_bytes_view(*dest),
            ) {
                SendPlan::Fail(e) => r == Err::<usize, Errno>(e) && final(self).files.slots@
                    == old(self).files.slots@ && final(q).queue@ == old(q).queue@,
                SendPlan::Deliver { to, count } => match r {
                    Ok(c) => {
                        let t = spec_unix_at(old(self).files.slots@, to);
                        let t2 = spec_unix_at(final(self).files.slots@, to);
                        &&& c == count
                        &&& c <= 0x7fffffff
                        &&& 0 <= to < FILE_TABLE_SIZE
                        &&& final(self).files.slots@[to] is Some
                        &&& spec_rc_at(final(self).files.slots@, to) == spec_rc_at(
                            old(self).files.slots@,
                            to,
                        )
                        &&& t2 == (UnixSocket { recv_buf: t2.recv_buf, ..t })
                        &&& t2.recv_buf.capacity == t.recv_buf.capacity
                        &&& t2.recv_buf.data@ == t.recv_buf.data@ + data@.subrange(0, count)
                        &&& forall|k: int|
                            0 <= k < FILE_TABLE_SIZE && k != to ==> final(self).files.slots@[k]
                                == old(self).files.slots@[k]
                        &&& (count > 0 ==> final(q).queue@ == old(q).queue@.push(
                            StateEvent {
                                file: to as usize,
                                state: spec_file_state(final(self).files.slots@, to),
                            },
                        ))
                        &&& (count == 0 ==> final(q).queue@ == old(q).queue@)
                    },
                    Err(_) => false,
                },
            },
    {
        let ghost pre = *self;
        // read the sending socket
        let (is_sock, is_listen, shut_send, stype, peer, peer_closed, default_name) = match &self
            .files.slots[h] {
            Some(s) => match &s.file {
                File::Socket(Socket::Unix(u)) => (
                    true,
                    u.listen.is_some(),
                    u.shut_send,
                    u.stype,
                    u.peer,
                    u.peer_closed,
                    match &u.default_dest {
                        Some(d) => Some(crate::context::clone_bytes(d)),
                        None => None,
                    },
                ),
                _ => (false, false, false, UnixSocketType::Stream, None, false, None),
            },
            None => (false, false, false, UnixSocketType::Stream, None, false, None),
        };
        if !is_sock {
            return Err(Errno::ENOTSOCK);
        }
        if is_listen {
            return Err(Errno::ENOTCONN);
        }
        if shut_send {
            return Err(Errno::EPIPE);
        }
        let is_stream = match stype {
            UnixSocketType::Dgram => false,
            _ => true,
        };
        let (to, atomic): (usize, bool) = if is_stream {
            if dest.is_some() {
                if peer.is_some() {
                    return Err(Errno::EISCONN);
                } else {
                    return Err(Errno::ENOTCONN);
                }
            }
            match peer {
                Some(p) => (p, false),
                None => {
                    if peer_closed {
                        return Err(Errno::EPIPE);
                    } else {
                        return Err(Errno::ENOTCONN);
                    }
                },
            }
        } else {
            match dest {
                Some(name) => match self.ns_find(name) {
                    Some(t) => {
                        proof {
                            lemma_ns_find_found(pre.ns@, name@, 0);
                            let j = choose|j: int|
                                0 <= j < pre.ns@.len() && (#[trigger] pre.ns@[j]).handle == t
                                    && pre.ns@[j].name@ == name@;
                            assert(pre.ns_entry_inv(j));
                        }
                        (t, true)
                    },
                    None => {
                        return Err(Errno::ECONNREFUSED);
                    },
                },
                None => match peer {
                    Some(p) => (p, true),
                    None => match &default_name {
                        Some(name) => match self.ns_find(name) {
                            Some(t) => {
                                proof {
                                    lemma_ns_find_found(pre.ns@, name@, 0);
                                    let j = choose|j: int|
                                        0 <= j < pre.ns@.len() && (#[trigger] pre.ns@[j]).handle
                                            == t && pre.ns@[j].name@ == name@;
                                    assert(pre.ns_entry_inv(j));
                                }
                                (t, true)
                            },
                            None => {
                                return Err(Errno::ECONNREFUSED);
                            },
                        },
                        None => {
                            return Err(Errno::ENOTCONN);
                        },
                    },
                },
            }
        };
        proof {
            assert(pre.slot_inv(h as int));
            assert(pre.peer_clause(h as int));
            assert(to < FILE_TABLE_SIZE);
        }
        self.deliver_bytes(to, data, atomic, q)
    }

    /// Appends up to `data`'s bytes to the receive buffer of the socket at
    /// `to`, as the delivery plan prescribes, queueing a readiness
    /// notification for it.
    fn deliver_bytes(
        &mut self,
        to: usize,
        data: &Vec<u8>,
        atomic: bool,
        q: &mut CallbackQueue,
    ) -> (r: Result<usize, Errno>)
        requires
            old(self).inv(),
            to < FILE_TABLE_SIZE,
        ensures
            final(self).inv(),
            final(self).descriptors == old(self).descriptors,
            final(self).condition == old(self).condition,
            final(self).ns == old(self).ns,
            final(self).events == old(self).events,
            final(self).mem == old(self).mem,
            forall|k: int| #[trigger] final(self).total_refs(k) == old(self).total_refs(k),
            match spec_deliver_plan(old(self).files.slots@, to as int, data@.len() as int, atomic) {
                SendPlan::Fail(e) => r == Err::<usize, Errno>(e) && final(self).files.slots@
                    == old(self).files.slots@ && final(q).queue@ == old(q).queue@,
                SendPlan::Deliver { to: to2, count } => match r {
                    Ok(c) => {
                        let t = spec_unix_at(old(self).files.slots@, to as int);
                        let t2 = spec_unix_at(final(self).files.slots@, to as int);
                        &&& to2 == to as int
                        &&& c == count
                        &&& c <= 0x7fffffff
                        &&& final(self).files.slots@[to as int] is Some
                        &&& spec_rc_at(final(self).files.slots@, to as int) == spec_rc_at(
                            old(self).files.slots@,
                            to as int,
                        )
                        &&& t2 == (UnixSocket { recv_buf: t2.recv_buf, ..t })
                        &&& t2.recv_buf.capacity == t.recv_buf.capacity
                        &&& t2.recv_buf.data@ == t.recv_buf.data@ + data@.subrange(0, count)
                        &&& forall|k: int|
                            0 <= k < FILE_TABLE_SIZE && k != to ==> final(self).files.slots@[k]
                                == old(self).files.slots@[k]
                        &&& (count > 0 ==> final(q).queue@ == old(q).queue@.push(
                            StateEvent {
                                file: to,
                                state: spec_file_state(final(self).files.slots@, to as int),
                            },
                        ))
                        &&& (count == 0 ==> final(q).queue@ == old(q).queue@)
                    },
                    Err(_) => false,
                },
            },
    {
        let ghost pre = *self;
        let mut tmp: Option<FileSlot> = None;
        core::mem::swap(&mut tmp, &mut self.files.slots[to]);
        match tmp {
            Some(slot) => {
                let rc = slot.refcount;
                match slot.file {
                    File::Socket(Socket::Unix(t)) => {
                        if t.shut_recv {
                            self.files.slots.set(
                                to,
                                Some(
                                    FileSlot { refcount: rc, file: File::Socket(Socket::Unix(t)) },
                                ),
                            );
                            proof {
                                assert(self.files.slots@ =~= pre.files.slots@);
                                lemma_inv_same_views(pre, *self);
                            }
                            Err(Errno::EPIPE)
                        } else {
                            let used = t.recv_buf.data.len();
                            let cap = t.recv_buf.capacity;
                            let space: usize = if cap >= used {
                                cap - used
                            } else {
                                0
                            };
                            if data.len() == 0 {
                                self.files.slots.set(
                                    to,
                                    Some(
                                        FileSlot {
                                            refcount: rc,
                                            file: File::Socket(Socket::Unix(t)),
                                        },
                                    ),
                                );
                                proof {
                                    assert(self.files.slots@ =~= pre.files.slots@);
                                    lemma_inv_same_views(pre, *self);
                                }
                                Ok(0)
                            } else if space == 0 || (atomic && space < data.len()) {
                                self.files.slots.set(
                                    to,
                                    Some(
                                        FileSlot {
                                            refcount: rc,
                                            file: File::Socket(Socket::Unix(t)),
                                        },
                                    ),
                                );
                                proof {
                                    assert(self.files.slots@ =~= pre.files.slots@);
                                    lemma_inv_same_views(pre, *self);
                                }
                                Err(Errno::EWOULDBLOCK)
                            } else {
                                let k: usize = if data.len() <= space {
                                    data.len()
                                } else {
                                    space
                                };
                                let newdata = append_front(&t.recv_buf.data, data, k);
                                let newt = UnixSocket {
                                    recv_buf: crate::file::ByteBuffer {
                                        data: newdata,
                                        capacity: cap,
                                    },
                                    ..t
                                };
                                self.files.slots.set(
                                    to,
                                    Some(
                                        FileSlot {
                                            refcount: rc,
                                            file: File::Socket(Socket::Unix(newt)),
                                        },
                                    ),
                                );
                                proof {
                                    assert(pre.slot_inv(to as int));
                                    let oldslot = pre.files.slots@[to as int]->0;
                                    let newslot = self.files.slots@[to as int]->0;
                                    assert(self.files.slots@ =~= pre.files.slots@.update(
                                        to as int,
                                        Some(newslot),
                                    ));
                                    lemma_inv_payload_update(pre, *self, to as int, oldslot, newslot);
                                }
                                let st = file_state(&self.files.slots, to);
                                q.push(StateEvent { file: to, state: st });
                                Ok(k)
                            }
                        }
                    },
                    other => {
                        self.files.slots.set(to, Some(FileSlot { refcount: rc, file: other }));
                        proof {
                            assert(self.files.slots@ =~= pre.files.slots@);
                            lemma_inv_same_views(pre, *self);
                        }
                        Err(Errno::ECONNREFUSED)
                    },
                }
            },
            None => {
                self.files.slots.set(to, None);
                proof {
                    assert(self.files.slots@ =~= pre.files.slots@);
                    lemma_inv_same_views(pre, *self);
                }
                Err(Errno::ECONNREFUSED)
            },
        }
    }
}

/// The read plan of the pipe end at `h`.
pub open spec fn spec_pipe_read_plan(files: Seq<Option<FileSlot>>, h: int, n: int) -> RecvPlan {
    match files[h] {
        Some(slot) => match slot.file {
            File::Pipe(p) => match p.mode {
                FileMode::Write => RecvPlan::Fail(Errno::EBADF),
                FileMode::Read => if p.buf.data@.len() > 0 {
                    RecvPlan::Data {
                        count: if n <= p.buf.data@.len() {
                            n
                        } else {
                            p.buf.data@.len() as int
                        },
                    }
                } else if p.peer_closed {
                    RecvPlan::Eof
                } else {
                    RecvPlan::Fail(Errno::EWOULDBLOCK)
                },
            },
            _ => RecvPlan::Fail(Errno::EBADF),
        },
        None => RecvPlan::Fail(Errno::EBADF),
    }
}

/// The write plan of the pipe end at `h` for `len` bytes.
pub open spec fn spec_pipe_write_plan(files: Seq<Option<FileSlot>>, h: int, len: int) -> SendPlan {
    match files[h] {
        Some(slot) => match slot.file {
            File::Pipe(p) => match p.mode {
                FileMode::Read => SendPlan::Fail(Errno::EBADF),
                FileMode::Write => match p.peer {
                    Some(rp) => match files[rp as int] {
                        Some(rs) => match rs.file {
                            File::Pipe(r) => {
                                let space = r.buf.capacity - r.buf.data@.len();
                                if len == 0 {
                                    SendPlan::Deliver { to: rp as int, count: 0 }
                                } else if space <= 0 {
                                    SendPlan::Fail(Errno::EWOULDBLOCK)
                                } else {
                                    SendPlan::Deliver {
                                        to: rp as int,
                                        count: if len <= space {
                                            len
                                        } else {
                                            space
                                        },
                                    }
                                }
                            },
                            _ => SendPlan::Fail(Errno::EPIPE),
                        },
                        None => SendPlan::Fail(Errno::EPIPE),
                    },
                    None => SendPlan::Fail(Errno::EPIPE),
                },
            },
            _ => SendPlan::Fail(Errno::EBADF),
        },
        None => SendPlan::Fail(Errno::EBADF),
    }
}

/// Two file tables that agree on every payload — differing at most in
/// the reference count of slot `h` — leave the receive plan unchanged:
/// plans read only file payloads.
pub proof fn lemma_recv_plan_same_payload(
    a: Seq<Option<FileSlot>>,
    b: Seq<Option<FileSlot>>,
    h: int,
    n: int,
)
    requires
        a.len() == b.len(),
        0 <= h < a.len(),
        forall|k: int| 0 <= k < a.len() && k != h ==> b[k] == a[k],
        match (a[h], b[h]) {
            (Some(x), Some(y)) => y.file == x.file,
            (None, None) => true,
            _ => false,
        },
        match a[h] {
            Some(x) => match x.file {
                File::Socket(Socket::Unix(s)) => match s.peer {
                    Some(p) => p < a.len(),
                    None => true,
                },
                _ => true,
            },
            None => true,
        },
    ensures
        spec_recv_plan(b, h, n) == spec_recv_plan(a, h, n),
{
    match a[h] {
        Some(slot) => match slot.file {
            File::Socket(Socket::Unix(s)) => match s.peer {
                Some(p) => {
                    if p as int != h {
                        assert(b[p as int] == a[p as int]);
                    }
                },
                None => {},
            },
            _ => {},
        },
        None => {},
    }
}

/// The same, for the send plan.
pub proof fn lemma_send_plan_same_payload(
    a: Seq<Option<FileSlot>>,
    b: Seq<Option<FileSlot>>,
    ns: Seq<crate::context::NsEntry>,
    h: int,
    len: int,
    dest: Option<Seq<u8>>,
)
    requires
        a.len() == b.len(),
        0 <= h < a.len(),
        forall|k: int| 0 <= k < a.len() && k != h ==> b[k] == a[k],
        match (a[h], b[h]) {
            (Some(x), Some(y)) => y.file == x.file,
            (None, None) => true,
            _ => false,
        },
        match a[h] {
            Some(x) => match x.file {
                File::Socket(Socket::Unix(s)) => match s.peer {
                    Some(p) => p < a.len(),
                    None => true,
                },
                _ => true,
            },
            None => true,
        },
        forall|i: int| 0 <= i < ns.len() ==> (#[trigger] ns[i]).handle < a.len(),
    ensures
        spec_send_plan(b, ns, h, len, dest) == spec_send_plan(a, ns, h, len, dest),
{
    assert forall|t: int| 0 <= t < a.len() implies spec_deliver_plan(b, t, len, false)
        == spec_deliver_plan(a, t, len, false) && spec_deliver_plan(b, t, len, true)
        == spec_deliver_plan(a, t, len, true) by {
        if t != h {
            assert(b[t] == a[t]);
        }
    }
    match dest {
        Some(name) => match spec_ns_find(ns, name) {
            Some(t) => {
                lemma_ns_find_found(ns, name, 0);
            },
            None => {},
        },
        None => {},
    }
    match a[h] {
        Some(slot) => match slot.file {
            File::Socket(Socket::Unix(s)) => match s.default_dest {
                Some(dd) => match spec_ns_find(ns, dd@) {
                    Some(t) => {
                        lemma_ns_find_found(ns, dd@, 0);
                    },
                    None => {},
                },
                None => {},
            },
            _ => {},
        },
        None => {},
    }
}

/// The same, for the pipe plans.
pub proof fn lemma_pipe_plans_same_payload(
    a: Seq<Option<FileSlot>>,
    b: Seq<Option<FileSlot>>,
    h: int,
    n: int,
)
    requires
        a.len() == b.len(),
        0 <= h < a.len(),
        forall|k: int| 0 <= k < a.len() && k != h ==> b[k] == a[k],
        match (a[h], b[h]) {
            (Some(x), Some(y)) => y.file == x.file,
            (None, None) => true,
            _ => false,
        },
        match a[h] {
            Some(x) => match x.file {
                File::Pipe(p) => match p.peer {
                    Some(rp) => rp < a.len(),
                    None => true,
                },
                _ => true,
            },
            None => true,
        },
    ensures
        spec_pipe_read_plan(b, h, n) == spec_pipe_read_plan(a, h, n),
        spec_pipe_write_plan(b, h, n) == spec_pipe_write_plan(a, h, n),
{
    match a[h] {
        Some(slot) => match slot.file {
            File::Pipe(p) => match p.peer {
                Some(rp) => {
                    if rp as int != h {
                        assert(b[rp as int] == a[rp as int]);
                    }
                },
                None => {},
            },
            _ => {},
        },
        None => {},
    }
}

/// The same, for the connect plan.
pub proof fn lemma_connect_plan_same_payload(
    a: Seq<Option<FileSlot>>,
    b: Seq<Option<FileSlot>>,
    ns: Seq<crate::context::NsEntry>,
    h: int,
    name: Seq<u8>,
)
    requires
        a.len() == b.len(),
        0 <= h < a.len(),
        forall|k: int| 0 <= k < a.len() && k != h ==> b[k] == a[k],
        match (a[h], b[h]) {
            (Some(x), Some(y)) => y.file == x.file,
            (None, None) => true,
            _ => false,
        },
        forall|i: int| 0 <= i < ns.len() ==> (#[trigger] ns[i]).handle < a.len(),
    ensures
        spec_connect_plan(b, ns, h, name) == spec_connect_plan(a, ns, h, name),
{
    match spec_ns_find(ns, name) {
        Some(t) => {
            lemma_ns_find_found(ns, name, 0);
            if t as int != h {
                assert(b[t as int] == a[t as int]);
            }
        },
        None => {},
    }
}

/// The pipe object stored at `h`; meaningful only when one is there.
pub open spec fn spec_pipe_at(files: Seq<Option<FileSlot>>, h: int) -> Pipe {
    match files[h] {
        Some(s) => match s.file {
            File::Pipe(p) => p,
            _ => arbitrary(),
        },
        None => arbitrary(),
    }
}

impl SyscallContext {
    /// Reads up to `n` bytes from the read end of a pipe, draining its
    /// buffer from the front and notifying the write end of the space
    /// gained.
    pub fn pipe_read(&mut self, h: usize, n: usize, q: &mut CallbackQueue) -> (r: Result<
        Vec<u8>,
        Errno,
    >)
        requires
            old(self).inv(),
            h < FILE_TABLE_SIZE,
            old(self).files.slots@[h as int] is Some,
        ensures
            final(self).inv(),
            final(self).descriptors == old(self).descriptors,
            final(self).condition == old(self).condition,
            final(self).ns == old(self).ns,
            final(self).events == old(self).events,
            final(self).mem == old(self).mem,
            forall|k: int| #[trigger] final(self).total_refs(k) == old(self).total_refs(k),
            match spec_pipe_read_plan(old(self).files.slots@, h as int, n as int) {
                RecvPlan::Fail(e) => r == Err::<Vec<u8>, Errno>(e) && final(self).files.slots@
                    == old(self).files.slots@ && final(q).queue@ == old(q).queue@,
                RecvPlan::Eof => (match r {
                    Ok(b) => b@.len() == 0,
                    Err(_) => false,
                }) && final(self).files.slots@ == old(self).files.slots@ && final(q).queue@ == old(q).queue@,
                RecvPlan::Data { count } => match r {
                    Ok(b) => {
                        let p = spec_pipe_at(old(self).files.slots@, h as int);
                        let p2 = spec_pipe_at(final(self).files.slots@, h as int);
                        &&& b@ == p.buf.data@.subrange(0, count)
                        &&& count <= 0x7fffffff
                        &&& final(self).files.slots@[h as int] is Some
                        &&& spec_rc_at(final(self).files.slots@, h as int) == spec_rc_at(
                            old(self).files.slots@,
                            h as int,
                        )
                        &&& p2 == (Pipe { buf: p2.buf, ..p })
                        &&& p2.buf.capacity == p.buf.capacity
                        &&& p2.buf.data@ == p.buf.data@.subrange(count, p.buf.data@.len() as int)
                        &&& forall|k: int|
                            0 <= k < FILE_TABLE_SIZE && k != h ==> final(self).files.slots@[k]
                                == old(self).files.slots@[k]
                        &&& match p.peer {
                            Some(w) => count > 0 ==> final(q).queue@ == old(q).queue@.push(
                                StateEvent {
                                    file: w,
                                    state: spec_file_state(final(self).files.slots@, w as int),
                                },
                            ),
                            None => final(q).queue@ == old(q).queue@,
                        }
                        &&& (count == 0 ==> final(q).queue@ == old(q).queue@)
                    },
                    Err(_) => false,
                },
            },
    {
        let ghost pre = *self;
        let mut tmp: Option<FileSlot> = None;
        core::mem::swap(&mut tmp, &mut self.files.slots[h]);
        let slot = match tmp {
            Some(s) => s,
            None => {
                proof {
                    assert(false);
                }
                vstd::pervasive::unreached()
            },
        };
        let rc = slot.refcount;
        match slot.file {
            File::Pipe(p) => {
                match p.mode {
                    FileMode::Write => {
                        self.files.slots.set(
                            h,
                            Some(FileSlot { refcount: rc, file: File::Pipe(p) }),
                        );
                        proof {
                            assert(self.files.slots@ =~= pre.files.slots@);
                            lemma_inv_same_views(pre, *self);
                        }
                        Err(Errno::EBADF)
                    },
                    FileMode::Read => {
                        if p.buf.data.len() > 0 {
                            let have = p.buf.data.len();
                            let k: usize = if n <= have {
                                n
                            } else {
                                have
                            };
                            let (front, back) = split_front(&p.buf.data, k);
                            let peer = p.peer;
                            let cap = p.buf.capacity;
                            let newp = Pipe {
                                buf: crate::file::ByteBuffer { data: back, capacity: cap },
                                ..p
                            };
                            self.files.slots.set(
                                h,
                                Some(FileSlot { refcount: rc, file: File::Pipe(newp) }),
                            );
                            proof {
                                assert(pre.slot_inv(h as int));
                                let oldslot = pre.files.slots@[h as int]->0;
                                let newslot = self.files.slots@[h as int]->0;
                                assert(self.files.slots@ =~= pre.files.slots@.update(
                                    h as int,
                                    Some(newslot),
                                ));
                                lemma_inv_payload_update(pre, *self, h as int, oldslot, newslot);
                            }
                            match peer {
                                Some(w) => {
                                    if k > 0 {
                                        let st = file_state(&self.files.slots, w);
                                        q.push(StateEvent { file: w, state: st });
                                    }
                                },
                                None => {},
                            }
                            Ok(front)
                        } else if p.peer_closed {
                            self.files.slots.set(
                                h,
                                Some(FileSlot { refcount: rc, file: File::Pipe(p) }),
                            );
                            proof {
                                assert(self.files.slots@ =~= pre.files.slots@);
                                lemma_inv_same_views(pre, *self);
                            }
                            Ok(Vec::new())
                        } else {
                            self.files.slots.set(
                                h,
                                Some(FileSlot { refcount: rc, file: File::Pipe(p) }),
                            );
                            proof {
                                assert(self.files.slots@ =~= pre.files.slots@);
                                lemma_inv_same_views(pre, *self);
                            }
                            Err(Errno::EWOULDBLOCK)
                        }
                    },
                }
            },
            other => {
                self.files.slots.set(h, Some(FileSlot { refcount: rc, file: other }));
                proof {
                    assert(self.files.slots@ =~= pre.files.slots@);
                    lemma_inv_same_views(pre, *self);
                }
                Err(Errno::EBADF)
            },
        }
    }

    /// Writes up to `data`'s bytes through the write end of a pipe into
    /// the read end's buffer, notifying the read end of the new bytes.
    pub fn pipe_write(&mut self, h: usize, data: &Vec<u8>, q: &mut CallbackQueue) -> (r: Result<
        usize,
        Errno,
    >)
        requires
            old(self).inv(),
            h < FILE_TABLE_SIZE,
            old(self).files.slots@[h as int] is Some,
        ensures
            final(self).inv(),
            final(self).descriptors == old(self).descriptors,
            final(self).condition == old(self).condition,
            final(self).ns == old(self).ns,
            final(self).events == old(self).events,
            final(self).mem == old(self).mem,
            forall|k: int| #[trigger] final(self).total_refs(k) == old(self).total_refs(k),
            match spec_pipe_write_plan(old(self).files.slots@, h as int, data@.len() as int) {
                SendPlan::Fail(e) => r == Err::<usize, Errno>(e) && final(self).files.slots@
                    == old(self).files.slots@ && final(q).queue@ == old(q).queue@,
                SendPlan::Deliver { to, count } => match r {
                    Ok(c) => {
                        let t = spec_pipe_at(old(self).files.slots@, to);
                        let t2 = spec_pipe_at(final(self).files.slots@, to);
                        &&& c == count
                        &&& c <= 0x7fffffff
                        &&& 0 <= to < FILE_TABLE_SIZE
                        &&& final(self).files.slots@[to] is Some
                        &&& spec_rc_at(final(self).files.slots@, to) == spec_rc_at(
                            old(self).files.slots@,
                            to,
                        )
                        &&& t2 == (Pipe { buf: t2.buf, ..t })
                        &&& t2.buf.capacity == t.buf.capacity
                        &&& t2.buf.data@ == t.buf.data@ + data@.subrange(0, count)
                        &&& forall|k: int|
                            0 <= k < FILE_TABLE_SIZE && k != to ==> final(self).files.slots@[k]
                                == old(self).files.slots@[k]
                        &&& (count > 0 ==> final(q).queue@ == old(q).queue@.push(
                            StateEvent {
                                file: to as usize,
                                state: spec_file_state(final(self).files.slots@, to),
                            },
                        ))
                        &&& (count == 0 ==> final(q).queue@ == old(q).queue@)
                    },
                    Err(_) => false,
                },
            },
    {
        let ghost pre = *self;
        let (is_write_end, peer) = match &self.files.slots[h] {
            Some(s) => match &s.file {
                File::Pipe(p) => match p.mode {
                    FileMode::Write => (true, p.peer),
                    FileMode::Read => (false, None),
                },
                _ => (false, None),
            },
            None => (false, None),
        };
        if !is_write_end {
            return Err(Errno::EBADF);
        }
        let rp = match peer {
            Some(rp) => rp,
            None => {
                return Err(Errno::EPIPE);
            },
        };
        proof {
            assert(pre.slot_inv(h as int));
            assert(pre.peer_clause(h as int));
            assert(rp < FILE_TABLE_SIZE);
        }
        let mut tmp: Option<FileSlot> = None;
        core::mem::swap(&mut tmp, &mut self.files.slots[rp]);
        let slot = match tmp {
            Some(s) => s,
            None => {
                proof {
                    assert(false);
                }
                vstd::pervasive::unreached()
            },
        };
        let rc = slot.refcount;
        match slot.file {
            File::Pipe(r) => {
                let used = r.buf.data.len();
                let cap = r.buf.capacity;
                let space: usize = if cap >= used {
                    cap - used
                } else {
                    0
                };
                if data.len() == 0 {
                    self.files.slots.set(rp, Some(FileSlot { refcount: rc, file: File::Pipe(r) }));
                    proof {
                        assert(self.files.slots@ =~= pre.files.slots@);
                        lemma_inv_same_views(pre, *self);
                    }
                    Ok(0)
                } else if space == 0 {
                    self.files.slots.set(rp, Some(FileSlot { refcount: rc, file: File::Pipe(r) }));
                    proof {
                        assert(self.files.slots@ =~= pre.files.slots@);
                        lemma_inv_same_views(pre, *self);
                    }
                    Err(Errno::EWOULDBLOCK)
                } else {
                    let k: usize = if data.len() <= space {
                        data.len()
                    } else {
                        space
                    };
                    let newdata = append_front(&r.buf.data, data, k);
                    let newr = Pipe {
                        buf: crate::file::ByteBuffer { data: newdata, capacity: cap },
                        ..r
                    };
                    self.files.slots.set(
                        rp,
                        Some(FileSlot { refcount: rc, file: File::Pipe(newr) }),
                    );
                    proof {
                        assert(pre.slot_inv(rp as int));
                        let oldslot = pre.files.slots@[rp as int]->0;
                        let newslot = self.files.slots@[rp as int]->0;
                        assert(self.files.slots@ =~= pre.files.slots@.update(
                            rp as int,
                            Some(newslot),
                        ));
                        lemma_inv_payload_update(pre, *self, rp as int, oldslot, newslot);
                    }
                    let st = file_state(&self.files.slots, rp);
                    q.push(StateEvent { file: rp, state: st });
                    Ok(k)
                }
            },
            other => {
                self.files.slots.set(rp, Some(FileSlot { refcount: rc, file: other }));
                proof {
                    assert(self.files.slots@ =~= pre.files.slots@);
                    lemma_inv_same_views(pre, *self);
                }
                Err(Errno::EPIPE)
            },
        }
    }
}

/// A failed namespace lookup matches no entry.
pub proof fn lemma_ns_find_none(ns: Seq<crate::context::NsEntry>, name: Seq<u8>, i: int)
    requires
        0 <= i,
        spec_ns_find_from(ns, name, i) is None,
    ensures
        forall|j: int| i <= j < ns.len() ==> (#[trigger] ns[j]).name@ != name,
    decreases ns.len() - i,
{
    if 0 <= i < ns.len() {
        lemma_ns_find_none(ns, name, i + 1);
    }
}

impl SyscallContext {
    /// Links two fresh unix sockets of the same kind as connected peers,
    /// recording the given peer addresses.
    pub fn link_unix_pair(
        &mut self,
        a: usize,
        b: usize,
        a_peer_addr: Option<Vec<u8>>,
        b_peer_addr: Option<Vec<u8>>,
    )
        requires
            old(self).inv(),
            a < FILE_TABLE_SIZE,
            b < FILE_TABLE_SIZE,
            a != b,
            ({
                let ua = spec_unix_at(old(self).files.slots@, a as int);
                let ub = spec_unix_at(old(self).files.slots@, b as int);
                &&& match old(self).files.slots@[a as int] {
                    Some(s) => s.file is Socket && s.file->Socket_0 is Unix,
                    None => false,
                }
                &&& match old(self).files.slots@[b as int] {
                    Some(s) => s.file is Socket && s.file->Socket_0 is Unix,
                    None => false,
                }
                &&& ua.stype == ub.stype
                &&& ua.peer is None
                &&& ub.peer is None
                &&& ua.listen is None
                &&& ub.listen is None
            }),
        ensures
            final(self).inv(),
            final(self).descriptors == old(self).descriptors,
            final(self).condition == old(self).condition,
            final(self).ns == old(self).ns,
            final(self).events == old(self).events,
            final(self).mem == old(self).mem,
            forall|k: int| #[trigger] final(self).total_refs(k) == old(self).total_refs(k),
            forall|k: int|
                0 <= k < FILE_TABLE_SIZE && k != a && k != b ==> final(self).files.slots@[k]
                    == old(self).files.slots@[k],
            ({
                let ua = spec_unix_at(old(self).files.slots@, a as int);
                let ub = spec_unix_at(old(self).files.slots@, b as int);
                &&& final(self).files.slots@[a as int] == Some(
                    FileSlot {
                        refcount: spec_rc_at(old(self).files.slots@, a as int),
                        file: File::Socket(
                            Socket::Unix(
                                UnixSocket {
                                    peer: Some(b),
                                    peer_addr: a_peer_addr,
                                    ..ua
                                },
                            ),
                        ),
                    },
                )
                &&& final(self).files.slots@[b as int] == Some(
                    FileSlot {
                        refcount: spec_rc_at(old(self).files.slots@, b as int),
                        file: File::Socket(
                            Socket::Unix(
                                UnixSocket {
                                    peer: Some(a),
                                    peer_addr: b_peer_addr,
                                    ..ub
                                },
                            ),
                        ),
                    },
                )
            }),
    {
        let ghost pre = *self;
        let mut tmp_a: Option<FileSlot> = None;
        core::mem::swap(&mut tmp_a, &mut self.files.slots[a]);
        let slot_a = match tmp_a {
            Some(s) => s,
            None => {
                proof {
                    assert(false);
                }
                vstd::pervasive::unreached()
            },
        };
        let rc_a = slot_a.refcount;
        let file_a = match slot_a.file {
            File::Socket(Socket::Unix(u)) => File::Socket(
                Socket::Unix(UnixSocket { peer: Some(b), peer_addr: a_peer_addr, ..u }),
            ),
            other => other,
        };
        self.files.slots.set(a, Some(FileSlot { refcount: rc_a, file: file_a }));
        let mut tmp_b: Option<FileSlot> = None;
        core::mem::swap(&mut tmp_b, &mut self.files.slots[b]);
        let slot_b = match tmp_b {
            Some(s) => s,
            None => {
                proof {
                    assert(false);
                }
                vstd::pervasive::unreached()
            },
        };
        let rc_b = slot_b.refcount;
        let file_b = match slot_b.file {
            File::Socket(Socket::Unix(u)) => File::Socket(
                Socket::Unix(UnixSocket { peer: Some(a), peer_addr: b_peer_addr, ..u }),
            ),
            other => other,
        };
        self.files.slots.set(b, Some(FileSlot { refcount: rc_b, file: file_b }));
        proof {
            assert(pre.slot_inv(a as int));
            assert(pre.slot_inv(b as int));
            let sa = pre.files.slots@[a as int]->0;
            let sb = pre.files.slots@[b as int]->0;
            let newa = self.files.slots@[a as int]->0;
            let newb = self.files.slots@[b as int]->0;
            assert(self.files.slots@ =~= pre.files.slots@.update(a as int, Some(newa)).update(
                b as int,
                Some(newb),
            ));
            lemma_inv_pair_update(pre, *self, a as int, b as int, sa, sb, newa, newb);
        }
    }

    /// Links the two fresh ends of one pipe as peers.
    pub fn link_pipe_pair(&mut self, r: usize, w: usize)
        requires
            old(self).inv(),
            r < FILE_TABLE_SIZE,
            w < FILE_TABLE_SIZE,
            r != w,
            ({
                let pr = spec_pipe_at(old(self).files.slots@, r as int);
                let pw = spec_pipe_at(old(self).files.slots@, w as int);
                &&& match old(self).files.slots@[r as int] {
                    Some(s) => s.file is Pipe,
                    None => false,
                }
                &&& match old(self).files.slots@[w as int] {
                    Some(s) => s.file is Pipe,
                    None => false,
                }
                &&& pr.mode is Read
                &&& pw.mode is Write
                &&& pr.peer is None
                &&& pw.peer is None
                &&& !pr.peer_closed
                &&& !pw.peer_closed
            }),
        ensures
            final(self).inv(),
            final(self).descriptors == old(self).descriptors,
            final(self).condition == old(self).condition,
            final(self).ns == old(self).ns,
            final(self).events == old(self).events,
            final(self).mem == old(self).mem,
            forall|k: int| #[trigger] final(self).total_refs(k) == old(self).total_refs(k),
            forall|k: int|
                0 <= k < FILE_TABLE_SIZE && k != r && k != w ==> final(self).files.slots@[k]
                    == old(self).files.slots@[k],
            ({
                let pr = spec_pipe_at(old(self).files.slots@, r as int);
                let pw = spec_pipe_at(old(self).files.slots@, w as int);
                &&& final(self).files.slots@[r as int] == Some(
                    FileSlot {
                        refcount: spec_rc_at(old(self).files.slots@, r as int),
                        file: File::Pipe(Pipe { peer: Some(w), ..pr }),
                    },
                )
                &&& final(self).files.slots@[w as int] == Some(
                    FileSlot {
                        refcount: spec_rc_at(old(self).files.slots@, w as int),
                        file: File::Pipe(Pipe { peer: Some(r), ..pw }),
                    },
                )
            }),
    {
        let ghost pre = *self;
        let mut tmp_r: Option<FileSlot> = None;
        core::mem::swap(&mut tmp_r, &mut self.files.slots[r]);
        let slot_r = match tmp_r {
            Some(s) => s,
            None => {
                proof {
                    assert(false);
                }
                vstd::pervasive::unreached()
            },
        };
        let rc_r = slot_r.refcount;
        let file_r = match slot_r.file {
            File::Pipe(p) => File::Pipe(Pipe { peer: Some(w), ..p }),
            other => other,
        };
        self.files.slots.set(r, Some(FileSlot { refcount: rc_r, file: file_r }));
        let mut tmp_w: Option<FileSlot> = None;
        core::mem::swap(&mut tmp_w, &mut self.files.slots[w]);
        let slot_w = match tmp_w {
            Some(s) => s,
            None => {
                proof {
                    assert(false);
                }
                vstd::pervasive::unreached()
            },
        };
        let rc_w = slot_w.refcount;
        let file_w = match slot_w.file {
            File::Pipe(p) => File::Pipe(Pipe { peer: Some(r), ..p }),
            other => other,
        };
        self.files.slots.set(w, Some(FileSlot { refcount: rc_w, file: file_w }));
        proof {
            assert(pre.slot_inv(r as int));
            assert(pre.slot_inv(w as int));
            let sr = pre.files.slots@[r as int]->0;
            let sw = pre.files.slots@[w as int]->0;
            let newr = self.files.slots@[r as int]->0;
            let neww = self.files.slots@[w as int]->0;
            assert(self.files.slots@ =~= pre.files.slots@.update(r as int, Some(newr)).update(
                w as int,
                Some(neww),
            ));
            lemma_inv_pair_update(pre, *self, r as int, w as int, sr, sw, newr, neww);
        }
    }
}

impl SyscallContext {
    /// Replaces the status flags of the file at `h`.
    pub fn set_status(&mut self, h: usize, status: crate::types::FileStatus)
        requires
            old(self).inv(),
            h < FILE_TABLE_SIZE,
            old(self).files.slots@[h as int] is Some,
        ensures
            final(self).inv(),
            final(self).descriptors == old(self).descriptors,
            final(self).condition == old(self).condition,
            final(self).ns == old(self).ns,
            final(self).events == old(self).events,
            final(self).mem == old(self).mem,
            forall|k: int| #[trigger] final(self).total_refs(k) == old(self).total_refs(k),
            forall|k: int|
                0 <= k < FILE_TABLE_SIZE && k != h ==> final(self).files.slots@[k] == old(self).files.slots@[k],
            final(self).files.slots@[h as int] is Some,
            spec_rc_at(final(self).files.slots@, h as int) == spec_rc_at(
                old(self).files.slots@,
                h as int,
            ),
            ({
                let f = (old(self).files.slots@[h as int]->0).file;
                let f2 = (final(self).files.slots@[h as int]->0).file;
                match (f, f2) {
                    (File::Pipe(p), File::Pipe(p2)) => p2 == (Pipe { status, ..p }),
                    (File::Socket(Socket::Unix(u)), File::Socket(Socket::Unix(u2))) => u2 == (
                    UnixSocket { status, ..u }),
                    (File::Socket(Socket::Inet(i)), File::Socket(Socket::Inet(i2))) => i2
                        == (crate::file::InetSocket { status }),
                    _ => false,
                }
            }),
    {
        let ghost pre = *self;
        let mut tmp: Option<FileSlot> = None;
        core::mem::swap(&mut tmp, &mut self.files.slots[h]);
        let slot = match tmp {
            Some(s) => s,
            None => {
                proof {
                    assert(false);
                }
                vstd::pervasive::unreached()
            },
        };
        let rc = slot.refcount;
        let newfile = match slot.file {
            File::Pipe(p) => File::Pipe(Pipe { status, ..p }),
            File::Socket(Socket::Unix(u)) => File::Socket(Socket::Unix(UnixSocket { status, ..u })),
            File::Socket(Socket::Inet(_)) => File::Socket(
                Socket::Inet(crate::file::InetSocket { status }),
            ),
        };
        self.files.slots.set(h, Some(FileSlot { refcount: rc, file: newfile }));
        proof {
            assert(pre.slot_inv(h as int));
            let oldslot = pre.files.slots@[h as int]->0;
            let newslot = self.files.slots@[h as int]->0;
            assert(self.files.slots@ =~= pre.files.slots@.update(h as int, Some(newslot)));
            lemma_inv_payload_update(pre, *self, h as int, oldslot, newslot);
        }
    }

    /// Shuts down one or both directions of the unix socket at `h`,
    /// notifying it and its peer of their new readiness.
    pub fn sock_shutdown(
        &mut self,
        h: usize,
        read_side: bool,
        write_side: bool,
        q: &mut CallbackQueue,
    ) -> (r: Result<(), Errno>)
        requires
            old(self).inv(),
            h < FILE_TABLE_SIZE,
            old(self).files.slots@[h as int] is Some,
        ensures
            final(self).inv(),
            final(self).descriptors == old(self).descriptors,
            final(self).condition == old(self).condition,
            final(self).ns == old(self).ns,
            final(self).events == old(self).events,
            final(self).mem == old(self).mem,
            forall|k: int| #[trigger] final(self).total_refs(k) == old(self).total_refs(k),
            ({
                let f = (old(self).files.slots@[h as int]->0).file;
                match f {
                    File::Socket(Socket::Unix(u)) => {
                        if u.peer is None && !u.peer_closed && u.listen is None {
                            r == Err::<(), Errno>(Errno::ENOTCONN) && final(self).files.slots@
                                == old(self).files.slots@
                        } else if u.listen is Some {
                            r == Err::<(), Errno>(Errno::ENOTCONN) && final(self).files.slots@
                                == old(self).files.slots@
                        } else {
                            let u2 = spec_unix_at(final(self).files.slots@, h as int);
                            &&& r == Ok::<(), Errno>(())
                            &&& final(self).files.slots@[h as int] is Some
                            &&& u2 == (UnixSocket {
                                shut_recv: u.shut_recv || read_side,
                                shut_send: u.shut_send || write_side,
                                ..u
                            })
                            &&& forall|k: int|
                                0 <= k < FILE_TABLE_SIZE && k != h ==> final(self).files.slots@[k]
                                    == old(self).files.slots@[k]
                        }
                    },
                    _ => r == Err::<(), Errno>(Errno::ENOTSOCK) && final(self).files.slots@ == old(self).files.slots@,
                }
            }),
    {
        let ghost pre = *self;
        let mut tmp: Option<FileSlot> = None;
        core::mem::swap(&mut tmp, &mut self.files.slots[h]);
        let slot = match tmp {
            Some(s) => s,
            None => {
                proof {
                    assert(false);
                }
                vstd::pervasive::unreached()
            },
        };
        let rc = slot.refcount;
        match slot.file {
            File::Socket(Socket::Unix(u)) => {
                if (u.peer.is_none() && !u.peer_closed && u.listen.is_none()) || u.listen.is_some() {
                    self.files.slots.set(
                        h,
                        Some(FileSlot { refcount: rc, file: File::Socket(Socket::Unix(u)) }),
                    );
                    proof {
                        assert(self.files.slots@ =~= pre.files.slots@);
                        lemma_inv_same_views(pre, *self);
                    }
                    Err(Errno::ENOTCONN)
                } else {
                    let peer = u.peer;
                    let newu = UnixSocket {
                        shut_recv: u.shut_recv || read_side,
                        shut_send: u.shut_send || write_side,
                        ..u
                    };
                    self.files.slots.set(
                        h,
                        Some(FileSlot { refcount: rc, file: File::Socket(Socket::Unix(newu)) }),
                    );
                    proof {
                        assert(pre.slot_inv(h as int));
                        let oldslot = pre.files.slots@[h as int]->0;
                        let newslot = self.files.slots@[h as int]->0;
                        assert(self.files.slots@ =~= pre.files.slots@.update(
                            h as int,
                            Some(newslot),
                        ));
                        lemma_inv_payload_update(pre, *self, h as int, oldslot, newslot);
                        assert(pre.peer_clause(h as int));
                    }
                    let st = file_state(&self.files.slots, h);
                    q.push(StateEvent { file: h, state: st });
                    match peer {
                        Some(p) => {
                            let pst = file_state(&self.files.slots, p);
                            q.push(StateEvent { file: p, state: pst });
                        },
                        None => {},
                    }
                    Ok(())
                }
            },
            other => {
                self.files.slots.set(h, Some(FileSlot { refcount: rc, file: other }));
                proof {
                    assert(self.files.slots@ =~= pre.files.slots@);
                    lemma_inv_same_views(pre, *self);
                }
                Err(Errno::ENOTSOCK)
            },
        }
    }

    /// The bound name of the unix socket at `h`; unnamed sockets report
    /// no name.
    pub fn sock_getsockname(&self, h: usize) -> (r: Result<Option<Vec<u8>>, Errno>)
        requires
            self.inv(),
            h < FILE_TABLE_SIZE,
            self.files.slots@[h as int] is Some,
        ensures
            ({
                let f = (self.files.slots@[h as int]->0).file;
                match f {
                    File::Socket(Socket::Unix(u)) => match r {
                        Ok(a) => addr_opt_matches(
                            a,
                            match u.bound {
                                Some(n) => Some(n@),
                                None => None,
                            },
                        ),
                        Err(_) => false,
                    },
                    _ => r == Err::<Option<Vec<u8>>, Errno>(Errno::ENOTSOCK),
                }
            }),
    {
        match &self.files.slots[h] {
            Some(s) => match &s.file {
                File::Socket(Socket::Unix(u)) => match &u.bound {
                    Some(n) => Ok(Some(crate::context::clone_bytes(n))),
                    None => Ok(None),
                },
                _ => Err(Errno::ENOTSOCK),
            },
            None => Err(Errno::ENOTSOCK),
        }
    }

    /// The peer address of the unix socket at `h`; `ENOTCONN` exactly
    /// when it has never been connected.
    pub fn sock_getpeername(&self, h: usize) -> (r: Result<Option<Vec<u8>>, Errno>)
        requires
            self.inv(),
            h < FILE_TABLE_SIZE,
            self.files.slots@[h as int] is Some,
        ensures
            ({
                let f = (self.files.slots@[h as int]->0).file;
                match f {
                    File::Socket(Socket::Unix(u)) => {
                        if u.peer is Some || u.peer_closed {
                            match r {
                                Ok(a) => addr_opt_matches(
                                    a,
                                    match u.peer_addr {
                                        Some(n) => Some(n@),
                                        None => None,
                                    },
                                ),
                                Err(_) => false,
                            }
                        } else if u.default_dest is Some {
                            match r {
                                Ok(a) => addr_opt_matches(
                                    a,
                                    match u.default_dest {
                                        Some(n) => Some(n@),
                                        None => None,
                                    },
                                ),
                                Err(_) => false,
                            }
                        } else {
                            r == Err::<Option<Vec<u8>>, Errno>(Errno::ENOTCONN)
                        }
                    },
                    _ => r == Err::<Option<Vec<u8>>, Errno>(Errno::ENOTSOCK),
                }
            }),
    {
        match &self.files.slots[h] {
            Some(s) => match &s.file {
                File::Socket(Socket::Unix(u)) => {
                    if u.peer.is_some() || u.peer_closed {
                        match &u.peer_addr {
                            Some(n) => Ok(Some(crate::context::clone_bytes(n))),
                            None => Ok(None),
                        }
                    } else {
                        match &u.default_dest {
                            Some(n) => Ok(Some(crate::context::clone_bytes(n))),
                            None => Err(Errno::ENOTCONN),
                        }
                    }
                },
                _ => Err(Errno::ENOTSOCK),
            },
            None => Err(Errno::ENOTSOCK),
        }
    }
}

/// The backlog value actually used: negative values act as zero and the
/// kernel cap applies.
pub const SOMAXCONN: usize = 4096;

pub open spec fn spec_clamp_backlog(b: int) -> int {
    if b < 0 {
        0
    } else if b > SOMAXCONN {
        SOMAXCONN as int
    } else {
        b
    }
}

/// Clamps a backlog argument.
pub fn clamp_backlog(b: i32) -> (r: usize)
    ensures
        r == spec_clamp_backlog(b as int),
{
    if b < 0 {
        0
    } else if b > SOMAXCONN as i32 {
        SOMAXCONN
    } else {
        b as usize
    }
}

/// Binding a fresh name to an unbound unix socket held by the caller
/// preserves the invariant.
pub proof fn lemma_inv_bind(
    pre: SyscallContext,
    post: SyscallContext,
    h: int,
    entry: crate::context::NsEntry,
)
    requires
        pre.inv(),
        0 <= h < FILE_TABLE_SIZE,
        entry.handle == h,
        crate::context::queue_refs(pre.files.slots@, h) == 0,
        forall|j: int|
            0 <= j < pre.ns@.len() ==> (#[trigger] pre.ns@[j]).name@ != entry.name@,
        ({
            let u = spec_unix_at(pre.files.slots@, h);
            &&& match pre.files.slots@[h] {
                Some(s) => s.file is Socket && s.file->Socket_0 is Unix,
                None => false,
            }
            &&& u.bound is None
            &&& match post.files.slots@[h] {
                Some(s2) => s2.refcount == spec_rc_at(pre.files.slots@, h) && match s2.file {
                    File::Socket(Socket::Unix(u2)) => u2 == (UnixSocket {
                        bound: u2.bound,
                        ..u
                    }) && match u2.bound {
                        Some(n) => n@ == entry.name@,
                        None => false,
                    },
                    _ => false,
                },
                None => false,
            }
        }),
        post.files.slots@ == pre.files.slots@.update(h, post.files.slots@[h]),
        post.ns@ == pre.ns@.push(entry),
        post.descriptors == pre.descriptors,
        post.condition == pre.condition,
    ensures
        post.inv(),
        forall|k: int| #[trigger] post.total_refs(k) == pre.total_refs(k),
{
    let oldslot = pre.files.slots@[h]->0;
    let newslot = post.files.slots@[h]->0;
    assert forall|k: int| #[trigger] post.total_refs(k) == pre.total_refs(k) by {
        lemma_queue_refs_update(pre.files.slots@, h, Some(newslot), k);
    }
    assert forall|g: int| 0 <= g < FILE_TABLE_SIZE implies #[trigger] post.slot_inv(g) by {
        assert(pre.slot_inv(g));
        assert(post.total_refs(g) == pre.total_refs(g));
        if g == h {
            assert(post.peer_clause(h)) by {
                if newslot.file.spec_peer() is Some {
                    let p = newslot.file.spec_peer()->0 as int;
                    assert(pre.peer_clause(h));
                    assert(post.files.slots@[p] == pre.files.slots@[p]);
                    let pslot = pre.files.slots@[p]->0;
                    assert(crate::context::pair_shape_ok(oldslot.file, pslot.file));
                    assert(crate::context::pair_shape_ok(newslot.file, pslot.file));
                }
            }
            assert(post.queue_clause(h)) by {
                assert(slot_queue(post.files.slots@[h]) == slot_queue(pre.files.slots@[h]));
                let qh = slot_queue(post.files.slots@[h]);
                assert forall|i: int| 0 <= i < qh.len() implies {
                    let c = #[trigger] qh[i] as int;
                    &&& 0 <= c < post.files.slots@.len()
                    &&& c != h
                    &&& match post.files.slots@[c] {
                        Some(cs) => cs.refcount == 1 && match cs.file {
                            File::Socket(Socket::Unix(uu)) => uu.listen is None && uu.bound
                                is None,
                            _ => false,
                        },
                        None => false,
                    }
                } by {
                    assert(pre.queue_clause(h));
                    let c = qh[i] as int;
                    assert(post.files.slots@[c] == pre.files.slots@[c]);
                }
            }
        } else {
            assert(post.files.slots@[g] == pre.files.slots@[g]);
            assert(post.peer_clause(g)) by {
                if pre.spec_peer_of(g) is Some {
                    let p = pre.spec_peer_of(g)->0 as int;
                    if p != h {
                        assert(post.files.slots@[p] == pre.files.slots@[p]);
                    } else {
                        let gslot = pre.files.slots@[g]->0;
                        assert(crate::context::pair_shape_ok(gslot.file, oldslot.file));
                        assert(crate::context::pair_shape_ok(gslot.file, newslot.file));
                    }
                }
            }
            assert(post.queue_clause(g)) by {
                let qg = slot_queue(post.files.slots@[g]);
                assert forall|i: int| 0 <= i < qg.len() implies {
                    let c = #[trigger] qg[i] as int;
                    &&& 0 <= c < post.files.slots@.len()
                    &&& c != g
                    &&& match post.files.slots@[c] {
                        Some(cs) => cs.refcount == 1 && match cs.file {
                            File::Socket(Socket::Unix(uu)) => uu.listen is None && uu.bound
                                is None,
                            _ => false,
                        },
                        None => false,
                    }
                } by {
                    assert(pre.queue_clause(g));
                    let c = qg[i] as int;
                    if c == h {
                        crate::counting::lemma_count_member(qg, i);
                        crate::context::lemma_queue_refs_member(pre.files.slots@, g, h);
                        crate::counting::lemma_count_nonneg(qg, h);
                        assert(false);
                    } else {
                        assert(post.files.slots@[c] == pre.files.slots@[c]);
                    }
                }
            }
        }
    }
    assert forall|i: int| 0 <= i < crate::descriptor::DESC_TABLE_SIZE implies
        #[trigger] post.desc_inv(i) by {
        assert(pre.desc_inv(i));
    }
    assert forall|i: int| 0 <= i < post.ns@.len() implies #[trigger] post.ns_entry_inv(i) by {
        if i < pre.ns@.len() {
            assert(pre.ns_entry_inv(i));
            let e = post.ns@[i];
            assert(e == pre.ns@[i]);
            if e.handle as int != h {
                assert(post.files.slots@[e.handle as int] == pre.files.slots@[e.handle as int]);
            } else {
                // an old entry for h would mean the socket was already bound
                assert(false);
            }
        } else {
            assert(post.ns@[i] == entry);
        }
    }
    assert forall|j1: int, j2: int|
        0 <= j1 < post.ns@.len() && 0 <= j2 < post.ns@.len() && j1 != j2 implies (
    #[trigger] post.ns@[j1]).name@ != (#[trigger] post.ns@[j2]).name@ by {
        if j1 < pre.ns@.len() && j2 < pre.ns@.len() {
            assert(post.ns@[j1] == pre.ns@[j1]);
            assert(post.ns@[j2] == pre.ns@[j2]);
        } else if j1 < pre.ns@.len() {
            assert(post.ns@[j2] == entry);
            assert(pre.ns@[j1].name@ != entry.name@);
        } else {
            assert(post.ns@[j1] == entry);
            assert(pre.ns@[j2].name@ != entry.name@);
        }
    }
}

impl SyscallContext {
    /// Binds the unix socket at `h` to a name in the abstract namespace.
    /// `EINVAL` exactly when it is already bound or the name is empty,
    /// `EADDRINUSE` exactly when another socket owns the name.
    pub fn sock_bind(&mut self, h: usize, name: &Vec<u8>) -> (r: Result<(), Errno>)
        requires
            old(self).inv(),
            h < FILE_TABLE_SIZE,
            old(self).files.slots@[h as int] is Some,
            crate::context::desc_refs(old(self).descriptors.slots@, h as int)
                + crate::context::cond_ref_one(old(self).condition, h as int) >= 1 || old(self).has_surplus(h as int, 1),
        ensures
            final(self).inv(),
            final(self).descriptors == old(self).descriptors,
            final(self).condition == old(self).condition,
            final(self).events == old(self).events,
            final(self).mem == old(self).mem,
            forall|k: int| #[trigger] final(self).total_refs(k) == old(self).total_refs(k),
            ({
                let f = (old(self).files.slots@[h as int]->0).file;
                match f {
                    File::Socket(Socket::Unix(u)) => {
                        if name@.len() == 0 || name@.len() > crate::mem::UNIX_PATH_MAX {
                            r == Err::<(), Errno>(Errno::EINVAL) && *final(self) == *old(self)
                        } else if u.bound is Some {
                            r == Err::<(), Errno>(Errno::EINVAL) && *final(self) == *old(self)
                        } else if spec_ns_find(old(self).ns@, name@) is Some {
                            r == Err::<(), Errno>(Errno::EADDRINUSE) && *final(self) == *old(self)
                        } else {
                            let u2 = spec_unix_at(final(self).files.slots@, h as int);
                            &&& r == Ok::<(), Errno>(())
                            &&& final(self).files.slots@[h as int] is Some
                            &&& u2 == (UnixSocket { bound: u2.bound, ..u })
                            &&& match u2.bound {
                                Some(n) => n@ == name@,
                                None => false,
                            }
                            &&& forall|k: int|
                                0 <= k < FILE_TABLE_SIZE && k != h ==> final(self).files.slots@[k]
                                    == old(self).files.slots@[k]
                            &&& final(self).ns@.len() == old(self).ns@.len() + 1
                            &&& spec_ns_find(final(self).ns@, name@) == Some(h)
                        }
                    },
                    _ => r == Err::<(), Errno>(Errno::ENOTSOCK) && *final(self) == *old(self),
                }
            }),
    {
        let ghost pre = *self;
        let is_unix_unbound: (bool, bool) = match &self.files.slots[h] {
            Some(s) => match &s.file {
                File::Socket(Socket::Unix(u)) => (true, u.bound.is_none()),
                _ => (false, false),
            },
            None => (false, false),
        };
        if !is_unix_unbound.0 {
            return Err(Errno::ENOTSOCK);
        }
        if name.len() == 0 || name.len() > crate::mem::UNIX_PATH_MAX {
            return Err(Errno::EINVAL);
        }
        if !is_unix_unbound.1 {
            return Err(Errno::EINVAL);
        }
        if self.ns_find(name).is_some() {
            return Err(Errno::EADDRINUSE);
        }
        proof {
            crate::context::lemma_referenced_not_queued(pre, h as int);
            lemma_ns_find_none(pre.ns@, name@, 0);
        }
        let bname = crate::context::clone_bytes(name);
        let mut tmp: Option<FileSlot> = None;
        core::mem::swap(&mut tmp, &mut self.files.slots[h]);
        let slot = match tmp {
            Some(s) => s,
            None => {
                proof {
                    assert(false);
                }
                vstd::pervasive::unreached()
            },
        };
        let rc = slot.refcount;
        match slot.file {
            File::Socket(Socket::Unix(u)) => {
                let newu = UnixSocket { bound: Some(bname), ..u };
                self.files.slots.set(
                    h,
                    Some(FileSlot { refcount: rc, file: File::Socket(Socket::Unix(newu)) }),
                );
            },
            _ => {
                proof {
                    assert(false);
                }
            },
        }
        let ename = crate::context::clone_bytes(name);
        self.ns.push(crate::context::NsEntry { name: ename, handle: h });
        proof {
            assert(pre.slot_inv(h as int));
            let entry = self.ns@[self.ns@.len() - 1];
            assert(self.files.slots@ =~= pre.files.slots@.update(
                h as int,
                self.files.slots@[h as int],
            ));
            lemma_inv_bind(pre, *self, h as int, entry);
            // the new binding resolves to this socket
            assert(spec_ns_find(self.ns@, name@) == Some(h)) by {
                lemma_ns_find_push(pre.ns@, name@, entry);
            }
        }
        Ok(())
    }
}

/// Appending a fresh binding makes its name resolve to it.
pub proof fn lemma_ns_find_push(
    ns: Seq<crate::context::NsEntry>,
    name: Seq<u8>,
    entry: crate::context::NsEntry,
)
    requires
        forall|j: int| 0 <= j < ns.len() ==> (#[trigger] ns[j]).name@ != name,
        entry.name@ == name,
    ensures
        spec_ns_find(ns.push(entry), name) == Some(entry.handle),
{
    lemma_ns_find_push_from(ns, name, entry, 0);
}

pub proof fn lemma_ns_find_push_from(
    ns: Seq<crate::context::NsEntry>,
    name: Seq<u8>,
    entry: crate::context::NsEntry,
    i: int,
)
    requires
        0 <= i <= ns.len(),
        forall|j: int| 0 <= j < ns.len() ==> (#[trigger] ns[j]).name@ != name,
        entry.name@ == name,
    ensures
        spec_ns_find_from(ns.push(entry), name, i) == Some(entry.handle),
    decreases ns.len() - i,
{
    if i < ns.len() {
        assert(ns.push(entry)[i] == ns[i]);
        lemma_ns_find_push_from(ns, name, entry, i + 1);
    } else {
        assert(ns.push(entry)[i] == entry);
    }
}

/// How a connect attempt must proceed.
pub enum ConnectPlan {
    Fail(Errno),
    /// The server's accept queue is full: block until it has room.
    Wait { server: int },
    /// Create a peer socket and queue it on the listening server.
    Stream { server: int },
    /// Record the name as the datagram default destination.
    Dgram,
}

/// The connect plan of the unix socket at `h` towards `name`.
pub open spec fn spec_connect_plan(
    files: Seq<Option<FileSlot>>,
    ns: Seq<crate::context::NsEntry>,
    h: int,
    name: Seq<u8>,
) -> ConnectPlan {
    match files[h] {
        Some(slot) => match slot.file {
            File::Socket(Socket::Unix(u)) => {
                if u.listen is Some {
                    ConnectPlan::Fail(Errno::EINVAL)
                } else if u.stype is Dgram {
                    match spec_ns_find(ns, name) {
                        Some(t) => match files[t as int] {
                            Some(ts) => match ts.file {
                                File::Socket(Socket::Unix(tu)) => if tu.stype is Dgram {
                                    ConnectPlan::Dgram
                                } else {
                                    ConnectPlan::Fail(Errno::ECONNREFUSED)
                                },
                                _ => ConnectPlan::Fail(Errno::ECONNREFUSED),
                            },
                            None => ConnectPlan::Fail(Errno::ECONNREFUSED),
                        },
                        None => ConnectPlan::Fail(Errno::ECONNREFUSED),
                    }
                } else if u.peer is Some {
                    ConnectPlan::Fail(Errno::EISCONN)
                } else {
                    match spec_ns_find(ns, name) {
                        Some(t) => match files[t as int] {
                            Some(ts) => match ts.file {
                                File::Socket(Socket::Unix(tu)) => match tu.listen {
                                    Some(l) => if tu.stype == u.stype {
                                        if l.queue@.len() >= l.backlog {
                                            ConnectPlan::Wait { server: t as int }
                                        } else {
                                            ConnectPlan::Stream { server: t as int }
                                        }
                                    } else {
                                        ConnectPlan::Fail(Errno::ECONNREFUSED)
                                    },
                                    None => ConnectPlan::Fail(Errno::ECONNREFUSED),
                                },
                                _ => ConnectPlan::Fail(Errno::ECONNREFUSED),
                            },
                            None => ConnectPlan::Fail(Errno::ECONNREFUSED),
                        },
                        None => ConnectPlan::Fail(Errno::ECONNREFUSED),
                    }
                }
            },
            _ => ConnectPlan::Fail(Errno::ENOTSOCK),
        },
        None => ConnectPlan::Fail(Errno::EBADF),
    }
}

impl SyscallContext {
    /// Puts the unix socket at `h` into listening acceptance mode, with
    /// the clamped backlog. `EOPNOTSUPP` for datagram sockets, `EINVAL`
    /// when connected or unbound; re-listening only adjusts the backlog.
    pub fn sock_listen(&mut self, h: usize, backlog: i32) -> (r: Result<(), Errno>)
        requires
            old(self).inv(),
            h < FILE_TABLE_SIZE,
            old(self).files.slots@[h as int] is Some,
            crate::context::desc_refs(old(self).descriptors.slots@, h as int)
                + crate::context::cond_ref_one(old(self).condition, h as int) >= 1 || old(self).has_surplus(h as int, 1),
        ensures
            final(self).inv(),
            final(self).descriptors == old(self).descriptors,
            final(self).condition == old(self).condition,
            final(self).ns == old(self).ns,
            final(self).events == old(self).events,
            final(self).mem == old(self).mem,
            forall|k: int| #[trigger] final(self).total_refs(k) == old(self).total_refs(k),
            ({
                let f = (old(self).files.slots@[h as int]->0).file;
                match f {
                    File::Socket(Socket::Unix(u)) => {
                        if u.stype is Dgram {
                            r == Err::<(), Errno>(Errno::EOPNOTSUPP) && *final(self) == *old(self)
                        } else if u.peer is Some || u.peer_closed {
                            r == Err::<(), Errno>(Errno::EINVAL) && *final(self) == *old(self)
                        } else if u.bound is None {
                            r == Err::<(), Errno>(Errno::EINVAL) && *final(self) == *old(self)
                        } else {
                            let u2 = spec_unix_at(final(self).files.slots@, h as int);
                            &&& r == Ok::<(), Errno>(())
                            &&& final(self).files.slots@[h as int] is Some
                            &&& (final(self).files.slots@[h as int]->0).file == File::Socket(
                                Socket::Unix(u2),
                            )
                            &&& u2 == (UnixSocket { listen: u2.listen, ..u })
                            &&& match u2.listen {
                                Some(l2) => l2.backlog == spec_clamp_backlog(backlog as int)
                                    && l2.queue@ == slot_queue(old(self).files.slots@[h as int]),
                                None => false,
                            }
                            &&& forall|k: int|
                                0 <= k < FILE_TABLE_SIZE && k != h ==> final(self).files.slots@[k]
                                    == old(self).files.slots@[k]
                        }
                    },
                    _ => r == Err::<(), Errno>(Errno::ENOTSOCK) && *final(self) == *old(self),
                }
            }),
    {
        let ghost pre = *self;
        let check: (bool, bool, bool, bool) = match &self.files.slots[h] {
            Some(s) => match &s.file {
                File::Socket(Socket::Unix(u)) => (
                    true,
                    matches!(u.stype, UnixSocketType::Dgram),
                    u.peer.is_some() || u.peer_closed,
                    u.bound.is_none(),
                ),
                _ => (false, false, false, false),
            },
            None => (false, false, false, false),
        };
        if !check.0 {
            return Err(Errno::ENOTSOCK);
        }
        if check.1 {
            return Err(Errno::EOPNOTSUPP);
        }
        if check.2 {
            return Err(Errno::EINVAL);
        }
        if check.3 {
            return Err(Errno::EINVAL);
        }
        let b = clamp_backlog(backlog);
        let mut tmp: Option<FileSlot> = None;
        core::mem::swap(&mut tmp, &mut self.files.slots[h]);
        let slot = match tmp {
            Some(s) => s,
            None => {
                proof {
                    assert(false);
                }
                vstd::pervasive::unreached()
            },
        };
        let rc = slot.refcount;
        match slot.file {
            File::Socket(Socket::Unix(u)) => {
                let newlisten = match u.listen {
                    Some(l) => crate::file::ListenState { backlog: b, queue: l.queue },
                    None => crate::file::ListenState { backlog: b, queue: Vec::new() },
                };
                let newu = UnixSocket { listen: Some(newlisten), ..u };
                self.files.slots.set(
                    h,
                    Some(FileSlot { refcount: rc, file: File::Socket(Socket::Unix(newu)) }),
                );
                proof {
                    crate::context::lemma_referenced_not_queued(pre, h as int);
                    assert(pre.slot_inv(h as int));
                    let oldslot = pre.files.slots@[h as int]->0;
                    let newslot = self.files.slots@[h as int]->0;
                    assert(self.files.slots@ =~= pre.files.slots@.update(h as int, Some(newslot)));
                    assert(newslot.file.spec_queue() =~= oldslot.file.spec_queue());
                    lemma_inv_payload_update(pre, *self, h as int, oldslot, newslot);
                }
                Ok(())
            },
            _ => {
                proof {
                    assert(false);
                }
                vstd::pervasive::unreached()
            },
        }
    }

    /// Connects the unix socket at `h` to the name, as its plan
    /// prescribes. A stream connection creates the server-side peer
    /// socket, queues it for `accept`, and notifies the server; a full
    /// backlog reports `EWOULDBLOCK` for the caller to turn into
    /// blocking. A datagram connect records the default destination.
    /// `ENFILE` if the file table cannot hold the peer socket.
    pub fn sock_connect(&mut self, h: usize, name: &Vec<u8>, q: &mut CallbackQueue) -> (r: Result<
        (),
        Errno,
    >)
        requires
            old(self).inv(),
            h < FILE_TABLE_SIZE,
            old(self).files.slots@[h as int] is Some,
        ensures
            final(self).inv(),
            final(self).descriptors == old(self).descriptors,
            final(self).condition == old(self).condition,
            final(self).ns == old(self).ns,
            final(self).events == old(self).events,
            final(self).mem == old(self).mem,
            match spec_connect_plan(old(self).files.slots@, old(self).ns@, h as int, name@) {
                ConnectPlan::Fail(e) => r == Err::<(), Errno>(e) && final(self).files.slots@
                    == old(self).files.slots@ && final(q).queue@ == old(q).queue@,
                ConnectPlan::Wait { server } => r == Err::<(), Errno>(Errno::EWOULDBLOCK) && final(self).files.slots@ == old(self).files.slots@ && final(q).queue@ == old(q).queue@,
                ConnectPlan::Dgram => {
                    let u = spec_unix_at(old(self).files.slots@, h as int);
                    let u2 = spec_unix_at(final(self).files.slots@, h as int);
                    &&& r == Ok::<(), Errno>(())
                    &&& final(self).files.slots@[h as int] is Some
                    &&& spec_rc_at(final(self).files.slots@, h as int) == spec_rc_at(
                        old(self).files.slots@,
                        h as int,
                    )
                    &&& forall|k: int| #[trigger] final(self).total_refs(k) == old(
                        self,
                    ).total_refs(k)
                    &&& u2 == (UnixSocket { default_dest: u2.default_dest, ..u })
                    &&& match u2.default_dest {
                        Some(n) => n@ == name@,
                        None => false,
                    }
                    &&& forall|k: int|
                        0 <= k < FILE_TABLE_SIZE && k != h ==> final(self).files.slots@[k] == old(self).files.slots@[k]
                    &&& final(q).queue@ == old(q).queue@
                },
                ConnectPlan::Stream { server } => (r == Err::<(), Errno>(Errno::ENFILE) && final(self).files.slots@ == old(self).files.slots@ && final(q).queue@ == old(q).queue@ && (
                forall|k: int|
                    0 <= k < FILE_TABLE_SIZE ==> old(self).files.slots@[k] is Some)) || (
                r == Ok::<(), Errno>(()) && ({
                    let u = spec_unix_at(old(self).files.slots@, h as int);
                    let u2 = spec_unix_at(final(self).files.slots@, h as int);
                    &&& final(self).files.slots@[h as int] is Some
                    &&& spec_rc_at(final(self).files.slots@, h as int) == spec_rc_at(
                        old(self).files.slots@,
                        h as int,
                    )
                    &&& u2 == (UnixSocket { peer: u2.peer, peer_addr: u2.peer_addr, ..u })
                    &&& match u2.peer_addr {
                        Some(n) => n@ == name@,
                        None => false,
                    }
                    &&& match u2.peer {
                        Some(ch) => {
                            let cu = spec_unix_at(final(self).files.slots@, ch as int);
                            &&& ch < FILE_TABLE_SIZE
                            &&& ch as int != h as int
                            &&& ch as int != server
                            &&& old(self).files.slots@[ch as int] is None
                            &&& final(self).files.slots@[ch as int] is Some
                            &&& spec_rc_at(final(self).files.slots@, ch as int) == 1
                            &&& forall|k: int|
                                k != ch as int ==> #[trigger] final(self).total_refs(k) == old(
                                    self,
                                ).total_refs(k)
                            &&& cu.stype == u.stype
                            &&& cu.peer == Some(h)
                            &&& cu.listen is None
                            &&& cu.bound is None
                            &&& slot_queue(final(self).files.slots@[server]) == slot_queue(
                                old(self).files.slots@[server],
                            ).push(ch)
                            &&& forall|k: int|
                                0 <= k < FILE_TABLE_SIZE && k != h && k != server && k != ch as int
                                    ==> final(self).files.slots@[k] == old(self).files.slots@[k]
                            &&& final(q).queue@ == old(q).queue@.push(
                                StateEvent {
                                    file: server as usize,
                                    state: spec_file_state(final(self).files.slots@, server),
                                },
                            )
                        },
                        None => false,
                    }
                })),
            },
    {
        let ghost pre = *self;
        let info: (bool, bool, bool, UnixSocketType, Option<Vec<u8>>) = match &self.files.slots[h] {
            Some(s) => match &s.file {
                File::Socket(Socket::Unix(u)) => (
                    true,
                    u.listen.is_some(),
                    u.peer.is_some(),
                    u.stype,
                    match &u.bound {
                        Some(n) => Some(crate::context::clone_bytes(n)),
                        None => None,
                    },
                ),
                _ => (false, false, false, UnixSocketType::Stream, None),
            },
            None => (false, false, false, UnixSocketType::Stream, None),
        };
        let (is_unix, is_listen, is_connected, stype, my_bound) = info;
        if !is_unix {
            return Err(Errno::ENOTSOCK);
        }
        if is_listen {
            return Err(Errno::EINVAL);
        }
        let is_dgram = matches!(stype, UnixSocketType::Dgram);
        if is_dgram {
            let t = match self.ns_find(name) {
                Some(t) => t,
                None => {
                    return Err(Errno::ECONNREFUSED);
                },
            };
            proof {
                lemma_ns_find_found(pre.ns@, name@, 0);
                let j = choose|j: int|
                    0 <= j < pre.ns@.len() && (#[trigger] pre.ns@[j]).handle == t && pre.ns@[j].name@
                        == name@;
                assert(pre.ns_entry_inv(j));
            }
            let target_is_dgram = match &self.files.slots[t] {
                Some(ts) => match &ts.file {
                    File::Socket(Socket::Unix(tu)) => matches!(tu.stype, UnixSocketType::Dgram),
                    _ => false,
                },
                None => false,
            };
            if !target_is_dgram {
                return Err(Errno::ECONNREFUSED);
            }
            // record the default destination
            let dname = crate::context::clone_bytes(name);
            let mut tmp: Option<FileSlot> = None;
            core::mem::swap(&mut tmp, &mut self.files.slots[h]);
            let slot = match tmp {
                Some(s) => s,
                None => {
                    proof {
                        assert(false);
                    }
                    vstd::pervasive::unreached()
                },
            };
            let rc = slot.refcount;
            match slot.file {
                File::Socket(Socket::Unix(u)) => {
                    let newu = UnixSocket { default_dest: Some(dname), ..u };
                    self.files.slots.set(
                        h,
                        Some(FileSlot { refcount: rc, file: File::Socket(Socket::Unix(newu)) }),
                    );
                    proof {
                        assert(pre.slot_inv(h as int));
                        let oldslot = pre.files.slots@[h as int]->0;
                        let newslot = self.files.slots@[h as int]->0;
                        assert(self.files.slots@ =~= pre.files.slots@.update(
                            h as int,
                            Some(newslot),
                        ));
                        lemma_inv_payload_update(pre, *self, h as int, oldslot, newslot);
                    }
                    Ok(())
                },
                _ => {
                    proof {
                        assert(false);
                    }
                    vstd::pervasive::unreached()
                },
            }
        } else {
            if is_connected {
                return Err(Errno::EISCONN);
            }
            let server = match self.ns_find(name) {
                Some(t) => t,
                None => {
                    return Err(Errno::ECONNREFUSED);
                },
            };
            proof {
                lemma_ns_find_found(pre.ns@, name@, 0);
                let j = choose|j: int|
                    0 <= j < pre.ns@.len() && (#[trigger] pre.ns@[j]).handle == server
                        && pre.ns@[j].name@ == name@;
                assert(pre.ns_entry_inv(j));
            }
            let server_ok: (bool, bool, usize, usize) = match &self.files.slots[server] {
                Some(ts) => match &ts.file {
                    File::Socket(Socket::Unix(tu)) => match &tu.listen {
                        Some(l) => (
                            tu.stype == stype,
                            true,
                            l.queue.len(),
                            l.backlog,
                        ),
                        None => (false, false, 0, 0),
                    },
                    _ => (false, false, 0, 0),
                },
                None => (false, false, 0, 0),
            };
            if !server_ok.1 || !server_ok.0 {
                return Err(Errno::ECONNREFUSED);
            }
            if server_ok.2 >= server_ok.3 {
                return Err(Errno::EWOULDBLOCK);
            }
            // create the server-side peer socket
            let child = UnixSocket::new(crate::types::FileStatus::empty(), stype);
            let chof = match self.alloc_file(File::Socket(Socket::Unix(child))) {
                Ok(of) => of,
                Err(e) => {
                    return Err(e);
                },
            };
            let ch = chof.handle;
            proof {
                assert(ch != h);
                assert(ch != server);
            }
            let pa = crate::context::clone_bytes(name);
            self.link_unix_pair(h, ch, Some(pa), my_bound);
            proof {
                assert(self.files.slots@[server as int] == pre.files.slots@[server as int]);
                assert(is_listening((self.files.slots@[server as int]->0).file));
                assert(self.files.slots@[ch as int] is Some);
                assert((self.files.slots@[ch as int]->0).refcount == 1);
                assert(match self.files.slots@[ch as int] {
                    Some(cs) => match cs.file {
                        File::Socket(Socket::Unix(uu)) => uu.listen is None && uu.bound is None,
                        _ => false,
                    },
                    None => false,
                });
                assert(pre.slot_inv(ch as int));
                assert(pre.total_refs(ch as int) == 0);
                assert(self.total_refs(ch as int) == 0);
            }
            self.push_queue_child(server, chof);
            let st = file_state(&self.files.slots, server);
            q.push(StateEvent { file: server, state: st });
            Ok(())
        }
    }

    /// Accepts the first pending connection of the listening socket at
    /// `h`, handing over the new socket's reference and its peer address,
    /// and notifying the server of its new readiness. `EINVAL` exactly
    /// when the socket is not listening, `EWOULDBLOCK` when nothing is
    /// pending.
    pub fn sock_accept(&mut self, h: usize, q: &mut CallbackQueue) -> (r: Result<
        (crate::file::OpenFile, Option<Vec<u8>>),
        Errno,
    >)
        requires
            old(self).inv(),
            h < FILE_TABLE_SIZE,
            old(self).files.slots@[h as int] is Some,
        ensures
            final(self).inv(),
            final(self).descriptors == old(self).descriptors,
            final(self).condition == old(self).condition,
            final(self).ns == old(self).ns,
            final(self).events == old(self).events,
            final(self).mem == old(self).mem,
            ({
                let f = (old(self).files.slots@[h as int]->0).file;
                match f {
                    File::Socket(Socket::Unix(u)) => match u.listen {
                        Some(l) => {
                            if l.queue@.len() == 0 {
                                r == Err::<(crate::file::OpenFile, Option<Vec<u8>>), Errno>(
                                    Errno::EWOULDBLOCK,
                                ) && final(self).files.slots@ == old(self).files.slots@ && final(q).queue@ == old(q).queue@
                            } else {
                                match r {
                                    Ok(rr) => {
                                        let ch = rr.0.handle;
                                        &&& ch == l.queue@[0]
                                        &&& ch < FILE_TABLE_SIZE
                                        &&& ch != h
                                        &&& final(self).has_surplus(ch as int, 1)
                                        &&& final(self).files.slots@[ch as int] is Some
                                        &&& (final(self).files.slots@[ch as int]->0).refcount
                                            == 1
                                        &&& final(self).files.slots@[h as int] is Some
                                        &&& crate::sockops::spec_rc_at(
                                            final(self).files.slots@,
                                            h as int,
                                        ) == crate::sockops::spec_rc_at(
                                            old(self).files.slots@,
                                            h as int,
                                        )
                                        &&& forall|k: int|
                                            k != ch as int ==> #[trigger] final(self).total_refs(
                                                k,
                                            ) == old(self).total_refs(k)
                                        &&& addr_opt_matches(
                                            rr.1,
                                            spec_peer_addr(old(self).files.slots@, ch as int),
                                        )
                                        &&& slot_queue(final(self).files.slots@[h as int])
                                            == l.queue@.subrange(1, l.queue@.len() as int)
                                        &&& forall|k: int|
                                            0 <= k < FILE_TABLE_SIZE && k != h ==> final(self).files.slots@[k] == old(self).files.slots@[k]
                                        &&& final(q).queue@ == old(q).queue@.push(
                                            StateEvent {
                                                file: h,
                                                state: spec_file_state(
                                                    final(self).files.slots@,
                                                    h as int,
                                                ),
                                            },
                                        )
                                    },
                                    Err(_) => false,
                                }
                            }
                        },
                        None => r == Err::<(crate::file::OpenFile, Option<Vec<u8>>), Errno>(
                            Errno::EINVAL,
                        ) && final(self).files.slots@ == old(self).files.slots@ && final(q).queue@
                            == old(q).queue@,
                    },
                    _ => r == Err::<(crate::file::OpenFile, Option<Vec<u8>>), Errno>(
                        Errno::ENOTSOCK,
                    ) && final(self).files.slots@ == old(self).files.slots@ && final(q).queue@
                        == old(q).queue@,
                }
            }),
    {
        let check: (bool, bool) = match &self.files.slots[h] {
            Some(s) => match &s.file {
                File::Socket(Socket::Unix(u)) => (true, u.listen.is_some()),
                _ => (false, false),
            },
            None => (false, false),
        };
        if !check.0 {
            return Err(Errno::ENOTSOCK);
        }
        if !check.1 {
            return Err(Errno::EINVAL);
        }
        match self.pop_queue_front(h) {
            Some(chof) => {
                let ch = chof.handle;
                let addr = match &self.files.slots[ch] {
                    Some(cs) => match &cs.file {
                        File::Socket(Socket::Unix(cu)) => match &cu.peer_addr {
                            Some(a) => Some(crate::context::clone_bytes(a)),
                            None => None,
                        },
                        _ => None,
                    },
                    None => None,
                };
                let st = file_state(&self.files.slots, h);
                q.push(StateEvent { file: h, state: st });
                Ok((chof, addr))
            },
            None => Err(Errno::EWOULDBLOCK),
        }
    }

    /// Reads a socket option of the unix socket at `h`.
    pub fn sock_getsockopt(&self, h: usize, level: i32, optname: i32) -> (r: Result<i32, Errno>)
        requires
            self.inv(),
            h < FILE_TABLE_SIZE,
            self.files.slots@[h as int] is Some,
        ensures
            ({
                let f = (self.files.slots@[h as int]->0).file;
                match f {
                    File::Socket(Socket::Unix(u)) => r == spec_sockopt_read(u, level, optname),
                    _ => r == Err::<i32, Errno>(Errno::ENOTSOCK),
                }
            }),
    {
        match &self.files.slots[h] {
            Some(s) => match &s.file {
                File::Socket(Socket::Unix(u)) => {
                    if level != crate::abi::SOL_SOCKET {
                        Err(Errno::EOPNOTSUPP)
                    } else if optname == crate::abi::SO_TYPE {
                        Ok(u.stype.to_raw())
                    } else if optname == crate::abi::SO_DOMAIN {
                        Ok(crate::abi::AF_UNIX)
                    } else if optname == crate::abi::SO_ERROR {
                        Ok(0)
                    } else if optname == crate::abi::SO_RCVBUF {
                        if u.recv_buf.capacity > 0x7fffffff {
                            Ok(0x7fffffff)
                        } else {
                            Ok(u.recv_buf.capacity as i32)
                        }
                    } else if optname == crate::abi::SO_SNDBUF {
                        Ok(crate::file::DEFAULT_BUFFER_SIZE as i32)
                    } else {
                        Err(Errno::ENOPROTOOPT)
                    }
                },
                _ => Err(Errno::ENOTSOCK),
            },
            None => Err(Errno::ENOTSOCK),
        }
    }

}

/// What reading each socket option yields: the socket's kind, its
/// domain, a clear error slot, and the buffer sizes; anything else is
/// unknown, and only the socket level is supported.
pub open spec fn spec_sockopt_read(u: UnixSocket, level: i32, optname: i32) -> Result<
    i32,
    Errno,
> {
        if level != crate::abi::SOL_SOCKET {
            Err(Errno::EOPNOTSUPP)
        } else if optname == crate::abi::SO_TYPE {
            Ok(
                match u.stype {
                    UnixSocketType::Stream => crate::abi::SOCK_STREAM,
                    UnixSocketType::Dgram => crate::abi::SOCK_DGRAM,
                    UnixSocketType::SeqPacket => crate::abi::SOCK_SEQPACKET,
                },
            )
        } else if optname == crate::abi::SO_DOMAIN {
            Ok(crate::abi::AF_UNIX)
        } else if optname == crate::abi::SO_ERROR {
            Ok(0)
        } else if optname == crate::abi::SO_RCVBUF {
            Ok(
                if u.recv_buf.capacity > 0x7fffffff {
                    0x7fffffff
                } else {
                    u.recv_buf.capacity as i32
                },
            )
        } else if optname == crate::abi::SO_SNDBUF {
            Ok(crate::file::DEFAULT_BUFFER_SIZE as i32)
        } else {
            Err(Errno::ENOPROTOOPT)
        }
    }

impl SyscallContext {
    /// Sets a socket option of the unix socket at `h`. Only the receive
    /// buffer size can change; it never shrinks below its pending bytes.
    pub fn sock_setsockopt(&mut self, h: usize, level: i32, optname: i32, val: i32) -> (r: Result<
        (),
        Errno,
    >)
        requires
            old(self).inv(),
            h < FILE_TABLE_SIZE,
            old(self).files.slots@[h as int] is Some,
        ensures
            final(self).inv(),
            final(self).descriptors == old(self).descriptors,
            final(self).condition == old(self).condition,
            final(self).ns == old(self).ns,
            final(self).events == old(self).events,
            final(self).mem == old(self).mem,
            forall|k: int| #[trigger] final(self).total_refs(k) == old(self).total_refs(k),
            ({
                let f = (old(self).files.slots@[h as int]->0).file;
                match f {
                    File::Socket(Socket::Unix(u)) => {
                        if level != crate::abi::SOL_SOCKET {
                            r == Err::<(), Errno>(Errno::EOPNOTSUPP) && *final(self) == *old(self)
                        } else if optname == crate::abi::SO_RCVBUF {
                            let u2 = spec_unix_at(final(self).files.slots@, h as int);
                            let want = if val < 1 {
                                1int
                            } else {
                                val as int
                            };
                            let cap = if want < u.recv_buf.data@.len() {
                                u.recv_buf.data@.len() as int
                            } else {
                                want
                            };
                            &&& r == Ok::<(), Errno>(())
                            &&& final(self).files.slots@[h as int] is Some
                            &&& u2 == (UnixSocket { recv_buf: u2.recv_buf, ..u })
                            &&& u2.recv_buf.data@ == u.recv_buf.data@
                            &&& u2.recv_buf.capacity == cap
                            &&& forall|k: int|
                                0 <= k < FILE_TABLE_SIZE && k != h ==> final(self).files.slots@[k]
                                    == old(self).files.slots@[k]
                        } else if optname == crate::abi::SO_SNDBUF {
                            r == Ok::<(), Errno>(()) && *final(self) == *old(self)
                        } else {
                            r == Err::<(), Errno>(Errno::ENOPROTOOPT) && *final(self) == *old(self)
                        }
                    },
                    _ => r == Err::<(), Errno>(Errno::ENOTSOCK) && *final(self) == *old(self),
                }
            }),
    {
        let ghost pre = *self;
        let is_unix = match &self.files.slots[h] {
            Some(s) => matches!(&s.file, File::Socket(Socket::Unix(_))),
            None => false,
        };
        if !is_unix {
            return Err(Errno::ENOTSOCK);
        }
        if level != crate::abi::SOL_SOCKET {
            return Err(Errno::EOPNOTSUPP);
        }
        if optname == crate::abi::SO_SNDBUF {
            return Ok(());
        }
        if optname != crate::abi::SO_RCVBUF {
            return Err(Errno::ENOPROTOOPT);
        }
        let mut tmp: Option<FileSlot> = None;
        core::mem::swap(&mut tmp, &mut self.files.slots[h]);
        let slot = match tmp {
            Some(s) => s,
            None => {
                proof {
                    assert(false);
                }
                vstd::pervasive::unreached()
            },
        };
        let rc = slot.refcount;
        match slot.file {
            File::Socket(Socket::Unix(u)) => {
                let want: usize = if val < 1 {
                    1
                } else {
                    val as usize
                };
                let cap: usize = if want < u.recv_buf.data.len() {
                    u.recv_buf.data.len()
                } else {
                    want
                };
                let data = u.recv_buf.data;
                let newu = UnixSocket {
                    recv_buf: crate::file::ByteBuffer { data, capacity: cap },
                    ..u
                };
                self.files.slots.set(
                    h,
                    Some(FileSlot { refcount: rc, file: File::Socket(Socket::Unix(newu)) }),
                );
                proof {
                    assert(pre.slot_inv(h as int));
                    let oldslot = pre.files.slots@[h as int]->0;
                    let newslot = self.files.slots@[h as int]->0;
                    assert(self.files.slots@ =~= pre.files.slots@.update(h as int, Some(newslot)));
                    lemma_inv_payload_update(pre, *self, h as int, oldslot, newslot);
                }
                Ok(())
            },
            _ => {
                proof {
                    assert(false);
                }
                vstd::pervasive::unreached()
            },
        }
    }
}

} // verus!
