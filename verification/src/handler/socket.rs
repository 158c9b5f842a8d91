//! Socket system calls: socket, bind, listen, accept, accept4, connect,
//! sendto, recvfrom, shutdown, socketpair, getsockopt, setsockopt,
//! getsockname and getpeername.

use vstd::prelude::*;
use crate::abi;
use crate::callback::CallbackQueue;
use crate::context::{is_listening, SyscallContext};
use crate::descriptor::{CompatFile, Descriptor, DESC_TABLE_SIZE};
use crate::errno::Errno;
use crate::file::{File, InetSocket, OpenFile, Socket, UnixSocket, FILE_TABLE_SIZE};
use crate::handler::{Resolution, SyscallHandler};
use crate::mem::read_sockaddr;
use crate::sockops::{
    spec_recv_plan, spec_send_plan, spec_unix_at, RecvPlan, SendPlan,
};
use crate::types::{
    DescriptorFlags, FileState, FileStatus, LegacySyscall, PluginPtr, Sockaddr, SyscallError,
    SyscallResult, Trigger, UnixSocketType,
};

verus! {

/// Truncates a flag word to the defined message-flag bits, as the kernel
/// does before validity checks.
pub fn truncate_msg_flags(flags: i32) -> (r: i32)
    ensures
        r == abi::spec_truncate_msg_flags(flags),
{
    flags & abi::MSG_DEFINED_MASK
}

/// Whether the defined bits of `flags` are all supported.
pub fn msg_flags_supported(flags: i32) -> (r: bool)
    ensures
        r == abi::spec_msg_flags_supported(flags),
{
    (flags & abi::MSG_DEFINED_MASK) & !abi::MSG_SUPPORTED == 0
}

/// Whether `flags` carries the per-call don't-wait bit.
pub fn msg_dontwait(flags: i32) -> (r: bool)
    ensures
        r == abi::spec_msg_dontwait(flags),
{
    (flags & abi::MSG_DEFINED_MASK) & abi::MSG_DONTWAIT != 0
}

impl SyscallHandler {
    /// `socket(domain, type, protocol)`: creates a unix-domain socket of
    /// any supported kind, or an internet stream socket handled by the
    /// legacy TCP implementation; everything else defers to the legacy
    /// collaborator. `SOCK_NONBLOCK` and `SOCK_CLOEXEC` are stripped from
    /// the type and applied as file and descriptor flags.
    pub fn socket(
        ctx: &mut SyscallContext,
        domain: i32,
        socket_type: i32,
        protocol: i32,
    ) -> (r: SyscallResult)
        requires
            old(ctx).inv(),
        ensures
            final(ctx).inv(),
            ({
                let flags = socket_type & (abi::SOCK_NONBLOCK | abi::SOCK_CLOEXEC);
                let stype = socket_type & !(abi::SOCK_NONBLOCK | abi::SOCK_CLOEXEC);
                if domain != abi::AF_UNIX && (domain != abi::AF_INET || stype
                    != abi::SOCK_STREAM) {
                    r == Err::<i64, SyscallError>(SyscallError::Legacy(LegacySyscall::Socket))
                        && *final(ctx) == *old(ctx)
                } else if domain == abi::AF_UNIX && UnixSocketType::spec_from_raw(stype)
                    is None {
                    r == Err::<i64, SyscallError>(SyscallError::Failed(Errno::EPROTONOSUPPORT))
                        && *final(ctx) == *old(ctx)
                } else if domain == abi::AF_UNIX && protocol != 0 {
                    r == Err::<i64, SyscallError>(SyscallError::Failed(Errno::EPROTONOSUPPORT))
                        && *final(ctx) == *old(ctx)
                } else if domain == abi::AF_INET && protocol != 0 && protocol
                    != abi::IPPROTO_TCP {
                    r == Err::<i64, SyscallError>(SyscallError::Failed(Errno::EPROTONOSUPPORT))
                        && *final(ctx) == *old(ctx)
                } else {
                    match r {
                        Ok(fd) => {
                            &&& 0 <= fd < DESC_TABLE_SIZE
                            &&& old(ctx).descriptors.slots@[fd as int] is None
                            &&& match final(ctx).descriptors.slots@[fd as int] {
                                Some(d) => d.flags.cloexec == (flags & abi::SOCK_CLOEXEC != 0)
                                    && match d.file {
                                    CompatFile::New(of) => {
                                        let f = (final(ctx).files.slots@[of.handle as int]->0).file;
                                        f.spec_status().nonblock == (flags & abi::SOCK_NONBLOCK
                                            != 0) && (domain == abi::AF_UNIX ==> f is Socket
                                            && f->Socket_0 is Unix) && (domain == abi::AF_INET
                                            ==> f is Socket && f->Socket_0 is Inet)
                                    },
                                    CompatFile::Legacy(_) => false,
                                },
                                None => false,
                            }
                        },
                        // exhaustion of a table is the only failure left
                        Err(e) => e == SyscallError::Failed(Errno::ENFILE) && ((forall|k: int|
                            0 <= k < FILE_TABLE_SIZE ==> old(ctx).files.slots@[k] is Some) || (
                        forall|j: int|
                            0 <= j < DESC_TABLE_SIZE ==> old(ctx).descriptors.slots@[j]
                                is Some)),
                    }
                }
            }),
    {
        let flags = socket_type & (abi::SOCK_NONBLOCK | abi::SOCK_CLOEXEC);
        let stype_raw = socket_type & !(abi::SOCK_NONBLOCK | abi::SOCK_CLOEXEC);

        // anything but a unix socket or an inet stream socket is legacy
        if domain != abi::AF_UNIX && (domain != abi::AF_INET || stype_raw != abi::SOCK_STREAM) {
            return Err(SyscallError::Legacy(LegacySyscall::Socket));
        }
        let mut file_flags = FileStatus::empty();
        let mut descriptor_flags = DescriptorFlags::empty();
        if flags & abi::SOCK_NONBLOCK != 0 {
            file_flags.nonblock = true;
        }
        if flags & abi::SOCK_CLOEXEC != 0 {
            descriptor_flags.cloexec = true;
        }
        let file = if domain == abi::AF_UNIX {
            let stype = match UnixSocketType::try_from_raw(stype_raw) {
                Some(x) => x,
                None => {
                    return Err(SyscallError::Failed(Errno::EPROTONOSUPPORT));
                },
            };
            // unix sockets support only the default protocol
            if protocol != 0 {
                return Err(SyscallError::Failed(Errno::EPROTONOSUPPORT));
            }
            File::Socket(Socket::Unix(UnixSocket::new(file_flags, stype)))
        } else {
            if protocol != 0 && protocol != abi::IPPROTO_TCP {
                return Err(SyscallError::Failed(Errno::EPROTONOSUPPORT));
            }
            File::Socket(Socket::Inet(InetSocket { status: file_flags }))
        };
        let of = match ctx.alloc_file(file) {
            Ok(of) => of,
            Err(e) => {
                return Err(SyscallError::Failed(e));
            },
        };
        let mut desc = Descriptor::new(CompatFile::New(of));
        desc.set_flags(descriptor_flags);
        match ctx.register_descriptor(desc) {
            Ok(fd) => Ok(fd as i64),
            Err(d) => {
                let mut q = CallbackQueue::new();
                match d.file {
                    CompatFile::New(of2) => {
                        ctx.release_open_file(of2, &mut q);
                    },
                    CompatFile::Legacy(_) => {},
                }
                ctx.flush_events(&mut q);
                Err(SyscallError::Failed(Errno::ENFILE))
            },
        }
    }

    /// `bind(sockfd, addr, addrlen)`: binds a unix socket to the decoded
    /// name. Legacy descriptors and internet sockets defer.
    pub fn bind(
        ctx: &mut SyscallContext,
        fd: i32,
        addr_ptr: PluginPtr,
        addr_len: u32,
    ) -> (r: SyscallResult)
        requires
            old(ctx).inv(),
        ensures
            final(ctx).inv(),
            (fd < 0 || fd >= DESC_TABLE_SIZE || old(ctx).descriptors.slots@[fd as int] is None)
                ==> r == Err::<i64, SyscallError>(SyscallError::Failed(Errno::EBADF)),
            // a native file that is not a socket refuses once a unix name
            // was decoded, and nothing changes
            (0 <= fd < DESC_TABLE_SIZE && (match old(ctx).descriptors.slots@[fd as int] {
                Some(d) => match d.file {
                    CompatFile::New(of) => (old(ctx).files.slots@[of.handle as int]->0).file
                        matches File::Pipe(_),
                    CompatFile::Legacy(_) => false,
                },
                None => false,
            }) && (match read_dest(*old(ctx), addr_ptr, addr_len) {
                Ok(Some(_)) => true,
                _ => false,
            })) ==> (r == Err::<i64, SyscallError>(SyscallError::Failed(Errno::ENOTSOCK)) && *final(ctx) == *old(ctx)),
            // an internet address is the wrong family for a native bind
            (0 <= fd < DESC_TABLE_SIZE && (match old(ctx).descriptors.slots@[fd as int] {
                Some(d) => match d.file {
                    CompatFile::New(of) => !((old(ctx).files.slots@[of.handle as int]->0).file
                        matches File::Socket(Socket::Inet(_))),
                    CompatFile::Legacy(_) => false,
                },
                None => false,
            }) && addr_ptr.val != 0 && old(ctx).mem.spec_valid(addr_ptr.val as int, addr_len as int)
                && (crate::mem::spec_decode_sockaddr(
                old(ctx).mem.bytes@.subrange(
                    addr_ptr.val as int,
                    addr_ptr.val as int + addr_len as int,
                ),
            ) matches Some(crate::types::AddrView::Inet { .. }))) ==> (r == Err::<
                i64,
                SyscallError,
            >(SyscallError::Failed(Errno::EINVAL)) && *final(ctx) == *old(ctx)),
            // with a native unix socket and a well-formed unix name, the
            // binding rules decide the outcome: success exactly on an
            // unbound socket and a free name
            (0 <= fd < DESC_TABLE_SIZE && (match old(ctx).descriptors.slots@[fd as int] {
                Some(d) => match d.file {
                    CompatFile::New(of) => (old(ctx).files.slots@[of.handle as int]->0).file
                        matches File::Socket(Socket::Unix(_)),
                    CompatFile::Legacy(_) => false,
                },
                None => false,
            }) && (match read_dest(*old(ctx), addr_ptr, addr_len) {
                Ok(Some(path)) => 1 <= path.len() <= crate::mem::UNIX_PATH_MAX,
                _ => false,
            })) ==> (match (old(ctx).descriptors.slots@[fd as int], read_dest(
                *old(ctx),
                addr_ptr,
                addr_len,
            )) {
                (Some(d), Ok(Some(path))) => {
                    let h = d.file->New_0.handle as int;
                    let u = crate::sockops::spec_unix_at(old(ctx).files.slots@, h);
                    match r {
                        Ok(v) => v == 0 && u.bound is None && crate::sockops::spec_ns_find(
                            old(ctx).ns@,
                            path,
                        ) is None && crate::sockops::spec_ns_find(final(ctx).ns@, path) == Some(
                            d.file->New_0.handle,
                        ),
                        Err(SyscallError::Failed(Errno::EINVAL)) => u.bound is Some,
                        Err(SyscallError::Failed(Errno::EADDRINUSE)) => u.bound is None
                            && crate::sockops::spec_ns_find(old(ctx).ns@, path) is Some,
                        _ => false,
                    }
                },
                _ => true,
            }),
    {
        let desc_file = match ctx.get_descriptor(fd) {
            Ok(d) => match &d.file {
                CompatFile::New(of) => of.handle,
                CompatFile::Legacy(_) => {
                    return Err(SyscallError::Legacy(LegacySyscall::Bind));
                },
            },
            Err(e) => {
                return Err(SyscallError::Failed(e));
            },
        };
        let h = desc_file;
        proof {
            crate::context::lemma_desc_handle_live(*ctx, fd as int, h as int);
        }
        if Self::is_legacy_tcp(ctx, h) {
            return Err(SyscallError::Legacy(LegacySyscall::Bind));
        }
        let addr = match read_sockaddr(&ctx.mem, addr_ptr, addr_len as usize) {
            Ok(a) => a,
            Err(e) => {
                return Err(SyscallError::Failed(e));
            },
        };
        let path = match addr {
            Some(Sockaddr::Unix { path }) => path,
            Some(Sockaddr::Inet { .. }) => {
                // wrong address family for a unix socket
                return Err(SyscallError::Failed(Errno::EINVAL));
            },
            None => {
                return Err(SyscallError::Failed(Errno::EFAULT));
            },
        };
        match ctx.sock_bind(h, &path) {
            Ok(()) => Ok(0),
            Err(e) => Err(SyscallError::Failed(e)),
        }
    }

    /// `sendto(sockfd, buf, len, flags, dest_addr, addrlen)`. A previously
    /// blocked invocation resumes on its stashed active file.
    pub fn sendto(
        ctx: &mut SyscallContext,
        fd: i32,
        buf_ptr: PluginPtr,
        buf_len: usize,
        flags: i32,
        addr_ptr: PluginPtr,
        addr_len: u32,
    ) -> (r: SyscallResult)
        requires
            old(ctx).inv(),
        ensures
            final(ctx).inv(),
            // a blocked outcome never arises from a non-blocking file or a
            // don't-wait call
            r matches Err(SyscallError::Blocked(_)) ==> !abi::spec_msg_dontwait(flags),
            (match old(ctx).condition {
                Some(c) => c.active_file is None,
                None => true,
            } && (fd < 0 || fd >= DESC_TABLE_SIZE || old(ctx).descriptors.slots@[fd as int]
                is None)) ==> r == Err::<i64, SyscallError>(SyscallError::Failed(Errno::EBADF)),
            r matches Err(SyscallError::Blocked(_)) ==> (match final(ctx).condition {
                Some(c) => c.active_file is Some,
                None => false,
            }),
            // a resumed call is governed by the file stashed in the
            // thread's condition, the descriptor table notwithstanding
            (match old(ctx).condition {
                Some(c) => match c.active_file {
                    Some(f) => send_outcome(
                        *old(ctx),
                        *final(ctx),
                        f.handle,
                        buf_ptr,
                        buf_len,
                        flags,
                        addr_ptr,
                        addr_len,
                        r,
                    ),
                    None => true,
                },
                None => true,
            }),
            // a fresh call is governed by the descriptor's file; the one
            // failure besides its outcome is a reference count at its
            // ceiling
            ((match old(ctx).condition {
                Some(c) => c.active_file is None,
                None => true,
            }) && 0 <= fd < DESC_TABLE_SIZE) ==> (match old(ctx).descriptors.slots@[fd as int] {
                Some(d) => match d.file {
                    CompatFile::New(of) => send_outcome(
                        *old(ctx),
                        *final(ctx),
                        of.handle,
                        buf_ptr,
                        buf_len,
                        flags,
                        addr_ptr,
                        addr_len,
                        r,
                    ) || (r == Err::<i64, SyscallError>(SyscallError::Failed(Errno::ENFILE))
                        && crate::sockops::spec_rc_at(old(ctx).files.slots@, of.handle as int)
                        == usize::MAX),
                    CompatFile::Legacy(_) => r == Err::<i64, SyscallError>(
                        SyscallError::Legacy(LegacySyscall::Sendto),
                    ),
                },
                None => true,
            }),
    {
        let ghost entry = *ctx;
        let of = match Self::resolve_file(ctx, fd) {
            Resolution::Resumed(of) => of,
            Resolution::Fresh(of) => of,
            Resolution::Legacy => {
                return Err(SyscallError::Legacy(LegacySyscall::Sendto));
            },
            Resolution::Error(e) => {
                return Err(SyscallError::Failed(e));
            },
        };
        let ghost s1 = *ctx;
        proof {
            assert(entry.slot_inv(of.handle as int));
            assert((entry.files.slots@[of.handle as int]->0).file == (
            s1.files.slots@[of.handle as int]->0).file);
        }
        if Self::is_legacy_tcp(ctx, of.handle) {
            proof {
                if crate::context::desc_refs(entry.descriptors.slots@, of.handle as int) >= 1 {
                    crate::context::lemma_surplus_and_desc_keep_two(s1, of.handle as int);
                }
            }
            let mut q = CallbackQueue::new();
            ctx.release_open_file(of, &mut q);
            ctx.flush_events(&mut q);
            return Err(SyscallError::Legacy(LegacySyscall::Sendto));
        }
        let res = Self::sendto_helper(ctx, of, buf_ptr, buf_len, flags, addr_ptr, addr_len);
        proof {
            lemma_send_outcome_transport(
                entry,
                s1,
                *ctx,
                of.handle,
                buf_ptr,
                buf_len,
                flags,
                addr_ptr,
                addr_len,
                res,
            );
        }
        res
    }

    /// The native send path, shared with `write`: validates the flag word
    /// with truncate-then-check leniency, reads the bytes from guest
    /// memory, performs the send, and converts a would-block outcome into
    /// a suspended call unless the file is non-blocking or `MSG_DONTWAIT`
    /// was given.
    pub fn sendto_helper(
        ctx: &mut SyscallContext,
        open_file: OpenFile,
        buf_ptr: PluginPtr,
        buf_len: usize,
        flags: i32,
        addr_ptr: PluginPtr,
        addr_len: u32,
    ) -> (r: SyscallResult)
        requires
            old(ctx).inv(),
            old(ctx).condition is None,
            open_file.handle < FILE_TABLE_SIZE,
            old(ctx).files.slots@[open_file.handle as int] is Some,
            old(ctx).has_surplus(open_file.handle as int, 1),
        ensures
            final(ctx).inv(),
            // not-a-socket is decided first, before the flag word is
            // looked at and before any guest-memory access
            ((old(ctx).files.slots@[open_file.handle as int]->0).file matches File::Pipe(_)) ==> r
                == Err::<i64, SyscallError>(SyscallError::Failed(Errno::ENOTSOCK)),
            ((old(ctx).files.slots@[open_file.handle as int]->0).file matches File::Socket(
                Socket::Inet(_),
            )) ==> r == Err::<i64, SyscallError>(SyscallError::Legacy(LegacySyscall::Sendto)),
            // flag leniency: undefined bits are dropped, the remainder is
            // checked against the supported set
            (((old(ctx).files.slots@[open_file.handle as int]->0).file matches File::Socket(
                Socket::Unix(_),
            )) && !abi::spec_msg_flags_supported(flags)) ==> r == Err::<i64, SyscallError>(
                SyscallError::Failed(Errno::EOPNOTSUPP),
            ),
            // the non-blocking invariant
            r matches Err(SyscallError::Blocked(b)) ==> ({
                &&& !(old(ctx).files.slots@[open_file.handle as int]->0).file.spec_status().nonblock
                &&& !abi::spec_msg_dontwait(flags)
                &&& b.trigger == (Trigger {
                    file: open_file.handle,
                    state: FileState { readable: false, writable: true, closed: false },
                })
                &&& final(ctx).condition == Some(
                    crate::condition::SysCallCondition {
                        trigger: b.trigger,
                        active_file: Some(open_file),
                    },
                )
                &&& b.restartable == (old(ctx).files.slots@[open_file.handle as int]->0).file.spec_supports_sa_restart()
            }),
            // a blocked result arises exactly from a would-block plan on a
            // blocking file without the don't-wait flag
            (abi::spec_msg_flags_supported(flags) && ((
            old(ctx).files.slots@[open_file.handle as int]->0).file matches File::Socket(
                Socket::Unix(_),
            )) && old(ctx).mem.spec_valid(buf_ptr.val as int, buf_len as int) && (match read_dest(
                *old(ctx),
                addr_ptr,
                addr_len,
            ) {
                Ok(d) => spec_send_plan(
                    old(ctx).files.slots@,
                    old(ctx).ns@,
                    open_file.handle as int,
                    buf_len as int,
                    d,
                ) == SendPlan::Fail(Errno::EWOULDBLOCK) && !(
                old(ctx).files.slots@[open_file.handle as int]->0).file.spec_status().nonblock
                    && !abi::spec_msg_dontwait(flags),
                Err(_) => false,
            })) ==> r matches Err(SyscallError::Blocked(_)),
            // other failures of the plan surface as they are; a would-block
            // plan on a non-blocking file or a don't-wait call is a plain
            // error
            (abi::spec_msg_flags_supported(flags) && ((
            old(ctx).files.slots@[open_file.handle as int]->0).file matches File::Socket(
                Socket::Unix(_),
            )) && old(ctx).mem.spec_valid(buf_ptr.val as int, buf_len as int) && (match read_dest(
                *old(ctx),
                addr_ptr,
                addr_len,
            ) {
                Ok(d) => match spec_send_plan(
                    old(ctx).files.slots@,
                    old(ctx).ns@,
                    open_file.handle as int,
                    buf_len as int,
                    d,
                ) {
                    SendPlan::Fail(e) => e != Errno::EWOULDBLOCK || (
                    old(ctx).files.slots@[open_file.handle as int]->0).file.spec_status().nonblock
                        || abi::spec_msg_dontwait(flags),
                    _ => false,
                },
                Err(_) => false,
            })) ==> (match (r, read_dest(*old(ctx), addr_ptr, addr_len)) {
                (Err(SyscallError::Failed(e1)), Ok(d)) => match spec_send_plan(
                    old(ctx).files.slots@,
                    old(ctx).ns@,
                    open_file.handle as int,
                    buf_len as int,
                    d,
                ) {
                    SendPlan::Fail(e) => e1 == e,
                    _ => false,
                },
                _ => false,
            }),
            // delivered sends report the count the plan fixed, and the
            // destination's receive buffer gains exactly the first
            // `count` bytes read from the guest buffer
            (abi::spec_msg_flags_supported(flags) && ((
            old(ctx).files.slots@[open_file.handle as int]->0).file matches File::Socket(
                Socket::Unix(_),
            )) && old(ctx).mem.spec_valid(buf_ptr.val as int, buf_len as int) && (match read_dest(
                *old(ctx),
                addr_ptr,
                addr_len,
            ) {
                Ok(d) => spec_send_plan(
                    old(ctx).files.slots@,
                    old(ctx).ns@,
                    open_file.handle as int,
                    buf_len as int,
                    d,
                ) matches SendPlan::Deliver { to, count },
                Err(_) => false,
            })) ==> (match (r, spec_send_plan(
                old(ctx).files.slots@,
                old(ctx).ns@,
                open_file.handle as int,
                buf_len as int,
                match read_dest(*old(ctx), addr_ptr, addr_len) {
                    Ok(d) => d,
                    Err(_) => None,
                },
            )) {
                (Ok(c), SendPlan::Deliver { to, count }) => {
                    &&& c == count
                    &&& 0 <= to < FILE_TABLE_SIZE
                    // while a descriptor still binds the sender, its
                    // release cannot tear anything down, and the buffer
                    // gain is visible
                    &&& (crate::context::desc_refs(
                        old(ctx).descriptors.slots@,
                        open_file.handle as int,
                    ) >= 1 ==> final(ctx).files.slots@[to] is Some && spec_unix_at(
                        final(ctx).files.slots@,
                        to,
                    ).recv_buf.data@ == spec_unix_at(old(ctx).files.slots@, to).recv_buf.data@
                        + old(ctx).mem.bytes@.subrange(
                        buf_ptr.val as int,
                        buf_ptr.val as int + count,
                    ))
                },
                _ => false,
            }),
            // a send never writes guest memory
            final(ctx).mem == old(ctx).mem,
            // a failing call, while a descriptor still binds the file,
            // leaves the file table untouched but for the returned
            // reference
            ((r matches Err(SyscallError::Failed(_)) || r matches Err(SyscallError::Legacy(_)))
                && crate::context::desc_refs(
                old(ctx).descriptors.slots@,
                open_file.handle as int,
            ) >= 1) ==> crate::handler::spec_same_files_except_rc(
                old(ctx).files.slots@,
                final(ctx).files.slots@,
                open_file.handle as int,
            ),
            // a suspension changes nothing but the stored condition
            r matches Err(SyscallError::Blocked(_)) ==> final(ctx).files.slots@
                == old(ctx).files.slots@,
    {
        let h = open_file.handle;
        let mut q = CallbackQueue::new();
        proof {
            if crate::context::desc_refs(old(ctx).descriptors.slots@, h as int) >= 1 {
                crate::context::lemma_surplus_and_desc_keep_two(*old(ctx), h as int);
            }
        }
        // a pipe is not a socket, and an internet socket defers — decided
        // before the flag word is looked at
        let kind: u8 = match &ctx.files.slots[h] {
            Some(s) => match &s.file {
                File::Socket(Socket::Unix(_)) => 0,
                File::Socket(Socket::Inet(_)) => 1,
                File::Pipe(_) => 2,
            },
            None => 2,
        };
        if kind == 1 {
            ctx.release_open_file(open_file, &mut q);
            ctx.flush_events(&mut q);
            return Err(SyscallError::Legacy(LegacySyscall::Sendto));
        }
        if kind == 2 {
            ctx.release_open_file(open_file, &mut q);
            ctx.flush_events(&mut q);
            return Err(SyscallError::Failed(Errno::ENOTSOCK));
        }
        // reject unsupported defined flag bits; undefined bits are dropped
        if !msg_flags_supported(flags) {
            ctx.release_open_file(open_file, &mut q);
            ctx.flush_events(&mut q);
            return Err(SyscallError::Failed(Errno::EOPNOTSUPP));
        }
        let dontwait = msg_dontwait(flags);
        // decode the destination, if one was given
        let dest: Option<Vec<u8>> = match read_sockaddr(&ctx.mem, addr_ptr, addr_len as usize) {
            Ok(Some(Sockaddr::Unix { path })) => Some(path),
            Ok(Some(Sockaddr::Inet { .. })) => {
                ctx.release_open_file(open_file, &mut q);
                ctx.flush_events(&mut q);
                return Err(SyscallError::Failed(Errno::EAFNOSUPPORT));
            },
            Ok(None) => None,
            Err(e) => {
                ctx.release_open_file(open_file, &mut q);
                ctx.flush_events(&mut q);
                return Err(SyscallError::Failed(e));
            },
        };
        // read the payload from guest memory
        let data = match ctx.mem.read(buf_ptr, buf_len) {
            Ok(d) => d,
            Err(e) => {
                ctx.release_open_file(open_file, &mut q);
                ctx.flush_events(&mut q);
                return Err(SyscallError::Failed(e));
            },
        };
        let status = Self::status_of(ctx, h);
        let restartable = match &ctx.files.slots[h] {
            Some(s) => s.file.supports_sa_restart(),
            None => false,
        };
        let result = ctx.sock_sendto(h, &data, &dest, &mut q);
        match result {
            Err(Errno::EWOULDBLOCK) if !status.nonblock && !dontwait => {
                ctx.flush_events(&mut q);
                Err(Self::block_on(
                    ctx,
                    open_file,
                    FileState { readable: false, writable: true, closed: false },
                    restartable,
                ))
            },
            Err(e) => {
                ctx.release_open_file(open_file, &mut q);
                ctx.flush_events(&mut q);
                Err(SyscallError::Failed(e))
            },
            Ok(count) => {
                let ghost after_send = *ctx;
                proof {
                    if crate::context::desc_refs(old(ctx).descriptors.slots@, h as int) >= 1 {
                        // the caller's surplus plus the descriptor's
                        // reference keep the count at two or more, so the
                        // release below only decrements
                        crate::context::lemma_queue_refs_upto_nonneg(
                            old(ctx).files.slots@,
                            h as int,
                            old(ctx).files.slots@.len() as int,
                        );
                        assert(old(ctx).total_refs(h as int) >= 1);
                        assert((old(ctx).files.slots@[h as int]->0).refcount >= 2);
                        assert((after_send.files.slots@[h as int]->0).refcount >= 2);
                    }
                }
                ctx.release_open_file(open_file, &mut q);
                ctx.flush_events(&mut q);
                proof {
                    assert(count <= 0x7fffffff);
                    assert(data@ == old(ctx).mem.bytes@.subrange(
                        buf_ptr.val as int,
                        buf_ptr.val as int + buf_len as int,
                    ));
                    assert(data@.subrange(0, count as int) =~= old(ctx).mem.bytes@.subrange(
                        buf_ptr.val as int,
                        buf_ptr.val as int + count as int,
                    ));
                }
                Ok(count as i64)
            },
        }
    }
}

/// Guest memory after a delivery's payload has landed and before any
/// address write-back: the received bytes spliced in at the buffer
/// pointer, or the memory untouched when nothing was delivered.
pub open spec fn spec_recv_mid_mem(
    pre_mem: Seq<u8>,
    buf_ptr: PluginPtr,
    payload: Seq<u8>,
) -> Seq<u8> {
    if payload.len() > 0 {
        crate::mem::spec_splice(pre_mem, buf_ptr.val as int, payload)
    } else {
        pre_mem
    }
}

/// The destination name carried by an address argument, as `sendto`
/// decodes it: no pointer means no destination; an internet address or an
/// undecodable encoding is an error.
pub open spec fn read_dest(ctx: SyscallContext, addr_ptr: PluginPtr, addr_len: u32) -> Result<
    Option<Seq<u8>>,
    (),
> {
    if addr_ptr.val == 0 {
        Ok(None)
    } else if !ctx.mem.spec_valid(addr_ptr.val as int, addr_len as int) {
        Err(())
    } else {
        match crate::mem::spec_decode_sockaddr(
            ctx.mem.bytes@.subrange(addr_ptr.val as int, addr_ptr.val as int + addr_len as int),
        ) {
            Some(crate::types::AddrView::Unix { path }) => Ok(Some(path)),
            _ => Err(()),
        }
    }
}

impl SyscallHandler {
    /// `recvfrom(sockfd, buf, len, flags, src_addr, addrlen)`. A
    /// previously blocked invocation resumes on its stashed active file.
    pub fn recvfrom(
        ctx: &mut SyscallContext,
        fd: i32,
        buf_ptr: PluginPtr,
        buf_len: usize,
        flags: i32,
        addr_ptr: PluginPtr,
        addr_len_ptr: PluginPtr,
    ) -> (r: SyscallResult)
        requires
            old(ctx).inv(),
        ensures
            final(ctx).inv(),
            r matches Err(SyscallError::Blocked(_)) ==> !abi::spec_msg_dontwait(flags),
            (match old(ctx).condition {
                Some(c) => c.active_file is None,
                None => true,
            } && (fd < 0 || fd >= DESC_TABLE_SIZE || old(ctx).descriptors.slots@[fd as int]
                is None)) ==> r == Err::<i64, SyscallError>(SyscallError::Failed(Errno::EBADF)),
            r matches Err(SyscallError::Blocked(_)) ==> (match final(ctx).condition {
                Some(c) => c.active_file is Some,
                None => false,
            }),
            // a resumed call is governed by the file stashed in the
            // thread's condition, the descriptor table notwithstanding
            (match old(ctx).condition {
                Some(c) => match c.active_file {
                    Some(f) => recv_outcome(
                        *old(ctx),
                        *final(ctx),
                        f.handle,
                        buf_ptr,
                        buf_len,
                        flags,
                        addr_ptr,
                        addr_len_ptr,
                        r,
                    ),
                    None => true,
                },
                None => true,
            }),
            // a fresh call is governed by the descriptor's file; the one
            // failure besides its outcome is a reference count at its
            // ceiling
            ((match old(ctx).condition {
                Some(c) => c.active_file is None,
                None => true,
            }) && 0 <= fd < DESC_TABLE_SIZE) ==> (match old(ctx).descriptors.slots@[fd as int] {
                Some(d) => match d.file {
                    CompatFile::New(of) => recv_outcome(
                        *old(ctx),
                        *final(ctx),
                        of.handle,
                        buf_ptr,
                        buf_len,
                        flags,
                        addr_ptr,
                        addr_len_ptr,
                        r,
                    ) || (r == Err::<i64, SyscallError>(SyscallError::Failed(Errno::ENFILE))
                        && crate::sockops::spec_rc_at(old(ctx).files.slots@, of.handle as int)
                        == usize::MAX),
                    CompatFile::Legacy(_) => r == Err::<i64, SyscallError>(
                        SyscallError::Legacy(LegacySyscall::Recvfrom),
                    ),
                },
                None => true,
            }),
    {
        let ghost entry = *ctx;
        let of = match Self::resolve_file(ctx, fd) {
            Resolution::Resumed(of) => of,
            Resolution::Fresh(of) => of,
            Resolution::Legacy => {
                return Err(SyscallError::Legacy(LegacySyscall::Recvfrom));
            },
            Resolution::Error(e) => {
                return Err(SyscallError::Failed(e));
            },
        };
        let ghost s1 = *ctx;
        proof {
            assert(entry.slot_inv(of.handle as int));
            assert((entry.files.slots@[of.handle as int]->0).file == (
            s1.files.slots@[of.handle as int]->0).file);
        }
        if Self::is_legacy_tcp(ctx, of.handle) {
            proof {
                if crate::context::desc_refs(entry.descriptors.slots@, of.handle as int) >= 1 {
                    crate::context::lemma_surplus_and_desc_keep_two(s1, of.handle as int);
                }
            }
            let mut q = CallbackQueue::new();
            ctx.release_open_file(of, &mut q);
            ctx.flush_events(&mut q);
            return Err(SyscallError::Legacy(LegacySyscall::Recvfrom));
        }
        let res = Self::recvfrom_helper(ctx, of, buf_ptr, buf_len, flags, addr_ptr, addr_len_ptr);
        proof {
            lemma_recv_outcome_transport(
                entry,
                s1,
                *ctx,
                of.handle,
                buf_ptr,
                buf_len,
                flags,
                addr_ptr,
                addr_len_ptr,
                res,
            );
        }
        res
    }

    /// The native receive path, shared with `read`: validates the flag
    /// word with truncate-then-check leniency, performs the receive,
    /// writes the bytes and the source address into guest memory, and
    /// converts a would-block outcome into a suspended call unless the
    /// file is non-blocking or `MSG_DONTWAIT` was given.
    pub fn recvfrom_helper(
        ctx: &mut SyscallContext,
        open_file: OpenFile,
        buf_ptr: PluginPtr,
        buf_len: usize,
        flags: i32,
        addr_ptr: PluginPtr,
        addr_len_ptr: PluginPtr,
    ) -> (r: SyscallResult)
        requires
            old(ctx).inv(),
            old(ctx).condition is None,
            open_file.handle < FILE_TABLE_SIZE,
            old(ctx).files.slots@[open_file.handle as int] is Some,
            old(ctx).has_surplus(open_file.handle as int, 1),
        ensures
            final(ctx).inv(),
            // not-a-socket is decided first, as on the send side
            ((old(ctx).files.slots@[open_file.handle as int]->0).file matches File::Pipe(_)) ==> r
                == Err::<i64, SyscallError>(SyscallError::Failed(Errno::ENOTSOCK)),
            ((old(ctx).files.slots@[open_file.handle as int]->0).file matches File::Socket(
                Socket::Inet(_),
            )) ==> r == Err::<i64, SyscallError>(SyscallError::Legacy(LegacySyscall::Recvfrom)),
            // flag leniency, as on the send side
            (((old(ctx).files.slots@[open_file.handle as int]->0).file matches File::Socket(
                Socket::Unix(_),
            )) && !abi::spec_msg_flags_supported(flags)) ==> r == Err::<i64, SyscallError>(
                SyscallError::Failed(Errno::EOPNOTSUPP),
            ),
            // the non-blocking invariant
            r matches Err(SyscallError::Blocked(b)) ==> ({
                &&& !(old(ctx).files.slots@[open_file.handle as int]->0).file.spec_status().nonblock
                &&& !abi::spec_msg_dontwait(flags)
                &&& b.trigger == (Trigger {
                    file: open_file.handle,
                    state: FileState { readable: true, writable: false, closed: false },
                })
                &&& final(ctx).condition == Some(
                    crate::condition::SysCallCondition {
                        trigger: b.trigger,
                        active_file: Some(open_file),
                    },
                )
                &&& b.restartable == (old(ctx).files.slots@[open_file.handle as int]->0).file.spec_supports_sa_restart()
            }),
            // a would-block plan on a blocking file without the don't-wait
            // flag suspends the call
            (abi::spec_msg_flags_supported(flags) && ((
            old(ctx).files.slots@[open_file.handle as int]->0).file matches File::Socket(
                Socket::Unix(_),
            )) && old(ctx).mem.spec_valid(buf_ptr.val as int, buf_len as int) && spec_recv_plan(
                old(ctx).files.slots@,
                open_file.handle as int,
                buf_len as int,
            ) == RecvPlan::Fail(Errno::EWOULDBLOCK) && !(
            old(ctx).files.slots@[open_file.handle as int]->0).file.spec_status().nonblock
                && !abi::spec_msg_dontwait(flags)) ==> r matches Err(SyscallError::Blocked(_)),
            // pending bytes are delivered: the count is the plan's, and
            // the bytes land at the start of the guest buffer
            (abi::spec_msg_flags_supported(flags) && ((
            old(ctx).files.slots@[open_file.handle as int]->0).file matches File::Socket(
                Socket::Unix(_),
            )) && old(ctx).mem.spec_valid(buf_ptr.val as int, buf_len as int) && addr_ptr.val == 0
                && (spec_recv_plan(
                old(ctx).files.slots@,
                open_file.handle as int,
                buf_len as int,
            ) matches RecvPlan::Data { count })) ==> (match (r, spec_recv_plan(
                old(ctx).files.slots@,
                open_file.handle as int,
                buf_len as int,
            )) {
                (Ok(c), RecvPlan::Data { count }) => {
                    let s = crate::sockops::spec_unix_at(
                        old(ctx).files.slots@,
                        open_file.handle as int,
                    );
                    &&& c == count
                    &&& (count > 0 ==> final(ctx).mem.bytes@.subrange(
                        buf_ptr.val as int,
                        buf_ptr.val as int + count,
                    ) == s.recv_buf.data@.subrange(0, count))
                },
                _ => false,
            }),
            // with a source address requested, the same delivery is owed:
            // the payload lands, then the source — the peer's address, or
            // a zero length when the socket has none — is written back;
            // the fault comes exactly when that write-back cannot land
            (abi::spec_msg_flags_supported(flags) && ((
            old(ctx).files.slots@[open_file.handle as int]->0).file matches File::Socket(
                Socket::Unix(_),
            )) && old(ctx).mem.spec_valid(buf_ptr.val as int, buf_len as int) && addr_ptr.val != 0
                && (spec_recv_plan(
                old(ctx).files.slots@,
                open_file.handle as int,
                buf_len as int,
            ) matches RecvPlan::Data { count })) ==> (match spec_recv_plan(
                old(ctx).files.slots@,
                open_file.handle as int,
                buf_len as int,
            ) {
                RecvPlan::Data { count } => {
                    let u = spec_unix_at(old(ctx).files.slots@, open_file.handle as int);
                    let mid = spec_recv_mid_mem(
                        old(ctx).mem.bytes@,
                        buf_ptr,
                        u.recv_buf.data@.subrange(0, count),
                    );
                    let src = crate::sockops::spec_peer_addr(
                        old(ctx).files.slots@,
                        open_file.handle as int,
                    );
                    match r {
                        Ok(c) => c == count && (match src {
                            Some(pa) => crate::mem::spec_sockaddr_written(
                                mid,
                                final(ctx).mem.bytes@,
                                seq![crate::mem::SOCKADDR_TAG_UNIX] + pa,
                                addr_ptr,
                                addr_len_ptr,
                            ),
                            None => final(ctx).mem.bytes@ == crate::mem::spec_splice(
                                mid,
                                addr_len_ptr.val as int,
                                crate::mem::spec_le32_bytes(0),
                            ),
                        }),
                        Err(e) => e == SyscallError::Failed(Errno::EFAULT) && (match src {
                            Some(pa) => !crate::mem::spec_sockaddr_write_ok(
                                mid,
                                seq![crate::mem::SOCKADDR_TAG_UNIX] + pa,
                                addr_ptr,
                                addr_len_ptr,
                            ),
                            None => !crate::mem::spec_range_ok(
                                mid,
                                addr_len_ptr.val as int,
                                4,
                            ),
                        }),
                    }
                },
                _ => true,
            }),
            // end-of-stream yields zero
            (abi::spec_msg_flags_supported(flags) && ((
            old(ctx).files.slots@[open_file.handle as int]->0).file matches File::Socket(
                Socket::Unix(_),
            )) && old(ctx).mem.spec_valid(buf_ptr.val as int, buf_len as int) && addr_ptr.val == 0
                && spec_recv_plan(
                old(ctx).files.slots@,
                open_file.handle as int,
                buf_len as int,
            ) == RecvPlan::Eof) ==> r == Ok::<i64, SyscallError>(0),
            // other failures of the plan surface as they are; a would-block
            // plan on a non-blocking file or a don't-wait call is a plain
            // error
            (abi::spec_msg_flags_supported(flags) && ((
            old(ctx).files.slots@[open_file.handle as int]->0).file matches File::Socket(
                Socket::Unix(_),
            )) && old(ctx).mem.spec_valid(buf_ptr.val as int, buf_len as int) && (match spec_recv_plan(
                old(ctx).files.slots@,
                open_file.handle as int,
                buf_len as int,
            ) {
                RecvPlan::Fail(e) => e != Errno::EWOULDBLOCK || (
                old(ctx).files.slots@[open_file.handle as int]->0).file.spec_status().nonblock
                    || abi::spec_msg_dontwait(flags),
                _ => false,
            })) ==> (match spec_recv_plan(
                old(ctx).files.slots@,
                open_file.handle as int,
                buf_len as int,
            ) {
                RecvPlan::Fail(e) => r == Err::<i64, SyscallError>(SyscallError::Failed(e)),
                _ => false,
            }),
            // delivery drains the socket: while a descriptor still binds
            // it, the delivered bytes leave the front of its receive
            // buffer, everything else about it stays, and no other slot
            // moves
            ((((old(ctx).files.slots@[open_file.handle as int]->0).file matches File::Socket(
                Socket::Unix(_),
            )) && abi::spec_msg_flags_supported(flags) && old(ctx).mem.spec_valid(
                buf_ptr.val as int,
                buf_len as int,
            ) && (spec_recv_plan(old(ctx).files.slots@, open_file.handle as int, buf_len as int)
                matches RecvPlan::Data { count }) && crate::context::desc_refs(
                old(ctx).descriptors.slots@,
                open_file.handle as int,
            ) >= 1) ==> (match spec_recv_plan(
                old(ctx).files.slots@,
                open_file.handle as int,
                buf_len as int,
            ) {
                RecvPlan::Data { count } => {
                    let u = spec_unix_at(old(ctx).files.slots@, open_file.handle as int);
                    let u2 = spec_unix_at(final(ctx).files.slots@, open_file.handle as int);
                    &&& final(ctx).files.slots@[open_file.handle as int] is Some
                    &&& u2 == (crate::file::UnixSocket { recv_buf: u2.recv_buf, ..u })
                    &&& u2.recv_buf.capacity == u.recv_buf.capacity
                    &&& u2.recv_buf.data@ == u.recv_buf.data@.subrange(
                        count,
                        u.recv_buf.data@.len() as int,
                    )
                    &&& forall|k: int|
                        0 <= k < FILE_TABLE_SIZE && k != open_file.handle as int ==> final(ctx).files.slots@[k] == old(ctx).files.slots@[k]
                },
                _ => true,
            })),
            // a failing call leaves guest memory untouched (a fault with
            // an address requested is the one outcome following a write)
            (match r {
                Err(SyscallError::Failed(e)) => e != Errno::EFAULT || addr_ptr.val == 0,
                Err(SyscallError::Legacy(_)) => true,
                _ => false,
            }) ==> final(ctx).mem == old(ctx).mem,
            // and, while a descriptor still binds the file, it leaves the
            // file table untouched but for the returned reference
            ((match r {
                Err(SyscallError::Failed(e)) => e != Errno::EFAULT || addr_ptr.val == 0,
                Err(SyscallError::Legacy(_)) => true,
                _ => false,
            }) && crate::context::desc_refs(
                old(ctx).descriptors.slots@,
                open_file.handle as int,
            ) >= 1) ==> crate::handler::spec_same_files_except_rc(
                old(ctx).files.slots@,
                final(ctx).files.slots@,
                open_file.handle as int,
            ),
            // a suspension changes nothing but the stored condition
            r matches Err(SyscallError::Blocked(_)) ==> final(ctx).files.slots@
                == old(ctx).files.slots@ && final(ctx).mem == old(ctx).mem,
    {
        let h = open_file.handle;
        let mut q = CallbackQueue::new();
        proof {
            if crate::context::desc_refs(old(ctx).descriptors.slots@, h as int) >= 1 {
                crate::context::lemma_surplus_and_desc_keep_two(*old(ctx), h as int);
            }
        }
        let kind: u8 = match &ctx.files.slots[h] {
            Some(s) => match &s.file {
                File::Socket(Socket::Unix(_)) => 0,
                File::Socket(Socket::Inet(_)) => 1,
                File::Pipe(_) => 2,
            },
            None => 2,
        };
        if kind == 1 {
            ctx.release_open_file(open_file, &mut q);
            ctx.flush_events(&mut q);
            return Err(SyscallError::Legacy(LegacySyscall::Recvfrom));
        }
        if kind == 2 {
            ctx.release_open_file(open_file, &mut q);
            ctx.flush_events(&mut q);
            return Err(SyscallError::Failed(Errno::ENOTSOCK));
        }
        if !msg_flags_supported(flags) {
            ctx.release_open_file(open_file, &mut q);
            ctx.flush_events(&mut q);
            return Err(SyscallError::Failed(Errno::EOPNOTSUPP));
        }
        let dontwait = msg_dontwait(flags);
        // the guest buffer must be addressable before anything is consumed;
        // a zero-length buffer accesses nothing and is always addressable
        if buf_len > 0 && (buf_ptr.val == 0 || buf_len > ctx.mem.bytes.len() || buf_ptr.val
            > ctx.mem.bytes.len() - buf_len) {
            ctx.release_open_file(open_file, &mut q);
            ctx.flush_events(&mut q);
            return Err(SyscallError::Failed(Errno::EFAULT));
        }
        let status = Self::status_of(ctx, h);
        let restartable = match &ctx.files.slots[h] {
            Some(s) => s.file.supports_sa_restart(),
            None => false,
        };
        let result = ctx.sock_recvfrom(h, buf_len, &mut q);
        match result {
            Err(Errno::EWOULDBLOCK) if !status.nonblock && !dontwait => {
                ctx.flush_events(&mut q);
                Err(Self::block_on(
                    ctx,
                    open_file,
                    FileState { readable: true, writable: false, closed: false },
                    restartable,
                ))
            },
            Err(e) => {
                ctx.release_open_file(open_file, &mut q);
                ctx.flush_events(&mut q);
                Err(SyscallError::Failed(e))
            },
            Ok((bytes, src)) => {
                let count = bytes.len();
                if count > 0 {
                    match ctx.guest_write(buf_ptr, bytes.as_slice()) {
                        Ok(()) => {},
                        Err(e) => {
                            ctx.release_open_file(open_file, &mut q);
                            ctx.flush_events(&mut q);
                            return Err(SyscallError::Failed(e));
                        },
                    };
                }
                proof {
                    // the memory now holds exactly the delivered payload
                    if count > 0 && old(ctx).mem.spec_valid(buf_ptr.val as int, buf_len as int) {
                        assert(ctx.mem.bytes@ =~= crate::mem::spec_splice(
                            old(ctx).mem.bytes@,
                            buf_ptr.val as int,
                            bytes@,
                        ));
                    }
                }
                if !addr_ptr.is_null() {
                    let wrote = match src {
                        Some(path) => ctx.guest_write_sockaddr(
                            &Sockaddr::Unix { path },
                            addr_ptr,
                            addr_len_ptr,
                        ),
                        None => {
                            let zero: [u8; 4] = [0, 0, 0, 0];
                            proof {
                                assert((0u32 & 0xff) as u8 == 0 && ((0u32 >> 8) & 0xff) as u8 == 0
                                    && ((0u32 >> 16) & 0xff) as u8 == 0 && ((0u32 >> 24)
                                    & 0xff) as u8 == 0) by (bit_vector);
                                assert(zero@ =~= crate::mem::spec_le32_bytes(0));
                            }
                            ctx.guest_write(addr_len_ptr, zero.as_slice())
                        },
                    };
                    match wrote {
                        Ok(()) => {},
                        Err(e) => {
                            ctx.release_open_file(open_file, &mut q);
                            ctx.flush_events(&mut q);
                            return Err(SyscallError::Failed(e));
                        },
                    };
                }
                ctx.release_open_file(open_file, &mut q);
                ctx.flush_events(&mut q);
                proof {
                    assert(count <= 0x7fffffff);
                }
                Ok(count as i64)
            },
        }
    }
}

impl SyscallHandler {
    /// `getsockname(sockfd, addr, addrlen)`: writes the socket's bound
    /// address. A null address or length pointer is `EFAULT`, checked
    /// before any kind-specific error.
    pub fn getsockname(
        ctx: &mut SyscallContext,
        fd: i32,
        addr_ptr: PluginPtr,
        addr_len_ptr: PluginPtr,
    ) -> (r: SyscallResult)
        requires
            old(ctx).inv(),
        ensures
            final(ctx).inv(),
            // EFAULT precedes every other error on a native socket
            (0 <= fd < DESC_TABLE_SIZE && (match old(ctx).descriptors.slots@[fd as int] {
                Some(d) => d.file is New,
                None => false,
            }) && (addr_ptr.val == 0 || addr_len_ptr.val == 0)) ==> r == Err::<i64, SyscallError>(
                SyscallError::Failed(Errno::EFAULT),
            ),
            (fd < 0 || fd >= DESC_TABLE_SIZE || old(ctx).descriptors.slots@[fd as int] is None)
                ==> r == Err::<i64, SyscallError>(SyscallError::Failed(Errno::EBADF)),
            // a native file that is not a socket has no name to report
            (0 <= fd < DESC_TABLE_SIZE && (match old(ctx).descriptors.slots@[fd as int] {
                Some(d) => match d.file {
                    CompatFile::New(of) => (old(ctx).files.slots@[of.handle as int]->0).file
                        matches File::Pipe(_),
                    CompatFile::Legacy(_) => false,
                },
                None => false,
            }) && addr_ptr.val != 0 && addr_len_ptr.val != 0) ==> (r == Err::<i64, SyscallError>(
                SyscallError::Failed(Errno::ENOTSOCK),
            ) && *final(ctx) == *old(ctx)),
            // on a native unix socket with usable pointers, the bound
            // address — the empty unnamed address if none — is written
            // back truncated, with its full encoded length
            (0 <= fd < DESC_TABLE_SIZE && (match old(ctx).descriptors.slots@[fd as int] {
                Some(d) => match d.file {
                    CompatFile::New(of) => (old(ctx).files.slots@[of.handle as int]->0).file
                        matches File::Socket(Socket::Unix(_)),
                    CompatFile::Legacy(_) => false,
                },
                None => false,
            }) && addr_ptr.val != 0 && addr_len_ptr.val != 0) ==> (
            match old(ctx).descriptors.slots@[fd as int] {
                Some(d) => {
                    let h = d.file->New_0.handle as int;
                    let u = spec_unix_at(old(ctx).files.slots@, h);
                    let name = match u.bound {
                        Some(n) => n@,
                        None => Seq::<u8>::empty(),
                    };
                    match r {
                        Ok(v) => v == 0 && crate::mem::spec_sockaddr_written(
                            old(ctx).mem.bytes@,
                            final(ctx).mem.bytes@,
                            seq![crate::mem::SOCKADDR_TAG_UNIX] + name,
                            addr_ptr,
                            addr_len_ptr,
                        ),
                        // the fault is owed: it comes exactly when a
                        // target range is not addressable
                        Err(e) => e == SyscallError::Failed(Errno::EFAULT)
                            && !crate::mem::spec_sockaddr_write_ok(
                            old(ctx).mem.bytes@,
                            seq![crate::mem::SOCKADDR_TAG_UNIX] + name,
                            addr_ptr,
                            addr_len_ptr,
                        ),
                    }
                },
                None => true,
            }),
    {
        let h = match ctx.get_descriptor(fd) {
            Ok(d) => match &d.file {
                CompatFile::New(of) => of.handle,
                CompatFile::Legacy(_) => {
                    return Err(SyscallError::Legacy(LegacySyscall::Getsockname));
                },
            },
            Err(e) => {
                return Err(SyscallError::Failed(e));
            },
        };
        proof {
            crate::context::lemma_desc_handle_live(*ctx, fd as int, h as int);
        }
        // the fault check comes before any kind-specific error
        if addr_ptr.is_null() || addr_len_ptr.is_null() {
            return Err(SyscallError::Failed(Errno::EFAULT));
        }
        if Self::is_legacy_tcp(ctx, h) {
            return Err(SyscallError::Legacy(LegacySyscall::Getsockname));
        }
        let name = match ctx.sock_getsockname(h) {
            Ok(n) => n,
            Err(e) => {
                return Err(SyscallError::Failed(e));
            },
        };
        let addr = Sockaddr::Unix {
            path: match name {
                Some(n) => n,
                None => Vec::new(),
            },
        };
        match ctx.guest_write_sockaddr(&addr, addr_ptr, addr_len_ptr) {
            Ok(()) => Ok(0),
            Err(e) => Err(SyscallError::Failed(e)),
        }
    }

    /// `getpeername(sockfd, addr, addrlen)`: writes the peer's address.
    /// A null address or length pointer is `EFAULT`, checked before any
    /// kind-specific error such as `ENOTCONN`.
    pub fn getpeername(
        ctx: &mut SyscallContext,
        fd: i32,
        addr_ptr: PluginPtr,
        addr_len_ptr: PluginPtr,
    ) -> (r: SyscallResult)
        requires
            old(ctx).inv(),
        ensures
            final(ctx).inv(),
            (0 <= fd < DESC_TABLE_SIZE && (match old(ctx).descriptors.slots@[fd as int] {
                Some(d) => d.file is New,
                None => false,
            }) && (addr_ptr.val == 0 || addr_len_ptr.val == 0)) ==> r == Err::<i64, SyscallError>(
                SyscallError::Failed(Errno::EFAULT),
            ),
            (fd < 0 || fd >= DESC_TABLE_SIZE || old(ctx).descriptors.slots@[fd as int] is None)
                ==> r == Err::<i64, SyscallError>(SyscallError::Failed(Errno::EBADF)),
            // a native file that is not a socket has no peer to report
            (0 <= fd < DESC_TABLE_SIZE && (match old(ctx).descriptors.slots@[fd as int] {
                Some(d) => match d.file {
                    CompatFile::New(of) => (old(ctx).files.slots@[of.handle as int]->0).file
                        matches File::Pipe(_),
                    CompatFile::Legacy(_) => false,
                },
                None => false,
            }) && addr_ptr.val != 0 && addr_len_ptr.val != 0) ==> (r == Err::<i64, SyscallError>(
                SyscallError::Failed(Errno::ENOTSOCK),
            ) && *final(ctx) == *old(ctx)),
            // on a native unix socket with usable pointers, the peer's
            // address — or the recorded default destination — is written
            // back truncated; a socket never connected is `ENOTCONN`
            (0 <= fd < DESC_TABLE_SIZE && (match old(ctx).descriptors.slots@[fd as int] {
                Some(d) => match d.file {
                    CompatFile::New(of) => (old(ctx).files.slots@[of.handle as int]->0).file
                        matches File::Socket(Socket::Unix(_)),
                    CompatFile::Legacy(_) => false,
                },
                None => false,
            }) && addr_ptr.val != 0 && addr_len_ptr.val != 0) ==> (
            match old(ctx).descriptors.slots@[fd as int] {
                Some(d) => {
                    let h = d.file->New_0.handle as int;
                    let u = spec_unix_at(old(ctx).files.slots@, h);
                    let name_opt = if u.peer is Some || u.peer_closed {
                        Some(
                            match u.peer_addr {
                                Some(n) => n@,
                                None => Seq::<u8>::empty(),
                            },
                        )
                    } else if u.default_dest is Some {
                        Some(u.default_dest->0@)
                    } else {
                        None
                    };
                    match (r, name_opt) {
                        (Ok(v), Some(name)) => v == 0 && crate::mem::spec_sockaddr_written(
                            old(ctx).mem.bytes@,
                            final(ctx).mem.bytes@,
                            seq![crate::mem::SOCKADDR_TAG_UNIX] + name,
                            addr_ptr,
                            addr_len_ptr,
                        ),
                        // the fault is owed, as in `getsockname`
                        (Err(e), Some(name)) => e == SyscallError::Failed(Errno::EFAULT)
                            && !crate::mem::spec_sockaddr_write_ok(
                            old(ctx).mem.bytes@,
                            seq![crate::mem::SOCKADDR_TAG_UNIX] + name,
                            addr_ptr,
                            addr_len_ptr,
                        ),
                        (Err(e), None) => e == SyscallError::Failed(Errno::ENOTCONN),
                        (Ok(_), None) => false,
                    }
                },
                None => true,
            }),
    {
        let h = match ctx.get_descriptor(fd) {
            Ok(d) => match &d.file {
                CompatFile::New(of) => of.handle,
                CompatFile::Legacy(_) => {
                    return Err(SyscallError::Legacy(LegacySyscall::Getpeername));
                },
            },
            Err(e) => {
                return Err(SyscallError::Failed(e));
            },
        };
        proof {
            crate::context::lemma_desc_handle_live(*ctx, fd as int, h as int);
        }
        if addr_ptr.is_null() || addr_len_ptr.is_null() {
            return Err(SyscallError::Failed(Errno::EFAULT));
        }
        if Self::is_legacy_tcp(ctx, h) {
            return Err(SyscallError::Legacy(LegacySyscall::Getpeername));
        }
        let name = match ctx.sock_getpeername(h) {
            Ok(n) => n,
            Err(e) => {
                return Err(SyscallError::Failed(e));
            },
        };
        let addr = Sockaddr::Unix {
            path: match name {
                Some(n) => n,
                None => Vec::new(),
            },
        };
        match ctx.guest_write_sockaddr(&addr, addr_ptr, addr_len_ptr) {
            Ok(()) => Ok(0),
            Err(e) => Err(SyscallError::Failed(e)),
        }
    }

    /// `listen(sockfd, backlog)`: moves the socket into listening
    /// acceptance mode with the clamped backlog.
    pub fn listen(ctx: &mut SyscallContext, fd: i32, backlog: i32) -> (r: SyscallResult)
        requires
            old(ctx).inv(),
        ensures
            final(ctx).inv(),
            (fd < 0 || fd >= DESC_TABLE_SIZE || old(ctx).descriptors.slots@[fd as int] is None)
                ==> r == Err::<i64, SyscallError>(SyscallError::Failed(Errno::EBADF)),
            // a native file that is not a socket cannot listen, and
            // nothing changes
            (0 <= fd < DESC_TABLE_SIZE && (match old(ctx).descriptors.slots@[fd as int] {
                Some(d) => match d.file {
                    CompatFile::New(of) => (old(ctx).files.slots@[of.handle as int]->0).file
                        matches File::Pipe(_),
                    CompatFile::Legacy(_) => false,
                },
                None => false,
            })) ==> (r == Err::<i64, SyscallError>(SyscallError::Failed(Errno::ENOTSOCK)) && *final(ctx) == *old(ctx)),
            // on a native unix socket the listening rules decide: datagram
            // sockets refuse, connected or unbound sockets are invalid,
            // anything else enters acceptance mode with the clamped
            // backlog, its pending queue kept
            (0 <= fd < DESC_TABLE_SIZE && (match old(ctx).descriptors.slots@[fd as int] {
                Some(d) => match d.file {
                    CompatFile::New(of) => (old(ctx).files.slots@[of.handle as int]->0).file
                        matches File::Socket(Socket::Unix(_)),
                    CompatFile::Legacy(_) => false,
                },
                None => false,
            })) ==> (match old(ctx).descriptors.slots@[fd as int] {
                Some(d) => {
                    let h = d.file->New_0.handle as int;
                    let u = crate::sockops::spec_unix_at(old(ctx).files.slots@, h);
                    if u.stype is Dgram {
                        r == Err::<i64, SyscallError>(SyscallError::Failed(Errno::EOPNOTSUPP))
                            && *final(ctx) == *old(ctx)
                    } else if u.peer is Some || u.peer_closed || u.bound is None {
                        r == Err::<i64, SyscallError>(SyscallError::Failed(Errno::EINVAL))
                            && *final(ctx) == *old(ctx)
                    } else {
                        let u2 = crate::sockops::spec_unix_at(final(ctx).files.slots@, h);
                        &&& r == Ok::<i64, SyscallError>(0)
                        &&& is_listening((final(ctx).files.slots@[h]->0).file)
                        &&& u2 == (crate::file::UnixSocket { listen: u2.listen, ..u })
                        &&& match u2.listen {
                            Some(l2) => l2.backlog == crate::sockops::spec_clamp_backlog(
                                backlog as int,
                            ) && l2.queue@ == crate::context::slot_queue(
                                old(ctx).files.slots@[h],
                            ),
                            None => false,
                        }
                        &&& forall|k: int|
                            0 <= k < FILE_TABLE_SIZE && k != h ==> final(ctx).files.slots@[k]
                                == old(ctx).files.slots@[k]
                    }
                },
                None => true,
            }),
    {
        let h = match ctx.get_descriptor(fd) {
            Ok(d) => match &d.file {
                CompatFile::New(of) => of.handle,
                CompatFile::Legacy(_) => {
                    return Err(SyscallError::Legacy(LegacySyscall::Listen));
                },
            },
            Err(e) => {
                return Err(SyscallError::Failed(e));
            },
        };
        proof {
            crate::context::lemma_desc_handle_live(*ctx, fd as int, h as int);
        }
        if Self::is_legacy_tcp(ctx, h) {
            return Err(SyscallError::Legacy(LegacySyscall::Listen));
        }
        match ctx.sock_listen(h, backlog) {
            Ok(()) => Ok(0),
            Err(e) => Err(SyscallError::Failed(e)),
        }
    }

    /// `accept(sockfd, addr, addrlen)`.
    pub fn accept(
        ctx: &mut SyscallContext,
        fd: i32,
        addr_ptr: PluginPtr,
        addr_len_ptr: PluginPtr,
    ) -> (r: SyscallResult)
        requires
            old(ctx).inv(),
        ensures
            final(ctx).inv(),
            (match old(ctx).condition {
                Some(c) => c.active_file is None,
                None => true,
            } && (fd < 0 || fd >= DESC_TABLE_SIZE || old(ctx).descriptors.slots@[fd as int]
                is None)) ==> r == Err::<i64, SyscallError>(SyscallError::Failed(Errno::EBADF)),
            r matches Err(SyscallError::Blocked(_)) ==> (match final(ctx).condition {
                Some(c) => c.active_file is Some,
                None => false,
            }),
            // a resumed call is governed by the file stashed in the
            // thread's condition, the descriptor table notwithstanding
            (match old(ctx).condition {
                Some(c) => match c.active_file {
                    Some(f) => accept_outcome(
                        *old(ctx),
                        *final(ctx),
                        f.handle,
                        addr_ptr,
                        addr_len_ptr,
                        0,
                        r,
                    ),
                    None => true,
                },
                None => true,
            }),
            // a fresh call is governed by the descriptor's file
            ((match old(ctx).condition {
                Some(c) => c.active_file is None,
                None => true,
            }) && 0 <= fd < DESC_TABLE_SIZE) ==> (match old(ctx).descriptors.slots@[fd as int] {
                Some(d) => match d.file {
                    CompatFile::New(of) => accept_outcome(
                        *old(ctx),
                        *final(ctx),
                        of.handle,
                        addr_ptr,
                        addr_len_ptr,
                        0,
                        r,
                    ) || (r == Err::<i64, SyscallError>(SyscallError::Failed(Errno::ENFILE))
                        && crate::sockops::spec_rc_at(old(ctx).files.slots@, of.handle as int)
                        == usize::MAX),
                    CompatFile::Legacy(_) => r == Err::<i64, SyscallError>(
                        SyscallError::Legacy(LegacySyscall::Accept),
                    ),
                },
                None => true,
            }),
    {
        let ghost entry = *ctx;
        let of = match Self::resolve_file(ctx, fd) {
            Resolution::Resumed(of) => of,
            Resolution::Fresh(of) => of,
            Resolution::Legacy => {
                return Err(SyscallError::Legacy(LegacySyscall::Accept));
            },
            Resolution::Error(e) => {
                return Err(SyscallError::Failed(e));
            },
        };
        let ghost s1 = *ctx;
        let res = Self::accept_helper(ctx, of, addr_ptr, addr_len_ptr, 0);
        proof {
            assert(entry.slot_inv(of.handle as int));
            lemma_accept_outcome_transport(
                entry,
                s1,
                *ctx,
                of.handle,
                addr_ptr,
                addr_len_ptr,
                0,
                res,
            );
        }
        res
    }

    /// `accept4(sockfd, addr, addrlen, flags)`.
    pub fn accept4(
        ctx: &mut SyscallContext,
        fd: i32,
        addr_ptr: PluginPtr,
        addr_len_ptr: PluginPtr,
        flags: i32,
    ) -> (r: SyscallResult)
        requires
            old(ctx).inv(),
        ensures
            final(ctx).inv(),
            (match old(ctx).condition {
                Some(c) => c.active_file is None,
                None => true,
            } && (fd < 0 || fd >= DESC_TABLE_SIZE || old(ctx).descriptors.slots@[fd as int]
                is None)) ==> r == Err::<i64, SyscallError>(SyscallError::Failed(Errno::EBADF)),
            r matches Err(SyscallError::Blocked(_)) ==> (match final(ctx).condition {
                Some(c) => c.active_file is Some,
                None => false,
            }),
            // resumption and fresh resolution, as in `accept`, with the
            // caller's flags applied to the accepted socket
            (match old(ctx).condition {
                Some(c) => match c.active_file {
                    Some(f) => accept_outcome(
                        *old(ctx),
                        *final(ctx),
                        f.handle,
                        addr_ptr,
                        addr_len_ptr,
                        flags,
                        r,
                    ),
                    None => true,
                },
                None => true,
            }),
            ((match old(ctx).condition {
                Some(c) => c.active_file is None,
                None => true,
            }) && 0 <= fd < DESC_TABLE_SIZE) ==> (match old(ctx).descriptors.slots@[fd as int] {
                Some(d) => match d.file {
                    CompatFile::New(of) => accept_outcome(
                        *old(ctx),
                        *final(ctx),
                        of.handle,
                        addr_ptr,
                        addr_len_ptr,
                        flags,
                        r,
                    ) || (r == Err::<i64, SyscallError>(SyscallError::Failed(Errno::ENFILE))
                        && crate::sockops::spec_rc_at(old(ctx).files.slots@, of.handle as int)
                        == usize::MAX),
                    CompatFile::Legacy(_) => r == Err::<i64, SyscallError>(
                        SyscallError::Legacy(LegacySyscall::Accept4),
                    ),
                },
                None => true,
            }),
    {
        let ghost entry = *ctx;
        let of = match Self::resolve_file(ctx, fd) {
            Resolution::Resumed(of) => of,
            Resolution::Fresh(of) => of,
            Resolution::Legacy => {
                return Err(SyscallError::Legacy(LegacySyscall::Accept4));
            },
            Resolution::Error(e) => {
                return Err(SyscallError::Failed(e));
            },
        };
        let ghost s1 = *ctx;
        let res = Self::accept_helper(ctx, of, addr_ptr, addr_len_ptr, flags);
        proof {
            assert(entry.slot_inv(of.handle as int));
            lemma_accept_outcome_transport(
                entry,
                s1,
                *ctx,
                of.handle,
                addr_ptr,
                addr_len_ptr,
                flags,
                res,
            );
        }
        res
    }

    /// The shared accept path: pops a pending connection, writes the
    /// peer's address, applies `SOCK_NONBLOCK`/`SOCK_CLOEXEC` (unknown
    /// flag bits are silently dropped, as the kernel does) and registers
    /// the new descriptor. A would-block outcome on a blocking socket
    /// suspends the call until the listener is readable.
    fn accept_helper(
        ctx: &mut SyscallContext,
        open_file: OpenFile,
        addr_ptr: PluginPtr,
        addr_len_ptr: PluginPtr,
        flags: i32,
    ) -> (r: SyscallResult)
        requires
            old(ctx).inv(),
            old(ctx).condition is None,
            open_file.handle < FILE_TABLE_SIZE,
            old(ctx).files.slots@[open_file.handle as int] is Some,
            old(ctx).has_surplus(open_file.handle as int, 1),
        ensures
            final(ctx).inv(),
            // the non-blocking invariant
            r matches Err(SyscallError::Blocked(b)) ==> ({
                &&& !(old(ctx).files.slots@[open_file.handle as int]->0).file.spec_status().nonblock
                &&& b.trigger == (Trigger {
                    file: open_file.handle,
                    state: FileState { readable: true, writable: false, closed: false },
                })
                &&& final(ctx).condition == Some(
                    crate::condition::SysCallCondition {
                        trigger: b.trigger,
                        active_file: Some(open_file),
                    },
                )
                &&& b.restartable == (old(ctx).files.slots@[open_file.handle as int]->0).file.spec_supports_sa_restart()
            }),
            // the immediate failures of the kind and listening checks
            ((old(ctx).files.slots@[open_file.handle as int]->0).file matches File::Pipe(_)) ==> r
                == Err::<i64, SyscallError>(SyscallError::Failed(Errno::ENOTSOCK)),
            ((old(ctx).files.slots@[open_file.handle as int]->0).file matches File::Socket(
                Socket::Inet(_),
            )) ==> r == Err::<i64, SyscallError>(SyscallError::Legacy(LegacySyscall::Accept)),
            (match (old(ctx).files.slots@[open_file.handle as int]->0).file {
                File::Socket(Socket::Unix(u)) => u.listen is None,
                _ => false,
            }) ==> r == Err::<i64, SyscallError>(SyscallError::Failed(Errno::EINVAL)),
            // nothing pending: a non-blocking listener reports the
            // would-block error at once, a blocking one suspends (the
            // `SOCK_NONBLOCK` bit of the flags argument applies to the
            // accepted socket only, never to the wait)
            (match (old(ctx).files.slots@[open_file.handle as int]->0).file {
                File::Socket(Socket::Unix(u)) => match u.listen {
                    Some(l) => l.queue@.len() == 0,
                    None => false,
                },
                _ => false,
            } && (old(ctx).files.slots@[open_file.handle as int]->0).file.spec_status().nonblock)
                ==> r == Err::<i64, SyscallError>(SyscallError::Failed(Errno::EWOULDBLOCK)),
            (match (old(ctx).files.slots@[open_file.handle as int]->0).file {
                File::Socket(Socket::Unix(u)) => match u.listen {
                    Some(l) => l.queue@.len() == 0,
                    None => false,
                },
                _ => false,
            } && !(old(ctx).files.slots@[open_file.handle as int]->0).file.spec_status().nonblock)
                ==> r matches Err(SyscallError::Blocked(_)),
            // a pending connection is accepted: the front of the queue is
            // registered at a fresh descriptor with the requested flags
            // applied and the peer's address written back; failure means
            // descriptor exhaustion, or a real fault writing the
            // requested peer address
            (match (old(ctx).files.slots@[open_file.handle as int]->0).file {
                File::Socket(Socket::Unix(u)) => match u.listen {
                    Some(l) => l.queue@.len() > 0,
                    None => false,
                },
                _ => false,
            }) ==> (match (r, (old(ctx).files.slots@[open_file.handle as int]->0).file) {
                (Ok(fd), File::Socket(Socket::Unix(u))) => {
                    let ch = u.listen->0.queue@[0];
                    let peer_name = match crate::sockops::spec_peer_addr(
                        old(ctx).files.slots@,
                        ch as int,
                    ) {
                        Some(pa) => pa,
                        None => Seq::<u8>::empty(),
                    };
                    &&& 0 <= fd < DESC_TABLE_SIZE
                    &&& old(ctx).descriptors.slots@[fd as int] is None
                    &&& match final(ctx).descriptors.slots@[fd as int] {
                        Some(d) => d.file == crate::descriptor::CompatFile::New(
                            OpenFile { handle: ch },
                        ) && d.flags.cloexec == (flags & abi::SOCK_CLOEXEC != 0),
                        None => false,
                    }
                    &&& final(ctx).files.slots@[ch as int] is Some
                    &&& (flags & abi::SOCK_NONBLOCK != 0 ==> (
                    final(ctx).files.slots@[ch as int]->0).file.spec_status().nonblock)
                    &&& (flags & abi::SOCK_NONBLOCK == 0 && crate::context::desc_refs(
                        old(ctx).descriptors.slots@,
                        open_file.handle as int,
                    ) >= 1 ==> (final(ctx).files.slots@[ch as int]->0).file == (
                    old(ctx).files.slots@[ch as int]->0).file)
                    &&& (addr_ptr.val != 0 ==> crate::mem::spec_sockaddr_written(
                        old(ctx).mem.bytes@,
                        final(ctx).mem.bytes@,
                        seq![crate::mem::SOCKADDR_TAG_UNIX] + peer_name,
                        addr_ptr,
                        addr_len_ptr,
                    ))
                    &&& (addr_ptr.val == 0 ==> final(ctx).mem == old(ctx).mem)
                },
                (Err(e), File::Socket(Socket::Unix(u))) => {
                    let ch = u.listen->0.queue@[0];
                    let peer_name = match crate::sockops::spec_peer_addr(
                        old(ctx).files.slots@,
                        ch as int,
                    ) {
                        Some(pa) => pa,
                        None => Seq::<u8>::empty(),
                    };
                    ||| (e == SyscallError::Failed(Errno::ENFILE) && forall|j: int|
                        0 <= j < DESC_TABLE_SIZE ==> old(ctx).descriptors.slots@[j] is Some)
                    ||| (addr_ptr.val != 0 && e == SyscallError::Failed(Errno::EFAULT)
                        && !crate::mem::spec_sockaddr_write_ok(
                        old(ctx).mem.bytes@,
                        seq![crate::mem::SOCKADDR_TAG_UNIX] + peer_name,
                        addr_ptr,
                        addr_len_ptr,
                    ))
                },
                _ => false,
            }),
    {
        let h = open_file.handle;
        let mut q = CallbackQueue::new();
        proof {
            if crate::context::desc_refs(old(ctx).descriptors.slots@, h as int) >= 1 {
                crate::context::lemma_surplus_and_desc_keep_two(*old(ctx), h as int);
            }
        }
        // only SOCK_NONBLOCK and SOCK_CLOEXEC mean anything here
        let set_nonblock = flags & abi::SOCK_NONBLOCK != 0;
        let set_cloexec = flags & abi::SOCK_CLOEXEC != 0;
        if Self::is_legacy_tcp(ctx, h) {
            ctx.release_open_file(open_file, &mut q);
            ctx.flush_events(&mut q);
            return Err(SyscallError::Legacy(LegacySyscall::Accept));
        }
        let status = Self::status_of(ctx, h);
        let restartable = match &ctx.files.slots[h] {
            Some(s) => s.file.supports_sa_restart(),
            None => false,
        };
        let (child, peer_addr) = match ctx.sock_accept(h, &mut q) {
            Ok(x) => x,
            Err(Errno::EWOULDBLOCK) if !status.nonblock => {
                ctx.flush_events(&mut q);
                return Err(Self::block_on(
                    ctx,
                    open_file,
                    FileState { readable: true, writable: false, closed: false },
                    restartable,
                ));
            },
            Err(e) => {
                ctx.release_open_file(open_file, &mut q);
                ctx.flush_events(&mut q);
                return Err(SyscallError::Failed(e));
            },
        };
        let ch = child.handle;
        proof {
            // the accepted socket sits in no queue and keeps its one
            // surplus reference across the release of the listener
            crate::context::lemma_desc_refs_upto_nonneg(
                ctx.descriptors.slots@,
                ch as int,
                ctx.descriptors.slots@.len() as int,
            );
            crate::context::lemma_queue_refs_upto_nonneg(
                ctx.files.slots@,
                ch as int,
                ctx.files.slots@.len() as int,
            );
            assert(ctx.total_refs(ch as int) == 0);
            crate::context::lemma_queue_refs_member(ctx.files.slots@, h as int, ch as int);
            crate::counting::lemma_count_nonneg(
                crate::context::slot_queue(ctx.files.slots@[h as int]),
                ch as int,
            );
            assert(crate::counting::count_handles(
                crate::context::slot_queue(ctx.files.slots@[h as int]),
                ch as int,
            ) == 0);
        }
        // the accepting socket's reference is no longer needed
        ctx.release_open_file(open_file, &mut q);
        ctx.flush_events(&mut q);
        proof {
            crate::context::lemma_desc_refs_upto_nonneg(
                ctx.descriptors.slots@,
                ch as int,
                ctx.descriptors.slots@.len() as int,
            );
            crate::context::lemma_queue_refs_upto_nonneg(
                ctx.files.slots@,
                ch as int,
                ctx.files.slots@.len() as int,
            );
            assert(ctx.files.slots@[ch as int] is Some);
            assert(ctx.total_refs(ch as int) == 0);
            assert(ctx.has_surplus(ch as int, 1));
        }
        // report the peer's address
        if !addr_ptr.is_null() {
            let addr = Sockaddr::Unix {
                path: match peer_addr {
                    Some(n) => n,
                    None => Vec::new(),
                },
            };
            match ctx.guest_write_sockaddr(&addr, addr_ptr, addr_len_ptr) {
                Ok(()) => {},
                Err(e) => {
                    let mut q2 = CallbackQueue::new();
                    ctx.release_open_file(child, &mut q2);
                    ctx.flush_events(&mut q2);
                    return Err(SyscallError::Failed(e));
                },
            };
        }
        if set_nonblock {
            let ghost pre = *ctx;
            proof {
                assert(pre.files.slots@[child.handle as int] is Some);
            }
            let mut st = Self::status_of(ctx, child.handle);
            st.nonblock = true;
            ctx.set_status(child.handle, st);
        }
        let mut desc = Descriptor::new(CompatFile::New(child));
        if set_cloexec {
            desc.set_flags(crate::types::DescriptorFlags { cloexec: true });
        }
        match ctx.register_descriptor(desc) {
            Ok(fd) => Ok(fd as i64),
            Err(d) => {
                let mut q2 = CallbackQueue::new();
                match d.file {
                    CompatFile::New(of2) => {
                        ctx.release_open_file(of2, &mut q2);
                    },
                    CompatFile::Legacy(_) => {},
                }
                ctx.flush_events(&mut q2);
                Err(SyscallError::Failed(Errno::ENFILE))
            },
        }
    }
}

impl SyscallHandler {
    /// `connect(sockfd, addr, addrlen)`: connects the socket to the
    /// decoded name. When the call must block, the active-file reference
    /// is attached to the condition even though connect does not go
    /// through the generic read/write blocking helper, so the object
    /// cannot vanish mid-handshake.
    pub fn connect(
        ctx: &mut SyscallContext,
        fd: i32,
        addr_ptr: PluginPtr,
        addr_len: u32,
    ) -> (r: SyscallResult)
        requires
            old(ctx).inv(),
        ensures
            final(ctx).inv(),
            // the edge rule: a blocked connect always holds its file
            r matches Err(SyscallError::Blocked(_)) ==> match final(ctx).condition {
                Some(c) => c.active_file is Some,
                None => false,
            },
            (match old(ctx).condition {
                Some(c) => c.active_file is None,
                None => true,
            } && (fd < 0 || fd >= DESC_TABLE_SIZE || old(ctx).descriptors.slots@[fd as int]
                is None)) ==> r == Err::<i64, SyscallError>(SyscallError::Failed(Errno::EBADF)),
            // a resumed call is governed by the file stashed in the
            // thread's condition, the descriptor table notwithstanding
            (match old(ctx).condition {
                Some(c) => match c.active_file {
                    Some(f) => connect_outcome(
                        *old(ctx),
                        *final(ctx),
                        f.handle,
                        addr_ptr,
                        addr_len,
                        r,
                    ),
                    None => true,
                },
                None => true,
            }),
            // a fresh call is governed by the descriptor's file
            ((match old(ctx).condition {
                Some(c) => c.active_file is None,
                None => true,
            }) && 0 <= fd < DESC_TABLE_SIZE) ==> (match old(ctx).descriptors.slots@[fd as int] {
                Some(d) => match d.file {
                    CompatFile::New(of) => connect_outcome(
                        *old(ctx),
                        *final(ctx),
                        of.handle,
                        addr_ptr,
                        addr_len,
                        r,
                    ) || (r == Err::<i64, SyscallError>(SyscallError::Failed(Errno::ENFILE))
                        && crate::sockops::spec_rc_at(old(ctx).files.slots@, of.handle as int)
                        == usize::MAX),
                    CompatFile::Legacy(_) => r == Err::<i64, SyscallError>(
                        SyscallError::Legacy(LegacySyscall::Connect),
                    ),
                },
                None => true,
            }),
    {
        let ghost entry = *ctx;
        let of = match Self::resolve_file(ctx, fd) {
            Resolution::Resumed(of) => of,
            Resolution::Fresh(of) => of,
            Resolution::Legacy => {
                return Err(SyscallError::Legacy(LegacySyscall::Connect));
            },
            Resolution::Error(e) => {
                return Err(SyscallError::Failed(e));
            },
        };
        let h = of.handle;
        let ghost s1 = *ctx;
        proof {
            assert(entry.slot_inv(h as int));
            assert((entry.files.slots@[h as int]->0).file == (s1.files.slots@[h as int]->0).file);
            if crate::context::desc_refs(entry.descriptors.slots@, h as int) >= 1 {
                crate::context::lemma_surplus_and_desc_keep_two(s1, h as int);
            }
        }
        let mut q = CallbackQueue::new();
        if Self::is_legacy_tcp(ctx, h) {
            ctx.release_open_file(of, &mut q);
            ctx.flush_events(&mut q);
            return Err(SyscallError::Legacy(LegacySyscall::Connect));
        }
        // a null or undecodable address is a fault
        let name = match read_sockaddr(&ctx.mem, addr_ptr, addr_len as usize) {
            Ok(Some(Sockaddr::Unix { path })) => path,
            Ok(Some(Sockaddr::Inet { .. })) => {
                ctx.release_open_file(of, &mut q);
                ctx.flush_events(&mut q);
                return Err(SyscallError::Failed(Errno::EAFNOSUPPORT));
            },
            Ok(None) => {
                ctx.release_open_file(of, &mut q);
                ctx.flush_events(&mut q);
                return Err(SyscallError::Failed(Errno::EFAULT));
            },
            Err(e) => {
                ctx.release_open_file(of, &mut q);
                ctx.flush_events(&mut q);
                return Err(SyscallError::Failed(e));
            },
        };
        let status = Self::status_of(ctx, h);
        let restartable = match &ctx.files.slots[h] {
            Some(s) => s.file.supports_sa_restart(),
            None => false,
        };
        proof {
            assert forall|i: int|
                0 <= i < s1.ns@.len() implies (#[trigger] s1.ns@[i]).handle
                < s1.files.slots@.len() by {
                assert(s1.ns_entry_inv(i));
            }
            match crate::sockops::spec_connect_plan(s1.files.slots@, s1.ns@, h as int, name@) {
                crate::sockops::ConnectPlan::Stream { server } => {
                    // the server is a namespace handle, hence in range
                    crate::sockops::lemma_ns_find_found(s1.ns@, name@, 0);
                    assert(0 <= server < s1.files.slots@.len());
                },
                _ => {},
            }
        }
        let res: SyscallResult = match ctx.sock_connect(h, &name, &mut q) {
            Ok(()) => {
                ctx.release_open_file(of, &mut q);
                ctx.flush_events(&mut q);
                Ok(0)
            },
            Err(Errno::EWOULDBLOCK) if !status.nonblock => {
                ctx.flush_events(&mut q);
                Err(Self::block_on(
                    ctx,
                    of,
                    FileState { readable: false, writable: true, closed: false },
                    restartable,
                ))
            },
            Err(e) => {
                ctx.release_open_file(of, &mut q);
                ctx.flush_events(&mut q);
                Err(SyscallError::Failed(e))
            },
        };
        proof {
            lemma_connect_outcome_transport(entry, s1, *ctx, h, addr_ptr, addr_len, res);
        }
        res
    }

    /// `shutdown(sockfd, how)`: `EINVAL` exactly when `how` is not one of
    /// `SHUT_RD`, `SHUT_WR`, `SHUT_RDWR`.
    pub fn shutdown(ctx: &mut SyscallContext, fd: i32, how: i32) -> (r: SyscallResult)
        requires
            old(ctx).inv(),
        ensures
            final(ctx).inv(),
            // a direction outside the three named ones is refused with
            // nothing invoked and nothing changed
            (0 <= fd < DESC_TABLE_SIZE && (match old(ctx).descriptors.slots@[fd as int] {
                Some(d) => d.file is New,
                None => false,
            }) && how != abi::SHUT_RD && how != abi::SHUT_WR && how != abi::SHUT_RDWR) ==> (r
                == Err::<i64, SyscallError>(SyscallError::Failed(Errno::EINVAL)) && *final(ctx) == *old(ctx)),
            (fd < 0 || fd >= DESC_TABLE_SIZE || old(ctx).descriptors.slots@[fd as int] is None)
                ==> r == Err::<i64, SyscallError>(SyscallError::Failed(Errno::EBADF)),
            // with a valid direction the socket's own shutdown rules
            // decide: a socket never connected — or listening — refuses
            // with `ENOTCONN`; otherwise the named directions are shut
            (0 <= fd < DESC_TABLE_SIZE && (match old(ctx).descriptors.slots@[fd as int] {
                Some(d) => match d.file {
                    CompatFile::New(of) => !((old(ctx).files.slots@[of.handle as int]->0).file
                        matches File::Socket(Socket::Inet(_))),
                    CompatFile::Legacy(_) => false,
                },
                None => false,
            }) && (how == abi::SHUT_RD || how == abi::SHUT_WR || how == abi::SHUT_RDWR)) ==> (
            match old(ctx).descriptors.slots@[fd as int] {
                Some(d) => {
                    let h = d.file->New_0.handle as int;
                    let read_side = how == abi::SHUT_RD || how == abi::SHUT_RDWR;
                    let write_side = how == abi::SHUT_WR || how == abi::SHUT_RDWR;
                    match (old(ctx).files.slots@[h]->0).file {
                        File::Socket(Socket::Unix(u)) => {
                            if (u.peer is None && !u.peer_closed && u.listen is None) || u.listen
                                is Some {
                                r == Err::<i64, SyscallError>(
                                    SyscallError::Failed(Errno::ENOTCONN),
                                )
                            } else {
                                let u2 = spec_unix_at(final(ctx).files.slots@, h);
                                &&& r == Ok::<i64, SyscallError>(0)
                                &&& final(ctx).files.slots@[h] is Some
                                &&& u2 == (crate::file::UnixSocket {
                                    shut_recv: u.shut_recv || read_side,
                                    shut_send: u.shut_send || write_side,
                                    ..u
                                })
                            }
                        },
                        _ => r == Err::<i64, SyscallError>(SyscallError::Failed(Errno::ENOTSOCK)),
                    }
                },
                None => true,
            }),
    {
        let h = match ctx.get_descriptor(fd) {
            Ok(d) => match &d.file {
                CompatFile::New(of) => of.handle,
                CompatFile::Legacy(_) => {
                    return Err(SyscallError::Legacy(LegacySyscall::Shutdown));
                },
            },
            Err(e) => {
                return Err(SyscallError::Failed(e));
            },
        };
        proof {
            crate::context::lemma_desc_handle_live(*ctx, fd as int, h as int);
        }
        let (read_side, write_side) = if how == abi::SHUT_RD {
            (true, false)
        } else if how == abi::SHUT_WR {
            (false, true)
        } else if how == abi::SHUT_RDWR {
            (true, true)
        } else {
            return Err(SyscallError::Failed(Errno::EINVAL));
        };
        if Self::is_legacy_tcp(ctx, h) {
            return Err(SyscallError::Legacy(LegacySyscall::Shutdown));
        }
        let mut q = CallbackQueue::new();
        let result = ctx.sock_shutdown(h, read_side, write_side, &mut q);
        ctx.flush_events(&mut q);
        match result {
            Ok(()) => Ok(0),
            Err(e) => Err(SyscallError::Failed(e)),
        }
    }

    /// `socketpair(domain, type, protocol, sv)`: creates a connected pair
    /// of unix sockets and writes both descriptors to guest memory. If
    /// that write fails, both descriptors are deregistered and closed
    /// before the error is returned: no descriptor leaks.
    #[verifier::rlimit(30)]
    pub fn socketpair(
        ctx: &mut SyscallContext,
        domain: i32,
        socket_type: i32,
        protocol: i32,
        fd_ptr: PluginPtr,
    ) -> (r: SyscallResult)
        requires
            old(ctx).inv(),
        ensures
            final(ctx).inv(),
            ({
                let flags = socket_type & (abi::SOCK_NONBLOCK | abi::SOCK_CLOEXEC);
                let stype = socket_type & !(abi::SOCK_NONBLOCK | abi::SOCK_CLOEXEC);
                if domain != abi::AF_UNIX {
                    r == Err::<i64, SyscallError>(SyscallError::Failed(Errno::EOPNOTSUPP))
                        && *final(ctx) == *old(ctx)
                } else if UnixSocketType::spec_from_raw(stype) is None {
                    r == Err::<i64, SyscallError>(SyscallError::Failed(Errno::EPROTONOSUPPORT))
                        && *final(ctx) == *old(ctx)
                } else if protocol != 0 {
                    r == Err::<i64, SyscallError>(SyscallError::Failed(Errno::EPROTONOSUPPORT))
                        && *final(ctx) == *old(ctx)
                } else {
                    true
                }
            }),
            r is Ok ==> r == Ok::<i64, SyscallError>(0),
            // atomic creation: a failed write of the descriptor pair rolls
            // both descriptors and both sockets back entirely
            (r == Err::<i64, SyscallError>(SyscallError::Failed(Errno::EFAULT)) && domain
                == abi::AF_UNIX) ==> final(ctx).descriptors.slots@ == old(ctx).descriptors.slots@ && final(ctx).files.slots@ == old(ctx).files.slots@,
            // on valid arguments success is owed: a connected pair comes
            // into being and lands in guest memory, or the failure names
            // its cause — an unwritable pointer, or exhaustion
            (domain == abi::AF_UNIX && UnixSocketType::spec_from_raw(
                socket_type & !(abi::SOCK_NONBLOCK | abi::SOCK_CLOEXEC),
            ) is Some && protocol == 0) ==> match r {
                Ok(_) => {
                    &&& old(ctx).mem.spec_valid(fd_ptr.val as int, 8)
                    &&& exists|fd1: usize, fd2: usize, h1: usize, h2: usize|
                        socketpair_created(
                            *old(ctx),
                            *final(ctx),
                            socket_type,
                            fd_ptr,
                            fd1,
                            fd2,
                            h1,
                            h2,
                        )
                },
                Err(e) => {
                    &&& (e == SyscallError::Failed(Errno::EFAULT) || e == SyscallError::Failed(
                        Errno::ENFILE,
                    ))
                    &&& (e == SyscallError::Failed(Errno::EFAULT) ==> !old(ctx).mem.spec_valid(
                        fd_ptr.val as int,
                        8,
                    ))
                    &&& (e == SyscallError::Failed(Errno::ENFILE) ==> !(exists|i: int, j: int|
                        0 <= i < j < FILE_TABLE_SIZE && old(ctx).files.slots@[i] is None && old(
                            ctx,
                        ).files.slots@[j] is None) || !(exists|i: int, j: int|
                        0 <= i < j < DESC_TABLE_SIZE && old(ctx).descriptors.slots@[i] is None
                            && old(ctx).descriptors.slots@[j] is None))
                },
            },
    {
        let ghost entry = *ctx;
        let flags = socket_type & (abi::SOCK_NONBLOCK | abi::SOCK_CLOEXEC);
        let stype_raw = socket_type & !(abi::SOCK_NONBLOCK | abi::SOCK_CLOEXEC);
        // only the unix domain supports socket pairs
        if domain != abi::AF_UNIX {
            return Err(SyscallError::Failed(Errno::EOPNOTSUPP));
        }
        let stype = match UnixSocketType::try_from_raw(stype_raw) {
            Some(x) => x,
            None => {
                return Err(SyscallError::Failed(Errno::EPROTONOSUPPORT));
            },
        };
        if protocol != 0 {
            return Err(SyscallError::Failed(Errno::EPROTONOSUPPORT));
        }
        let mut file_flags = FileStatus::empty();
        let mut descriptor_flags = DescriptorFlags::empty();
        if flags & abi::SOCK_NONBLOCK != 0 {
            file_flags.nonblock = true;
        }
        if flags & abi::SOCK_CLOEXEC != 0 {
            descriptor_flags.cloexec = true;
        }
        // the pair of connected sockets
        let s1 = UnixSocket::new(file_flags, stype);
        let of1 = match ctx.alloc_file(File::Socket(Socket::Unix(s1))) {
            Ok(of) => of,
            Err(e) => {
                return Err(SyscallError::Failed(e));
            },
        };
        let ghost h1g = of1.handle as int;
        let ghost mid1 = *ctx;
        let s2 = UnixSocket::new(file_flags, stype);
        let of2 = match ctx.alloc_file(File::Socket(Socket::Unix(s2))) {
            Ok(of) => of,
            Err(e) => {
                let mut q = CallbackQueue::new();
                proof {
                    assert forall|k: int|
                        0 <= k < FILE_TABLE_SIZE && k != h1g implies entry.files.slots@[k]
                        is Some by {
                        assert(mid1.files.slots@[k] is Some);
                        assert(entry.files.slots@[k] == mid1.files.slots@[k]);
                    }
                }
                ctx.release_open_file(of1, &mut q);
                ctx.flush_events(&mut q);
                return Err(SyscallError::Failed(e));
            },
        };
        let h1 = of1.handle;
        let h2 = of2.handle;
        ctx.link_unix_pair(h1, h2, None, None);
        // register the two descriptors
        let mut desc1 = Descriptor::new(CompatFile::New(of1));
        desc1.set_flags(descriptor_flags);
        let fd1 = match ctx.register_descriptor(desc1) {
            Ok(fd) => fd,
            Err(d) => {
                let mut q = CallbackQueue::new();
                let ghost before = *ctx;
                proof {
                    assert(forall|j: int|
                        0 <= j < DESC_TABLE_SIZE ==> entry.descriptors.slots@[j] is Some);
                }
                match d.file {
                    CompatFile::New(ofx) => {
                        ctx.release_open_file(ofx, &mut q);
                    },
                    CompatFile::Legacy(_) => {},
                }
                proof {
                    crate::context::lemma_desc_refs_upto_nonneg(
                        ctx.descriptors.slots@,
                        h2 as int,
                        ctx.descriptors.slots@.len() as int,
                    );
                    crate::context::lemma_queue_refs_upto_nonneg(
                        ctx.files.slots@,
                        h2 as int,
                        ctx.files.slots@.len() as int,
                    );
                    assert(before.total_refs(h2 as int) == 0);
                    assert(crate::counting::count_handles(
                        crate::context::slot_queue(before.files.slots@[h1 as int]),
                        h2 as int,
                    ) == 0);
                    assert(ctx.files.slots@[h2 as int] is Some);
                    assert(ctx.has_surplus(h2 as int, 1));
                }
                ctx.release_open_file(of2, &mut q);
                ctx.flush_events(&mut q);
                return Err(SyscallError::Failed(Errno::ENFILE));
            },
        };
        let mut desc2 = Descriptor::new(CompatFile::New(of2));
        desc2.set_flags(descriptor_flags);
        let fd2 = match ctx.register_descriptor(desc2) {
            Ok(fd) => fd,
            Err(d) => {
                let mut q = CallbackQueue::new();
                let ghost before = *ctx;
                proof {
                    assert forall|j: int|
                        0 <= j < DESC_TABLE_SIZE && j != fd1 as int
                            implies entry.descriptors.slots@[j] is Some by {
                        assert(before.descriptors.slots@[j] is Some);
                        assert(entry.descriptors.slots@[j] == before.descriptors.slots@[j]);
                    }
                }
                match ctx.deregister_descriptor(fd1) {
                    Some(d1) => match d1.file {
                        CompatFile::New(ofx) => {
                            ctx.release_open_file(ofx, &mut q);
                        },
                        CompatFile::Legacy(_) => {},
                    },
                    None => {},
                }
                proof {
                    crate::context::lemma_desc_refs_upto_nonneg(
                        ctx.descriptors.slots@,
                        h2 as int,
                        ctx.descriptors.slots@.len() as int,
                    );
                    crate::context::lemma_queue_refs_upto_nonneg(
                        ctx.files.slots@,
                        h2 as int,
                        ctx.files.slots@.len() as int,
                    );
                    assert(ctx.files.slots@[h2 as int] is Some);
                    assert(ctx.has_surplus(h2 as int, 1));
                }
                match d.file {
                    CompatFile::New(ofx) => {
                        ctx.release_open_file(ofx, &mut q);
                    },
                    CompatFile::Legacy(_) => {},
                }
                ctx.flush_events(&mut q);
                return Err(SyscallError::Failed(Errno::ENFILE));
            },
        };
        // hand the pair to the guest; on failure both descriptors are
        // rolled back before the fault is reported
        match crate::handler::guest_write_pair(ctx, fd_ptr, fd1 as i32, fd2 as i32) {
            Ok(()) => {
                proof {
                    assert(ctx.mem.bytes@.subrange(fd_ptr.val as int, fd_ptr.val as int + 8)
                        =~= crate::mem::spec_fd_pair_bytes(fd1 as i32, fd2 as i32));
                    assert(socketpair_created(entry, *ctx, socket_type, fd_ptr, fd1, fd2, h1, h2));
                }
                Ok(0)
            },
            Err(e) => {
                let mut q = CallbackQueue::new();
                match ctx.deregister_descriptor(fd1) {
                    Some(d1) => match d1.file {
                        CompatFile::New(ofx) => {
                            ctx.release_open_file(ofx, &mut q);
                        },
                        CompatFile::Legacy(_) => {},
                    },
                    None => {},
                }
                match ctx.deregister_descriptor(fd2) {
                    Some(d2) => match d2.file {
                        CompatFile::New(ofx) => {
                            ctx.release_open_file(ofx, &mut q);
                        },
                        CompatFile::Legacy(_) => {},
                    },
                    None => {},
                }
                ctx.flush_events(&mut q);
                proof {
                    assert(ctx.descriptors.slots@ =~= entry.descriptors.slots@);
                    assert(ctx.files.slots@ =~= entry.files.slots@);
                }
                Err(SyscallError::Failed(e))
            },
        }
    }

    /// `getsockopt(sockfd, level, optname, optval, optlen)`: writes the
    /// option value as a 4-byte integer, clamping the returned length to
    /// the one the guest provided.
    pub fn getsockopt(
        ctx: &mut SyscallContext,
        fd: i32,
        level: i32,
        optname: i32,
        optval_ptr: PluginPtr,
        optlen_ptr: PluginPtr,
    ) -> (r: SyscallResult)
        requires
            old(ctx).inv(),
        ensures
            final(ctx).inv(),
            (fd < 0 || fd >= DESC_TABLE_SIZE || old(ctx).descriptors.slots@[fd as int] is None)
                ==> r == Err::<i64, SyscallError>(SyscallError::Failed(Errno::EBADF)),
            // a native file that is not a socket has no options
            (0 <= fd < DESC_TABLE_SIZE && (match old(ctx).descriptors.slots@[fd as int] {
                Some(d) => match d.file {
                    CompatFile::New(of) => (old(ctx).files.slots@[of.handle as int]->0).file
                        matches File::Pipe(_),
                    CompatFile::Legacy(_) => false,
                },
                None => false,
            }) && old(ctx).mem.spec_valid(optlen_ptr.val as int, 4)) ==> (r == Err::<
                i64,
                SyscallError,
            >(SyscallError::Failed(Errno::ENOTSOCK)) && *final(ctx) == *old(ctx)),
            // on a native unix socket with a readable length word the
            // option rules decide; a successful read writes the value's
            // first min(4, optlen) bytes and reports that length back
            (0 <= fd < DESC_TABLE_SIZE && (match old(ctx).descriptors.slots@[fd as int] {
                Some(d) => match d.file {
                    CompatFile::New(of) => (old(ctx).files.slots@[of.handle as int]->0).file
                        matches File::Socket(Socket::Unix(_)),
                    CompatFile::Legacy(_) => false,
                },
                None => false,
            }) && old(ctx).mem.spec_valid(optlen_ptr.val as int, 4)) ==> (
            match old(ctx).descriptors.slots@[fd as int] {
                Some(d) => {
                    let h = d.file->New_0.handle as int;
                    let u = spec_unix_at(old(ctx).files.slots@, h);
                    match crate::sockops::spec_sockopt_read(u, level, optname) {
                        Err(e) => r == Err::<i64, SyscallError>(SyscallError::Failed(e)),
                        Ok(v) => {
                            let cap = crate::mem::spec_le32(
                                old(ctx).mem.bytes@.subrange(
                                    optlen_ptr.val as int,
                                    optlen_ptr.val as int + 4,
                                ),
                            ) as int;
                            let written = if cap < 4 {
                                cap
                            } else {
                                4int
                            };
            match r {
                                Ok(x) => x == 0 && final(ctx).mem.bytes@
                                    == crate::mem::spec_splice(
                                    crate::mem::spec_splice(
                                        old(ctx).mem.bytes@,
                                        optval_ptr.val as int,
                                        crate::mem::spec_le32_bytes(v as u32).subrange(0, written),
                                    ),
                                    optlen_ptr.val as int,
                                    crate::mem::spec_le32_bytes(written as u32),
                                ),
                                // the fault is owed: only an unwritable
                                // value buffer fails
                                Err(e) => e == SyscallError::Failed(Errno::EFAULT) && !old(
                                    ctx,
                                ).mem.spec_valid(optval_ptr.val as int, written),
                            }
                        },
                    }
                },
                None => true,
            }),
    {
        let h = match ctx.get_descriptor(fd) {
            Ok(d) => match &d.file {
                CompatFile::New(of) => of.handle,
                CompatFile::Legacy(_) => {
                    return Err(SyscallError::Legacy(LegacySyscall::Getsockopt));
                },
            },
            Err(e) => {
                return Err(SyscallError::Failed(e));
            },
        };
        proof {
            crate::context::lemma_desc_handle_live(*ctx, fd as int, h as int);
        }
        if Self::is_legacy_tcp(ctx, h) {
            return Err(SyscallError::Legacy(LegacySyscall::Getsockopt));
        }
        // read the guest's option length
        let len_bytes = match ctx.mem.read(optlen_ptr, 4) {
            Ok(b) => b,
            Err(e) => {
                return Err(SyscallError::Failed(e));
            },
        };
        let optlen: u32 = (len_bytes[0] as u32) | ((len_bytes[1] as u32) << 8) | ((
        len_bytes[2] as u32) << 16) | ((len_bytes[3] as u32) << 24);
        let val = match ctx.sock_getsockopt(h, level, optname) {
            Ok(v) => v,
            Err(e) => {
                return Err(SyscallError::Failed(e));
            },
        };
        // write min(4, optlen) bytes of the value
        let v = val as u32;
        let full: [u8; 4] = [
            (v & 0xff) as u8,
            ((v >> 8) & 0xff) as u8,
            ((v >> 16) & 0xff) as u8,
            ((v >> 24) & 0xff) as u8,
        ];
        let written: usize = if optlen < 4 {
            optlen as usize
        } else {
            4
        };
        let mut part: Vec<u8> = Vec::new();
        let mut i: usize = 0;
        while i < written
            invariant
                i <= written <= 4,
                part@.len() == i,
                forall|j: int| 0 <= j < i ==> part@[j] == full[j],
            decreases written - i,
        {
            part.push(full[i]);
            i = i + 1;
        }
        proof {
            assert(full@ =~= crate::mem::spec_le32_bytes(v));
            assert(part@ =~= crate::mem::spec_le32_bytes(v).subrange(0, written as int));
        }
        let ghost pre_mem = ctx.mem.bytes@;
        match ctx.guest_write(optval_ptr, part.as_slice()) {
            Ok(()) => {},
            Err(e) => {
                return Err(SyscallError::Failed(e));
            },
        };
        let ghost mid_mem = ctx.mem.bytes@;
        // report the (possibly clamped) length back
        let outlen: u32 = written as u32;
        let lenout: [u8; 4] = [
            (outlen & 0xff) as u8,
            ((outlen >> 8) & 0xff) as u8,
            ((outlen >> 16) & 0xff) as u8,
            ((outlen >> 24) & 0xff) as u8,
        ];
        match ctx.guest_write(optlen_ptr, lenout.as_slice()) {
            Ok(()) => {
                proof {
                    assert(lenout@ =~= crate::mem::spec_le32_bytes(outlen));
                    assert(mid_mem =~= crate::mem::spec_splice(
                        pre_mem,
                        optval_ptr.val as int,
                        crate::mem::spec_le32_bytes(v).subrange(0, written as int),
                    ));
                    assert(ctx.mem.bytes@ =~= crate::mem::spec_splice(
                        mid_mem,
                        optlen_ptr.val as int,
                        crate::mem::spec_le32_bytes(outlen),
                    ));
                }
                Ok(0)
            },
            Err(e) => Err(SyscallError::Failed(e)),
        }
    }

    /// `setsockopt(sockfd, level, optname, optval, optlen)`: reads a
    /// 4-byte integer option value and applies it.
    pub fn setsockopt(
        ctx: &mut SyscallContext,
        fd: i32,
        level: i32,
        optname: i32,
        optval_ptr: PluginPtr,
        optlen: u32,
    ) -> (r: SyscallResult)
        requires
            old(ctx).inv(),
        ensures
            final(ctx).inv(),
            (fd < 0 || fd >= DESC_TABLE_SIZE || old(ctx).descriptors.slots@[fd as int] is None)
                ==> r == Err::<i64, SyscallError>(SyscallError::Failed(Errno::EBADF)),
            // a native file that is not a socket has no options to set
            (0 <= fd < DESC_TABLE_SIZE && (match old(ctx).descriptors.slots@[fd as int] {
                Some(d) => match d.file {
                    CompatFile::New(of) => (old(ctx).files.slots@[of.handle as int]->0).file
                        matches File::Pipe(_),
                    CompatFile::Legacy(_) => false,
                },
                None => false,
            }) && optlen >= 4 && old(ctx).mem.spec_valid(optval_ptr.val as int, 4)) ==> (r
                == Err::<i64, SyscallError>(SyscallError::Failed(Errno::ENOTSOCK)) && *final(ctx) == *old(ctx)),
            // on a native file a short length word is invalid and changes
            // nothing; with a readable value only the receive buffer size
            // can change, never shrinking below its pending bytes
            (0 <= fd < DESC_TABLE_SIZE && (match old(ctx).descriptors.slots@[fd as int] {
                Some(d) => match d.file {
                    CompatFile::New(of) => !((old(ctx).files.slots@[of.handle as int]->0).file
                        matches File::Socket(Socket::Inet(_))),
                    CompatFile::Legacy(_) => false,
                },
                None => false,
            }) && optlen < 4) ==> (r == Err::<i64, SyscallError>(
                SyscallError::Failed(Errno::EINVAL),
            ) && *final(ctx) == *old(ctx)),
            (0 <= fd < DESC_TABLE_SIZE && (match old(ctx).descriptors.slots@[fd as int] {
                Some(d) => match d.file {
                    CompatFile::New(of) => (old(ctx).files.slots@[of.handle as int]->0).file
                        matches File::Socket(Socket::Unix(_)),
                    CompatFile::Legacy(_) => false,
                },
                None => false,
            }) && optlen >= 4 && old(ctx).mem.spec_valid(optval_ptr.val as int, 4)) ==> (
            match old(ctx).descriptors.slots@[fd as int] {
                Some(d) => {
                    let h = d.file->New_0.handle as int;
                    let u = spec_unix_at(old(ctx).files.slots@, h);
                    let val = crate::mem::spec_le32(
                        old(ctx).mem.bytes@.subrange(
                            optval_ptr.val as int,
                            optval_ptr.val as int + 4,
                        ),
                    ) as i32;
                    if level != abi::SOL_SOCKET {
                        r == Err::<i64, SyscallError>(SyscallError::Failed(Errno::EOPNOTSUPP))
                    } else if optname == abi::SO_RCVBUF {
                        let u2 = spec_unix_at(final(ctx).files.slots@, h);
                        let want = if val < 1 {
                            1int
                        } else {
                            val as int
                        };
                        let cap = if want < u.recv_buf.data@.len() {
                            u.recv_buf.data@.len() as int
                        } else {
                            want
                        };
                        &&& r == Ok::<i64, SyscallError>(0)
                        &&& final(ctx).files.slots@[h] is Some
                        &&& u2 == (crate::file::UnixSocket { recv_buf: u2.recv_buf, ..u })
                        &&& u2.recv_buf.data@ == u.recv_buf.data@
                        &&& u2.recv_buf.capacity == cap
                    } else if optname == abi::SO_SNDBUF {
                        r == Ok::<i64, SyscallError>(0) && final(ctx).files.slots@
                            == old(ctx).files.slots@
                    } else {
                        r == Err::<i64, SyscallError>(SyscallError::Failed(Errno::ENOPROTOOPT))
                    }
                },
                None => true,
            }),
    {
        let h = match ctx.get_descriptor(fd) {
            Ok(d) => match &d.file {
                CompatFile::New(of) => of.handle,
                CompatFile::Legacy(_) => {
                    return Err(SyscallError::Legacy(LegacySyscall::Setsockopt));
                },
            },
            Err(e) => {
                return Err(SyscallError::Failed(e));
            },
        };
        proof {
            crate::context::lemma_desc_handle_live(*ctx, fd as int, h as int);
        }
        if Self::is_legacy_tcp(ctx, h) {
            return Err(SyscallError::Legacy(LegacySyscall::Setsockopt));
        }
        if optlen < 4 {
            return Err(SyscallError::Failed(Errno::EINVAL));
        }
        let val_bytes = match ctx.mem.read(optval_ptr, 4) {
            Ok(b) => b,
            Err(e) => {
                return Err(SyscallError::Failed(e));
            },
        };
        let raw: u32 = (val_bytes[0] as u32) | ((val_bytes[1] as u32) << 8) | ((
        val_bytes[2] as u32) << 16) | ((val_bytes[3] as u32) << 24);
        let val: i32 = raw as i32;
        match ctx.sock_setsockopt(h, level, optname, val) {
            Ok(()) => Ok(0),
            Err(e) => Err(SyscallError::Failed(e)),
        }
    }
}

/// The outcome owed by a receive that resolved the file at `h`: the kind
/// checks come first, then flag leniency, then the receive plan decides —
/// a would-block plan suspends a blocking call and is a plain error on a
/// non-blocking or don't-wait one, end-of-stream yields zero, and pending
/// bytes land at the start of the guest buffer.
pub open spec fn recv_outcome(
    pre: SyscallContext,
    post: SyscallContext,
    h: usize,
    buf_ptr: PluginPtr,
    buf_len: usize,
    flags: i32,
    addr_ptr: PluginPtr,
    addr_len_ptr: PluginPtr,
    r: SyscallResult,
) -> bool {
    let file = (pre.files.slots@[h as int]->0).file;
    let plan = spec_recv_plan(pre.files.slots@, h as int, buf_len as int);
    &&& ((file matches File::Pipe(_)) ==> r == Err::<i64, SyscallError>(
        SyscallError::Failed(Errno::ENOTSOCK),
    ))
    &&& ((file matches File::Socket(Socket::Inet(_))) ==> r == Err::<i64, SyscallError>(
        SyscallError::Legacy(LegacySyscall::Recvfrom),
    ))
    &&& (((file matches File::Socket(Socket::Unix(_))) && !abi::spec_msg_flags_supported(flags))
        ==> r == Err::<i64, SyscallError>(SyscallError::Failed(Errno::EOPNOTSUPP)))
    &&& (r matches Err(SyscallError::Blocked(b)) ==> ({
        &&& !file.spec_status().nonblock
        &&& !abi::spec_msg_dontwait(flags)
        &&& b.trigger == (Trigger {
            file: h,
            state: FileState { readable: true, writable: false, closed: false },
        })
        &&& post.condition == Some(
            crate::condition::SysCallCondition {
                trigger: b.trigger,
                active_file: Some(OpenFile { handle: h }),
            },
        )
        &&& b.restartable == file.spec_supports_sa_restart()
    }))
    &&& (((file matches File::Socket(Socket::Unix(_))) && abi::spec_msg_flags_supported(flags)
        && pre.mem.spec_valid(buf_ptr.val as int, buf_len as int) && plan == RecvPlan::Fail(
        Errno::EWOULDBLOCK,
    ) && !file.spec_status().nonblock && !abi::spec_msg_dontwait(flags)) ==> r matches Err(
        SyscallError::Blocked(_),
    ))
    &&& (((file matches File::Socket(Socket::Unix(_))) && abi::spec_msg_flags_supported(flags)
        && pre.mem.spec_valid(buf_ptr.val as int, buf_len as int) && addr_ptr.val == 0 && (
    plan matches RecvPlan::Data { count })) ==> (match (r, plan) {
        (Ok(c), RecvPlan::Data { count }) => {
            let s = spec_unix_at(pre.files.slots@, h as int);
            &&& c == count
            &&& (count > 0 ==> post.mem.bytes@.subrange(
                buf_ptr.val as int,
                buf_ptr.val as int + count,
            ) == s.recv_buf.data@.subrange(0, count))
        },
        _ => false,
    }))
    &&& (((file matches File::Socket(Socket::Unix(_))) && abi::spec_msg_flags_supported(flags)
        && pre.mem.spec_valid(buf_ptr.val as int, buf_len as int) && addr_ptr.val == 0 && plan
        == RecvPlan::Eof) ==> r == Ok::<i64, SyscallError>(0))
    // with a source address requested: payload first, then the source
    // written back, the fault owed exactly when that write cannot land
    &&& (((file matches File::Socket(Socket::Unix(_))) && abi::spec_msg_flags_supported(flags)
        && pre.mem.spec_valid(buf_ptr.val as int, buf_len as int) && addr_ptr.val != 0 && (
    plan matches RecvPlan::Data { count })) ==> (match plan {
        RecvPlan::Data { count } => {
            let u = spec_unix_at(pre.files.slots@, h as int);
            let mid = spec_recv_mid_mem(
                pre.mem.bytes@,
                buf_ptr,
                u.recv_buf.data@.subrange(0, count),
            );
            let src = crate::sockops::spec_peer_addr(pre.files.slots@, h as int);
            match r {
                Ok(c) => c == count && (match src {
                    Some(pa) => crate::mem::spec_sockaddr_written(
                        mid,
                        post.mem.bytes@,
                        seq![crate::mem::SOCKADDR_TAG_UNIX] + pa,
                        addr_ptr,
                        addr_len_ptr,
                    ),
                    None => post.mem.bytes@ == crate::mem::spec_splice(
                        mid,
                        addr_len_ptr.val as int,
                        crate::mem::spec_le32_bytes(0),
                    ),
                }),
                Err(e) => e == SyscallError::Failed(Errno::EFAULT) && (match src {
                    Some(pa) => !crate::mem::spec_sockaddr_write_ok(
                        mid,
                        seq![crate::mem::SOCKADDR_TAG_UNIX] + pa,
                        addr_ptr,
                        addr_len_ptr,
                    ),
                    None => !crate::mem::spec_range_ok(mid, addr_len_ptr.val as int, 4),
                }),
            }
        },
        _ => true,
    }))
    &&& (((file matches File::Socket(Socket::Unix(_))) && abi::spec_msg_flags_supported(flags)
        && pre.mem.spec_valid(buf_ptr.val as int, buf_len as int) && (match plan {
        RecvPlan::Fail(e) => e != Errno::EWOULDBLOCK || file.spec_status().nonblock
            || abi::spec_msg_dontwait(flags),
        _ => false,
    })) ==> (match plan {
        RecvPlan::Fail(e) => r == Err::<i64, SyscallError>(SyscallError::Failed(e)),
        _ => false,
    }))
    // delivery drains the socket while a descriptor still binds it
    &&& (((file matches File::Socket(Socket::Unix(_))) && abi::spec_msg_flags_supported(flags)
        && pre.mem.spec_valid(buf_ptr.val as int, buf_len as int) && (plan
        matches RecvPlan::Data { count }) && crate::context::desc_refs(
        pre.descriptors.slots@,
        h as int,
    ) >= 1) ==> (match plan {
        RecvPlan::Data { count } => {
            let u = spec_unix_at(pre.files.slots@, h as int);
            let u2 = spec_unix_at(post.files.slots@, h as int);
            &&& post.files.slots@[h as int] is Some
            &&& u2 == (crate::file::UnixSocket { recv_buf: u2.recv_buf, ..u })
            &&& u2.recv_buf.capacity == u.recv_buf.capacity
            &&& u2.recv_buf.data@ == u.recv_buf.data@.subrange(
                count,
                u.recv_buf.data@.len() as int,
            )
            &&& forall|k: int|
                0 <= k < FILE_TABLE_SIZE && k != h as int ==> post.files.slots@[k]
                    == pre.files.slots@[k]
        },
        _ => true,
    }))
    // a failing call leaves guest memory untouched (a fault with an
    // address requested is the one outcome following a write), and,
    // while a descriptor still binds the file, the file table moves only
    // in that slot's reference count
    &&& ((match r {
        Err(SyscallError::Failed(e)) => e != Errno::EFAULT || addr_ptr.val == 0,
        Err(SyscallError::Legacy(_)) => true,
        _ => false,
    }) ==> post.mem == pre.mem)
    &&& (((match r {
        Err(SyscallError::Failed(e)) => e != Errno::EFAULT || addr_ptr.val == 0,
        Err(SyscallError::Legacy(_)) => true,
        _ => false,
    }) && crate::context::desc_refs(pre.descriptors.slots@, h as int) >= 1)
        ==> crate::handler::spec_same_files_except_rc(
        pre.files.slots@,
        post.files.slots@,
        h as int,
    ))
    // a suspension moves nothing but the slot's reference count into the
    // stored condition
    &&& (r matches Err(SyscallError::Blocked(_))
        ==> crate::handler::spec_same_files_except_rc(
        pre.files.slots@,
        post.files.slots@,
        h as int,
    ) && post.mem == pre.mem)
}

/// The outcome owed by a send that resolved the file at `h`, the mirror
/// of the receive outcome over the send plan.
pub open spec fn send_outcome(
    pre: SyscallContext,
    post: SyscallContext,
    h: usize,
    buf_ptr: PluginPtr,
    buf_len: usize,
    flags: i32,
    addr_ptr: PluginPtr,
    addr_len: u32,
    r: SyscallResult,
) -> bool {
    let file = (pre.files.slots@[h as int]->0).file;
    &&& ((file matches File::Pipe(_)) ==> r == Err::<i64, SyscallError>(
        SyscallError::Failed(Errno::ENOTSOCK),
    ))
    &&& ((file matches File::Socket(Socket::Inet(_))) ==> r == Err::<i64, SyscallError>(
        SyscallError::Legacy(LegacySyscall::Sendto),
    ))
    &&& (((file matches File::Socket(Socket::Unix(_))) && !abi::spec_msg_flags_supported(flags))
        ==> r == Err::<i64, SyscallError>(SyscallError::Failed(Errno::EOPNOTSUPP)))
    &&& (r matches Err(SyscallError::Blocked(b)) ==> ({
        &&& !file.spec_status().nonblock
        &&& !abi::spec_msg_dontwait(flags)
        &&& b.trigger == (Trigger {
            file: h,
            state: FileState { readable: false, writable: true, closed: false },
        })
        &&& post.condition == Some(
            crate::condition::SysCallCondition {
                trigger: b.trigger,
                active_file: Some(OpenFile { handle: h }),
            },
        )
        &&& b.restartable == file.spec_supports_sa_restart()
    }))
    &&& (((file matches File::Socket(Socket::Unix(_))) && abi::spec_msg_flags_supported(flags)
        && pre.mem.spec_valid(buf_ptr.val as int, buf_len as int) && (match read_dest(
        pre,
        addr_ptr,
        addr_len,
    ) {
        Ok(d) => spec_send_plan(pre.files.slots@, pre.ns@, h as int, buf_len as int, d)
            == SendPlan::Fail(Errno::EWOULDBLOCK) && !file.spec_status().nonblock
            && !abi::spec_msg_dontwait(flags),
        Err(_) => false,
    })) ==> r matches Err(SyscallError::Blocked(_)))
    &&& (((file matches File::Socket(Socket::Unix(_))) && abi::spec_msg_flags_supported(flags)
        && pre.mem.spec_valid(buf_ptr.val as int, buf_len as int) && (match read_dest(
        pre,
        addr_ptr,
        addr_len,
    ) {
        Ok(d) => match spec_send_plan(pre.files.slots@, pre.ns@, h as int, buf_len as int, d) {
            SendPlan::Fail(e) => e != Errno::EWOULDBLOCK || file.spec_status().nonblock
                || abi::spec_msg_dontwait(flags),
            _ => false,
        },
        Err(_) => false,
    })) ==> (match (r, read_dest(pre, addr_ptr, addr_len)) {
        (Err(SyscallError::Failed(e1)), Ok(d)) => match spec_send_plan(
            pre.files.slots@,
            pre.ns@,
            h as int,
            buf_len as int,
            d,
        ) {
            SendPlan::Fail(e) => e1 == e,
            _ => false,
        },
        _ => false,
    }))
    &&& (((file matches File::Socket(Socket::Unix(_))) && abi::spec_msg_flags_supported(flags)
        && pre.mem.spec_valid(buf_ptr.val as int, buf_len as int) && (match read_dest(
        pre,
        addr_ptr,
        addr_len,
    ) {
        Ok(d) => spec_send_plan(pre.files.slots@, pre.ns@, h as int, buf_len as int, d)
            matches SendPlan::Deliver { to, count },
        Err(_) => false,
    })) ==> (match (r, spec_send_plan(
        pre.files.slots@,
        pre.ns@,
        h as int,
        buf_len as int,
        match read_dest(pre, addr_ptr, addr_len) {
            Ok(d) => d,
            Err(_) => None,
        },
    )) {
        (Ok(c), SendPlan::Deliver { to, count }) => {
            &&& c == count
            &&& 0 <= to < FILE_TABLE_SIZE
            &&& (crate::context::desc_refs(pre.descriptors.slots@, h as int) >= 1
                ==> post.files.slots@[to] is Some && spec_unix_at(post.files.slots@, to).recv_buf.data@
                == spec_unix_at(pre.files.slots@, to).recv_buf.data@ + pre.mem.bytes@.subrange(
                buf_ptr.val as int,
                buf_ptr.val as int + count,
            ))
        },
        _ => false,
    }))
    // a send never writes guest memory; a failing one, while a
    // descriptor still binds the file, moves only that slot's count, and
    // a suspension does the same
    &&& post.mem == pre.mem
    &&& (((r matches Err(SyscallError::Failed(_))) || (r matches Err(SyscallError::Legacy(_))))
        && crate::context::desc_refs(pre.descriptors.slots@, h as int) >= 1
        ==> crate::handler::spec_same_files_except_rc(
        pre.files.slots@,
        post.files.slots@,
        h as int,
    ))
    &&& (r matches Err(SyscallError::Blocked(_))
        ==> crate::handler::spec_same_files_except_rc(
        pre.files.slots@,
        post.files.slots@,
        h as int,
    ))
}

/// The outcome owed by a connect that resolved the file at `h`: the
/// decoded address decides first — a null or unreadable pointer is a
/// fault, an internet address is the wrong family — and then the connect
/// plan: immediate failures surface, a full backlog is the would-block
/// error on a non-blocking socket and a suspension awaiting writability
/// on a blocking one, and a datagram or stream connection succeeds,
/// streams failing only when the file table cannot hold the peer.
pub open spec fn connect_outcome(
    pre: SyscallContext,
    post: SyscallContext,
    h: usize,
    addr_ptr: PluginPtr,
    addr_len: u32,
    r: SyscallResult,
) -> bool {
    let file = (pre.files.slots@[h as int]->0).file;
    &&& ((file matches File::Socket(Socket::Inet(_))) ==> r == Err::<i64, SyscallError>(
        SyscallError::Legacy(LegacySyscall::Connect),
    ))
    &&& ((!(file matches File::Socket(Socket::Inet(_))) && addr_ptr.val == 0) ==> r == Err::<
        i64,
        SyscallError,
    >(SyscallError::Failed(Errno::EFAULT)))
    &&& ((!(file matches File::Socket(Socket::Inet(_))) && addr_ptr.val != 0
        && !pre.mem.spec_valid(addr_ptr.val as int, addr_len as int)) ==> r == Err::<
        i64,
        SyscallError,
    >(SyscallError::Failed(Errno::EFAULT)))
    &&& ((!(file matches File::Socket(Socket::Inet(_))) && addr_ptr.val != 0
        && pre.mem.spec_valid(addr_ptr.val as int, addr_len as int)) ==> (
    match crate::mem::spec_decode_sockaddr(
        pre.mem.bytes@.subrange(addr_ptr.val as int, addr_ptr.val as int + addr_len as int),
    ) {
        None => r == Err::<i64, SyscallError>(SyscallError::Failed(Errno::EINVAL)),
        Some(crate::types::AddrView::Inet { .. }) => r == Err::<i64, SyscallError>(
            SyscallError::Failed(Errno::EAFNOSUPPORT),
        ),
        Some(crate::types::AddrView::Unix { path }) => match crate::sockops::spec_connect_plan(
            pre.files.slots@,
            pre.ns@,
            h as int,
            path,
        ) {
            crate::sockops::ConnectPlan::Fail(e) => r == Err::<i64, SyscallError>(
                SyscallError::Failed(e),
            ),
            crate::sockops::ConnectPlan::Wait { server } => if file.spec_status().nonblock {
                r == Err::<i64, SyscallError>(SyscallError::Failed(Errno::EWOULDBLOCK))
            } else {
                r matches Err(SyscallError::Blocked(_))
            },
            // a datagram connect records the name as the default
            // destination and changes nothing else
            crate::sockops::ConnectPlan::Dgram => r == Ok::<i64, SyscallError>(0) && (
            crate::context::desc_refs(pre.descriptors.slots@, h as int) >= 1 ==> ({
                let u = spec_unix_at(pre.files.slots@, h as int);
                let u2 = spec_unix_at(post.files.slots@, h as int);
                &&& post.files.slots@[h as int] is Some
                &&& u2 == (crate::file::UnixSocket { default_dest: u2.default_dest, ..u })
                &&& match u2.default_dest {
                    Some(n) => n@ == path,
                    None => false,
                }
                &&& forall|k: int|
                    0 <= k < FILE_TABLE_SIZE && k != h as int ==> post.files.slots@[k]
                        == pre.files.slots@[k]
            })),
            // a stream connect fails only on a full file table; success
            // creates the server-side peer, links the two, and queues the
            // peer on the server for `accept`
            crate::sockops::ConnectPlan::Stream { server } => ({
                ||| (r == Err::<i64, SyscallError>(SyscallError::Failed(Errno::ENFILE)) && forall|
                    k: int,
                |
                    0 <= k < FILE_TABLE_SIZE ==> pre.files.slots@[k] is Some)
                ||| (r == Ok::<i64, SyscallError>(0) && (crate::context::desc_refs(
                    pre.descriptors.slots@,
                    h as int,
                ) >= 1 ==> ({
                    let u = spec_unix_at(pre.files.slots@, h as int);
                    let u2 = spec_unix_at(post.files.slots@, h as int);
                    &&& post.files.slots@[h as int] is Some
                    &&& u2 == (crate::file::UnixSocket {
                        peer: u2.peer,
                        peer_addr: u2.peer_addr,
                        ..u
                    })
                    &&& match u2.peer_addr {
                        Some(n) => n@ == path,
                        None => false,
                    }
                    &&& match u2.peer {
                        Some(ch) => {
                            let cu = spec_unix_at(post.files.slots@, ch as int);
                            &&& ch as int != h as int
                            &&& ch < FILE_TABLE_SIZE
                            &&& pre.files.slots@[ch as int] is None
                            &&& post.files.slots@[ch as int] is Some
                            &&& cu.peer == Some(h)
                            &&& cu.stype == u.stype
                            &&& cu.listen is None
                            &&& cu.bound is None
                            &&& crate::context::slot_queue(post.files.slots@[server])
                                == crate::context::slot_queue(pre.files.slots@[server]).push(ch)
                        },
                        None => false,
                    }
                })))
            }),
        },
    }))
    &&& (r matches Err(SyscallError::Blocked(b)) ==> ({
        &&& !file.spec_status().nonblock
        &&& b.trigger == (Trigger {
            file: h,
            state: FileState { readable: false, writable: true, closed: false },
        })
        &&& post.condition == Some(
            crate::condition::SysCallCondition {
                trigger: b.trigger,
                active_file: Some(OpenFile { handle: h }),
            },
        )
        &&& b.restartable == file.spec_supports_sa_restart()
    }))
    // a connect never writes guest memory; a failing or suspended one,
    // while a descriptor still binds the file, moves only that slot's
    // reference count
    &&& post.mem == pre.mem
    &&& (((r matches Err(SyscallError::Failed(_))) || (r matches Err(SyscallError::Legacy(_))))
        && crate::context::desc_refs(pre.descriptors.slots@, h as int) >= 1
        ==> crate::handler::spec_same_files_except_rc(
        pre.files.slots@,
        post.files.slots@,
        h as int,
    ))
    &&& (r matches Err(SyscallError::Blocked(_))
        ==> crate::handler::spec_same_files_except_rc(
        pre.files.slots@,
        post.files.slots@,
        h as int,
    ))
}

/// Carries a connect outcome back across a resolution step, which can
/// change nothing in the file table but the resolved slot's reference
/// count.
pub proof fn lemma_connect_outcome_transport(
    pre0: SyscallContext,
    pre1: SyscallContext,
    post: SyscallContext,
    h: usize,
    addr_ptr: PluginPtr,
    addr_len: u32,
    r: SyscallResult,
)
    requires
        pre0.inv(),
        h < FILE_TABLE_SIZE,
        pre0.files.slots@[h as int] is Some,
        crate::handler::spec_same_files_except_rc(pre0.files.slots@, pre1.files.slots@, h as int),
        pre1.mem == pre0.mem,
        pre1.ns == pre0.ns,
        pre1.descriptors == pre0.descriptors,
        connect_outcome(pre1, post, h, addr_ptr, addr_len, r),
    ensures
        connect_outcome(pre0, post, h, addr_ptr, addr_len, r),
{
    assert(pre0.slot_inv(h as int));
    assert forall|i: int|
        0 <= i < pre0.ns@.len() implies (#[trigger] pre0.ns@[i]).handle
        < pre0.files.slots@.len() by {
        assert(pre0.ns_entry_inv(i));
    }
    assert forall|k: int|
        0 <= k < pre0.files.slots@.len() implies crate::context::slot_queue(
            pre1.files.slots@[k],
        ) == crate::context::slot_queue(pre0.files.slots@[k]) && crate::sockops::spec_unix_at(
            pre1.files.slots@,
            k,
        ) == crate::sockops::spec_unix_at(pre0.files.slots@, k) by {
        if k != h as int {
            assert(pre1.files.slots@[k] == pre0.files.slots@[k]);
        }
    }
    if crate::handler::spec_same_files_except_rc(pre1.files.slots@, post.files.slots@, h as int) {
        assert(crate::handler::spec_same_files_except_rc(
            pre0.files.slots@,
            post.files.slots@,
            h as int,
        ));
    }
    if addr_ptr.val != 0 && pre0.mem.spec_valid(addr_ptr.val as int, addr_len as int) {
        match crate::mem::spec_decode_sockaddr(
            pre0.mem.bytes@.subrange(addr_ptr.val as int, addr_ptr.val as int + addr_len as int),
        ) {
            Some(crate::types::AddrView::Unix { path }) => {
                crate::sockops::lemma_connect_plan_same_payload(
                    pre0.files.slots@,
                    pre1.files.slots@,
                    pre0.ns@,
                    h as int,
                    path,
                );
                match crate::sockops::spec_connect_plan(
                    pre0.files.slots@,
                    pre0.ns@,
                    h as int,
                    path,
                ) {
                    crate::sockops::ConnectPlan::Stream { server } => {
                        // the server is a namespace handle, hence in range
                        crate::sockops::lemma_ns_find_found(pre0.ns@, path, 0);
                        assert(0 <= server < pre0.files.slots@.len());
                    },
                    _ => {},
                }
            },
            _ => {},
        }
    }
    assert((pre1.files.slots@[h as int]->0).file == (pre0.files.slots@[h as int]->0).file);
}

/// The outcome owed by an accept that resolved the file at `h`: only a
/// listening unix socket accepts; an empty backlog is the would-block
/// error on a non-blocking listener and a suspension awaiting
/// readability on a blocking one; a pending connection is registered at
/// a fresh descriptor, failing only on exhaustion or a fault writing the
/// requested peer address.
pub open spec fn accept_outcome(
    pre: SyscallContext,
    post: SyscallContext,
    h: usize,
    addr_ptr: PluginPtr,
    addr_len_ptr: PluginPtr,
    flags: i32,
    r: SyscallResult,
) -> bool {
    let file = (pre.files.slots@[h as int]->0).file;
    &&& ((file matches File::Pipe(_)) ==> r == Err::<i64, SyscallError>(
        SyscallError::Failed(Errno::ENOTSOCK),
    ))
    &&& ((file matches File::Socket(Socket::Inet(_))) ==> r == Err::<i64, SyscallError>(
        SyscallError::Legacy(LegacySyscall::Accept),
    ))
    &&& ((match file {
        File::Socket(Socket::Unix(u)) => u.listen is None,
        _ => false,
    }) ==> r == Err::<i64, SyscallError>(SyscallError::Failed(Errno::EINVAL)))
    &&& (r matches Err(SyscallError::Blocked(b)) ==> ({
        &&& !file.spec_status().nonblock
        &&& b.trigger == (Trigger {
            file: h,
            state: FileState { readable: true, writable: false, closed: false },
        })
        &&& post.condition == Some(
            crate::condition::SysCallCondition {
                trigger: b.trigger,
                active_file: Some(OpenFile { handle: h }),
            },
        )
        &&& b.restartable == file.spec_supports_sa_restart()
    }))
    &&& ((match file {
        File::Socket(Socket::Unix(u)) => match u.listen {
            Some(l) => l.queue@.len() == 0,
            None => false,
        },
        _ => false,
    } && file.spec_status().nonblock) ==> r == Err::<i64, SyscallError>(
        SyscallError::Failed(Errno::EWOULDBLOCK),
    ))
    &&& ((match file {
        File::Socket(Socket::Unix(u)) => match u.listen {
            Some(l) => l.queue@.len() == 0,
            None => false,
        },
        _ => false,
    } && !file.spec_status().nonblock) ==> r matches Err(SyscallError::Blocked(_)))
    &&& ((match file {
        File::Socket(Socket::Unix(u)) => match u.listen {
            Some(l) => l.queue@.len() > 0,
            None => false,
        },
        _ => false,
    }) ==> (match (r, file) {
        (Ok(fd), File::Socket(Socket::Unix(u))) => {
            let ch = u.listen->0.queue@[0];
            let peer_name = match crate::sockops::spec_peer_addr(pre.files.slots@, ch as int) {
                Some(pa) => pa,
                None => Seq::<u8>::empty(),
            };
            &&& 0 <= fd < DESC_TABLE_SIZE
            &&& pre.descriptors.slots@[fd as int] is None
            &&& match post.descriptors.slots@[fd as int] {
                Some(d) => d.file == crate::descriptor::CompatFile::New(OpenFile { handle: ch })
                    && d.flags.cloexec == (flags & abi::SOCK_CLOEXEC != 0),
                None => false,
            }
            &&& post.files.slots@[ch as int] is Some
            &&& (flags & abi::SOCK_NONBLOCK != 0 ==> (
            post.files.slots@[ch as int]->0).file.spec_status().nonblock)
            &&& (flags & abi::SOCK_NONBLOCK == 0 && crate::context::desc_refs(
                pre.descriptors.slots@,
                h as int,
            ) >= 1 ==> (post.files.slots@[ch as int]->0).file == (
            pre.files.slots@[ch as int]->0).file)
            &&& (addr_ptr.val != 0 ==> crate::mem::spec_sockaddr_written(
                pre.mem.bytes@,
                post.mem.bytes@,
                seq![crate::mem::SOCKADDR_TAG_UNIX] + peer_name,
                addr_ptr,
                addr_len_ptr,
            ))
            &&& (addr_ptr.val == 0 ==> post.mem == pre.mem)
        },
        (Err(e), File::Socket(Socket::Unix(u))) => {
            let ch = u.listen->0.queue@[0];
            let peer_name = match crate::sockops::spec_peer_addr(pre.files.slots@, ch as int) {
                Some(pa) => pa,
                None => Seq::<u8>::empty(),
            };
            ||| (e == SyscallError::Failed(Errno::ENFILE) && forall|j: int|
                0 <= j < DESC_TABLE_SIZE ==> pre.descriptors.slots@[j] is Some)
            ||| (addr_ptr.val != 0 && e == SyscallError::Failed(Errno::EFAULT)
                && !crate::mem::spec_sockaddr_write_ok(
                pre.mem.bytes@,
                seq![crate::mem::SOCKADDR_TAG_UNIX] + peer_name,
                addr_ptr,
                addr_len_ptr,
            ))
        },
        _ => false,
    }))
}

/// Carries an accept outcome back across a resolution step: nothing the
/// outcome reads changes — the descriptor table is untouched, and the
/// file table changes at most in the resolved slot's reference count.
pub proof fn lemma_accept_outcome_transport(
    pre0: SyscallContext,
    pre1: SyscallContext,
    post: SyscallContext,
    h: usize,
    addr_ptr: PluginPtr,
    addr_len_ptr: PluginPtr,
    flags: i32,
    r: SyscallResult,
)
    requires
        pre0.inv(),
        h < FILE_TABLE_SIZE,
        pre0.files.slots@[h as int] is Some,
        crate::handler::spec_same_files_except_rc(pre0.files.slots@, pre1.files.slots@, h as int),
        pre1.descriptors == pre0.descriptors,
        pre1.mem == pre0.mem,
        accept_outcome(pre1, post, h, addr_ptr, addr_len_ptr, flags, r),
    ensures
        accept_outcome(pre0, post, h, addr_ptr, addr_len_ptr, flags, r),
{
    assert((pre1.files.slots@[h as int]->0).file == (pre0.files.slots@[h as int]->0).file);
    assert(pre0.slot_inv(h as int));
    match (pre0.files.slots@[h as int]->0).file {
        File::Socket(Socket::Unix(u)) => match u.listen {
            Some(l) => {
                if l.queue@.len() > 0 {
                    // the front child is another slot: its payload and
                    // recorded peer address carry over unchanged
                    assert(pre0.queue_clause(h as int));
                    let ch = l.queue@[0];
                    assert(ch as int != h as int);
                    assert(pre1.files.slots@[ch as int] == pre0.files.slots@[ch as int]);
                }
            },
            None => {},
        },
        _ => {},
    }
}

/// Carries a receive outcome back across a resolution step, which can
/// change nothing in the file table but the resolved slot's reference
/// count: plans and payloads are untouched, so the outcome is the same.
pub proof fn lemma_recv_outcome_transport(
    pre0: SyscallContext,
    pre1: SyscallContext,
    post: SyscallContext,
    h: usize,
    buf_ptr: PluginPtr,
    buf_len: usize,
    flags: i32,
    addr_ptr: PluginPtr,
    addr_len_ptr: PluginPtr,
    r: SyscallResult,
)
    requires
        pre0.inv(),
        h < FILE_TABLE_SIZE,
        pre0.files.slots@[h as int] is Some,
        crate::handler::spec_same_files_except_rc(pre0.files.slots@, pre1.files.slots@, h as int),
        pre1.mem == pre0.mem,
        pre1.descriptors == pre0.descriptors,
        recv_outcome(pre1, post, h, buf_ptr, buf_len, flags, addr_ptr, addr_len_ptr, r),
    ensures
        recv_outcome(pre0, post, h, buf_ptr, buf_len, flags, addr_ptr, addr_len_ptr, r),
{
    assert(pre0.slot_inv(h as int));
    assert(pre0.peer_clause(h as int));
    crate::sockops::lemma_recv_plan_same_payload(
        pre0.files.slots@,
        pre1.files.slots@,
        h as int,
        buf_len as int,
    );
    assert((pre1.files.slots@[h as int]->0).file == (pre0.files.slots@[h as int]->0).file);
    assert(crate::sockops::spec_unix_at(pre1.files.slots@, h as int)
        == crate::sockops::spec_unix_at(pre0.files.slots@, h as int));
    if crate::handler::spec_same_files_except_rc(pre1.files.slots@, post.files.slots@, h as int) {
        assert(crate::handler::spec_same_files_except_rc(
            pre0.files.slots@,
            post.files.slots@,
            h as int,
        ));
    }
}

/// The same carriage, for a send outcome.
pub proof fn lemma_send_outcome_transport(
    pre0: SyscallContext,
    pre1: SyscallContext,
    post: SyscallContext,
    h: usize,
    buf_ptr: PluginPtr,
    buf_len: usize,
    flags: i32,
    addr_ptr: PluginPtr,
    addr_len: u32,
    r: SyscallResult,
)
    requires
        pre0.inv(),
        h < FILE_TABLE_SIZE,
        pre0.files.slots@[h as int] is Some,
        crate::handler::spec_same_files_except_rc(pre0.files.slots@, pre1.files.slots@, h as int),
        pre1.mem == pre0.mem,
        pre1.ns == pre0.ns,
        pre1.descriptors == pre0.descriptors,
        send_outcome(pre1, post, h, buf_ptr, buf_len, flags, addr_ptr, addr_len, r),
    ensures
        send_outcome(pre0, post, h, buf_ptr, buf_len, flags, addr_ptr, addr_len, r),
{
    assert(pre0.slot_inv(h as int));
    assert(pre0.peer_clause(h as int));
    assert forall|i: int|
        0 <= i < pre0.ns@.len() implies (#[trigger] pre0.ns@[i]).handle
        < pre0.files.slots@.len() by {
        assert(pre0.ns_entry_inv(i));
    }
    match read_dest(pre0, addr_ptr, addr_len) {
        Ok(d) => {
            crate::sockops::lemma_send_plan_same_payload(
                pre0.files.slots@,
                pre1.files.slots@,
                pre0.ns@,
                h as int,
                buf_len as int,
                d,
            );
            match spec_send_plan(pre0.files.slots@, pre0.ns@, h as int, buf_len as int, d) {
                SendPlan::Deliver { to, count } => {
                    if 0 <= to < pre0.files.slots@.len() {
                        assert(spec_unix_at(pre1.files.slots@, to) == spec_unix_at(
                            pre0.files.slots@,
                            to,
                        ));
                    }
                },
                _ => {},
            }
        },
        Err(_) => {},
    }
    assert((pre1.files.slots@[h as int]->0).file == (pre0.files.slots@[h as int]->0).file);
    if crate::handler::spec_same_files_except_rc(pre1.files.slots@, post.files.slots@, h as int) {
        assert(crate::handler::spec_same_files_except_rc(
            pre0.files.slots@,
            post.files.slots@,
            h as int,
        ));
    }
}

/// What a successful `socketpair` leaves behind: two fresh descriptors
/// binding two fresh unix sockets of the stripped type, connected as
/// peers, unbound and not listening, with empty receive buffers, the
/// requested flags applied, and the descriptor pair written to guest
/// memory in its wire form.
pub open spec fn socketpair_created(
    pre: SyscallContext,
    post: SyscallContext,
    socket_type: i32,
    fd_ptr: PluginPtr,
    fd1: usize,
    fd2: usize,
    h1: usize,
    h2: usize,
) -> bool {
    let flags = socket_type & (abi::SOCK_NONBLOCK | abi::SOCK_CLOEXEC);
    let want_cloexec = flags & abi::SOCK_CLOEXEC != 0;
    let want_nonblock = flags & abi::SOCK_NONBLOCK != 0;
    let stype = UnixSocketType::spec_from_raw(
        socket_type & !(abi::SOCK_NONBLOCK | abi::SOCK_CLOEXEC),
    );
    &&& fd1 < DESC_TABLE_SIZE && fd2 < DESC_TABLE_SIZE && fd1 != fd2
    &&& h1 < FILE_TABLE_SIZE && h2 < FILE_TABLE_SIZE && h1 != h2
    &&& pre.descriptors.slots@[fd1 as int] is None
    &&& pre.descriptors.slots@[fd2 as int] is None
    &&& pre.files.slots@[h1 as int] is None
    &&& pre.files.slots@[h2 as int] is None
    &&& match (post.descriptors.slots@[fd1 as int], post.descriptors.slots@[fd2 as int]) {
        (Some(d1), Some(d2)) => {
            &&& d1.file == crate::descriptor::CompatFile::New(OpenFile { handle: h1 })
            &&& d2.file == crate::descriptor::CompatFile::New(OpenFile { handle: h2 })
            &&& d1.flags.cloexec == want_cloexec
            &&& d2.flags.cloexec == want_cloexec
        },
        _ => false,
    }
    &&& match (post.files.slots@[h1 as int], post.files.slots@[h2 as int]) {
        (Some(s1), Some(s2)) => {
            &&& match s1.file {
                File::Socket(Socket::Unix(u)) => u.peer == Some(h2) && Some(u.stype) == stype
                    && u.status.nonblock == want_nonblock && u.listen is None && u.bound is None
                    && !u.shut_recv && !u.shut_send && !u.peer_closed && u.recv_buf.data@.len()
                    == 0 && u.recv_buf.capacity == crate::file::DEFAULT_BUFFER_SIZE,
                _ => false,
            }
            &&& match s2.file {
                File::Socket(Socket::Unix(u)) => u.peer == Some(h1) && Some(u.stype) == stype
                    && u.status.nonblock == want_nonblock && u.listen is None && u.bound is None
                    && !u.shut_recv && !u.shut_send && !u.peer_closed && u.recv_buf.data@.len()
                    == 0 && u.recv_buf.capacity == crate::file::DEFAULT_BUFFER_SIZE,
                _ => false,
            }
        },
        _ => false,
    }
    &&& post.mem.bytes@.subrange(fd_ptr.val as int, fd_ptr.val as int + 8)
        == crate::mem::spec_fd_pair_bytes(fd1 as i32, fd2 as i32)
}

/// Flag leniency: undefined flag bits are dropped before the validity
/// check, so they can neither mask nor forge the defined ones. In
/// particular a call carrying an undefined bit together with
/// `MSG_DONTWAIT` still counts as a don't-wait call, and its supported
/// status is exactly that of the defined bits alone.
pub proof fn lemma_flag_leniency(flags: i32, junk: i32)
    requires
        junk & abi::MSG_DEFINED_MASK == 0,
    ensures
        abi::spec_msg_dontwait(flags | junk) == abi::spec_msg_dontwait(flags),
        abi::spec_msg_flags_supported(flags | junk) == abi::spec_msg_flags_supported(flags),
        abi::spec_truncate_msg_flags(flags | junk) == abi::spec_truncate_msg_flags(flags),
        abi::spec_msg_dontwait(flags) == (abi::spec_truncate_msg_flags(flags) & abi::MSG_DONTWAIT
            != 0),
{
    assert((junk & 0x4001E1EBi32 == 0) ==> ((flags | junk) & 0x4001E1EBi32 == flags
        & 0x4001E1EBi32)) by (bit_vector);
    assert(((flags & 0x4001E1EBi32) & 0x40i32 != 0) == ((flags & 0x4001E1EBi32) & 0x40i32
        != 0)) by (bit_vector);
}

} // verus!
