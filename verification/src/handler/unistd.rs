//! Descriptor-lifecycle and byte I/O system calls: close, dup, dup2, dup3,
//! read, pread64, write, pwrite64, pipe and pipe2.

use vstd::prelude::*;
use crate::abi;
use crate::callback::CallbackQueue;
use crate::context::SyscallContext;
use crate::descriptor::{CompatFile, Descriptor, DESC_TABLE_SIZE};
use crate::errno::Errno;
use crate::file::{File, OpenFile, Pipe, Socket, FILE_TABLE_SIZE};
use crate::handler::{Resolution, SyscallHandler};
use crate::sockops::{RecvPlan, SendPlan};
use crate::types::{
    DescriptorFlags, FileMode, FileState, FileStatus, LegacySyscall, PluginPtr, SyscallError,
    SyscallResult, Trigger,
};

verus! {

impl SyscallHandler {
    /// `close(fd)`: the descriptor is always released, even if the
    /// object-level close reports a problem afterwards; errors never
    /// leave the fd occupied. Closing a descriptor while another call is
    /// blocked on the same file must not deallocate the object: the
    /// condition's active-file reference keeps it alive.
    pub fn close(ctx: &mut SyscallContext, fd: i32) -> (r: SyscallResult)
        requires
            old(ctx).inv(),
        ensures
            final(ctx).inv(),
            // EBADF exactly when the descriptor does not exist, and then
            // nothing changes
            (r == Err::<i64, SyscallError>(SyscallError::Failed(Errno::EBADF))) <==> (fd < 0 || fd
                >= DESC_TABLE_SIZE || old(ctx).descriptors.slots@[fd as int] is None),
            r is Err ==> final(ctx).descriptors.slots@ == old(ctx).descriptors.slots@
                && final(ctx).files == old(ctx).files && final(ctx).condition == old(ctx).condition
                && final(ctx).mem == old(ctx).mem && final(ctx).ns == old(ctx).ns
                && final(ctx).events == old(ctx).events,
            // the slot is released in every other case
            (0 <= fd < DESC_TABLE_SIZE && old(ctx).descriptors.slots@[fd as int] is Some) ==> (r
                == Ok::<i64, SyscallError>(0) && final(ctx).descriptors.slots@ == old(ctx).descriptors.slots@.update(fd as int, None)),
            // active-file survival: an object held by the thread's blocked
            // condition outlives the close of any descriptor
            final(ctx).condition == old(ctx).condition,
            match old(ctx).condition {
                Some(c) => match c.active_file {
                    Some(a) => final(ctx).files.slots@[a.handle as int] is Some,
                    None => true,
                },
                None => true,
            },
    {
        let ghost entry = *ctx;
        proof {
            match entry.condition {
                Some(c) => match c.active_file {
                    Some(a) => {
                        crate::context::lemma_desc_refs_upto_nonneg(
                            entry.descriptors.slots@,
                            a.handle as int,
                            entry.descriptors.slots@.len() as int,
                        );
                        crate::context::lemma_queue_refs_upto_nonneg(
                            entry.files.slots@,
                            a.handle as int,
                            entry.files.slots@.len() as int,
                        );
                        assert(entry.total_refs(a.handle as int) >= 1);
                        assert(entry.slot_inv(a.handle as int));
                        assert(entry.files.slots@[a.handle as int] is Some);
                    },
                    None => {},
                },
                None => {},
            }
        }
        let fdu: usize = if fd < 0 || fd >= DESC_TABLE_SIZE as i32 {
            return Err(SyscallError::Failed(Errno::EBADF));
        } else {
            fd as usize
        };
        let desc = match ctx.deregister_descriptor(fdu) {
            Some(d) => d,
            None => {
                proof {
                    assert(ctx.descriptors.slots@ =~= entry.descriptors.slots@);
                }
                return Err(SyscallError::Failed(Errno::EBADF));
            },
        };
        match desc.file {
            CompatFile::New(of) => {
                let h = of.handle;
                proof {
                    match entry.condition {
                        Some(c) => match c.active_file {
                            Some(a) => {
                                // the condition's reference pins the object:
                                // it is live and, if it is the one being
                                // closed, counted at least twice
                                assert(cond_ref_pos(entry, a.handle as int));
                                crate::context::lemma_desc_refs_upto_nonneg(
                                    entry.descriptors.slots@,
                                    a.handle as int,
                                    entry.descriptors.slots@.len() as int,
                                );
                                crate::context::lemma_queue_refs_upto_nonneg(
                                    entry.files.slots@,
                                    a.handle as int,
                                    entry.files.slots@.len() as int,
                                );
                                assert(entry.slot_inv(a.handle as int));
                                assert(entry.files.slots@[a.handle as int] is Some);
                                crate::context::lemma_referenced_not_queued(
                                    entry,
                                    a.handle as int,
                                );
                                crate::context::lemma_queue_refs_member(
                                    entry.files.slots@,
                                    h as int,
                                    a.handle as int,
                                );
                                crate::counting::lemma_count_nonneg(
                                    crate::context::slot_queue(entry.files.slots@[h as int]),
                                    a.handle as int,
                                );
                                if a.handle == h {
                                    crate::context::lemma_desc_refs_member(
                                        entry.descriptors.slots@,
                                        fdu as int,
                                        h as int,
                                    );
                                }
                            },
                            None => {},
                        },
                        None => {},
                    }
                }
                let mut q = CallbackQueue::new();
                ctx.release_open_file(of, &mut q);
                ctx.flush_events(&mut q);
                Ok(0)
            },
            CompatFile::Legacy(_) => {
                // the legacy collaborator owns the object's teardown; the
                // descriptor itself is gone either way
                Ok(0)
            },
        }
    }

    /// `dup(oldfd)`: duplicates the descriptor at the lowest free number
    /// with empty descriptor flags.
    pub fn dup(ctx: &mut SyscallContext, fd: i32) -> (r: SyscallResult)
        requires
            old(ctx).inv(),
        ensures
            final(ctx).inv(),
            (fd < 0 || fd >= DESC_TABLE_SIZE || old(ctx).descriptors.slots@[fd as int] is None)
                ==> r == Err::<i64, SyscallError>(SyscallError::Failed(Errno::EBADF)),
            match r {
                Ok(newfd) => {
                    &&& 0 <= newfd < DESC_TABLE_SIZE
                    &&& old(ctx).descriptors.slots@[newfd as int] is None
                    &&& match (final(ctx).descriptors.slots@[newfd as int], old(ctx).descriptors.slots@[fd as int]) {
                        (Some(nd), Some(od)) => nd.file == od.file && nd.flags.cloexec == false,
                        _ => false,
                    }
                },
                // exhaustion is the only failure besides a bad descriptor:
                // a full table, or a reference count at its ceiling
                Err(e) => {
                    &&& (e == SyscallError::Failed(Errno::EBADF) || e == SyscallError::Failed(
                        Errno::ENFILE,
                    ))
                    &&& ((e == SyscallError::Failed(Errno::EBADF)) == (fd < 0 || fd
                        >= DESC_TABLE_SIZE || old(ctx).descriptors.slots@[fd as int] is None))
                    &&& (e == SyscallError::Failed(Errno::ENFILE) ==> spec_dup_exhausted(
                        *old(ctx),
                        fd,
                    ))
                },
            },
    {
        let h = match ctx.get_descriptor(fd) {
            Ok(d) => match &d.file {
                CompatFile::New(of) => of.handle,
                CompatFile::Legacy(t) => {
                    // a legacy descriptor duplicates as a legacy descriptor
                    let token = t.token;
                    let nd = Descriptor::new(
                        CompatFile::Legacy(crate::descriptor::LegacyFile { token }),
                    );
                    return match ctx.register_descriptor(nd) {
                        Ok(newfd) => Ok(newfd as i64),
                        Err(_) => Err(SyscallError::Failed(Errno::ENFILE)),
                    };
                },
            },
            Err(e) => {
                return Err(SyscallError::Failed(e));
            },
        };
        proof {
            crate::context::lemma_desc_handle_live(*ctx, fd as int, h as int);
        }
        let of = match ctx.clone_open_file(h) {
            Ok(of) => of,
            Err(e) => {
                return Err(SyscallError::Failed(e));
            },
        };
        let nd = Descriptor::new(CompatFile::New(of));
        match ctx.register_descriptor(nd) {
            Ok(newfd) => Ok(newfd as i64),
            Err(d) => {
                let mut q = CallbackQueue::new();
                match d.file {
                    CompatFile::New(ofx) => {
                        ctx.release_open_file(ofx, &mut q);
                    },
                    CompatFile::Legacy(_) => {},
                }
                ctx.flush_events(&mut q);
                Err(SyscallError::Failed(Errno::ENFILE))
            },
        }
    }

    /// `dup2(oldfd, newfd)`: when the two are equal and `oldfd` is valid,
    /// nothing is duplicated or closed and `newfd` is returned unchanged.
    /// Otherwise the target is evicted and closed; its close-time errors
    /// are lost, as the kernel defines.
    pub fn dup2(ctx: &mut SyscallContext, old_fd: i32, new_fd: i32) -> (r: SyscallResult)
        requires
            old(ctx).inv(),
        ensures
            final(ctx).inv(),
            (old_fd < 0 || old_fd >= DESC_TABLE_SIZE || old(ctx).descriptors.slots@[old_fd as int] is None) ==> r == Err::<i64, SyscallError>(
                SyscallError::Failed(Errno::EBADF),
            ),
            // identity: a valid descriptor duplicated onto itself does
            // nothing at all
            (0 <= old_fd < DESC_TABLE_SIZE && old(ctx).descriptors.slots@[old_fd as int] is Some
                && old_fd == new_fd) ==> (r == Ok::<i64, SyscallError>(new_fd as i64) && *final(ctx) == *old(ctx)),
            match r {
                Ok(v) => v == new_fd as i64,
                Err(_) => true,
            },
            // the replacement path: the target binds a duplicate sharing
            // the source's file with empty flags; the source's binding
            // and every other binding are untouched
            (0 <= old_fd < DESC_TABLE_SIZE && old(ctx).descriptors.slots@[old_fd as int] is Some
                && old_fd != new_fd && 0 <= new_fd < DESC_TABLE_SIZE) ==> match r {
                Ok(_) => {
                    &&& match old(ctx).descriptors.slots@[old_fd as int] {
                        Some(od) => final(ctx).descriptors.slots@[new_fd as int] == Some(
                            Descriptor { file: od.file, flags: DescriptorFlags { cloexec: false } },
                        ),
                        None => false,
                    }
                    &&& forall|j: int|
                        0 <= j < DESC_TABLE_SIZE && j != new_fd as int ==> final(ctx).descriptors.slots@[j] == old(ctx).descriptors.slots@[j]
                },
                // exhaustion only at the reference count's ceiling
                Err(e) => e == SyscallError::Failed(Errno::ENFILE) && (
                match old(ctx).descriptors.slots@[old_fd as int] {
                    Some(od) => match od.file {
                        CompatFile::New(of) => crate::sockops::spec_rc_at(
                            old(ctx).files.slots@,
                            of.handle as int,
                        ) == usize::MAX,
                        CompatFile::Legacy(_) => false,
                    },
                    None => false,
                }),
            },
    {
        let h = match ctx.get_descriptor(old_fd) {
            Ok(d) => match &d.file {
                CompatFile::New(of) => Some(of.handle),
                CompatFile::Legacy(_) => None,
            },
            Err(e) => {
                return Err(SyscallError::Failed(e));
            },
        };
        // a valid descriptor duplicated onto itself is a no-op
        if old_fd == new_fd {
            return Ok(new_fd as i64);
        }
        if new_fd < 0 || new_fd >= DESC_TABLE_SIZE as i32 {
            return Err(SyscallError::Failed(Errno::EBADF));
        }
        Self::dup_replace(ctx, old_fd, new_fd as usize, DescriptorFlags { cloexec: false }, h)
    }

    /// `dup3(oldfd, newfd, flags)`: equal descriptors are `EINVAL`, and
    /// only no flags or `O_CLOEXEC` are accepted.
    pub fn dup3(ctx: &mut SyscallContext, old_fd: i32, new_fd: i32, flags: i32) -> (r:
        SyscallResult)
        requires
            old(ctx).inv(),
        ensures
            final(ctx).inv(),
            (old_fd < 0 || old_fd >= DESC_TABLE_SIZE || old(ctx).descriptors.slots@[old_fd as int] is None) ==> r == Err::<i64, SyscallError>(
                SyscallError::Failed(Errno::EBADF),
            ),
            // duplicating a descriptor onto itself is refused outright
            (0 <= old_fd < DESC_TABLE_SIZE && old(ctx).descriptors.slots@[old_fd as int] is Some
                && old_fd == new_fd) ==> (r == Err::<i64, SyscallError>(
                SyscallError::Failed(Errno::EINVAL),
            ) && *final(ctx) == *old(ctx)),
            // only no flags or O_CLOEXEC pass; a refused flag word
            // changes nothing
            (0 <= old_fd < DESC_TABLE_SIZE && old(ctx).descriptors.slots@[old_fd as int] is Some
                && old_fd != new_fd && flags != 0 && flags != abi::O_CLOEXEC) ==> (r == Err::<
                i64,
                SyscallError,
            >(SyscallError::Failed(Errno::EINVAL)) && *final(ctx) == *old(ctx)),
            // the replacement path, as in `dup2`, with the close-on-exec
            // flag as requested
            (0 <= old_fd < DESC_TABLE_SIZE && old(ctx).descriptors.slots@[old_fd as int] is Some
                && old_fd != new_fd && (flags == 0 || flags == abi::O_CLOEXEC) && 0 <= new_fd
                < DESC_TABLE_SIZE) ==> match r {
                Ok(_) => {
                    &&& match old(ctx).descriptors.slots@[old_fd as int] {
                        Some(od) => final(ctx).descriptors.slots@[new_fd as int] == Some(
                            Descriptor {
                                file: od.file,
                                flags: DescriptorFlags { cloexec: flags == abi::O_CLOEXEC },
                            },
                        ),
                        None => false,
                    }
                    &&& forall|j: int|
                        0 <= j < DESC_TABLE_SIZE && j != new_fd as int ==> final(ctx).descriptors.slots@[j] == old(ctx).descriptors.slots@[j]
                },
                // exhaustion only at the reference count's ceiling
                Err(e) => e == SyscallError::Failed(Errno::ENFILE) && (
                match old(ctx).descriptors.slots@[old_fd as int] {
                    Some(od) => match od.file {
                        CompatFile::New(of) => crate::sockops::spec_rc_at(
                            old(ctx).files.slots@,
                            of.handle as int,
                        ) == usize::MAX,
                        CompatFile::Legacy(_) => false,
                    },
                    None => false,
                }),
            },
    {
        let h = match ctx.get_descriptor(old_fd) {
            Ok(d) => match &d.file {
                CompatFile::New(of) => Some(of.handle),
                CompatFile::Legacy(_) => None,
            },
            Err(e) => {
                return Err(SyscallError::Failed(e));
            },
        };
        // unlike dup2, equal descriptors are an error
        if old_fd == new_fd {
            return Err(SyscallError::Failed(Errno::EINVAL));
        }
        let dflags = if flags == abi::O_CLOEXEC {
            DescriptorFlags { cloexec: true }
        } else if flags == 0 {
            DescriptorFlags { cloexec: false }
        } else {
            return Err(SyscallError::Failed(Errno::EINVAL));
        };
        if new_fd < 0 || new_fd >= DESC_TABLE_SIZE as i32 {
            return Err(SyscallError::Failed(Errno::EBADF));
        }
        Self::dup_replace(ctx, old_fd, new_fd as usize, dflags, h)
    }

    /// Shared replacement path of `dup2` and `dup3`: duplicates `old_fd`
    /// onto `new_fd`, closing whatever `new_fd` held.
    fn dup_replace(
        ctx: &mut SyscallContext,
        old_fd: i32,
        new_fd: usize,
        flags: DescriptorFlags,
        h: Option<usize>,
    ) -> (r: SyscallResult)
        requires
            old(ctx).inv(),
            0 <= old_fd < DESC_TABLE_SIZE,
            new_fd < DESC_TABLE_SIZE,
            old_fd as usize != new_fd,
            match old(ctx).descriptors.slots@[old_fd as int] {
                Some(d) => match h {
                    Some(hh) => d.file == CompatFile::New(OpenFile { handle: hh }),
                    None => d.file is Legacy,
                },
                None => false,
            },
        ensures
            final(ctx).inv(),
            match r {
                Ok(v) => {
                    &&& v == new_fd as i64
                    // the target now binds a duplicate sharing the source's
                    // file, with the given flags; every other binding —
                    // the source's included — is untouched, and whatever
                    // the target held is closed with its errors discarded
                    &&& match old(ctx).descriptors.slots@[old_fd as int] {
                        Some(od) => final(ctx).descriptors.slots@[new_fd as int] == Some(
                            Descriptor { file: od.file, flags },
                        ),
                        None => false,
                    }
                    &&& forall|j: int|
                        0 <= j < DESC_TABLE_SIZE && j != new_fd as int ==> final(ctx).descriptors.slots@[j] == old(ctx).descriptors.slots@[j]
                    &&& match h {
                        Some(hh) => final(ctx).files.slots@[hh as int] is Some,
                        None => true,
                    }
                },
                Err(e) => e == SyscallError::Failed(Errno::ENFILE) && (match h {
                    Some(hh) => crate::sockops::spec_rc_at(old(ctx).files.slots@, hh as int)
                        == usize::MAX,
                    None => false,
                }),
            },
    {
        match h {
            Some(hh) => {
                proof {
                    crate::context::lemma_desc_handle_live(*ctx, old_fd as int, hh as int);
                }
                let of = match ctx.clone_open_file(hh) {
                    Ok(of) => of,
                    Err(e) => {
                        return Err(SyscallError::Failed(e));
                    },
                };
                let mut nd = Descriptor::new(CompatFile::New(of));
                nd.set_flags(flags);
                let evicted = ctx.register_descriptor_at(new_fd, nd);
                // close whatever the target held; its errors are lost
                match evicted {
                    Some(ev) => match ev.file {
                        CompatFile::New(ofx) => {
                            let mut q = CallbackQueue::new();
                            proof {
                                let ghost st = *ctx;
                                // the duplicate's own binding keeps the
                                // shared file alive through the eviction
                                crate::context::lemma_desc_refs_member(
                                    st.descriptors.slots@,
                                    new_fd as int,
                                    hh as int,
                                );
                                crate::context::lemma_desc_refs_upto_nonneg(
                                    st.descriptors.slots@,
                                    hh as int,
                                    st.descriptors.slots@.len() as int,
                                );
                                crate::context::lemma_queue_refs_upto_nonneg(
                                    st.files.slots@,
                                    hh as int,
                                    st.files.slots@.len() as int,
                                );
                                assert(st.total_refs(hh as int) >= 1);
                                assert(st.slot_inv(hh as int));
                                if ofx.handle != hh {
                                    crate::context::lemma_referenced_not_queued(st, hh as int);
                                    crate::context::lemma_queue_refs_member(
                                        st.files.slots@,
                                        ofx.handle as int,
                                        hh as int,
                                    );
                                    crate::counting::lemma_count_nonneg(
                                        crate::context::slot_queue(
                                            st.files.slots@[ofx.handle as int],
                                        ),
                                        hh as int,
                                    );
                                }
                            }
                            ctx.release_open_file(ofx, &mut q);
                            ctx.flush_events(&mut q);
                        },
                        CompatFile::Legacy(_) => {},
                    },
                    None => {},
                }
                Ok(new_fd as i64)
            },
            None => {
                let token = match ctx.get_descriptor(old_fd) {
                    Ok(d) => match &d.file {
                        CompatFile::Legacy(t) => t.token,
                        CompatFile::New(_) => 0,
                    },
                    Err(_) => 0,
                };
                let mut nd = Descriptor::new(
                    CompatFile::Legacy(crate::descriptor::LegacyFile { token }),
                );
                nd.set_flags(flags);
                let evicted = ctx.register_descriptor_at(new_fd, nd);
                match evicted {
                    Some(ev) => match ev.file {
                        CompatFile::New(ofx) => {
                            let mut q = CallbackQueue::new();
                            ctx.release_open_file(ofx, &mut q);
                            ctx.flush_events(&mut q);
                        },
                        CompatFile::Legacy(_) => {},
                    },
                    None => {},
                }
                Ok(new_fd as i64)
            },
        }
    }
}

/// Whether the thread's condition holds a reference to `h`.
pub open spec fn cond_ref_pos(ctx: SyscallContext, h: int) -> bool {
    crate::context::cond_ref_one(ctx.condition, h) == 1
}

/// The two ways `dup` can exhaust a resource: the descriptor table is
/// full, or the source file's reference count is at its ceiling.
pub open spec fn spec_dup_exhausted(ctx: SyscallContext, fd: i32) -> bool {
    let table_full = forall|j: int|
        0 <= j < DESC_TABLE_SIZE ==> ctx.descriptors.slots@[j] is Some;
    let refs_full = match ctx.descriptors.slots@[fd as int] {
        Some(d) => match d.file {
            CompatFile::New(of) => crate::sockops::spec_rc_at(ctx.files.slots@, of.handle as int)
                == usize::MAX,
            CompatFile::Legacy(_) => false,
        },
        None => false,
    };
    table_full || refs_full
}

impl SyscallHandler {
    /// `read(fd, buf, count)`.
    pub fn read(
        ctx: &mut SyscallContext,
        fd: i32,
        buf_ptr: PluginPtr,
        buf_size: usize,
    ) -> (r: SyscallResult)
        requires
            old(ctx).inv(),
        ensures
            final(ctx).inv(),
            (match old(ctx).condition {
                Some(c) => c.active_file is None,
                None => true,
            } && (fd < 0 || fd >= DESC_TABLE_SIZE || old(ctx).descriptors.slots@[fd as int]
                is None)) ==> r == Err::<i64, SyscallError>(SyscallError::Failed(Errno::EBADF)),
            r matches Err(SyscallError::Blocked(_)) ==> (match final(ctx).condition {
                Some(c) => c.active_file is Some,
                None => false,
            }),
            // a resumed call is governed by the file stashed in the
            // thread's condition, the descriptor table notwithstanding
            (match old(ctx).condition {
                Some(c) => match c.active_file {
                    Some(f) => read_outcome(
                        *old(ctx),
                        *final(ctx),
                        f.handle,
                        buf_ptr,
                        buf_size,
                        0,
                        LegacySyscall::Read,
                        r,
                    ),
                    None => true,
                },
                None => true,
            }),
            // a fresh call is governed by the descriptor's file; the one
            // failure besides its outcome is a reference count at its
            // ceiling
            ((match old(ctx).condition {
                Some(c) => c.active_file is None,
                None => true,
            }) && 0 <= fd < DESC_TABLE_SIZE) ==> (match old(ctx).descriptors.slots@[fd as int] {
                Some(d) => match d.file {
                    CompatFile::New(of) => read_outcome(
                        *old(ctx),
                        *final(ctx),
                        of.handle,
                        buf_ptr,
                        buf_size,
                        0,
                        LegacySyscall::Read,
                        r,
                    ) || (r == Err::<i64, SyscallError>(SyscallError::Failed(Errno::ENFILE))
                        && crate::sockops::spec_rc_at(old(ctx).files.slots@, of.handle as int)
                        == usize::MAX),
                    CompatFile::Legacy(_) => r == Err::<i64, SyscallError>(
                        SyscallError::Legacy(LegacySyscall::Read),
                    ),
                },
                None => true,
            }),
    {
        let ghost entry = *ctx;
        let of = match Self::resolve_file(ctx, fd) {
            Resolution::Resumed(of) => of,
            Resolution::Fresh(of) => of,
            Resolution::Legacy => {
                return Err(SyscallError::Legacy(LegacySyscall::Read));
            },
            Resolution::Error(e) => {
                return Err(SyscallError::Failed(e));
            },
        };
        let ghost s1 = *ctx;
        proof {
            assert(entry.slot_inv(of.handle as int));
            assert((entry.files.slots@[of.handle as int]->0).file == (
            s1.files.slots@[of.handle as int]->0).file);
        }
        if Self::is_legacy_tcp(ctx, of.handle) {
            proof {
                if crate::context::desc_refs(entry.descriptors.slots@, of.handle as int) >= 1 {
                    crate::context::lemma_surplus_and_desc_keep_two(s1, of.handle as int);
                }
            }
            let mut q = CallbackQueue::new();
            ctx.release_open_file(of, &mut q);
            ctx.flush_events(&mut q);
            return Err(SyscallError::Legacy(LegacySyscall::Read));
        }
        let res = Self::read_helper(ctx, of, buf_ptr, buf_size, 0);
        proof {
            lemma_read_outcome_transport(
                entry,
                s1,
                *ctx,
                of.handle,
                buf_ptr,
                buf_size,
                0,
                LegacySyscall::Read,
                res,
            );
        }
        res
    }

    /// `pread64(fd, buf, count, offset)`: like `read` with an explicit
    /// offset, which objects without a file position reject with
    /// `ESPIPE`.
    pub fn pread64(
        ctx: &mut SyscallContext,
        fd: i32,
        buf_ptr: PluginPtr,
        buf_size: usize,
        offset: i64,
    ) -> (r: SyscallResult)
        requires
            old(ctx).inv(),
        ensures
            final(ctx).inv(),
            (match old(ctx).condition {
                Some(c) => c.active_file is None,
                None => true,
            } && (fd < 0 || fd >= DESC_TABLE_SIZE || old(ctx).descriptors.slots@[fd as int]
                is None)) ==> r == Err::<i64, SyscallError>(SyscallError::Failed(Errno::EBADF)),
            r matches Err(SyscallError::Blocked(_)) ==> (match final(ctx).condition {
                Some(c) => c.active_file is Some,
                None => false,
            }),
            // resumption and fresh resolution, as in `read`, with the
            // caller's offset
            (match old(ctx).condition {
                Some(c) => match c.active_file {
                    Some(f) => read_outcome(
                        *old(ctx),
                        *final(ctx),
                        f.handle,
                        buf_ptr,
                        buf_size,
                        offset,
                        LegacySyscall::Pread64,
                        r,
                    ),
                    None => true,
                },
                None => true,
            }),
            ((match old(ctx).condition {
                Some(c) => c.active_file is None,
                None => true,
            }) && 0 <= fd < DESC_TABLE_SIZE) ==> (match old(ctx).descriptors.slots@[fd as int] {
                Some(d) => match d.file {
                    CompatFile::New(of) => read_outcome(
                        *old(ctx),
                        *final(ctx),
                        of.handle,
                        buf_ptr,
                        buf_size,
                        offset,
                        LegacySyscall::Pread64,
                        r,
                    ) || (r == Err::<i64, SyscallError>(SyscallError::Failed(Errno::ENFILE))
                        && crate::sockops::spec_rc_at(old(ctx).files.slots@, of.handle as int)
                        == usize::MAX),
                    CompatFile::Legacy(_) => r == Err::<i64, SyscallError>(
                        SyscallError::Legacy(LegacySyscall::Pread64),
                    ),
                },
                None => true,
            }),
    {
        let ghost entry = *ctx;
        let of = match Self::resolve_file(ctx, fd) {
            Resolution::Resumed(of) => of,
            Resolution::Fresh(of) => of,
            Resolution::Legacy => {
                return Err(SyscallError::Legacy(LegacySyscall::Pread64));
            },
            Resolution::Error(e) => {
                return Err(SyscallError::Failed(e));
            },
        };
        let ghost s1 = *ctx;
        proof {
            assert(entry.slot_inv(of.handle as int));
            assert((entry.files.slots@[of.handle as int]->0).file == (
            s1.files.slots@[of.handle as int]->0).file);
        }
        if Self::is_legacy_tcp(ctx, of.handle) {
            proof {
                if crate::context::desc_refs(entry.descriptors.slots@, of.handle as int) >= 1 {
                    crate::context::lemma_surplus_and_desc_keep_two(s1, of.handle as int);
                }
            }
            let mut q = CallbackQueue::new();
            ctx.release_open_file(of, &mut q);
            ctx.flush_events(&mut q);
            return Err(SyscallError::Legacy(LegacySyscall::Pread64));
        }
        let res = Self::read_helper(ctx, of, buf_ptr, buf_size, offset);
        proof {
            lemma_read_outcome_transport(
                entry,
                s1,
                *ctx,
                of.handle,
                buf_ptr,
                buf_size,
                offset,
                LegacySyscall::Pread64,
                res,
            );
        }
        res
    }

    /// The shared read path. A socket funnels into the receive path with
    /// no flags and no address — byte for byte what `recvfrom` with null
    /// address arguments does — after rejecting a nonzero offset with
    /// `ESPIPE`; a pipe reads from its buffer, blocking as its status
    /// directs.
    fn read_helper(
        ctx: &mut SyscallContext,
        open_file: OpenFile,
        buf_ptr: PluginPtr,
        buf_size: usize,
        offset: i64,
    ) -> (r: SyscallResult)
        requires
            old(ctx).inv(),
            old(ctx).condition is None,
            open_file.handle < FILE_TABLE_SIZE,
            old(ctx).files.slots@[open_file.handle as int] is Some,
            old(ctx).has_surplus(open_file.handle as int, 1),
        ensures
            final(ctx).inv(),
            // seeking on an object without a position is refused before
            // any state change
            ((((old(ctx).files.slots@[open_file.handle as int]->0).file matches File::Socket(
                Socket::Unix(_),
            )) || ((old(ctx).files.slots@[open_file.handle as int]->0).file matches File::Pipe(_)))
                && offset != 0) ==> r == Err::<i64, SyscallError>(
                SyscallError::Failed(Errno::ESPIPE),
            ),
            // the non-blocking invariant; a read waits on readability and
            // restarts as the file's `SA_RESTART` support directs
            r matches Err(SyscallError::Blocked(b)) ==> ({
                &&& !(old(ctx).files.slots@[open_file.handle as int]->0).file.spec_status().nonblock
                &&& b.trigger == (Trigger {
                    file: open_file.handle,
                    state: FileState { readable: true, writable: false, closed: false },
                })
                &&& final(ctx).condition == Some(
                    crate::condition::SysCallCondition {
                        trigger: b.trigger,
                        active_file: Some(open_file),
                    },
                )
                &&& b.restartable == (old(ctx).files.slots@[open_file.handle as int]->0).file.spec_supports_sa_restart()
            }),
            // reading a socket follows the read plan: the receive plan of
            // `recvfrom` with no flags and null address, under the same
            // blocking decision
            (((old(ctx).files.slots@[open_file.handle as int]->0).file matches File::Socket(
                Socket::Unix(_),
            )) && old(ctx).mem.spec_valid(buf_ptr.val as int, buf_size as int)
                && spec_read_socket_plan(
                old(ctx).files.slots@,
                open_file.handle as int,
                buf_size as int,
                offset as int,
            ) == RecvPlan::Fail(Errno::EWOULDBLOCK) && !(
            old(ctx).files.slots@[open_file.handle as int]->0).file.spec_status().nonblock) ==> r
                matches Err(SyscallError::Blocked(_)),
            (((old(ctx).files.slots@[open_file.handle as int]->0).file matches File::Socket(
                Socket::Unix(_),
            )) && old(ctx).mem.spec_valid(buf_ptr.val as int, buf_size as int)
                && spec_read_socket_plan(
                old(ctx).files.slots@,
                open_file.handle as int,
                buf_size as int,
                offset as int,
            ) == RecvPlan::Eof) ==> r == Ok::<i64, SyscallError>(0),
            // a failing plan surfaces its error; a would-block plan does so
            // exactly when the file is non-blocking
            (((old(ctx).files.slots@[open_file.handle as int]->0).file matches File::Socket(
                Socket::Unix(_),
            )) && old(ctx).mem.spec_valid(buf_ptr.val as int, buf_size as int) && (
            match spec_read_socket_plan(
                old(ctx).files.slots@,
                open_file.handle as int,
                buf_size as int,
                offset as int,
            ) {
                RecvPlan::Fail(e) => e != Errno::EWOULDBLOCK || (
                old(ctx).files.slots@[open_file.handle as int]->0).file.spec_status().nonblock,
                _ => false,
            })) ==> (match spec_read_socket_plan(
                old(ctx).files.slots@,
                open_file.handle as int,
                buf_size as int,
                offset as int,
            ) {
                RecvPlan::Fail(e) => r == Err::<i64, SyscallError>(SyscallError::Failed(e)),
                _ => false,
            }),
            // pending bytes are delivered into the guest buffer, exactly
            // as `recvfrom` would deliver them
            (((old(ctx).files.slots@[open_file.handle as int]->0).file matches File::Socket(
                Socket::Unix(_),
            )) && old(ctx).mem.spec_valid(buf_ptr.val as int, buf_size as int)
                && (spec_read_socket_plan(
                old(ctx).files.slots@,
                open_file.handle as int,
                buf_size as int,
                offset as int,
            ) matches RecvPlan::Data { count })) ==> (match (r, spec_read_socket_plan(
                old(ctx).files.slots@,
                open_file.handle as int,
                buf_size as int,
                offset as int,
            )) {
                (Ok(c), RecvPlan::Data { count }) => {
                    let s = crate::sockops::spec_unix_at(
                        old(ctx).files.slots@,
                        open_file.handle as int,
                    );
                    &&& c == count
                    &&& (count > 0 ==> final(ctx).mem.bytes@.subrange(
                        buf_ptr.val as int,
                        buf_ptr.val as int + count,
                    ) == s.recv_buf.data@.subrange(0, count))
                },
                _ => false,
            }),
            // a pipe follows its own read plan under the same blocking
            // decision
            (((old(ctx).files.slots@[open_file.handle as int]->0).file matches File::Pipe(_))
                && old(ctx).mem.spec_valid(buf_ptr.val as int, buf_size as int)
                && spec_read_pipe_plan(
                old(ctx).files.slots@,
                open_file.handle as int,
                buf_size as int,
                offset as int,
            ) == RecvPlan::Fail(Errno::EWOULDBLOCK) && !(
            old(ctx).files.slots@[open_file.handle as int]->0).file.spec_status().nonblock) ==> r
                matches Err(SyscallError::Blocked(_)),
            (((old(ctx).files.slots@[open_file.handle as int]->0).file matches File::Pipe(_))
                && old(ctx).mem.spec_valid(buf_ptr.val as int, buf_size as int)
                && spec_read_pipe_plan(
                old(ctx).files.slots@,
                open_file.handle as int,
                buf_size as int,
                offset as int,
            ) == RecvPlan::Eof) ==> r == Ok::<i64, SyscallError>(0),
            (((old(ctx).files.slots@[open_file.handle as int]->0).file matches File::Pipe(_))
                && old(ctx).mem.spec_valid(buf_ptr.val as int, buf_size as int) && (
            match spec_read_pipe_plan(
                old(ctx).files.slots@,
                open_file.handle as int,
                buf_size as int,
                offset as int,
            ) {
                RecvPlan::Fail(e) => e != Errno::EWOULDBLOCK || (
                old(ctx).files.slots@[open_file.handle as int]->0).file.spec_status().nonblock,
                _ => false,
            })) ==> (match spec_read_pipe_plan(
                old(ctx).files.slots@,
                open_file.handle as int,
                buf_size as int,
                offset as int,
            ) {
                RecvPlan::Fail(e) => r == Err::<i64, SyscallError>(SyscallError::Failed(e)),
                _ => false,
            }),
            (((old(ctx).files.slots@[open_file.handle as int]->0).file matches File::Pipe(_))
                && old(ctx).mem.spec_valid(buf_ptr.val as int, buf_size as int)
                && (spec_read_pipe_plan(
                old(ctx).files.slots@,
                open_file.handle as int,
                buf_size as int,
                offset as int,
            ) matches RecvPlan::Data { count })) ==> (match (r, spec_read_pipe_plan(
                old(ctx).files.slots@,
                open_file.handle as int,
                buf_size as int,
                offset as int,
            )) {
                (Ok(c), RecvPlan::Data { count }) => {
                    let p = crate::sockops::spec_pipe_at(
                        old(ctx).files.slots@,
                        open_file.handle as int,
                    );
                    &&& c == count
                    &&& (count > 0 ==> final(ctx).mem.bytes@.subrange(
                        buf_ptr.val as int,
                        buf_ptr.val as int + count,
                    ) == p.buf.data@.subrange(0, count))
                },
                _ => false,
            }),
            // delivery drains the source: while a descriptor still binds
            // the file, the delivered bytes leave the front of its
            // buffer, everything else about it stays, and no other slot
            // moves
            ((((old(ctx).files.slots@[open_file.handle as int]->0).file matches File::Socket(
                Socket::Unix(_),
            )) && old(ctx).mem.spec_valid(buf_ptr.val as int, buf_size as int)
                && (spec_read_socket_plan(
                old(ctx).files.slots@,
                open_file.handle as int,
                buf_size as int,
                offset as int,
            ) matches RecvPlan::Data { count }) && crate::context::desc_refs(
                old(ctx).descriptors.slots@,
                open_file.handle as int,
            ) >= 1) ==> (match spec_read_socket_plan(
                old(ctx).files.slots@,
                open_file.handle as int,
                buf_size as int,
                offset as int,
            ) {
                RecvPlan::Data { count } => {
                    let u = crate::sockops::spec_unix_at(
                        old(ctx).files.slots@,
                        open_file.handle as int,
                    );
                    let u2 = crate::sockops::spec_unix_at(
                        final(ctx).files.slots@,
                        open_file.handle as int,
                    );
                    &&& final(ctx).files.slots@[open_file.handle as int] is Some
                    &&& u2 == (crate::file::UnixSocket { recv_buf: u2.recv_buf, ..u })
                    &&& u2.recv_buf.capacity == u.recv_buf.capacity
                    &&& u2.recv_buf.data@ == u.recv_buf.data@.subrange(
                        count,
                        u.recv_buf.data@.len() as int,
                    )
                    &&& forall|k: int|
                        0 <= k < FILE_TABLE_SIZE && k != open_file.handle as int ==> final(ctx).files.slots@[k] == old(ctx).files.slots@[k]
                },
                _ => true,
            })),
            ((((old(ctx).files.slots@[open_file.handle as int]->0).file matches File::Pipe(_))
                && old(ctx).mem.spec_valid(buf_ptr.val as int, buf_size as int)
                && (spec_read_pipe_plan(
                old(ctx).files.slots@,
                open_file.handle as int,
                buf_size as int,
                offset as int,
            ) matches RecvPlan::Data { count }) && crate::context::desc_refs(
                old(ctx).descriptors.slots@,
                open_file.handle as int,
            ) >= 1) ==> (match spec_read_pipe_plan(
                old(ctx).files.slots@,
                open_file.handle as int,
                buf_size as int,
                offset as int,
            ) {
                RecvPlan::Data { count } => {
                    let p = crate::sockops::spec_pipe_at(
                        old(ctx).files.slots@,
                        open_file.handle as int,
                    );
                    let p2 = crate::sockops::spec_pipe_at(
                        final(ctx).files.slots@,
                        open_file.handle as int,
                    );
                    &&& final(ctx).files.slots@[open_file.handle as int] is Some
                    &&& p2 == (crate::file::Pipe { buf: p2.buf, ..p })
                    &&& p2.buf.capacity == p.buf.capacity
                    &&& p2.buf.data@ == p.buf.data@.subrange(count, p.buf.data@.len() as int)
                    &&& forall|k: int|
                        0 <= k < FILE_TABLE_SIZE && k != open_file.handle as int ==> final(ctx).files.slots@[k] == old(ctx).files.slots@[k]
                },
                _ => true,
            })),
            // a failing call leaves guest memory untouched
            r is Err ==> final(ctx).mem == old(ctx).mem,
            // and, while a descriptor still binds the file, it leaves the
            // file table untouched but for the returned reference
            ((r matches Err(SyscallError::Failed(_)) || r matches Err(SyscallError::Legacy(_)))
                && crate::context::desc_refs(
                old(ctx).descriptors.slots@,
                open_file.handle as int,
            ) >= 1) ==> crate::handler::spec_same_files_except_rc(
                old(ctx).files.slots@,
                final(ctx).files.slots@,
                open_file.handle as int,
            ),
            // a suspension changes nothing but the stored condition
            r matches Err(SyscallError::Blocked(_)) ==> final(ctx).files.slots@
                == old(ctx).files.slots@,
    {
        let h = open_file.handle;
        proof {
            if crate::context::desc_refs(old(ctx).descriptors.slots@, h as int) >= 1 {
                crate::context::lemma_surplus_and_desc_keep_two(*old(ctx), h as int);
            }
        }
        let kind: u8 = match &ctx.files.slots[h] {
            Some(s) => match &s.file {
                File::Socket(Socket::Unix(_)) => 0,
                File::Socket(Socket::Inet(_)) => 1,
                File::Pipe(_) => 2,
            },
            None => 1,
        };
        if kind == 0 {
            // sockets have no file position
            if offset != 0 {
                let mut q = CallbackQueue::new();
                ctx.release_open_file(open_file, &mut q);
                ctx.flush_events(&mut q);
                return Err(SyscallError::Failed(Errno::ESPIPE));
            }
            proof {
                lemma_read_is_recvfrom(
                    ctx.files.slots@,
                    h as int,
                    buf_size as int,
                    offset as int,
                );
            }
            return Self::recvfrom_helper(
                ctx,
                open_file,
                buf_ptr,
                buf_size,
                0,
                PluginPtr::null(),
                PluginPtr::null(),
            );
        }
        if kind == 1 {
            let mut q = CallbackQueue::new();
            ctx.release_open_file(open_file, &mut q);
            ctx.flush_events(&mut q);
            return Err(SyscallError::Legacy(LegacySyscall::Read));
        }
        // a pipe: it has no file position either
        if offset != 0 {
            let mut q = CallbackQueue::new();
            ctx.release_open_file(open_file, &mut q);
            ctx.flush_events(&mut q);
            return Err(SyscallError::Failed(Errno::ESPIPE));
        }
        let mut q = CallbackQueue::new();
        // the guest buffer must be addressable before anything is consumed
        if buf_size > 0 && (buf_ptr.val == 0 || buf_size > ctx.mem.bytes.len() || buf_ptr.val
            > ctx.mem.bytes.len() - buf_size) {
            ctx.release_open_file(open_file, &mut q);
            ctx.flush_events(&mut q);
            return Err(SyscallError::Failed(Errno::EFAULT));
        }
        let status = Self::status_of(ctx, h);
        let restartable = match &ctx.files.slots[h] {
            Some(s) => s.file.supports_sa_restart(),
            None => false,
        };
        let result = ctx.pipe_read(h, buf_size, &mut q);
        match result {
            Err(Errno::EWOULDBLOCK) if !status.nonblock => {
                ctx.flush_events(&mut q);
                Err(Self::block_on(
                    ctx,
                    open_file,
                    FileState { readable: true, writable: false, closed: false },
                    restartable,
                ))
            },
            Err(e) => {
                ctx.release_open_file(open_file, &mut q);
                ctx.flush_events(&mut q);
                Err(SyscallError::Failed(e))
            },
            Ok(bytes) => {
                let count = bytes.len();
                if count > 0 {
                    match ctx.guest_write(buf_ptr, bytes.as_slice()) {
                        Ok(()) => {},
                        Err(e) => {
                            ctx.release_open_file(open_file, &mut q);
                            ctx.flush_events(&mut q);
                            return Err(SyscallError::Failed(e));
                        },
                    };
                }
                ctx.release_open_file(open_file, &mut q);
                ctx.flush_events(&mut q);
                proof {
                    assert(count <= 0x7fffffff);
                }
                Ok(count as i64)
            },
        }
    }

    /// `write(fd, buf, count)`.
    pub fn write(
        ctx: &mut SyscallContext,
        fd: i32,
        buf_ptr: PluginPtr,
        buf_size: usize,
    ) -> (r: SyscallResult)
        requires
            old(ctx).inv(),
        ensures
            final(ctx).inv(),
            (match old(ctx).condition {
                Some(c) => c.active_file is None,
                None => true,
            } && (fd < 0 || fd >= DESC_TABLE_SIZE || old(ctx).descriptors.slots@[fd as int]
                is None)) ==> r == Err::<i64, SyscallError>(SyscallError::Failed(Errno::EBADF)),
            r matches Err(SyscallError::Blocked(_)) ==> (match final(ctx).condition {
                Some(c) => c.active_file is Some,
                None => false,
            }),
            // a resumed call is governed by the file stashed in the
            // thread's condition, the descriptor table notwithstanding
            (match old(ctx).condition {
                Some(c) => match c.active_file {
                    Some(f) => write_outcome(
                        *old(ctx),
                        *final(ctx),
                        f.handle,
                        buf_ptr,
                        buf_size,
                        0,
                        LegacySyscall::Write,
                        r,
                    ),
                    None => true,
                },
                None => true,
            }),
            // a fresh call is governed by the descriptor's file
            ((match old(ctx).condition {
                Some(c) => c.active_file is None,
                None => true,
            }) && 0 <= fd < DESC_TABLE_SIZE) ==> (match old(ctx).descriptors.slots@[fd as int] {
                Some(d) => match d.file {
                    CompatFile::New(of) => write_outcome(
                        *old(ctx),
                        *final(ctx),
                        of.handle,
                        buf_ptr,
                        buf_size,
                        0,
                        LegacySyscall::Write,
                        r,
                    ) || (r == Err::<i64, SyscallError>(SyscallError::Failed(Errno::ENFILE))
                        && crate::sockops::spec_rc_at(old(ctx).files.slots@, of.handle as int)
                        == usize::MAX),
                    CompatFile::Legacy(_) => r == Err::<i64, SyscallError>(
                        SyscallError::Legacy(LegacySyscall::Write),
                    ),
                },
                None => true,
            }),
    {
        let ghost entry = *ctx;
        let of = match Self::resolve_file(ctx, fd) {
            Resolution::Resumed(of) => of,
            Resolution::Fresh(of) => of,
            Resolution::Legacy => {
                return Err(SyscallError::Legacy(LegacySyscall::Write));
            },
            Resolution::Error(e) => {
                return Err(SyscallError::Failed(e));
            },
        };
        let ghost s1 = *ctx;
        proof {
            assert(entry.slot_inv(of.handle as int));
            assert((entry.files.slots@[of.handle as int]->0).file == (
            s1.files.slots@[of.handle as int]->0).file);
        }
        if Self::is_legacy_tcp(ctx, of.handle) {
            proof {
                if crate::context::desc_refs(entry.descriptors.slots@, of.handle as int) >= 1 {
                    crate::context::lemma_surplus_and_desc_keep_two(s1, of.handle as int);
                }
            }
            let mut q = CallbackQueue::new();
            ctx.release_open_file(of, &mut q);
            ctx.flush_events(&mut q);
            return Err(SyscallError::Legacy(LegacySyscall::Write));
        }
        let res = Self::write_helper(ctx, of, buf_ptr, buf_size, 0);
        proof {
            lemma_write_outcome_transport(
                entry,
                s1,
                *ctx,
                of.handle,
                buf_ptr,
                buf_size,
                0,
                LegacySyscall::Write,
                res,
            );
        }
        res
    }

    /// `pwrite64(fd, buf, count, offset)`.
    pub fn pwrite64(
        ctx: &mut SyscallContext,
        fd: i32,
        buf_ptr: PluginPtr,
        buf_size: usize,
        offset: i64,
    ) -> (r: SyscallResult)
        requires
            old(ctx).inv(),
        ensures
            final(ctx).inv(),
            (match old(ctx).condition {
                Some(c) => c.active_file is None,
                None => true,
            } && (fd < 0 || fd >= DESC_TABLE_SIZE || old(ctx).descriptors.slots@[fd as int]
                is None)) ==> r == Err::<i64, SyscallError>(SyscallError::Failed(Errno::EBADF)),
            r matches Err(SyscallError::Blocked(_)) ==> (match final(ctx).condition {
                Some(c) => c.active_file is Some,
                None => false,
            }),
            // resumption and fresh resolution, as in `write`, with the
            // caller's offset
            (match old(ctx).condition {
                Some(c) => match c.active_file {
                    Some(f) => write_outcome(
                        *old(ctx),
                        *final(ctx),
                        f.handle,
                        buf_ptr,
                        buf_size,
                        offset,
                        LegacySyscall::Pwrite64,
                        r,
                    ),
                    None => true,
                },
                None => true,
            }),
            ((match old(ctx).condition {
                Some(c) => c.active_file is None,
                None => true,
            }) && 0 <= fd < DESC_TABLE_SIZE) ==> (match old(ctx).descriptors.slots@[fd as int] {
                Some(d) => match d.file {
                    CompatFile::New(of) => write_outcome(
                        *old(ctx),
                        *final(ctx),
                        of.handle,
                        buf_ptr,
                        buf_size,
                        offset,
                        LegacySyscall::Pwrite64,
                        r,
                    ) || (r == Err::<i64, SyscallError>(SyscallError::Failed(Errno::ENFILE))
                        && crate::sockops::spec_rc_at(old(ctx).files.slots@, of.handle as int)
                        == usize::MAX),
                    CompatFile::Legacy(_) => r == Err::<i64, SyscallError>(
                        SyscallError::Legacy(LegacySyscall::Pwrite64),
                    ),
                },
                None => true,
            }),
    {
        let ghost entry = *ctx;
        let of = match Self::resolve_file(ctx, fd) {
            Resolution::Resumed(of) => of,
            Resolution::Fresh(of) => of,
            Resolution::Legacy => {
                return Err(SyscallError::Legacy(LegacySyscall::Pwrite64));
            },
            Resolution::Error(e) => {
                return Err(SyscallError::Failed(e));
            },
        };
        let ghost s1 = *ctx;
        proof {
            assert(entry.slot_inv(of.handle as int));
            assert((entry.files.slots@[of.handle as int]->0).file == (
            s1.files.slots@[of.handle as int]->0).file);
        }
        if Self::is_legacy_tcp(ctx, of.handle) {
            proof {
                if crate::context::desc_refs(entry.descriptors.slots@, of.handle as int) >= 1 {
                    crate::context::lemma_surplus_and_desc_keep_two(s1, of.handle as int);
                }
            }
            let mut q = CallbackQueue::new();
            ctx.release_open_file(of, &mut q);
            ctx.flush_events(&mut q);
            return Err(SyscallError::Legacy(LegacySyscall::Pwrite64));
        }
        let res = Self::write_helper(ctx, of, buf_ptr, buf_size, offset);
        proof {
            lemma_write_outcome_transport(
                entry,
                s1,
                *ctx,
                of.handle,
                buf_ptr,
                buf_size,
                offset,
                LegacySyscall::Pwrite64,
                res,
            );
        }
        res
    }

    /// The shared write path: a socket funnels into the send path with no
    /// flags and no destination after the `ESPIPE` offset check; a pipe
    /// writes through to the read end's buffer.
    fn write_helper(
        ctx: &mut SyscallContext,
        open_file: OpenFile,
        buf_ptr: PluginPtr,
        buf_size: usize,
        offset: i64,
    ) -> (r: SyscallResult)
        requires
            old(ctx).inv(),
            old(ctx).condition is None,
            open_file.handle < FILE_TABLE_SIZE,
            old(ctx).files.slots@[open_file.handle as int] is Some,
            old(ctx).has_surplus(open_file.handle as int, 1),
        ensures
            final(ctx).inv(),
            ((((old(ctx).files.slots@[open_file.handle as int]->0).file matches File::Socket(
                Socket::Unix(_),
            )) || ((old(ctx).files.slots@[open_file.handle as int]->0).file matches File::Pipe(_)))
                && offset != 0) ==> r == Err::<i64, SyscallError>(
                SyscallError::Failed(Errno::ESPIPE),
            ),
            // the non-blocking invariant; a write waits on writability and
            // restarts as the file's `SA_RESTART` support directs
            r matches Err(SyscallError::Blocked(b)) ==> ({
                &&& !(old(ctx).files.slots@[open_file.handle as int]->0).file.spec_status().nonblock
                &&& b.trigger == (Trigger {
                    file: open_file.handle,
                    state: FileState { readable: false, writable: true, closed: false },
                })
                &&& final(ctx).condition == Some(
                    crate::condition::SysCallCondition {
                        trigger: b.trigger,
                        active_file: Some(open_file),
                    },
                )
                &&& b.restartable == (old(ctx).files.slots@[open_file.handle as int]->0).file.spec_supports_sa_restart()
            }),
            // writing a socket follows the send plan of `sendto` with no
            // flags and no destination, under the same blocking decision
            (((old(ctx).files.slots@[open_file.handle as int]->0).file matches File::Socket(
                Socket::Unix(_),
            )) && old(ctx).mem.spec_valid(buf_ptr.val as int, buf_size as int)
                && spec_write_socket_plan(
                old(ctx).files.slots@,
                old(ctx).ns@,
                open_file.handle as int,
                buf_size as int,
                offset as int,
            ) == SendPlan::Fail(Errno::EWOULDBLOCK) && !(
            old(ctx).files.slots@[open_file.handle as int]->0).file.spec_status().nonblock) ==> r
                matches Err(SyscallError::Blocked(_)),
            (((old(ctx).files.slots@[open_file.handle as int]->0).file matches File::Socket(
                Socket::Unix(_),
            )) && old(ctx).mem.spec_valid(buf_ptr.val as int, buf_size as int) && (
            match spec_write_socket_plan(
                old(ctx).files.slots@,
                old(ctx).ns@,
                open_file.handle as int,
                buf_size as int,
                offset as int,
            ) {
                SendPlan::Fail(e) => e != Errno::EWOULDBLOCK || (
                old(ctx).files.slots@[open_file.handle as int]->0).file.spec_status().nonblock,
                _ => false,
            })) ==> (match spec_write_socket_plan(
                old(ctx).files.slots@,
                old(ctx).ns@,
                open_file.handle as int,
                buf_size as int,
                offset as int,
            ) {
                SendPlan::Fail(e) => r == Err::<i64, SyscallError>(SyscallError::Failed(e)),
                _ => false,
            }),
            (((old(ctx).files.slots@[open_file.handle as int]->0).file matches File::Socket(
                Socket::Unix(_),
            )) && old(ctx).mem.spec_valid(buf_ptr.val as int, buf_size as int)
                && (spec_write_socket_plan(
                old(ctx).files.slots@,
                old(ctx).ns@,
                open_file.handle as int,
                buf_size as int,
                offset as int,
            ) matches SendPlan::Deliver { to, count })) ==> (match (r, spec_write_socket_plan(
                old(ctx).files.slots@,
                old(ctx).ns@,
                open_file.handle as int,
                buf_size as int,
                offset as int,
            )) {
                (Ok(c), SendPlan::Deliver { to, count }) => {
                    &&& c == count
                    &&& 0 <= to < FILE_TABLE_SIZE
                    &&& (crate::context::desc_refs(
                        old(ctx).descriptors.slots@,
                        open_file.handle as int,
                    ) >= 1 ==> final(ctx).files.slots@[to] is Some
                        && crate::sockops::spec_unix_at(final(ctx).files.slots@, to).recv_buf.data@
                        == crate::sockops::spec_unix_at(old(ctx).files.slots@, to).recv_buf.data@
                        + old(ctx).mem.bytes@.subrange(
                        buf_ptr.val as int,
                        buf_ptr.val as int + count,
                    ))
                },
                _ => false,
            }),
            // a pipe follows its own write plan under the same blocking
            // decision
            (((old(ctx).files.slots@[open_file.handle as int]->0).file matches File::Pipe(_))
                && old(ctx).mem.spec_valid(buf_ptr.val as int, buf_size as int)
                && spec_write_pipe_plan(
                old(ctx).files.slots@,
                open_file.handle as int,
                buf_size as int,
                offset as int,
            ) == SendPlan::Fail(Errno::EWOULDBLOCK) && !(
            old(ctx).files.slots@[open_file.handle as int]->0).file.spec_status().nonblock) ==> r
                matches Err(SyscallError::Blocked(_)),
            (((old(ctx).files.slots@[open_file.handle as int]->0).file matches File::Pipe(_))
                && old(ctx).mem.spec_valid(buf_ptr.val as int, buf_size as int) && (
            match spec_write_pipe_plan(
                old(ctx).files.slots@,
                open_file.handle as int,
                buf_size as int,
                offset as int,
            ) {
                SendPlan::Fail(e) => e != Errno::EWOULDBLOCK || (
                old(ctx).files.slots@[open_file.handle as int]->0).file.spec_status().nonblock,
                _ => false,
            })) ==> (match spec_write_pipe_plan(
                old(ctx).files.slots@,
                open_file.handle as int,
                buf_size as int,
                offset as int,
            ) {
                SendPlan::Fail(e) => r == Err::<i64, SyscallError>(SyscallError::Failed(e)),
                _ => false,
            }),
            (((old(ctx).files.slots@[open_file.handle as int]->0).file matches File::Pipe(_))
                && old(ctx).mem.spec_valid(buf_ptr.val as int, buf_size as int)
                && (spec_write_pipe_plan(
                old(ctx).files.slots@,
                open_file.handle as int,
                buf_size as int,
                offset as int,
            ) matches SendPlan::Deliver { to, count })) ==> (match (r, spec_write_pipe_plan(
                old(ctx).files.slots@,
                open_file.handle as int,
                buf_size as int,
                offset as int,
            )) {
                (Ok(c), SendPlan::Deliver { to, count }) => c == count,
                _ => false,
            }),
            // a write never writes guest memory
            final(ctx).mem == old(ctx).mem,
            // a failing call, while a descriptor still binds the file,
            // leaves the file table untouched but for the returned
            // reference
            ((r matches Err(SyscallError::Failed(_)) || r matches Err(SyscallError::Legacy(_)))
                && crate::context::desc_refs(
                old(ctx).descriptors.slots@,
                open_file.handle as int,
            ) >= 1) ==> crate::handler::spec_same_files_except_rc(
                old(ctx).files.slots@,
                final(ctx).files.slots@,
                open_file.handle as int,
            ),
            // a suspension changes nothing but the stored condition
            r matches Err(SyscallError::Blocked(_)) ==> final(ctx).files.slots@
                == old(ctx).files.slots@,
    {
        let h = open_file.handle;
        proof {
            if crate::context::desc_refs(old(ctx).descriptors.slots@, h as int) >= 1 {
                crate::context::lemma_surplus_and_desc_keep_two(*old(ctx), h as int);
            }
        }
        let kind: u8 = match &ctx.files.slots[h] {
            Some(s) => match &s.file {
                File::Socket(Socket::Unix(_)) => 0,
                File::Socket(Socket::Inet(_)) => 1,
                File::Pipe(_) => 2,
            },
            None => 1,
        };
        if kind == 0 {
            if offset != 0 {
                let mut q = CallbackQueue::new();
                ctx.release_open_file(open_file, &mut q);
                ctx.flush_events(&mut q);
                return Err(SyscallError::Failed(Errno::ESPIPE));
            }
            proof {
                lemma_read_is_recvfrom(ctx.files.slots@, h as int, buf_size as int, offset as int);
            }
            return Self::sendto_helper(ctx, open_file, buf_ptr, buf_size, 0, PluginPtr::null(), 0);
        }
        if kind == 1 {
            let mut q = CallbackQueue::new();
            ctx.release_open_file(open_file, &mut q);
            ctx.flush_events(&mut q);
            return Err(SyscallError::Legacy(LegacySyscall::Write));
        }
        if offset != 0 {
            let mut q = CallbackQueue::new();
            ctx.release_open_file(open_file, &mut q);
            ctx.flush_events(&mut q);
            return Err(SyscallError::Failed(Errno::ESPIPE));
        }
        let mut q = CallbackQueue::new();
        let data = match ctx.mem.read(buf_ptr, buf_size) {
            Ok(d) => d,
            Err(e) => {
                ctx.release_open_file(open_file, &mut q);
                ctx.flush_events(&mut q);
                return Err(SyscallError::Failed(e));
            },
        };
        let status = Self::status_of(ctx, h);
        let restartable = match &ctx.files.slots[h] {
            Some(s) => s.file.supports_sa_restart(),
            None => false,
        };
        let result = ctx.pipe_write(h, &data, &mut q);
        match result {
            Err(Errno::EWOULDBLOCK) if !status.nonblock => {
                ctx.flush_events(&mut q);
                Err(Self::block_on(
                    ctx,
                    open_file,
                    FileState { readable: false, writable: true, closed: false },
                    restartable,
                ))
            },
            Err(e) => {
                ctx.release_open_file(open_file, &mut q);
                ctx.flush_events(&mut q);
                Err(SyscallError::Failed(e))
            },
            Ok(count) => {
                ctx.release_open_file(open_file, &mut q);
                ctx.flush_events(&mut q);
                proof {
                    assert(count <= 0x7fffffff);
                }
                Ok(count as i64)
            },
        }
    }

    /// `pipe(pipefd)`: `pipe2` with no flags.
    pub fn pipe(ctx: &mut SyscallContext, fd_ptr: PluginPtr) -> (r: SyscallResult)
        requires
            old(ctx).inv(),
        ensures
            final(ctx).inv(),
            fd_ptr.val == 0 ==> r == Err::<i64, SyscallError>(SyscallError::Failed(Errno::EFAULT))
                && *final(ctx) == *old(ctx),
            (r == Err::<i64, SyscallError>(SyscallError::Failed(Errno::EFAULT)) && fd_ptr.val != 0)
                ==> final(ctx).descriptors.slots@ == old(ctx).descriptors.slots@ && final(ctx).files.slots@ == old(ctx).files.slots@,
            match r {
                Ok(v) => {
                    &&& v == 0
                    &&& old(ctx).mem.spec_valid(fd_ptr.val as int, 8)
                    &&& exists|rfd: usize, wfd: usize, hr: usize, hw: usize|
                        pipe_created(*old(ctx), *final(ctx), 0, fd_ptr, rfd, wfd, hr, hw)
                },
                Err(e) => {
                    &&& (e == SyscallError::Failed(Errno::EFAULT) || e == SyscallError::Failed(
                        Errno::ENFILE,
                    ))
                    &&& (e == SyscallError::Failed(Errno::EFAULT) ==> fd_ptr.val == 0 || !old(
                        ctx,
                    ).mem.spec_valid(fd_ptr.val as int, 8))
                    &&& (e == SyscallError::Failed(Errno::ENFILE) ==> !(exists|i: int, j: int|
                        0 <= i < j < FILE_TABLE_SIZE && old(ctx).files.slots@[i] is None && old(
                            ctx,
                        ).files.slots@[j] is None) || !(exists|i: int, j: int|
                        0 <= i < j < DESC_TABLE_SIZE && old(ctx).descriptors.slots@[i] is None
                            && old(ctx).descriptors.slots@[j] is None))
                },
            },
    {
        Self::pipe_helper(ctx, fd_ptr, 0)
    }

    /// `pipe2(pipefd, flags)`.
    pub fn pipe2(ctx: &mut SyscallContext, fd_ptr: PluginPtr, flags: i32) -> (r: SyscallResult)
        requires
            old(ctx).inv(),
        ensures
            final(ctx).inv(),
            fd_ptr.val == 0 ==> r == Err::<i64, SyscallError>(SyscallError::Failed(Errno::EFAULT))
                && *final(ctx) == *old(ctx),
            (r == Err::<i64, SyscallError>(SyscallError::Failed(Errno::EFAULT)) && fd_ptr.val != 0)
                ==> final(ctx).descriptors.slots@ == old(ctx).descriptors.slots@ && final(ctx).files.slots@ == old(ctx).files.slots@,
            match r {
                Ok(v) => {
                    &&& v == 0
                    &&& old(ctx).mem.spec_valid(fd_ptr.val as int, 8)
                    &&& exists|rfd: usize, wfd: usize, hr: usize, hw: usize|
                        pipe_created(*old(ctx), *final(ctx), flags, fd_ptr, rfd, wfd, hr, hw)
                },
                Err(e) => {
                    &&& (e == SyscallError::Failed(Errno::EFAULT) || e == SyscallError::Failed(
                        Errno::ENFILE,
                    ))
                    &&& (e == SyscallError::Failed(Errno::EFAULT) ==> fd_ptr.val == 0 || !old(
                        ctx,
                    ).mem.spec_valid(fd_ptr.val as int, 8))
                    &&& (e == SyscallError::Failed(Errno::ENFILE) ==> !(exists|i: int, j: int|
                        0 <= i < j < FILE_TABLE_SIZE && old(ctx).files.slots@[i] is None && old(
                            ctx,
                        ).files.slots@[j] is None) || !(exists|i: int, j: int|
                        0 <= i < j < DESC_TABLE_SIZE && old(ctx).descriptors.slots@[i] is None
                            && old(ctx).descriptors.slots@[j] is None))
                },
            },
    {
        Self::pipe_helper(ctx, fd_ptr, flags)
    }

    /// The shared pipe-creation path: allocates the two ends over one
    /// buffer, registers both descriptors, and writes the pair to guest
    /// memory — deregistering and closing both descriptors again if that
    /// write fails, so a failed call leaks nothing.
    fn pipe_helper(ctx: &mut SyscallContext, fd_ptr: PluginPtr, flags: i32) -> (r: SyscallResult)
        requires
            old(ctx).inv(),
        ensures
            final(ctx).inv(),
            fd_ptr.val == 0 ==> r == Err::<i64, SyscallError>(SyscallError::Failed(Errno::EFAULT))
                && *final(ctx) == *old(ctx),
            // atomic creation: on a failed pair write everything rolls back
            (r == Err::<i64, SyscallError>(SyscallError::Failed(Errno::EFAULT)) && fd_ptr.val != 0)
                ==> final(ctx).descriptors.slots@ == old(ctx).descriptors.slots@ && final(ctx).files.slots@ == old(ctx).files.slots@,
            // success is owed whenever the pointer is writable and room is
            // left: each error names its cause, so none fires otherwise
            match r {
                Ok(v) => {
                    &&& v == 0
                    &&& old(ctx).mem.spec_valid(fd_ptr.val as int, 8)
                    &&& exists|rfd: usize, wfd: usize, hr: usize, hw: usize|
                        pipe_created(
                            *old(ctx),
                            *final(ctx),
                            flags,
                            fd_ptr,
                            rfd,
                            wfd,
                            hr,
                            hw,
                        )
                },
                Err(e) => {
                    &&& (e == SyscallError::Failed(Errno::EFAULT) || e == SyscallError::Failed(
                        Errno::ENFILE,
                    ))
                    &&& (e == SyscallError::Failed(Errno::EFAULT) ==> fd_ptr.val == 0 || !old(
                        ctx,
                    ).mem.spec_valid(fd_ptr.val as int, 8))
                    &&& (e == SyscallError::Failed(Errno::ENFILE) ==> !(exists|i: int, j: int|
                        0 <= i < j < FILE_TABLE_SIZE && old(ctx).files.slots@[i] is None && old(
                            ctx,
                        ).files.slots@[j] is None) || !(exists|i: int, j: int|
                        0 <= i < j < DESC_TABLE_SIZE && old(ctx).descriptors.slots@[i] is None
                            && old(ctx).descriptors.slots@[j] is None))
                },
            },
    {
        let ghost entry = *ctx;
        // a null pointer can never receive the pair
        if fd_ptr.is_null() {
            return Err(SyscallError::Failed(Errno::EFAULT));
        }
        let mut file_flags = FileStatus::empty();
        let mut descriptor_flags = DescriptorFlags::empty();
        if flags & abi::O_NONBLOCK != 0 {
            file_flags.nonblock = true;
        }
        if flags & abi::O_DIRECT != 0 {
            file_flags.direct = true;
        }
        if flags & abi::O_CLOEXEC != 0 {
            descriptor_flags.cloexec = true;
        }
        // remaining flag bits are accepted and ignored
        let reader = Pipe {
            mode: FileMode::Read,
            status: file_flags,
            peer: None,
            peer_closed: false,
            buf: crate::file::ByteBuffer::new(crate::file::DEFAULT_BUFFER_SIZE),
        };
        let writer = Pipe {
            mode: FileMode::Write,
            status: file_flags,
            peer: None,
            peer_closed: false,
            buf: crate::file::ByteBuffer::new(crate::file::DEFAULT_BUFFER_SIZE),
        };
        let of_r = match ctx.alloc_file(File::Pipe(reader)) {
            Ok(of) => of,
            Err(e) => {
                return Err(SyscallError::Failed(e));
            },
        };
        let ghost hr0 = of_r.handle as int;
        let ghost mid1 = *ctx;
        let of_w = match ctx.alloc_file(File::Pipe(writer)) {
            Ok(of) => of,
            Err(e) => {
                let mut q = CallbackQueue::new();
                proof {
                    assert forall|k: int|
                        0 <= k < FILE_TABLE_SIZE && k != hr0 implies entry.files.slots@[k]
                        is Some by {
                        assert(mid1.files.slots@[k] is Some);
                        assert(entry.files.slots@[k] == mid1.files.slots@[k]);
                    }
                }
                ctx.release_open_file(of_r, &mut q);
                ctx.flush_events(&mut q);
                return Err(SyscallError::Failed(e));
            },
        };
        let hr = of_r.handle;
        let hw = of_w.handle;
        ctx.link_pipe_pair(hr, hw);
        let mut rd = Descriptor::new(CompatFile::New(of_r));
        rd.set_flags(descriptor_flags);
        let read_fd = match ctx.register_descriptor(rd) {
            Ok(fd) => fd,
            Err(d) => {
                let mut q = CallbackQueue::new();
                let ghost before = *ctx;
                proof {
                    assert(forall|j: int|
                        0 <= j < DESC_TABLE_SIZE ==> entry.descriptors.slots@[j] is Some);
                }
                match d.file {
                    CompatFile::New(ofx) => {
                        ctx.release_open_file(ofx, &mut q);
                    },
                    CompatFile::Legacy(_) => {},
                }
                proof {
                    crate::context::lemma_desc_refs_upto_nonneg(
                        ctx.descriptors.slots@,
                        hw as int,
                        ctx.descriptors.slots@.len() as int,
                    );
                    crate::context::lemma_queue_refs_upto_nonneg(
                        ctx.files.slots@,
                        hw as int,
                        ctx.files.slots@.len() as int,
                    );
                    assert(before.total_refs(hw as int) == 0);
                    assert(ctx.files.slots@[hw as int] is Some);
                    assert(ctx.has_surplus(hw as int, 1));
                }
                ctx.release_open_file(of_w, &mut q);
                ctx.flush_events(&mut q);
                return Err(SyscallError::Failed(Errno::ENFILE));
            },
        };
        let mut wd = Descriptor::new(CompatFile::New(of_w));
        wd.set_flags(descriptor_flags);
        let write_fd = match ctx.register_descriptor(wd) {
            Ok(fd) => fd,
            Err(d) => {
                let mut q = CallbackQueue::new();
                proof {
                    assert forall|j: int|
                        0 <= j < DESC_TABLE_SIZE && j != read_fd as int
                            implies entry.descriptors.slots@[j] is Some by {
                        assert(ctx.descriptors.slots@[j] is Some);
                        assert(entry.descriptors.slots@[j] == ctx.descriptors.slots@[j]);
                    }
                }
                match ctx.deregister_descriptor(read_fd) {
                    Some(d1) => match d1.file {
                        CompatFile::New(ofx) => {
                            ctx.release_open_file(ofx, &mut q);
                        },
                        CompatFile::Legacy(_) => {},
                    },
                    None => {},
                }
                proof {
                    crate::context::lemma_desc_refs_upto_nonneg(
                        ctx.descriptors.slots@,
                        hw as int,
                        ctx.descriptors.slots@.len() as int,
                    );
                    crate::context::lemma_queue_refs_upto_nonneg(
                        ctx.files.slots@,
                        hw as int,
                        ctx.files.slots@.len() as int,
                    );
                    assert(ctx.files.slots@[hw as int] is Some);
                    assert(ctx.has_surplus(hw as int, 1));
                }
                match d.file {
                    CompatFile::New(ofx) => {
                        ctx.release_open_file(ofx, &mut q);
                    },
                    CompatFile::Legacy(_) => {},
                }
                ctx.flush_events(&mut q);
                return Err(SyscallError::Failed(Errno::ENFILE));
            },
        };
        // hand the pair to the guest; on failure both descriptors are
        // rolled back before the fault is reported
        match crate::handler::guest_write_pair(ctx, fd_ptr, read_fd as i32, write_fd as i32) {
            Ok(()) => {
                proof {
                    assert(ctx.mem.bytes@.subrange(fd_ptr.val as int, fd_ptr.val as int + 8)
                        =~= crate::mem::spec_fd_pair_bytes(read_fd as i32, write_fd as i32));
                    assert(pipe_created(entry, *ctx, flags, fd_ptr, read_fd, write_fd, hr, hw));
                }
                Ok(0)
            },
            Err(e) => {
                let mut q = CallbackQueue::new();
                match ctx.deregister_descriptor(read_fd) {
                    Some(d1) => match d1.file {
                        CompatFile::New(ofx) => {
                            ctx.release_open_file(ofx, &mut q);
                        },
                        CompatFile::Legacy(_) => {},
                    },
                    None => {},
                }
                match ctx.deregister_descriptor(write_fd) {
                    Some(d2) => match d2.file {
                        CompatFile::New(ofx) => {
                            ctx.release_open_file(ofx, &mut q);
                        },
                        CompatFile::Legacy(_) => {},
                    },
                    None => {},
                }
                ctx.flush_events(&mut q);
                proof {
                    assert(ctx.descriptors.slots@ =~= entry.descriptors.slots@);
                    assert(ctx.files.slots@ =~= entry.files.slots@);
                }
                Err(SyscallError::Failed(e))
            },
        }
    }
}

/// What a successful pipe creation leaves behind: two fresh descriptors
/// binding the read and the write end of one fresh pipe, connected as
/// peers over one empty buffer, with the requested flags applied, and the
/// descriptor pair written to guest memory in its wire form.
pub open spec fn pipe_created(
    pre: SyscallContext,
    post: SyscallContext,
    flags: i32,
    fd_ptr: PluginPtr,
    rfd: usize,
    wfd: usize,
    hr: usize,
    hw: usize,
) -> bool {
    let want_status = FileStatus {
        nonblock: flags & crate::abi::O_NONBLOCK != 0,
        direct: flags & crate::abi::O_DIRECT != 0,
    };
    let want_cloexec = flags & crate::abi::O_CLOEXEC != 0;
    &&& rfd < DESC_TABLE_SIZE && wfd < DESC_TABLE_SIZE && rfd != wfd
    &&& hr < FILE_TABLE_SIZE && hw < FILE_TABLE_SIZE && hr != hw
    &&& pre.descriptors.slots@[rfd as int] is None
    &&& pre.descriptors.slots@[wfd as int] is None
    &&& pre.files.slots@[hr as int] is None
    &&& pre.files.slots@[hw as int] is None
    &&& match (post.descriptors.slots@[rfd as int], post.descriptors.slots@[wfd as int]) {
        (Some(rd), Some(wd)) => {
            &&& rd.file == CompatFile::New(OpenFile { handle: hr })
            &&& wd.file == CompatFile::New(OpenFile { handle: hw })
            &&& rd.flags.cloexec == want_cloexec
            &&& wd.flags.cloexec == want_cloexec
        },
        _ => false,
    }
    &&& match (post.files.slots@[hr as int], post.files.slots@[hw as int]) {
        (Some(rs), Some(ws)) => {
            &&& match rs.file {
                File::Pipe(p) => p.mode is Read && p.status == want_status && p.peer == Some(hw)
                    && !p.peer_closed && p.buf.data@.len() == 0 && p.buf.capacity
                    == crate::file::DEFAULT_BUFFER_SIZE,
                _ => false,
            }
            &&& match ws.file {
                File::Pipe(p) => p.mode is Write && p.status == want_status && p.peer == Some(hr)
                    && !p.peer_closed && p.buf.data@.len() == 0 && p.buf.capacity
                    == crate::file::DEFAULT_BUFFER_SIZE,
                _ => false,
            }
        },
        _ => false,
    }
    &&& post.mem.bytes@.subrange(fd_ptr.val as int, fd_ptr.val as int + 8)
        == crate::mem::spec_fd_pair_bytes(rfd as i32, wfd as i32)
}

/// The outcome owed by a `read`-family call that resolved the file at
/// `h`: sockets and pipes refuse a nonzero offset with `ESPIPE` and
/// otherwise follow their read plans — a would-block plan suspends a
/// blocking call awaiting readability, end-of-stream yields zero, and
/// pending bytes land at the start of the guest buffer. An internet
/// socket redirects the whole call to the legacy entry point `leg`.
pub open spec fn read_outcome(
    pre: SyscallContext,
    post: SyscallContext,
    h: usize,
    buf_ptr: PluginPtr,
    buf_size: usize,
    offset: i64,
    leg: LegacySyscall,
    r: SyscallResult,
) -> bool {
    let file = (pre.files.slots@[h as int]->0).file;
    let splan = spec_read_socket_plan(pre.files.slots@, h as int, buf_size as int, offset as int);
    let pplan = spec_read_pipe_plan(pre.files.slots@, h as int, buf_size as int, offset as int);
    &&& ((file matches File::Socket(Socket::Inet(_))) ==> r == Err::<i64, SyscallError>(
        SyscallError::Legacy(leg),
    ))
    &&& ((((file matches File::Socket(Socket::Unix(_))) || (file matches File::Pipe(_)))
        && offset != 0) ==> r == Err::<i64, SyscallError>(SyscallError::Failed(Errno::ESPIPE)))
    &&& (r matches Err(SyscallError::Blocked(b)) ==> ({
        &&& !file.spec_status().nonblock
        &&& b.trigger == (Trigger {
            file: h,
            state: FileState { readable: true, writable: false, closed: false },
        })
        &&& post.condition == Some(
            crate::condition::SysCallCondition {
                trigger: b.trigger,
                active_file: Some(crate::file::OpenFile { handle: h }),
            },
        )
        &&& b.restartable == file.spec_supports_sa_restart()
    }))
    &&& (((file matches File::Socket(Socket::Unix(_))) && pre.mem.spec_valid(
        buf_ptr.val as int,
        buf_size as int,
    ) && splan == RecvPlan::Fail(Errno::EWOULDBLOCK) && !file.spec_status().nonblock) ==> r
        matches Err(SyscallError::Blocked(_)))
    &&& (((file matches File::Socket(Socket::Unix(_))) && pre.mem.spec_valid(
        buf_ptr.val as int,
        buf_size as int,
    ) && splan == RecvPlan::Eof) ==> r == Ok::<i64, SyscallError>(0))
    &&& (((file matches File::Socket(Socket::Unix(_))) && pre.mem.spec_valid(
        buf_ptr.val as int,
        buf_size as int,
    ) && (match splan {
        RecvPlan::Fail(e) => e != Errno::EWOULDBLOCK || file.spec_status().nonblock,
        _ => false,
    })) ==> (match splan {
        RecvPlan::Fail(e) => r == Err::<i64, SyscallError>(SyscallError::Failed(e)),
        _ => false,
    }))
    &&& (((file matches File::Socket(Socket::Unix(_))) && pre.mem.spec_valid(
        buf_ptr.val as int,
        buf_size as int,
    ) && (splan matches RecvPlan::Data { count })) ==> (match (r, splan) {
        (Ok(c), RecvPlan::Data { count }) => {
            let s = crate::sockops::spec_unix_at(pre.files.slots@, h as int);
            &&& c == count
            &&& (count > 0 ==> post.mem.bytes@.subrange(
                buf_ptr.val as int,
                buf_ptr.val as int + count,
            ) == s.recv_buf.data@.subrange(0, count))
        },
        _ => false,
    }))
    &&& (((file matches File::Pipe(_)) && pre.mem.spec_valid(buf_ptr.val as int, buf_size as int)
        && pplan == RecvPlan::Fail(Errno::EWOULDBLOCK) && !file.spec_status().nonblock) ==> r
        matches Err(SyscallError::Blocked(_)))
    &&& (((file matches File::Pipe(_)) && pre.mem.spec_valid(buf_ptr.val as int, buf_size as int)
        && pplan == RecvPlan::Eof) ==> r == Ok::<i64, SyscallError>(0))
    &&& (((file matches File::Pipe(_)) && pre.mem.spec_valid(buf_ptr.val as int, buf_size as int)
        && (match pplan {
        RecvPlan::Fail(e) => e != Errno::EWOULDBLOCK || file.spec_status().nonblock,
        _ => false,
    })) ==> (match pplan {
        RecvPlan::Fail(e) => r == Err::<i64, SyscallError>(SyscallError::Failed(e)),
        _ => false,
    }))
    &&& (((file matches File::Pipe(_)) && pre.mem.spec_valid(buf_ptr.val as int, buf_size as int)
        && (pplan matches RecvPlan::Data { count })) ==> (match (r, pplan) {
        (Ok(c), RecvPlan::Data { count }) => {
            let p = crate::sockops::spec_pipe_at(pre.files.slots@, h as int);
            &&& c == count
            &&& (count > 0 ==> post.mem.bytes@.subrange(
                buf_ptr.val as int,
                buf_ptr.val as int + count,
            ) == p.buf.data@.subrange(0, count))
        },
        _ => false,
    }))
    // delivery drains the source while a descriptor still binds it
    &&& (((file matches File::Socket(Socket::Unix(_))) && pre.mem.spec_valid(
        buf_ptr.val as int,
        buf_size as int,
    ) && (splan matches RecvPlan::Data { count }) && crate::context::desc_refs(
        pre.descriptors.slots@,
        h as int,
    ) >= 1) ==> (match splan {
        RecvPlan::Data { count } => {
            let u = crate::sockops::spec_unix_at(pre.files.slots@, h as int);
            let u2 = crate::sockops::spec_unix_at(post.files.slots@, h as int);
            &&& post.files.slots@[h as int] is Some
            &&& u2 == (crate::file::UnixSocket { recv_buf: u2.recv_buf, ..u })
            &&& u2.recv_buf.capacity == u.recv_buf.capacity
            &&& u2.recv_buf.data@ == u.recv_buf.data@.subrange(
                count,
                u.recv_buf.data@.len() as int,
            )
            &&& forall|k: int|
                0 <= k < crate::file::FILE_TABLE_SIZE && k != h as int ==> post.files.slots@[k]
                    == pre.files.slots@[k]
        },
        _ => true,
    }))
    &&& (((file matches File::Pipe(_)) && pre.mem.spec_valid(buf_ptr.val as int, buf_size as int)
        && (pplan matches RecvPlan::Data { count }) && crate::context::desc_refs(
        pre.descriptors.slots@,
        h as int,
    ) >= 1) ==> (match pplan {
        RecvPlan::Data { count } => {
            let p = crate::sockops::spec_pipe_at(pre.files.slots@, h as int);
            let p2 = crate::sockops::spec_pipe_at(post.files.slots@, h as int);
            &&& post.files.slots@[h as int] is Some
            &&& p2 == (crate::file::Pipe { buf: p2.buf, ..p })
            &&& p2.buf.capacity == p.buf.capacity
            &&& p2.buf.data@ == p.buf.data@.subrange(count, p.buf.data@.len() as int)
            &&& forall|k: int|
                0 <= k < crate::file::FILE_TABLE_SIZE && k != h as int ==> post.files.slots@[k]
                    == pre.files.slots@[k]
        },
        _ => true,
    }))
    // a failing call leaves guest memory untouched and, while a
    // descriptor still binds the file, moves only that slot's count; a
    // suspension does the same
    &&& (r is Err ==> post.mem == pre.mem)
    &&& (((r matches Err(SyscallError::Failed(_))) || (r matches Err(SyscallError::Legacy(_))))
        && crate::context::desc_refs(pre.descriptors.slots@, h as int) >= 1
        ==> crate::handler::spec_same_files_except_rc(
        pre.files.slots@,
        post.files.slots@,
        h as int,
    ))
    &&& (r matches Err(SyscallError::Blocked(_))
        ==> crate::handler::spec_same_files_except_rc(
        pre.files.slots@,
        post.files.slots@,
        h as int,
    ))
}

/// The outcome owed by a `write`-family call that resolved the file at
/// `h`, the mirror of the read outcome over the send and pipe-write
/// plans, awaiting writability.
pub open spec fn write_outcome(
    pre: SyscallContext,
    post: SyscallContext,
    h: usize,
    buf_ptr: PluginPtr,
    buf_size: usize,
    offset: i64,
    leg: LegacySyscall,
    r: SyscallResult,
) -> bool {
    let file = (pre.files.slots@[h as int]->0).file;
    let splan = spec_write_socket_plan(
        pre.files.slots@,
        pre.ns@,
        h as int,
        buf_size as int,
        offset as int,
    );
    let pplan = spec_write_pipe_plan(pre.files.slots@, h as int, buf_size as int, offset as int);
    &&& ((file matches File::Socket(Socket::Inet(_))) ==> r == Err::<i64, SyscallError>(
        SyscallError::Legacy(leg),
    ))
    &&& ((((file matches File::Socket(Socket::Unix(_))) || (file matches File::Pipe(_)))
        && offset != 0) ==> r == Err::<i64, SyscallError>(SyscallError::Failed(Errno::ESPIPE)))
    &&& (r matches Err(SyscallError::Blocked(b)) ==> ({
        &&& !file.spec_status().nonblock
        &&& b.trigger == (Trigger {
            file: h,
            state: FileState { readable: false, writable: true, closed: false },
        })
        &&& post.condition == Some(
            crate::condition::SysCallCondition {
                trigger: b.trigger,
                active_file: Some(crate::file::OpenFile { handle: h }),
            },
        )
        &&& b.restartable == file.spec_supports_sa_restart()
    }))
    &&& (((file matches File::Socket(Socket::Unix(_))) && pre.mem.spec_valid(
        buf_ptr.val as int,
        buf_size as int,
    ) && splan == SendPlan::Fail(Errno::EWOULDBLOCK) && !file.spec_status().nonblock) ==> r
        matches Err(SyscallError::Blocked(_)))
    &&& (((file matches File::Socket(Socket::Unix(_))) && pre.mem.spec_valid(
        buf_ptr.val as int,
        buf_size as int,
    ) && (match splan {
        SendPlan::Fail(e) => e != Errno::EWOULDBLOCK || file.spec_status().nonblock,
        _ => false,
    })) ==> (match splan {
        SendPlan::Fail(e) => r == Err::<i64, SyscallError>(SyscallError::Failed(e)),
        _ => false,
    }))
    &&& (((file matches File::Socket(Socket::Unix(_))) && pre.mem.spec_valid(
        buf_ptr.val as int,
        buf_size as int,
    ) && (splan matches SendPlan::Deliver { to, count })) ==> (match (r, splan) {
        (Ok(c), SendPlan::Deliver { to, count }) => {
            &&& c == count
            &&& 0 <= to < crate::file::FILE_TABLE_SIZE
            &&& (crate::context::desc_refs(pre.descriptors.slots@, h as int) >= 1 ==> post.files.slots@[to] is Some && crate::sockops::spec_unix_at(post.files.slots@, to).recv_buf.data@
                == crate::sockops::spec_unix_at(pre.files.slots@, to).recv_buf.data@
                + pre.mem.bytes@.subrange(buf_ptr.val as int, buf_ptr.val as int + count))
        },
        _ => false,
    }))
    &&& (((file matches File::Pipe(_)) && pre.mem.spec_valid(buf_ptr.val as int, buf_size as int)
        && pplan == SendPlan::Fail(Errno::EWOULDBLOCK) && !file.spec_status().nonblock) ==> r
        matches Err(SyscallError::Blocked(_)))
    &&& (((file matches File::Pipe(_)) && pre.mem.spec_valid(buf_ptr.val as int, buf_size as int)
        && (match pplan {
        SendPlan::Fail(e) => e != Errno::EWOULDBLOCK || file.spec_status().nonblock,
        _ => false,
    })) ==> (match pplan {
        SendPlan::Fail(e) => r == Err::<i64, SyscallError>(SyscallError::Failed(e)),
        _ => false,
    }))
    &&& (((file matches File::Pipe(_)) && pre.mem.spec_valid(buf_ptr.val as int, buf_size as int)
        && (pplan matches SendPlan::Deliver { to, count })) ==> (match (r, pplan) {
        (Ok(c), SendPlan::Deliver { to, count }) => c == count,
        _ => false,
    }))
    // a write never writes guest memory; a failing one, while a
    // descriptor still binds the file, moves only that slot's count, and
    // a suspension does the same
    &&& post.mem == pre.mem
    &&& (((r matches Err(SyscallError::Failed(_))) || (r matches Err(SyscallError::Legacy(_))))
        && crate::context::desc_refs(pre.descriptors.slots@, h as int) >= 1
        ==> crate::handler::spec_same_files_except_rc(
        pre.files.slots@,
        post.files.slots@,
        h as int,
    ))
    &&& (r matches Err(SyscallError::Blocked(_))
        ==> crate::handler::spec_same_files_except_rc(
        pre.files.slots@,
        post.files.slots@,
        h as int,
    ))
}

/// Carries a read outcome back across a resolution step, which can
/// change nothing in the file table but the resolved slot's reference
/// count.
pub proof fn lemma_read_outcome_transport(
    pre0: SyscallContext,
    pre1: SyscallContext,
    post: SyscallContext,
    h: usize,
    buf_ptr: PluginPtr,
    buf_size: usize,
    offset: i64,
    leg: LegacySyscall,
    r: SyscallResult,
)
    requires
        pre0.inv(),
        h < crate::file::FILE_TABLE_SIZE,
        pre0.files.slots@[h as int] is Some,
        crate::handler::spec_same_files_except_rc(pre0.files.slots@, pre1.files.slots@, h as int),
        pre1.mem == pre0.mem,
        pre1.descriptors == pre0.descriptors,
        read_outcome(pre1, post, h, buf_ptr, buf_size, offset, leg, r),
    ensures
        read_outcome(pre0, post, h, buf_ptr, buf_size, offset, leg, r),
{
    assert(pre0.slot_inv(h as int));
    assert(pre0.peer_clause(h as int));
    crate::sockops::lemma_recv_plan_same_payload(
        pre0.files.slots@,
        pre1.files.slots@,
        h as int,
        buf_size as int,
    );
    crate::sockops::lemma_pipe_plans_same_payload(
        pre0.files.slots@,
        pre1.files.slots@,
        h as int,
        buf_size as int,
    );
    assert((pre1.files.slots@[h as int]->0).file == (pre0.files.slots@[h as int]->0).file);
    assert(crate::sockops::spec_unix_at(pre1.files.slots@, h as int)
        == crate::sockops::spec_unix_at(pre0.files.slots@, h as int));
    assert(crate::sockops::spec_pipe_at(pre1.files.slots@, h as int)
        == crate::sockops::spec_pipe_at(pre0.files.slots@, h as int));
    if crate::handler::spec_same_files_except_rc(pre1.files.slots@, post.files.slots@, h as int) {
        assert(crate::handler::spec_same_files_except_rc(
            pre0.files.slots@,
            post.files.slots@,
            h as int,
        ));
    }
}

/// The same carriage, for a write outcome.
pub proof fn lemma_write_outcome_transport(
    pre0: SyscallContext,
    pre1: SyscallContext,
    post: SyscallContext,
    h: usize,
    buf_ptr: PluginPtr,
    buf_size: usize,
    offset: i64,
    leg: LegacySyscall,
    r: SyscallResult,
)
    requires
        pre0.inv(),
        h < crate::file::FILE_TABLE_SIZE,
        pre0.files.slots@[h as int] is Some,
        crate::handler::spec_same_files_except_rc(pre0.files.slots@, pre1.files.slots@, h as int),
        pre1.mem == pre0.mem,
        pre1.ns == pre0.ns,
        pre1.descriptors == pre0.descriptors,
        write_outcome(pre1, post, h, buf_ptr, buf_size, offset, leg, r),
    ensures
        write_outcome(pre0, post, h, buf_ptr, buf_size, offset, leg, r),
{
    assert(pre0.slot_inv(h as int));
    assert(pre0.peer_clause(h as int));
    assert forall|i: int|
        0 <= i < pre0.ns@.len() implies (#[trigger] pre0.ns@[i]).handle
        < pre0.files.slots@.len() by {
        assert(pre0.ns_entry_inv(i));
    }
    crate::sockops::lemma_send_plan_same_payload(
        pre0.files.slots@,
        pre1.files.slots@,
        pre0.ns@,
        h as int,
        buf_size as int,
        None,
    );
    crate::sockops::lemma_pipe_plans_same_payload(
        pre0.files.slots@,
        pre1.files.slots@,
        h as int,
        buf_size as int,
    );
    assert((pre1.files.slots@[h as int]->0).file == (pre0.files.slots@[h as int]->0).file);
    if crate::handler::spec_same_files_except_rc(pre1.files.slots@, post.files.slots@, h as int) {
        assert(crate::handler::spec_same_files_except_rc(
            pre0.files.slots@,
            post.files.slots@,
            h as int,
        ));
    }
    match spec_write_socket_plan(
        pre0.files.slots@,
        pre0.ns@,
        h as int,
        buf_size as int,
        offset as int,
    ) {
        SendPlan::Deliver { to, count } => {
            if 0 <= to < pre0.files.slots@.len() {
                assert(crate::sockops::spec_unix_at(pre1.files.slots@, to)
                    == crate::sockops::spec_unix_at(pre0.files.slots@, to));
            }
        },
        _ => {},
    }
}

/// The plan of `read` on a unix socket: a nonzero offset is `ESPIPE`
/// before anything happens; otherwise the call follows the socket's
/// receive plan.
pub open spec fn spec_read_socket_plan(
    files: Seq<Option<crate::file::FileSlot>>,
    h: int,
    n: int,
    offset: int,
) -> crate::sockops::RecvPlan {
    if offset != 0 {
        RecvPlan::Fail(Errno::ESPIPE)
    } else {
        crate::sockops::spec_recv_plan(files, h, n)
    }
}

/// The plan of `read` on a pipe end: a nonzero offset is `ESPIPE`;
/// otherwise the pipe's read plan governs.
pub open spec fn spec_read_pipe_plan(
    files: Seq<Option<crate::file::FileSlot>>,
    h: int,
    n: int,
    offset: int,
) -> crate::sockops::RecvPlan {
    if offset != 0 {
        RecvPlan::Fail(Errno::ESPIPE)
    } else {
        crate::sockops::spec_pipe_read_plan(files, h, n)
    }
}

/// The plan of `write` on a unix socket: a nonzero offset is `ESPIPE`;
/// otherwise the send plan of `sendto` with no destination governs.
pub open spec fn spec_write_socket_plan(
    files: Seq<Option<crate::file::FileSlot>>,
    ns: Seq<crate::context::NsEntry>,
    h: int,
    len: int,
    offset: int,
) -> crate::sockops::SendPlan {
    if offset != 0 {
        SendPlan::Fail(Errno::ESPIPE)
    } else {
        crate::sockops::spec_send_plan(files, ns, h, len, None)
    }
}

/// The plan of `write` on a pipe end: a nonzero offset is `ESPIPE`;
/// otherwise the pipe's write plan governs.
pub open spec fn spec_write_pipe_plan(
    files: Seq<Option<crate::file::FileSlot>>,
    h: int,
    len: int,
    offset: int,
) -> crate::sockops::SendPlan {
    if offset != 0 {
        SendPlan::Fail(Errno::ESPIPE)
    } else {
        crate::sockops::spec_pipe_write_plan(files, h, len)
    }
}

/// Socket read/write redirection: `read(sockfd, buf, n)` is governed by
/// exactly the plan of `recvfrom(sockfd, buf, n, 0, NULL, NULL)` — a zero
/// flag word is supported and carries no don't-wait bit, so the blocking
/// decision coincides as well — while any offset-taking variant with a
/// nonzero offset fails with `ESPIPE` instead.
pub proof fn lemma_read_is_recvfrom(
    files: Seq<Option<crate::file::FileSlot>>,
    h: int,
    n: int,
    offset: int,
)
    ensures
        abi::spec_msg_flags_supported(0),
        !abi::spec_msg_dontwait(0),
        offset == 0 ==> spec_read_socket_plan(files, h, n, offset)
            == crate::sockops::spec_recv_plan(files, h, n),
        offset != 0 ==> spec_read_socket_plan(files, h, n, offset) == RecvPlan::Fail(
            Errno::ESPIPE,
        ),
{
    assert((0i32 & 0x4001E1EBi32) & !0x4040i32 == 0) by (bit_vector);
    assert((0i32 & 0x4001E1EBi32) & 0x40i32 == 0) by (bit_vector);
}

} // verus!
