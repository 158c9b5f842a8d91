//! The system-call dispatch router: per-syscall entry points that resolve
//! descriptors, decide native-versus-legacy routing, invoke the file and
//! socket layer, and translate outcomes — including converting would-block
//! conditions into suspended-call tokens for the external scheduler.

use vstd::prelude::*;
use crate::condition::SysCallCondition;
use crate::context::SyscallContext;
use crate::descriptor::CompatFile;
use crate::errno::Errno;
use crate::file::{File, OpenFile, Socket, FILE_TABLE_SIZE};
use crate::types::{FileState, SyscallError, Trigger};

pub mod socket;
pub mod unistd;

verus! {

/// The per-process system-call handler; every emulated call is one of its
/// associated functions.
pub struct SyscallHandler {
}

/// How the target file of a call was obtained.
pub enum Resolution {
    /// The thread was blocked on this call before: the active file stashed
    /// in its condition is reused, bypassing the descriptor table.
    Resumed(OpenFile),
    /// Freshly resolved from the descriptor table.
    Fresh(OpenFile),
    /// The descriptor belongs to the legacy collaborator.
    Legacy,
    /// No usable descriptor.
    Error(Errno),
}

impl SyscallHandler {
    /// Resolves the file a call operates on: the active file of the
    /// previous blocked invocation if there is one — mandatory, since the
    /// original descriptor may have been closed or reused meanwhile — or
    /// the descriptor table entry, duplicating its reference. Taking
    /// either path leaves the thread's condition consumed.
    pub fn resolve_file(ctx: &mut SyscallContext, fd: i32) -> (r: Resolution)
        requires
            old(ctx).inv(),
        ensures
            final(ctx).inv(),
            final(ctx).condition is None,
            final(ctx).ns == old(ctx).ns,
            final(ctx).events == old(ctx).events,
            final(ctx).mem == old(ctx).mem,
            final(ctx).descriptors == old(ctx).descriptors,
            match r {
                Resolution::Resumed(of) => {
                    &&& match old(ctx).condition {
                        Some(c) => c.active_file == Some(of),
                        None => false,
                    }
                    &&& of.handle < FILE_TABLE_SIZE
                    &&& final(ctx).files == old(ctx).files
                    &&& final(ctx).files.slots@[of.handle as int] is Some
                    &&& final(ctx).has_surplus(of.handle as int, 1)
                },
                Resolution::Fresh(of) => {
                    &&& match old(ctx).condition {
                        Some(c) => c.active_file is None,
                        None => true,
                    }
                    &&& 0 <= fd < crate::descriptor::DESC_TABLE_SIZE
                    &&& match old(ctx).descriptors.slots@[fd as int] {
                        Some(d) => d.file == CompatFile::New(OpenFile { handle: of.handle }),
                        None => false,
                    }
                    &&& of.handle < FILE_TABLE_SIZE
                    &&& final(ctx).files.slots@[of.handle as int] is Some
                    &&& final(ctx).has_surplus(of.handle as int, 1)
                    &&& forall|k: int|
                        0 <= k < FILE_TABLE_SIZE && k != of.handle ==> final(ctx).files.slots@[k] == old(ctx).files.slots@[k]
                    &&& spec_same_files_except_rc(
                        old(ctx).files.slots@,
                        final(ctx).files.slots@,
                        of.handle as int,
                    )
                },
                Resolution::Legacy => {
                    &&& match old(ctx).condition {
                        Some(c) => c.active_file is None,
                        None => true,
                    }
                    &&& 0 <= fd < crate::descriptor::DESC_TABLE_SIZE
                    &&& match old(ctx).descriptors.slots@[fd as int] {
                        Some(d) => d.file is Legacy,
                        None => false,
                    }
                    &&& final(ctx).files == old(ctx).files
                },
                Resolution::Error(e) => {
                    &&& match old(ctx).condition {
                        Some(c) => c.active_file is None,
                        None => true,
                    }
                    &&& final(ctx).files == old(ctx).files
                    &&& (e == Errno::EBADF <==> (fd < 0 || fd
                        >= crate::descriptor::DESC_TABLE_SIZE || old(ctx).descriptors.slots@[fd as int] is None))
                    &&& (e == Errno::EBADF || e == Errno::ENFILE)
                    // the only other failure: the slot's reference count
                    // is at its ceiling and cannot be duplicated
                    &&& (e == Errno::ENFILE ==> (0 <= fd < crate::descriptor::DESC_TABLE_SIZE
                        && match old(ctx).descriptors.slots@[fd as int] {
                        Some(d) => match d.file {
                            CompatFile::New(of) => crate::sockops::spec_rc_at(
                                old(ctx).files.slots@,
                                of.handle as int,
                            ) == usize::MAX,
                            CompatFile::Legacy(_) => false,
                        },
                        None => false,
                    }))
                },
            },
    {
        match ctx.take_condition_active_file() {
            Some(of) => Resolution::Resumed(of),
            None => {
                let h: usize = match ctx.get_descriptor(fd) {
                    Ok(d) => match &d.file {
                        CompatFile::New(of) => of.handle,
                        CompatFile::Legacy(_) => {
                            return Resolution::Legacy;
                        },
                    },
                    Err(e) => {
                        return Resolution::Error(e);
                    },
                };
                proof {
                    crate::context::lemma_desc_handle_live(*ctx, fd as int, h as int);
                }
                match ctx.clone_open_file(h) {
                    Ok(of) => Resolution::Fresh(of),
                    Err(e) => Resolution::Error(e),
                }
            },
        }
    }

    /// Reads the status flags of the file at `h`.
    pub fn status_of(ctx: &SyscallContext, h: usize) -> (r: crate::types::FileStatus)
        requires
            ctx.inv(),
            h < FILE_TABLE_SIZE,
            ctx.files.slots@[h as int] is Some,
        ensures
            r == (ctx.files.slots@[h as int]->0).file.spec_status(),
    {
        match &ctx.files.slots[h] {
            Some(s) => s.file.get_status(),
            None => crate::types::FileStatus::empty(),
        }
    }

    /// Whether the file at `h` is an internet socket, which the native
    /// layer defers wholesale to the legacy TCP implementation.
    pub fn is_legacy_tcp(ctx: &SyscallContext, h: usize) -> (r: bool)
        requires
            ctx.inv(),
            h < FILE_TABLE_SIZE,
            ctx.files.slots@[h as int] is Some,
        ensures
            r == ((ctx.files.slots@[h as int]->0).file matches File::Socket(Socket::Inet(_))),
    {
        match &ctx.files.slots[h] {
            Some(s) => matches!(&s.file, File::Socket(Socket::Inet(_))),
            None => false,
        }
    }

    /// Suspends the current call: builds the condition watching `state`
    /// on the file, stores it with the thread — moving the caller's file
    /// reference in as the active file, so the object outlives any
    /// descriptor closure — and returns the scheduler-facing token.
    pub fn block_on(
        ctx: &mut SyscallContext,
        of: OpenFile,
        state: FileState,
        restartable: bool,
    ) -> (r: SyscallError)
        requires
            old(ctx).inv(),
            old(ctx).condition is None,
            of.handle < FILE_TABLE_SIZE,
            old(ctx).has_surplus(of.handle as int, 1),
        ensures
            final(ctx).inv(),
            final(ctx).files == old(ctx).files,
            final(ctx).descriptors == old(ctx).descriptors,
            final(ctx).ns == old(ctx).ns,
            final(ctx).events == old(ctx).events,
            final(ctx).mem == old(ctx).mem,
            r == SyscallError::Blocked(
                crate::types::Blocked {
                    trigger: Trigger { file: of.handle, state },
                    restartable,
                },
            ),
            final(ctx).condition == Some(
                SysCallCondition {
                    trigger: Trigger { file: of.handle, state },
                    active_file: Some(of),
                },
            ),
    {
        let trigger = Trigger { file: of.handle, state };
        let cond = SysCallCondition { trigger, active_file: Some(of) };
        ctx.set_condition(cond);
        SyscallError::Blocked(crate::types::Blocked { trigger, restartable })
    }
}

/// The two tables agree except possibly for the reference count at `h`.
pub open spec fn spec_same_files_except_rc(
    pre: Seq<Option<crate::file::FileSlot>>,
    post: Seq<Option<crate::file::FileSlot>>,
    h: int,
) -> bool {
    &&& post.len() == pre.len()
    &&& forall|k: int| 0 <= k < pre.len() && k != h ==> post[k] == pre[k]
    &&& match (pre[h], post[h]) {
        (Some(a), Some(b)) => b.file == a.file,
        _ => false,
    }
}

/// Writes a descriptor pair into guest memory, preserving the invariant.
pub fn guest_write_pair(
    ctx: &mut SyscallContext,
    ptr: crate::types::PluginPtr,
    fd1: i32,
    fd2: i32,
) -> (r: Result<(), Errno>)
    requires
        old(ctx).inv(),
    ensures
        final(ctx).inv(),
        final(ctx).files == old(ctx).files,
        final(ctx).descriptors == old(ctx).descriptors,
        final(ctx).condition == old(ctx).condition,
        final(ctx).ns == old(ctx).ns,
        final(ctx).events == old(ctx).events,
        forall|k: int| #[trigger] final(ctx).total_refs(k) == old(ctx).total_refs(k),
        match r {
            Ok(()) => old(ctx).mem.spec_valid(ptr.val as int, 8) && final(ctx).mem.bytes@
                == old(ctx).mem.bytes@.subrange(0, ptr.val as int)
                + crate::mem::spec_fd_pair_bytes(fd1, fd2) + old(ctx).mem.bytes@.subrange(
                ptr.val as int + 8,
                old(ctx).mem.bytes@.len() as int,
            ),
            Err(e) => e == Errno::EFAULT && !old(ctx).mem.spec_valid(ptr.val as int, 8) && final(ctx).mem == old(ctx).mem,
        },
{
    let ghost pre = *ctx;
    let r = crate::mem::write_fd_pair(&mut ctx.mem, ptr, fd1, fd2);
    proof {
        crate::context::lemma_inv_same_views(pre, *ctx);
    }
    r
}

} // verus!
