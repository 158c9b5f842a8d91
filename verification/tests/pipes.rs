//! Pipe creation and byte flow between the two ends.

use fdemu::abi;
use fdemu::context::SyscallContext;
use fdemu::handler::SyscallHandler;
use fdemu::types::{PluginPtr, SyscallError};
use fdemu::Errno;

fn make_pipe(ctx: &mut SyscallContext, flags: i32) -> (i32, i32) {
    let fd_ptr = PluginPtr::new(100);
    assert_eq!(SyscallHandler::pipe2(ctx, fd_ptr, flags), Ok(0));
    let bytes = ctx.mem.read(fd_ptr, 8).unwrap();
    (
        i32::from_le_bytes([bytes[0], bytes[1], bytes[2], bytes[3]]),
        i32::from_le_bytes([bytes[4], bytes[5], bytes[6], bytes[7]]),
    )
}

#[test]
fn pipe_round_trips_bytes() {
    let mut ctx = SyscallContext::new(4096);
    let (rfd, wfd) = make_pipe(&mut ctx, 0);
    ctx.mem.write(PluginPtr::new(200), b"hello").unwrap();
    assert_eq!(
        SyscallHandler::write(&mut ctx, wfd, PluginPtr::new(200), 5),
        Ok(5)
    );
    assert_eq!(
        SyscallHandler::read(&mut ctx, rfd, PluginPtr::new(300), 5),
        Ok(5)
    );
    assert_eq!(ctx.mem.read(PluginPtr::new(300), 5).unwrap(), b"hello".to_vec());
}

#[test]
fn pipe_null_pointer_is_efault() {
    let mut ctx = SyscallContext::new(4096);
    assert_eq!(
        SyscallHandler::pipe(&mut ctx, PluginPtr::null()),
        Err(SyscallError::Failed(Errno::EFAULT))
    );
}

#[test]
fn pipe_rolls_back_on_bad_pointer() {
    let mut ctx = SyscallContext::new(256);
    assert_eq!(
        SyscallHandler::pipe(&mut ctx, PluginPtr::new(1000)),
        Err(SyscallError::Failed(Errno::EFAULT))
    );
    for fd in 0..4 {
        assert_eq!(
            SyscallHandler::close(&mut ctx, fd),
            Err(SyscallError::Failed(Errno::EBADF))
        );
    }
    for slot in ctx.files.slots.iter() {
        assert!(slot.is_none());
    }
}

#[test]
fn reading_the_write_end_is_ebadf() {
    let mut ctx = SyscallContext::new(4096);
    let (rfd, wfd) = make_pipe(&mut ctx, 0);
    assert_eq!(
        SyscallHandler::read(&mut ctx, wfd, PluginPtr::new(300), 4),
        Err(SyscallError::Failed(Errno::EBADF))
    );
    assert_eq!(
        SyscallHandler::write(&mut ctx, rfd, PluginPtr::new(300), 4),
        Err(SyscallError::Failed(Errno::EBADF))
    );
}

#[test]
fn pipe_offsets_are_espipe() {
    let mut ctx = SyscallContext::new(4096);
    let (rfd, wfd) = make_pipe(&mut ctx, 0);
    assert_eq!(
        SyscallHandler::pread64(&mut ctx, rfd, PluginPtr::new(300), 4, 2),
        Err(SyscallError::Failed(Errno::ESPIPE))
    );
    assert_eq!(
        SyscallHandler::pwrite64(&mut ctx, wfd, PluginPtr::new(300), 4, 2),
        Err(SyscallError::Failed(Errno::ESPIPE))
    );
}

#[test]
fn nonblocking_empty_pipe_read_is_ewouldblock() {
    let mut ctx = SyscallContext::new(4096);
    let (rfd, _wfd) = make_pipe(&mut ctx, abi::O_NONBLOCK);
    assert_eq!(
        SyscallHandler::read(&mut ctx, rfd, PluginPtr::new(300), 4),
        Err(SyscallError::Failed(Errno::EWOULDBLOCK))
    );
}

#[test]
fn closed_write_end_reads_as_eof() {
    let mut ctx = SyscallContext::new(4096);
    let (rfd, wfd) = make_pipe(&mut ctx, 0);
    ctx.mem.write(PluginPtr::new(200), &[1u8, 2]).unwrap();
    assert_eq!(
        SyscallHandler::write(&mut ctx, wfd, PluginPtr::new(200), 2),
        Ok(2)
    );
    assert_eq!(SyscallHandler::close(&mut ctx, wfd), Ok(0));
    // pending bytes still arrive, then end-of-stream
    assert_eq!(
        SyscallHandler::read(&mut ctx, rfd, PluginPtr::new(300), 8),
        Ok(2)
    );
    assert_eq!(
        SyscallHandler::read(&mut ctx, rfd, PluginPtr::new(300), 8),
        Ok(0)
    );
}

#[test]
fn closed_read_end_writes_are_epipe() {
    let mut ctx = SyscallContext::new(4096);
    let (rfd, wfd) = make_pipe(&mut ctx, 0);
    assert_eq!(SyscallHandler::close(&mut ctx, rfd), Ok(0));
    ctx.mem.write(PluginPtr::new(200), &[1u8]).unwrap();
    assert_eq!(
        SyscallHandler::write(&mut ctx, wfd, PluginPtr::new(200), 1),
        Err(SyscallError::Failed(Errno::EPIPE))
    );
}

#[test]
fn pipe2_applies_flags() {
    let mut ctx = SyscallContext::new(4096);
    let (rfd, _wfd) = make_pipe(&mut ctx, abi::O_CLOEXEC | abi::O_DIRECT);
    let desc = ctx.descriptors.slots[rfd as usize].as_ref().unwrap();
    assert!(desc.flags.cloexec);
}
