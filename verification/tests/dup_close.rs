//! Descriptor lifecycle: close, dup, dup2 and dup3 semantics.

use fdemu::abi;
use fdemu::context::SyscallContext;
use fdemu::handler::SyscallHandler;
use fdemu::types::{PluginPtr, SyscallError};
use fdemu::Errno;

fn one_socket(ctx: &mut SyscallContext) -> i32 {
    let r = SyscallHandler::socket(ctx, abi::AF_UNIX, abi::SOCK_STREAM, 0);
    r.unwrap() as i32
}

#[test]
fn close_releases_the_descriptor() {
    let mut ctx = SyscallContext::new(1024);
    let fd = one_socket(&mut ctx);
    assert_eq!(SyscallHandler::close(&mut ctx, fd), Ok(0));
    // a second close is EBADF: the slot is gone
    assert_eq!(
        SyscallHandler::close(&mut ctx, fd),
        Err(SyscallError::Failed(Errno::EBADF))
    );
}

#[test]
fn close_of_bad_descriptors_is_ebadf() {
    let mut ctx = SyscallContext::new(1024);
    assert_eq!(
        SyscallHandler::close(&mut ctx, -1),
        Err(SyscallError::Failed(Errno::EBADF))
    );
    assert_eq!(
        SyscallHandler::close(&mut ctx, 99),
        Err(SyscallError::Failed(Errno::EBADF))
    );
}

#[test]
fn dup_duplicates_at_lowest_free_number() {
    let mut ctx = SyscallContext::new(1024);
    let fd = one_socket(&mut ctx);
    let dup_fd = SyscallHandler::dup(&mut ctx, fd).unwrap() as i32;
    assert_ne!(fd, dup_fd);
    // both reach the same object: closing one keeps the other usable
    assert_eq!(SyscallHandler::close(&mut ctx, fd), Ok(0));
    assert_eq!(SyscallHandler::close(&mut ctx, dup_fd), Ok(0));
}

#[test]
fn dup2_identity_does_nothing() {
    let mut ctx = SyscallContext::new(1024);
    let fd = one_socket(&mut ctx);
    let events_before = ctx.events.len();
    // duplicating a valid descriptor onto itself returns it unchanged,
    // with no duplication and no close side effect
    assert_eq!(SyscallHandler::dup2(&mut ctx, fd, fd), Ok(fd as i64));
    assert_eq!(ctx.events.len(), events_before);
    assert_eq!(SyscallHandler::close(&mut ctx, fd), Ok(0));
}

#[test]
fn dup2_replaces_and_closes_the_target() {
    let mut ctx = SyscallContext::new(1024);
    let fd_a = one_socket(&mut ctx);
    let fd_b = one_socket(&mut ctx);
    assert_eq!(SyscallHandler::dup2(&mut ctx, fd_a, fd_b), Ok(fd_b as i64));
    // fd_b now refers to fd_a's object; both close cleanly
    assert_eq!(SyscallHandler::close(&mut ctx, fd_a), Ok(0));
    assert_eq!(SyscallHandler::close(&mut ctx, fd_b), Ok(0));
    // nothing leaked in the file table
    for slot in ctx.files.slots.iter() {
        assert!(slot.is_none());
    }
}

#[test]
fn dup2_of_bad_source_is_ebadf() {
    let mut ctx = SyscallContext::new(1024);
    assert_eq!(
        SyscallHandler::dup2(&mut ctx, 5, 6),
        Err(SyscallError::Failed(Errno::EBADF))
    );
}

#[test]
fn dup3_identity_is_einval() {
    let mut ctx = SyscallContext::new(1024);
    let fd = one_socket(&mut ctx);
    assert_eq!(
        SyscallHandler::dup3(&mut ctx, fd, fd, 0),
        Err(SyscallError::Failed(Errno::EINVAL))
    );
}

#[test]
fn dup3_accepts_only_cloexec() {
    let mut ctx = SyscallContext::new(1024);
    let fd = one_socket(&mut ctx);
    assert_eq!(
        SyscallHandler::dup3(&mut ctx, fd, fd + 1, abi::O_NONBLOCK),
        Err(SyscallError::Failed(Errno::EINVAL))
    );
    let target = fd + 1;
    assert_eq!(
        SyscallHandler::dup3(&mut ctx, fd, target, abi::O_CLOEXEC),
        Ok(target as i64)
    );
    let desc = ctx.descriptors.slots[target as usize].as_ref().unwrap();
    assert!(desc.flags.cloexec);
}

#[test]
fn socket_applies_type_flags() {
    let mut ctx = SyscallContext::new(1024);
    let fd = SyscallHandler::socket(
        &mut ctx,
        abi::AF_UNIX,
        abi::SOCK_STREAM | abi::SOCK_NONBLOCK | abi::SOCK_CLOEXEC,
        0,
    )
    .unwrap() as i32;
    let desc = ctx.descriptors.slots[fd as usize].as_ref().unwrap();
    assert!(desc.flags.cloexec);
}

#[test]
fn socket_rejects_protocols_and_defers_unknown_domains() {
    let mut ctx = SyscallContext::new(1024);
    assert_eq!(
        SyscallHandler::socket(&mut ctx, abi::AF_UNIX, abi::SOCK_STREAM, 6),
        Err(SyscallError::Failed(Errno::EPROTONOSUPPORT))
    );
    assert_eq!(
        SyscallHandler::socket(&mut ctx, abi::AF_UNIX, 99, 0),
        Err(SyscallError::Failed(Errno::EPROTONOSUPPORT))
    );
    // a datagram inet socket is not handled natively
    assert!(matches!(
        SyscallHandler::socket(&mut ctx, abi::AF_INET, abi::SOCK_DGRAM, 0),
        Err(SyscallError::Legacy(_))
    ));
    // an inet stream socket is created natively as a legacy TCP object
    let fd = SyscallHandler::socket(&mut ctx, abi::AF_INET, abi::SOCK_STREAM, 0).unwrap() as i32;
    // but every data operation on it defers wholesale
    assert!(matches!(
        SyscallHandler::read(&mut ctx, fd, PluginPtr::new(100), 4),
        Err(SyscallError::Legacy(_))
    ));
}
