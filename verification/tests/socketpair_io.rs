//! End-to-end socket-pair scenarios: creation, data transfer through the
//! shared buffers, non-blocking behavior, and atomic rollback when the
//! descriptor pair cannot be written to guest memory.

use fdemu::abi;
use fdemu::context::SyscallContext;
use fdemu::handler::SyscallHandler;
use fdemu::types::{PluginPtr, SyscallError};
use fdemu::Errno;

fn read_fd_pair(ctx: &SyscallContext, ptr: usize) -> (i32, i32) {
    let bytes = ctx.mem.read(PluginPtr::new(ptr), 8).unwrap();
    let a = i32::from_le_bytes([bytes[0], bytes[1], bytes[2], bytes[3]]);
    let b = i32::from_le_bytes([bytes[4], bytes[5], bytes[6], bytes[7]]);
    (a, b)
}

fn make_pair(ctx: &mut SyscallContext, stype: i32) -> (i32, i32) {
    let fd_ptr = PluginPtr::new(100);
    let r = SyscallHandler::socketpair(ctx, abi::AF_UNIX, stype, 0, fd_ptr);
    assert_eq!(r, Ok(0));
    read_fd_pair(ctx, 100)
}

#[test]
fn socketpair_write_then_read_round_trips() {
    let mut ctx = SyscallContext::new(4096);
    let (fd1, fd2) = make_pair(&mut ctx, abi::SOCK_STREAM);
    assert_ne!(fd1, fd2);

    // place five bytes in guest memory and send them through one end
    let payload = [10u8, 20, 30, 40, 50];
    ctx.mem.write(PluginPtr::new(200), &payload).unwrap();
    let sent = SyscallHandler::write(&mut ctx, fd1, PluginPtr::new(200), 5);
    assert_eq!(sent, Ok(5));

    // read them back from the other end
    let got = SyscallHandler::read(&mut ctx, fd2, PluginPtr::new(300), 5);
    assert_eq!(got, Ok(5));
    let bytes = ctx.mem.read(PluginPtr::new(300), 5).unwrap();
    assert_eq!(bytes, payload.to_vec());
}

#[test]
fn reads_drain_the_buffer_in_order() {
    // each read consumes what it delivered: the bytes arrive in order
    // across partial reads, and a drained endpoint reports would-block
    let mut ctx = SyscallContext::new(4096);
    let (a, b) = make_pair(&mut ctx, abi::SOCK_STREAM | abi::SOCK_NONBLOCK);
    ctx.mem.write(PluginPtr::new(200), b"hello").unwrap();
    assert_eq!(
        SyscallHandler::write(&mut ctx, a, PluginPtr::new(200), 5),
        Ok(5)
    );
    assert_eq!(
        SyscallHandler::read(&mut ctx, b, PluginPtr::new(300), 3),
        Ok(3)
    );
    assert_eq!(ctx.mem.read(PluginPtr::new(300), 3).unwrap(), b"hel".to_vec());
    assert_eq!(
        SyscallHandler::read(&mut ctx, b, PluginPtr::new(400), 3),
        Ok(2)
    );
    assert_eq!(ctx.mem.read(PluginPtr::new(400), 2).unwrap(), b"lo".to_vec());
    assert_eq!(
        SyscallHandler::read(&mut ctx, b, PluginPtr::new(500), 3),
        Err(SyscallError::Failed(Errno::EWOULDBLOCK))
    );
}

#[test]
fn recvfrom_reports_the_source_address() {
    // a receive with an address request writes the peer's name and its
    // full encoded length back
    let mut ctx = SyscallContext::new(4096);
    let (a, b) = make_pair(&mut ctx, abi::SOCK_STREAM);
    ctx.mem.write(PluginPtr::new(200), b"hi").unwrap();
    assert_eq!(
        SyscallHandler::write(&mut ctx, a, PluginPtr::new(200), 2),
        Ok(2)
    );
    // a 64-byte address buffer at 508, its length word at 500
    ctx.mem
        .write(PluginPtr::new(500), &64u32.to_le_bytes())
        .unwrap();
    assert_eq!(
        SyscallHandler::recvfrom(
            &mut ctx,
            b,
            PluginPtr::new(300),
            2,
            0,
            PluginPtr::new(508),
            PluginPtr::new(500),
        ),
        Ok(2)
    );
    assert_eq!(ctx.mem.read(PluginPtr::new(300), 2).unwrap(), b"hi".to_vec());
    // socketpair endpoints are unnamed: a zero length is written back
    let reported = ctx.mem.read(PluginPtr::new(500), 4).unwrap();
    assert_eq!(u32::from_le_bytes([reported[0], reported[1], reported[2], reported[3]]), 0);
}

#[test]
fn empty_nonblocking_read_is_ewouldblock() {
    let mut ctx = SyscallContext::new(4096);
    let (fd1, _fd2) = make_pair(&mut ctx, abi::SOCK_STREAM | abi::SOCK_NONBLOCK);
    let r = SyscallHandler::read(&mut ctx, fd1, PluginPtr::new(300), 8);
    assert_eq!(r, Err(SyscallError::Failed(Errno::EWOULDBLOCK)));
}

#[test]
fn empty_blocking_read_suspends() {
    let mut ctx = SyscallContext::new(4096);
    let (fd1, _fd2) = make_pair(&mut ctx, abi::SOCK_STREAM);
    let r = SyscallHandler::read(&mut ctx, fd1, PluginPtr::new(300), 8);
    match r {
        Err(SyscallError::Blocked(b)) => {
            assert!(b.trigger.state.readable);
            assert!(b.restartable);
        }
        other => panic!("expected a suspended call, got {:?}", other),
    }
    assert!(ctx.condition.is_some());
}

#[test]
fn blocked_read_survives_close_and_resumes() {
    let mut ctx = SyscallContext::new(4096);
    let (fd1, fd2) = make_pair(&mut ctx, abi::SOCK_STREAM);

    // block reading the empty socket
    let r = SyscallHandler::read(&mut ctx, fd1, PluginPtr::new(300), 4);
    assert!(matches!(r, Err(SyscallError::Blocked(_))));

    // close the originating descriptor: the active file must survive
    let closed = SyscallHandler::close(&mut ctx, fd1);
    assert_eq!(closed, Ok(0));
    let held = match &ctx.condition {
        Some(c) => c.active_file.as_ref().unwrap().handle,
        None => panic!("the blocked condition must be retained"),
    };
    assert!(ctx.files.slots[held].is_some());

    // another thread sends data through the peer; the scheduler swaps the
    // blocked thread's condition out while that thread runs
    let parked = ctx.condition.take();
    ctx.mem.write(PluginPtr::new(200), &[7u8, 8, 9, 11]).unwrap();
    let sent = SyscallHandler::write(&mut ctx, fd2, PluginPtr::new(200), 4);
    assert_eq!(sent, Ok(4));
    // the write made the watched file readable: the scheduler re-invokes
    // the blocked call; the stale descriptor number no longer matters
    ctx.condition = parked;
    let resumed = SyscallHandler::read(&mut ctx, fd1, PluginPtr::new(300), 4);
    assert_eq!(resumed, Ok(4));
    let bytes = ctx.mem.read(PluginPtr::new(300), 4).unwrap();
    assert_eq!(bytes, vec![7, 8, 9, 11]);
}

#[test]
fn socketpair_rolls_back_on_bad_pointer() {
    let mut ctx = SyscallContext::new(4096);
    // an address far outside guest memory cannot receive the pair
    let r = SyscallHandler::socketpair(
        &mut ctx,
        abi::AF_UNIX,
        abi::SOCK_STREAM,
        0,
        PluginPtr::new(100_000),
    );
    assert_eq!(r, Err(SyscallError::Failed(Errno::EFAULT)));
    // both descriptors were rolled back: the table is empty again
    for fd in 0..4 {
        let probe = SyscallHandler::close(&mut ctx, fd);
        assert_eq!(probe, Err(SyscallError::Failed(Errno::EBADF)));
    }
    // and the file table holds nothing
    for slot in ctx.files.slots.iter() {
        assert!(slot.is_none());
    }
}

#[test]
fn socketpair_rejects_unsupported_inputs() {
    let mut ctx = SyscallContext::new(4096);
    let p = PluginPtr::new(100);
    assert_eq!(
        SyscallHandler::socketpair(&mut ctx, abi::AF_INET, abi::SOCK_STREAM, 0, p),
        Err(SyscallError::Failed(Errno::EOPNOTSUPP))
    );
    assert_eq!(
        SyscallHandler::socketpair(&mut ctx, abi::AF_UNIX, 77, 0, p),
        Err(SyscallError::Failed(Errno::EPROTONOSUPPORT))
    );
    assert_eq!(
        SyscallHandler::socketpair(&mut ctx, abi::AF_UNIX, abi::SOCK_STREAM, 5, p),
        Err(SyscallError::Failed(Errno::EPROTONOSUPPORT))
    );
}

#[test]
fn sendto_rejects_unsupported_defined_flags() {
    let mut ctx = SyscallContext::new(4096);
    let (fd1, _fd2) = make_pair(&mut ctx, abi::SOCK_STREAM);
    ctx.mem.write(PluginPtr::new(200), &[1u8, 2, 3]).unwrap();
    // MSG_PEEK is a defined but unsupported flag
    let r = SyscallHandler::sendto(
        &mut ctx,
        fd1,
        PluginPtr::new(200),
        3,
        abi::MSG_PEEK,
        PluginPtr::null(),
        0,
    );
    assert_eq!(r, Err(SyscallError::Failed(Errno::EOPNOTSUPP)));
}

#[test]
fn sendto_truncates_undefined_flags_and_honors_dontwait() {
    let mut ctx = SyscallContext::new(4096);
    let (fd1, _fd2) = make_pair(&mut ctx, abi::SOCK_STREAM);
    ctx.mem.write(PluginPtr::new(200), &[1u8, 2, 3]).unwrap();
    // a flag word with a bit no kernel defines, plus MSG_DONTWAIT
    let junk: i32 = 0x0100_0000;
    assert_eq!(junk & abi::MSG_DEFINED_MASK, 0);
    let r = SyscallHandler::sendto(
        &mut ctx,
        fd1,
        PluginPtr::new(200),
        3,
        junk | abi::MSG_DONTWAIT,
        PluginPtr::null(),
        0,
    );
    // the undefined bit is dropped, the send goes through
    assert_eq!(r, Ok(3));
    // and on a socket that would block, MSG_DONTWAIT is still honored:
    // an empty receive with the same flag word errors instead of blocking
    let rr = SyscallHandler::recvfrom(
        &mut ctx,
        fd1,
        PluginPtr::new(300),
        8,
        junk | abi::MSG_DONTWAIT,
        PluginPtr::null(),
        PluginPtr::null(),
    );
    assert_eq!(rr, Err(SyscallError::Failed(Errno::EWOULDBLOCK)));
}

#[test]
fn msg_nosignal_is_accepted_as_a_no_op() {
    let mut ctx = SyscallContext::new(4096);
    let (fd1, fd2) = make_pair(&mut ctx, abi::SOCK_STREAM);
    ctx.mem.write(PluginPtr::new(200), &[5u8, 6]).unwrap();
    let r = SyscallHandler::sendto(
        &mut ctx,
        fd1,
        PluginPtr::new(200),
        2,
        abi::MSG_NOSIGNAL,
        PluginPtr::null(),
        0,
    );
    assert_eq!(r, Ok(2));
    let got = SyscallHandler::read(&mut ctx, fd2, PluginPtr::new(300), 2);
    assert_eq!(got, Ok(2));
}

#[test]
fn read_write_redirect_matches_recvfrom_sendto() {
    let mut ctx = SyscallContext::new(4096);
    let (fd1, fd2) = make_pair(&mut ctx, abi::SOCK_STREAM);
    ctx.mem.write(PluginPtr::new(200), &[9u8, 9, 9]).unwrap();
    // write == sendto with no flags and no destination
    assert_eq!(
        SyscallHandler::write(&mut ctx, fd1, PluginPtr::new(200), 3),
        Ok(3)
    );
    // read == recvfrom with no flags and null address
    assert_eq!(
        SyscallHandler::recvfrom(
            &mut ctx,
            fd2,
            PluginPtr::new(300),
            3,
            0,
            PluginPtr::null(),
            PluginPtr::null(),
        ),
        Ok(3)
    );
    // the offset-taking variants refuse sockets
    assert_eq!(
        SyscallHandler::pread64(&mut ctx, fd2, PluginPtr::new(300), 3, 1),
        Err(SyscallError::Failed(Errno::ESPIPE))
    );
    assert_eq!(
        SyscallHandler::pwrite64(&mut ctx, fd1, PluginPtr::new(200), 3, 7),
        Err(SyscallError::Failed(Errno::ESPIPE))
    );
}

#[test]
fn events_report_peer_readiness_in_order() {
    let mut ctx = SyscallContext::new(4096);
    let (fd1, _fd2) = make_pair(&mut ctx, abi::SOCK_STREAM);
    let events_before = ctx.events.len();
    ctx.mem.write(PluginPtr::new(200), &[1u8]).unwrap();
    assert_eq!(
        SyscallHandler::write(&mut ctx, fd1, PluginPtr::new(200), 1),
        Ok(1)
    );
    // the mutation produced a deferred notification, published after the
    // call returned
    assert!(ctx.events.len() > events_before);
    let ev = ctx.events[ctx.events.len() - 1];
    assert!(ev.state.readable);
}
