//! Inputs that produce each remaining error variant.

use fdemu::abi;
use fdemu::context::SyscallContext;
use fdemu::handler::SyscallHandler;
use fdemu::mem::encode_sockaddr;
use fdemu::types::{PluginPtr, Sockaddr, SyscallError};
use fdemu::Errno;

#[test]
fn exhausting_the_descriptor_table_is_enfile() {
    let mut ctx = SyscallContext::new(1024);
    let fd = SyscallHandler::socket(&mut ctx, abi::AF_UNIX, abi::SOCK_STREAM, 0).unwrap() as i32;
    // duplicate until every slot is taken
    let mut last = Ok(0);
    for _ in 0..1100 {
        last = SyscallHandler::dup(&mut ctx, fd);
        if last.is_err() {
            break;
        }
    }
    assert_eq!(last, Err(SyscallError::Failed(Errno::ENFILE)));
}

#[test]
fn sendto_on_a_pipe_is_enotsock() {
    let mut ctx = SyscallContext::new(4096);
    assert_eq!(SyscallHandler::pipe(&mut ctx, PluginPtr::new(100)), Ok(0));
    let bytes = ctx.mem.read(PluginPtr::new(100), 8).unwrap();
    let wfd = i32::from_le_bytes([bytes[4], bytes[5], bytes[6], bytes[7]]);
    ctx.mem.write(PluginPtr::new(200), &[1u8]).unwrap();
    assert_eq!(
        SyscallHandler::sendto(
            &mut ctx,
            wfd,
            PluginPtr::new(200),
            1,
            0,
            PluginPtr::null(),
            0,
        ),
        Err(SyscallError::Failed(Errno::ENOTSOCK))
    );
}

#[test]
fn sendto_with_an_inet_address_is_eafnosupport() {
    let mut ctx = SyscallContext::new(4096);
    let fd = SyscallHandler::socket(&mut ctx, abi::AF_UNIX, abi::SOCK_DGRAM, 0).unwrap() as i32;
    let enc = encode_sockaddr(&Sockaddr::Inet { ip: 0x0100007f, port: 80 });
    ctx.mem.write(PluginPtr::new(200), &enc).unwrap();
    ctx.mem.write(PluginPtr::new(300), &[1u8]).unwrap();
    assert_eq!(
        SyscallHandler::sendto(
            &mut ctx,
            fd,
            PluginPtr::new(300),
            1,
            0,
            PluginPtr::new(200),
            enc.len() as u32,
        ),
        Err(SyscallError::Failed(Errno::EAFNOSUPPORT))
    );
}

#[test]
fn send_on_an_unconnected_stream_is_enotconn() {
    let mut ctx = SyscallContext::new(4096);
    let fd = SyscallHandler::socket(&mut ctx, abi::AF_UNIX, abi::SOCK_STREAM, 0).unwrap() as i32;
    ctx.mem.write(PluginPtr::new(200), &[1u8]).unwrap();
    assert_eq!(
        SyscallHandler::write(&mut ctx, fd, PluginPtr::new(200), 1),
        Err(SyscallError::Failed(Errno::ENOTCONN))
    );
    assert_eq!(
        SyscallHandler::read(&mut ctx, fd, PluginPtr::new(300), 1),
        Err(SyscallError::Failed(Errno::ENOTCONN))
    );
}

#[test]
fn reading_into_a_bad_buffer_is_efault() {
    let mut ctx = SyscallContext::new(512);
    let fd_ptr = PluginPtr::new(100);
    assert_eq!(
        SyscallHandler::socketpair(&mut ctx, abi::AF_UNIX, abi::SOCK_STREAM, 0, fd_ptr),
        Ok(0)
    );
    let bytes = ctx.mem.read(fd_ptr, 8).unwrap();
    let fd1 = i32::from_le_bytes([bytes[0], bytes[1], bytes[2], bytes[3]]);
    assert_eq!(
        SyscallHandler::read(&mut ctx, fd1, PluginPtr::new(100_000), 16),
        Err(SyscallError::Failed(Errno::EFAULT))
    );
    ctx.mem.write(PluginPtr::new(200), &[1u8]).unwrap();
    assert_eq!(
        SyscallHandler::write(&mut ctx, fd1, PluginPtr::new(100_000), 16),
        Err(SyscallError::Failed(Errno::EFAULT))
    );
}

#[test]
fn not_a_socket_outranks_bad_flags() {
    // the kind check comes before flag validation: a pipe with an
    // unsupported defined flag bit is ENOTSOCK, never EOPNOTSUPP
    let mut ctx = SyscallContext::new(4096);
    assert_eq!(SyscallHandler::pipe(&mut ctx, PluginPtr::new(100)), Ok(0));
    let bytes = ctx.mem.read(PluginPtr::new(100), 8).unwrap();
    let rfd = i32::from_le_bytes([bytes[0], bytes[1], bytes[2], bytes[3]]);
    let wfd = i32::from_le_bytes([bytes[4], bytes[5], bytes[6], bytes[7]]);
    ctx.mem.write(PluginPtr::new(200), &[1u8]).unwrap();
    let bad = abi::MSG_OOB;
    assert_eq!(
        SyscallHandler::sendto(&mut ctx, wfd, PluginPtr::new(200), 1, bad, PluginPtr::null(), 0),
        Err(SyscallError::Failed(Errno::ENOTSOCK))
    );
    assert_eq!(
        SyscallHandler::recvfrom(
            &mut ctx,
            rfd,
            PluginPtr::new(300),
            1,
            bad,
            PluginPtr::null(),
            PluginPtr::null(),
        ),
        Err(SyscallError::Failed(Errno::ENOTSOCK))
    );
}

#[test]
fn zero_length_reads_access_no_memory() {
    let mut ctx = SyscallContext::new(4096);
    let fd_ptr = PluginPtr::new(100);
    assert_eq!(
        SyscallHandler::socketpair(&mut ctx, abi::AF_UNIX, abi::SOCK_STREAM, 0, fd_ptr),
        Ok(0)
    );
    let bytes = ctx.mem.read(fd_ptr, 8).unwrap();
    let fd1 = i32::from_le_bytes([bytes[0], bytes[1], bytes[2], bytes[3]]);
    let fd2 = i32::from_le_bytes([bytes[4], bytes[5], bytes[6], bytes[7]]);
    // with bytes pending, a zero-length read at the null pointer
    // reports zero rather than a fault
    ctx.mem.write(PluginPtr::new(200), b"x").unwrap();
    assert_eq!(
        SyscallHandler::write(&mut ctx, fd1, PluginPtr::new(200), 1),
        Ok(1)
    );
    assert_eq!(
        SyscallHandler::read(&mut ctx, fd2, PluginPtr::null(), 0),
        Ok(0)
    );
    // drained and non-blocking per call: the would-block error, not a fault
    assert_eq!(
        SyscallHandler::read(&mut ctx, fd2, PluginPtr::new(300), 1),
        Ok(1)
    );
    assert_eq!(
        SyscallHandler::recvfrom(
            &mut ctx,
            fd2,
            PluginPtr::null(),
            0,
            abi::MSG_DONTWAIT,
            PluginPtr::null(),
            PluginPtr::null(),
        ),
        Err(SyscallError::Failed(Errno::EWOULDBLOCK))
    );
}

#[test]
fn datagram_default_destination_works_via_connect() {
    let mut ctx = SyscallContext::new(4096);
    let recv = SyscallHandler::socket(&mut ctx, abi::AF_UNIX, abi::SOCK_DGRAM, 0).unwrap() as i32;
    let send = SyscallHandler::socket(&mut ctx, abi::AF_UNIX, abi::SOCK_DGRAM, 0).unwrap() as i32;
    let enc = encode_sockaddr(&Sockaddr::Unix { path: b"sink".to_vec() });
    ctx.mem.write(PluginPtr::new(200), &enc).unwrap();
    assert_eq!(
        SyscallHandler::bind(&mut ctx, recv, PluginPtr::new(200), enc.len() as u32),
        Ok(0)
    );
    assert_eq!(
        SyscallHandler::connect(&mut ctx, send, PluginPtr::new(200), enc.len() as u32),
        Ok(0)
    );
    // a plain write now reaches the bound socket
    ctx.mem.write(PluginPtr::new(300), b"dd").unwrap();
    assert_eq!(
        SyscallHandler::write(&mut ctx, send, PluginPtr::new(300), 2),
        Ok(2)
    );
    assert_eq!(
        SyscallHandler::read(&mut ctx, recv, PluginPtr::new(400), 2),
        Ok(2)
    );
    // the sender's peer name is its default destination
    ctx.mem
        .write(PluginPtr::new(500), &64u32.to_le_bytes())
        .unwrap();
    assert_eq!(
        SyscallHandler::getpeername(&mut ctx, send, PluginPtr::new(508), PluginPtr::new(500)),
        Ok(0)
    );
    let reported = ctx.mem.read(PluginPtr::new(508), 5).unwrap();
    assert_eq!(reported, vec![1u8, b's', b'i', b'n', b'k']);
}
