//! Bind, listen, connect, accept, shutdown, addresses and options over
//! the abstract namespace.

use fdemu::abi;
use fdemu::context::SyscallContext;
use fdemu::handler::SyscallHandler;
use fdemu::mem::encode_sockaddr;
use fdemu::types::{PluginPtr, Sockaddr, SyscallError};
use fdemu::Errno;

/// Writes an encoded unix address into guest memory and returns its
/// pointer and length.
fn put_addr(ctx: &mut SyscallContext, at: usize, path: &[u8]) -> (PluginPtr, u32) {
    let enc = encode_sockaddr(&Sockaddr::Unix { path: path.to_vec() });
    ctx.mem.write(PluginPtr::new(at), &enc).unwrap();
    (PluginPtr::new(at), enc.len() as u32)
}

/// Prepares, at `at`, the address-out argument pair used by calls that
/// report an address: a data buffer and a 4-byte length cell.
fn addr_out(ctx: &mut SyscallContext, at: usize, cap: u32) -> (PluginPtr, PluginPtr) {
    ctx.mem
        .write(PluginPtr::new(at), &cap.to_le_bytes())
        .unwrap();
    (PluginPtr::new(at + 8), PluginPtr::new(at))
}

fn stream_socket(ctx: &mut SyscallContext) -> i32 {
    SyscallHandler::socket(ctx, abi::AF_UNIX, abi::SOCK_STREAM, 0).unwrap() as i32
}

#[test]
fn getsockname_truncates_and_reports_the_full_length() {
    let mut ctx = SyscallContext::new(8192);
    let s = stream_socket(&mut ctx);
    let (aptr, alen) = put_addr(&mut ctx, 200, b"longname");
    assert_eq!(SyscallHandler::bind(&mut ctx, s, aptr, alen), Ok(0));
    // a 3-byte buffer receives only the first 3 encoded bytes, but the
    // length cell reports the full encoding (tag byte plus the name)
    let (out_addr, out_len) = addr_out(&mut ctx, 400, 3);
    ctx.mem.write(out_addr, &[0u8; 9]).unwrap();
    assert_eq!(SyscallHandler::getsockname(&mut ctx, s, out_addr, out_len), Ok(0));
    let reported = ctx.mem.read(out_len, 4).unwrap();
    assert_eq!(u32::from_le_bytes([reported[0], reported[1], reported[2], reported[3]]), 9);
    let data = ctx.mem.read(out_addr, 4).unwrap();
    assert_eq!(&data[0..3], &[1u8, b'l', b'o']);
    // the fourth byte lies past the guest's buffer and stays untouched
    assert_eq!(data[3], 0);
}

#[test]
fn bind_listen_connect_accept_transfers_data() {
    let mut ctx = SyscallContext::new(8192);
    let server = stream_socket(&mut ctx);
    let client = stream_socket(&mut ctx);

    let (aptr, alen) = put_addr(&mut ctx, 200, b"srv");
    assert_eq!(SyscallHandler::bind(&mut ctx, server, aptr, alen), Ok(0));
    assert_eq!(SyscallHandler::listen(&mut ctx, server, 8), Ok(0));
    assert_eq!(SyscallHandler::connect(&mut ctx, client, aptr, alen), Ok(0));

    let (out_addr, out_len) = addr_out(&mut ctx, 400, 64);
    let accepted = SyscallHandler::accept(&mut ctx, server, out_addr, out_len).unwrap() as i32;

    // data flows client -> accepted socket
    ctx.mem.write(PluginPtr::new(600), b"ping").unwrap();
    assert_eq!(
        SyscallHandler::write(&mut ctx, client, PluginPtr::new(600), 4),
        Ok(4)
    );
    assert_eq!(
        SyscallHandler::read(&mut ctx, accepted, PluginPtr::new(700), 4),
        Ok(4)
    );
    assert_eq!(ctx.mem.read(PluginPtr::new(700), 4).unwrap(), b"ping".to_vec());

    // and back
    ctx.mem.write(PluginPtr::new(600), b"pong").unwrap();
    assert_eq!(
        SyscallHandler::write(&mut ctx, accepted, PluginPtr::new(600), 4),
        Ok(4)
    );
    assert_eq!(
        SyscallHandler::read(&mut ctx, client, PluginPtr::new(700), 4),
        Ok(4)
    );
}

#[test]
fn bind_twice_is_einval_and_name_conflict_is_eaddrinuse() {
    let mut ctx = SyscallContext::new(8192);
    let a = stream_socket(&mut ctx);
    let b = stream_socket(&mut ctx);
    let (aptr, alen) = put_addr(&mut ctx, 200, b"one");
    assert_eq!(SyscallHandler::bind(&mut ctx, a, aptr, alen), Ok(0));
    assert_eq!(
        SyscallHandler::bind(&mut ctx, a, aptr, alen),
        Err(SyscallError::Failed(Errno::EINVAL))
    );
    assert_eq!(
        SyscallHandler::bind(&mut ctx, b, aptr, alen),
        Err(SyscallError::Failed(Errno::EADDRINUSE))
    );
    // once the owner closes, the name is free again
    assert_eq!(SyscallHandler::close(&mut ctx, a), Ok(0));
    assert_eq!(SyscallHandler::bind(&mut ctx, b, aptr, alen), Ok(0));
}

#[test]
fn connect_to_missing_name_is_econnrefused() {
    let mut ctx = SyscallContext::new(8192);
    let c = stream_socket(&mut ctx);
    let (aptr, alen) = put_addr(&mut ctx, 200, b"nobody");
    assert_eq!(
        SyscallHandler::connect(&mut ctx, c, aptr, alen),
        Err(SyscallError::Failed(Errno::ECONNREFUSED))
    );
}

#[test]
fn connect_twice_is_eisconn() {
    let mut ctx = SyscallContext::new(8192);
    let server = stream_socket(&mut ctx);
    let client = stream_socket(&mut ctx);
    let (aptr, alen) = put_addr(&mut ctx, 200, b"srv2");
    assert_eq!(SyscallHandler::bind(&mut ctx, server, aptr, alen), Ok(0));
    assert_eq!(SyscallHandler::listen(&mut ctx, server, 4), Ok(0));
    assert_eq!(SyscallHandler::connect(&mut ctx, client, aptr, alen), Ok(0));
    assert_eq!(
        SyscallHandler::connect(&mut ctx, client, aptr, alen),
        Err(SyscallError::Failed(Errno::EISCONN))
    );
}

#[test]
fn listen_needs_a_bound_stream_socket() {
    let mut ctx = SyscallContext::new(8192);
    let s = stream_socket(&mut ctx);
    // unbound: refused
    assert_eq!(
        SyscallHandler::listen(&mut ctx, s, 4),
        Err(SyscallError::Failed(Errno::EINVAL))
    );
    let d = SyscallHandler::socket(&mut ctx, abi::AF_UNIX, abi::SOCK_DGRAM, 0).unwrap() as i32;
    assert_eq!(
        SyscallHandler::listen(&mut ctx, d, 4),
        Err(SyscallError::Failed(Errno::EOPNOTSUPP))
    );
}

#[test]
fn accept_without_listen_is_einval() {
    let mut ctx = SyscallContext::new(8192);
    let s = stream_socket(&mut ctx);
    assert_eq!(
        SyscallHandler::accept(&mut ctx, s, PluginPtr::null(), PluginPtr::null()),
        Err(SyscallError::Failed(Errno::EINVAL))
    );
}

#[test]
fn accept_with_empty_queue_blocks_or_errors() {
    let mut ctx = SyscallContext::new(8192);
    let server = SyscallHandler::socket(
        &mut ctx,
        abi::AF_UNIX,
        abi::SOCK_STREAM | abi::SOCK_NONBLOCK,
        0,
    )
    .unwrap() as i32;
    let (aptr, alen) = put_addr(&mut ctx, 200, b"srv3");
    assert_eq!(SyscallHandler::bind(&mut ctx, server, aptr, alen), Ok(0));
    assert_eq!(SyscallHandler::listen(&mut ctx, server, 4), Ok(0));
    // non-blocking: a bare error
    assert_eq!(
        SyscallHandler::accept(&mut ctx, server, PluginPtr::null(), PluginPtr::null()),
        Err(SyscallError::Failed(Errno::EWOULDBLOCK))
    );
}

#[test]
fn getsockname_and_getpeername_report_addresses() {
    let mut ctx = SyscallContext::new(8192);
    let server = stream_socket(&mut ctx);
    let client = stream_socket(&mut ctx);
    let (aptr, alen) = put_addr(&mut ctx, 200, b"who");
    assert_eq!(SyscallHandler::bind(&mut ctx, server, aptr, alen), Ok(0));
    assert_eq!(SyscallHandler::listen(&mut ctx, server, 4), Ok(0));
    assert_eq!(SyscallHandler::connect(&mut ctx, client, aptr, alen), Ok(0));

    // null pointers fault before anything else
    assert_eq!(
        SyscallHandler::getsockname(&mut ctx, server, PluginPtr::null(), PluginPtr::new(400)),
        Err(SyscallError::Failed(Errno::EFAULT))
    );
    assert_eq!(
        SyscallHandler::getpeername(&mut ctx, client, PluginPtr::new(400), PluginPtr::null()),
        Err(SyscallError::Failed(Errno::EFAULT))
    );

    // the server reports its bound name
    let (out_addr, out_len) = addr_out(&mut ctx, 400, 64);
    assert_eq!(
        SyscallHandler::getsockname(&mut ctx, server, out_addr, out_len),
        Ok(0)
    );
    let reported = ctx.mem.read(out_addr, 4).unwrap();
    // tag byte then the path
    assert_eq!(reported, vec![1u8, b'w', b'h', b'o']);

    // the client's peer is the name it connected to
    let (out_addr2, out_len2) = addr_out(&mut ctx, 500, 64);
    assert_eq!(
        SyscallHandler::getpeername(&mut ctx, client, out_addr2, out_len2),
        Ok(0)
    );
    let reported2 = ctx.mem.read(out_addr2, 4).unwrap();
    assert_eq!(reported2, vec![1u8, b'w', b'h', b'o']);

    // a never-connected socket has no peer
    let lonely = stream_socket(&mut ctx);
    let (out_addr3, out_len3) = addr_out(&mut ctx, 600, 64);
    assert_eq!(
        SyscallHandler::getpeername(&mut ctx, lonely, out_addr3, out_len3),
        Err(SyscallError::Failed(Errno::ENOTCONN))
    );
}

#[test]
fn shutdown_write_gives_peer_eof() {
    let mut ctx = SyscallContext::new(8192);
    let fd_ptr = PluginPtr::new(100);
    assert_eq!(
        SyscallHandler::socketpair(&mut ctx, abi::AF_UNIX, abi::SOCK_STREAM, 0, fd_ptr),
        Ok(0)
    );
    let bytes = ctx.mem.read(fd_ptr, 8).unwrap();
    let fd1 = i32::from_le_bytes([bytes[0], bytes[1], bytes[2], bytes[3]]);
    let fd2 = i32::from_le_bytes([bytes[4], bytes[5], bytes[6], bytes[7]]);

    assert_eq!(
        SyscallHandler::shutdown(&mut ctx, fd1, 99),
        Err(SyscallError::Failed(Errno::EINVAL))
    );
    assert_eq!(SyscallHandler::shutdown(&mut ctx, fd1, abi::SHUT_WR), Ok(0));
    // the peer reads end-of-stream
    assert_eq!(
        SyscallHandler::read(&mut ctx, fd2, PluginPtr::new(300), 4),
        Ok(0)
    );
    // and the shut side can no longer send
    ctx.mem.write(PluginPtr::new(200), &[1u8]).unwrap();
    assert_eq!(
        SyscallHandler::write(&mut ctx, fd1, PluginPtr::new(200), 1),
        Err(SyscallError::Failed(Errno::EPIPE))
    );
}

#[test]
fn socket_options_round_trip() {
    let mut ctx = SyscallContext::new(8192);
    let s = stream_socket(&mut ctx);
    // SO_TYPE through guest memory
    ctx.mem
        .write(PluginPtr::new(400), &4u32.to_le_bytes())
        .unwrap();
    assert_eq!(
        SyscallHandler::getsockopt(
            &mut ctx,
            s,
            abi::SOL_SOCKET,
            abi::SO_TYPE,
            PluginPtr::new(500),
            PluginPtr::new(400),
        ),
        Ok(0)
    );
    let v = ctx.mem.read(PluginPtr::new(500), 4).unwrap();
    assert_eq!(i32::from_le_bytes([v[0], v[1], v[2], v[3]]), abi::SOCK_STREAM);

    // an unknown option name
    assert_eq!(
        SyscallHandler::getsockopt(
            &mut ctx,
            s,
            abi::SOL_SOCKET,
            9999,
            PluginPtr::new(500),
            PluginPtr::new(400),
        ),
        Err(SyscallError::Failed(Errno::ENOPROTOOPT))
    );

    // shrink the receive buffer, read it back
    ctx.mem
        .write(PluginPtr::new(600), &1024i32.to_le_bytes())
        .unwrap();
    assert_eq!(
        SyscallHandler::setsockopt(
            &mut ctx,
            s,
            abi::SOL_SOCKET,
            abi::SO_RCVBUF,
            PluginPtr::new(600),
            4,
        ),
        Ok(0)
    );
    ctx.mem
        .write(PluginPtr::new(400), &4u32.to_le_bytes())
        .unwrap();
    assert_eq!(
        SyscallHandler::getsockopt(
            &mut ctx,
            s,
            abi::SOL_SOCKET,
            abi::SO_RCVBUF,
            PluginPtr::new(500),
            PluginPtr::new(400),
        ),
        Ok(0)
    );
    let v2 = ctx.mem.read(PluginPtr::new(500), 4).unwrap();
    assert_eq!(i32::from_le_bytes([v2[0], v2[1], v2[2], v2[3]]), 1024);
}

#[test]
fn datagram_sockets_deliver_by_name() {
    let mut ctx = SyscallContext::new(8192);
    let recv = SyscallHandler::socket(&mut ctx, abi::AF_UNIX, abi::SOCK_DGRAM, 0).unwrap() as i32;
    let send = SyscallHandler::socket(&mut ctx, abi::AF_UNIX, abi::SOCK_DGRAM, 0).unwrap() as i32;
    let (aptr, alen) = put_addr(&mut ctx, 200, b"dg");
    assert_eq!(SyscallHandler::bind(&mut ctx, recv, aptr, alen), Ok(0));
    ctx.mem.write(PluginPtr::new(600), b"datagram").unwrap();
    assert_eq!(
        SyscallHandler::sendto(&mut ctx, send, PluginPtr::new(600), 8, 0, aptr, alen),
        Ok(8)
    );
    assert_eq!(
        SyscallHandler::recvfrom(
            &mut ctx,
            recv,
            PluginPtr::new(700),
            8,
            0,
            PluginPtr::null(),
            PluginPtr::null(),
        ),
        Ok(8)
    );
    assert_eq!(
        ctx.mem.read(PluginPtr::new(700), 8).unwrap(),
        b"datagram".to_vec()
    );
}

#[test]
fn sendto_with_address_on_connected_stream_is_eisconn() {
    let mut ctx = SyscallContext::new(8192);
    let fd_ptr = PluginPtr::new(100);
    assert_eq!(
        SyscallHandler::socketpair(&mut ctx, abi::AF_UNIX, abi::SOCK_STREAM, 0, fd_ptr),
        Ok(0)
    );
    let bytes = ctx.mem.read(fd_ptr, 8).unwrap();
    let fd1 = i32::from_le_bytes([bytes[0], bytes[1], bytes[2], bytes[3]]);
    let (aptr, alen) = put_addr(&mut ctx, 200, b"x");
    ctx.mem.write(PluginPtr::new(600), &[1u8]).unwrap();
    assert_eq!(
        SyscallHandler::sendto(&mut ctx, fd1, PluginPtr::new(600), 1, 0, aptr, alen),
        Err(SyscallError::Failed(Errno::EISCONN))
    );
}

#[test]
fn accept4_applies_nonblock_and_cloexec() {
    let mut ctx = SyscallContext::new(8192);
    let server = stream_socket(&mut ctx);
    let client = stream_socket(&mut ctx);
    let (aptr, alen) = put_addr(&mut ctx, 200, b"a4");
    assert_eq!(SyscallHandler::bind(&mut ctx, server, aptr, alen), Ok(0));
    assert_eq!(SyscallHandler::listen(&mut ctx, server, 4), Ok(0));
    assert_eq!(SyscallHandler::connect(&mut ctx, client, aptr, alen), Ok(0));
    let accepted = SyscallHandler::accept4(
        &mut ctx,
        server,
        PluginPtr::null(),
        PluginPtr::null(),
        abi::SOCK_NONBLOCK | abi::SOCK_CLOEXEC,
    )
    .unwrap() as i32;
    let desc = ctx.descriptors.slots[accepted as usize].as_ref().unwrap();
    assert!(desc.flags.cloexec);
    // the new socket is non-blocking: an empty read errors instead of
    // suspending
    assert_eq!(
        SyscallHandler::read(&mut ctx, accepted, PluginPtr::new(700), 4),
        Err(SyscallError::Failed(Errno::EWOULDBLOCK))
    );
}

#[test]
fn connect_blocks_on_a_full_backlog_and_holds_its_file() {
    let mut ctx = SyscallContext::new(8192);
    let server = stream_socket(&mut ctx);
    let c1 = stream_socket(&mut ctx);
    let c2 = stream_socket(&mut ctx);
    let (aptr, alen) = put_addr(&mut ctx, 200, b"full");
    assert_eq!(SyscallHandler::bind(&mut ctx, server, aptr, alen), Ok(0));
    assert_eq!(SyscallHandler::listen(&mut ctx, server, 1), Ok(0));
    assert_eq!(SyscallHandler::connect(&mut ctx, c1, aptr, alen), Ok(0));
    // the queue is full now: the next connect suspends, holding its file
    let r = SyscallHandler::connect(&mut ctx, c2, aptr, alen);
    match r {
        Err(SyscallError::Blocked(_)) => {}
        other => panic!("expected a suspended connect, got {:?}", other),
    }
    match &ctx.condition {
        Some(c) => assert!(c.active_file.is_some()),
        None => panic!("the blocked connect must retain its condition"),
    }
}

#[test]
fn shutdown_write_queues_a_readable_event_for_the_peer() {
    let mut ctx = SyscallContext::new(8192);
    let fd_ptr = PluginPtr::new(100);
    assert_eq!(
        SyscallHandler::socketpair(&mut ctx, abi::AF_UNIX, abi::SOCK_STREAM, 0, fd_ptr),
        Ok(0)
    );
    let bytes = ctx.mem.read(fd_ptr, 8).unwrap();
    let fd1 = i32::from_le_bytes([bytes[0], bytes[1], bytes[2], bytes[3]]);
    let before = ctx.events.len();
    assert_eq!(SyscallHandler::shutdown(&mut ctx, fd1, abi::SHUT_WR), Ok(0));
    // the peer learned that end-of-stream is pending
    assert!(ctx.events.len() > before);
    assert!(ctx.events[ctx.events.len() - 1].state.readable);
}
