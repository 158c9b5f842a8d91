//! The library's ABI constants against the values libc and nix publish.

use fdemu::abi;
use fdemu::Errno;

#[test]
fn domain_and_type_constants_match_libc() {
    assert_eq!(abi::AF_UNIX, libc::AF_UNIX);
    assert_eq!(abi::AF_INET, libc::AF_INET);
    assert_eq!(abi::SOCK_STREAM, libc::SOCK_STREAM);
    assert_eq!(abi::SOCK_DGRAM, libc::SOCK_DGRAM);
    assert_eq!(abi::SOCK_SEQPACKET, libc::SOCK_SEQPACKET);
    assert_eq!(abi::SOCK_NONBLOCK, libc::SOCK_NONBLOCK);
    assert_eq!(abi::SOCK_CLOEXEC, libc::SOCK_CLOEXEC);
    assert_eq!(abi::IPPROTO_TCP, libc::IPPROTO_TCP);
}

#[test]
fn open_flag_constants_match_libc() {
    assert_eq!(abi::O_NONBLOCK, libc::O_NONBLOCK);
    assert_eq!(abi::O_DIRECT, libc::O_DIRECT);
    assert_eq!(abi::O_CLOEXEC, libc::O_CLOEXEC);
}

#[test]
fn message_flag_constants_match_libc() {
    assert_eq!(abi::MSG_OOB, libc::MSG_OOB);
    assert_eq!(abi::MSG_PEEK, libc::MSG_PEEK);
    assert_eq!(abi::MSG_DONTWAIT, libc::MSG_DONTWAIT);
    assert_eq!(abi::MSG_NOSIGNAL, libc::MSG_NOSIGNAL);
    assert_eq!(abi::MSG_SUPPORTED, libc::MSG_DONTWAIT | libc::MSG_NOSIGNAL);
}

#[test]
fn message_flag_mask_matches_nix() {
    // every flag nix defines on this platform lies inside the mask
    let all = nix::sys::socket::MsgFlags::all().bits();
    assert_eq!(all & !abi::MSG_DEFINED_MASK, 0);
    assert_eq!(
        nix::sys::socket::MsgFlags::MSG_DONTWAIT.bits(),
        abi::MSG_DONTWAIT
    );
    // the mask holds exactly the Linux MSG_* values the kernel defines
    let expected = libc::MSG_OOB
        | libc::MSG_PEEK
        | libc::MSG_DONTWAIT
        | libc::MSG_CTRUNC
        | libc::MSG_TRUNC
        | libc::MSG_EOR
        | libc::MSG_WAITALL
        | libc::MSG_ERRQUEUE
        | libc::MSG_NOSIGNAL
        | libc::MSG_WAITFORONE
        | 0x8000  // MSG_NOTIFICATION
        | libc::MSG_CMSG_CLOEXEC;
    assert_eq!(abi::MSG_DEFINED_MASK, expected);
}

#[test]
fn shutdown_constants_match_libc() {
    assert_eq!(abi::SHUT_RD, libc::SHUT_RD);
    assert_eq!(abi::SHUT_WR, libc::SHUT_WR);
    assert_eq!(abi::SHUT_RDWR, libc::SHUT_RDWR);
}

#[test]
fn socket_option_constants_match_libc() {
    assert_eq!(abi::SOL_SOCKET, libc::SOL_SOCKET);
    assert_eq!(abi::SO_TYPE, libc::SO_TYPE);
    assert_eq!(abi::SO_ERROR, libc::SO_ERROR);
    assert_eq!(abi::SO_SNDBUF, libc::SO_SNDBUF);
    assert_eq!(abi::SO_RCVBUF, libc::SO_RCVBUF);
    assert_eq!(abi::SO_DOMAIN, libc::SO_DOMAIN);
}

#[test]
fn errno_values_match_libc() {
    assert_eq!(Errno::EINTR.to_raw(), libc::EINTR);
    assert_eq!(Errno::EBADF.to_raw(), libc::EBADF);
    assert_eq!(Errno::EWOULDBLOCK.to_raw(), libc::EWOULDBLOCK);
    assert_eq!(Errno::EWOULDBLOCK.to_raw(), libc::EAGAIN);
    assert_eq!(Errno::EFAULT.to_raw(), libc::EFAULT);
    assert_eq!(Errno::EINVAL.to_raw(), libc::EINVAL);
    assert_eq!(Errno::ENFILE.to_raw(), libc::ENFILE);
    assert_eq!(Errno::ESPIPE.to_raw(), libc::ESPIPE);
    assert_eq!(Errno::EPIPE.to_raw(), libc::EPIPE);
    assert_eq!(Errno::ENOTSOCK.to_raw(), libc::ENOTSOCK);
    assert_eq!(Errno::ENOPROTOOPT.to_raw(), libc::ENOPROTOOPT);
    assert_eq!(Errno::EPROTONOSUPPORT.to_raw(), libc::EPROTONOSUPPORT);
    assert_eq!(Errno::EOPNOTSUPP.to_raw(), libc::EOPNOTSUPP);
    assert_eq!(Errno::EAFNOSUPPORT.to_raw(), libc::EAFNOSUPPORT);
    assert_eq!(Errno::EADDRINUSE.to_raw(), libc::EADDRINUSE);
    assert_eq!(Errno::EISCONN.to_raw(), libc::EISCONN);
    assert_eq!(Errno::ENOTCONN.to_raw(), libc::ENOTCONN);
    assert_eq!(Errno::ECONNREFUSED.to_raw(), libc::ECONNREFUSED);
}

#[test]
fn errno_values_match_nix() {
    assert_eq!(Errno::EBADF.to_raw(), nix::errno::Errno::EBADF as i32);
    assert_eq!(Errno::EWOULDBLOCK.to_raw(), nix::errno::Errno::EWOULDBLOCK as i32);
    assert_eq!(Errno::EOPNOTSUPP.to_raw(), nix::errno::Errno::EOPNOTSUPP as i32);
    assert_eq!(
        Errno::EPROTONOSUPPORT.to_raw(),
        nix::errno::Errno::EPROTONOSUPPORT as i32
    );
}
