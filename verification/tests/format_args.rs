//! Rendering of system-call arguments.

use fdemu::format::{
    fmt_buffer, fmt_string, FmtOptions, SysCallReg, SyscallBufferArg, SyscallStringArg,
    TryFromSyscallReg,
};
use fdemu::mem::GuestMem;
use fdemu::types::PluginPtr;

#[test]
fn buffers_render_escaped_and_quoted() {
    let bytes = b"AB\n".to_vec();
    let out = fmt_buffer(&bytes, 3, FmtOptions::Standard);
    assert_eq!(out, b"\"AB\\n\"".to_vec());
}

#[test]
fn buffers_longer_than_shown_get_an_ellipsis() {
    // 50 bytes requested, only 50 readable; the display budget is 40
    let bytes = vec![b'a'; 50];
    let out = fmt_buffer(&bytes, 50, FmtOptions::Standard);
    let expected: Vec<u8> = [b'"']
        .iter()
        .copied()
        .chain(std::iter::repeat(b'a').take(40))
        .chain(b"\"...".iter().copied())
        .collect();
    assert_eq!(out, expected);
}

#[test]
fn unreadable_tail_is_marked() {
    // 10 bytes requested but only 4 were readable
    let bytes = b"abcd".to_vec();
    let out = fmt_buffer(&bytes, 10, FmtOptions::Standard);
    assert_eq!(out, b"\"abcd\"...".to_vec());
}

#[test]
fn control_bytes_become_hex_escapes() {
    let bytes = vec![0x01u8, 0xffu8];
    let out = fmt_buffer(&bytes, 2, FmtOptions::Standard);
    assert_eq!(out, b"\"\\x01\\xff\"".to_vec());
}

#[test]
fn deterministic_mode_hides_data() {
    let bytes = b"secret".to_vec();
    assert_eq!(
        fmt_buffer(&bytes, 6, FmtOptions::Deterministic),
        b"<pointer>".to_vec()
    );
    assert_eq!(
        fmt_string(&bytes, FmtOptions::Deterministic),
        b"<pointer>".to_vec()
    );
}

#[test]
fn strings_stop_at_the_terminator() {
    let bytes = b"hi\0trailing".to_vec();
    let out = fmt_string(&bytes, FmtOptions::Standard);
    assert_eq!(out, b"\"hi\"".to_vec());
}

#[test]
fn unterminated_strings_get_an_ellipsis() {
    let bytes = b"no end".to_vec();
    let out = fmt_string(&bytes, FmtOptions::Standard);
    assert_eq!(out, b"\"no end\"...".to_vec());
}

#[test]
fn registers_convert_when_they_fit() {
    assert_eq!(u64::try_from_reg(SysCallReg { val: 7 }), Some(7));
    assert_eq!(i32::try_from_reg(SysCallReg { val: 41 }), Some(41));
    assert_eq!(i32::try_from_reg(SysCallReg { val: u64::MAX }), None);
    assert_eq!(u32::try_from_reg(SysCallReg { val: 1 << 40 }), None);
    assert_eq!(usize::try_from_reg(SysCallReg { val: 12 }), Some(12));
}

#[test]
fn buffer_argument_reads_guest_memory() {
    let mut mem = GuestMem::new(256);
    mem.write(PluginPtr::new(32), b"xyz").unwrap();
    let args = vec![SysCallReg { val: 0 }, SysCallReg { val: 0 }, SysCallReg { val: 3 }];
    let out = SyscallBufferArg::<2>::format(
        SysCallReg { val: 32 },
        &args,
        FmtOptions::Standard,
        &mem,
    );
    assert_eq!(out, b"\"xyz\"".to_vec());
}

#[test]
fn string_argument_reads_guest_memory() {
    let mut mem = GuestMem::new(256);
    mem.write(PluginPtr::new(32), b"word\0").unwrap();
    let out = SyscallStringArg::format(SysCallReg { val: 32 }, FmtOptions::Standard, &mem);
    assert_eq!(out, b"\"word\"".to_vec());
}

#[test]
fn unreadable_pointer_argument_renders_numerically() {
    // an unreadable pointer prints its value, as an address does; only
    // deterministic mode hides it behind the placeholder
    let mem = GuestMem::new(64);
    let out = SyscallStringArg::format(SysCallReg { val: 0 }, FmtOptions::Standard, &mem);
    assert_eq!(out, b"0x0".to_vec());
    let out = SyscallStringArg::format(SysCallReg { val: 0x2af }, FmtOptions::Standard, &mem);
    assert_eq!(out, b"0x2af".to_vec());
    let out = SyscallStringArg::format(SysCallReg { val: 0x2af }, FmtOptions::Deterministic, &mem);
    assert_eq!(out, b"<pointer>".to_vec());
}
